# minicoding

The logic of a coding assistant for the terminal, written and proved in Verus:
the tools an agent calls (files, commands, git, the web, tasks, plans, memory,
skills, agents in working trees of their own) and the interface that shows a
conversation.

- `src/` is the verified library. Each function states what it returns; the
  laws that relate several functions are public proof functions beside them.
- `tests/` runs the library on concrete values.
- `app/` is the program around it: the terminal, the file system, processes,
  the network and JSON.

## Modules

| module | what it holds |
| --- | --- |
| `text`, `patterns`, `path`, `ids`, `util` | text, regular expressions and globs, paths, identifiers, cut output |
| `tool` | results, errors and side effects of tools |
| `fs` | reading, writing, editing, listing and searching files |
| `shell` | commands in the foreground and background, and hiding secrets |
| `git` | patches that stay in the working directory, differences |
| `web` | which addresses may be reached, redirects, pages, search results |
| `task` | tasks, their dependencies and their tools, sending out agents |
| `agent`, `worktree` | agents and working trees of their own |
| `plan`, `memory`, `ui`, `skills` | plan mode, memory, questions, skills |
| `tui` | input line, keys, events, Markdown, panels, commands |
| `arithmetic` | sums |

Where the library calls an outside crate, the call stands in a small trusted
function whose contract says what is believed of it.
