//! Memory that outlives a conversation.

use vstd::prelude::*;
use vstd::string::*;
use vstd::utf8::*;
use crate::text::chars::{
    byte_len, from_chars, lemma_byte_len_is_encoding, str_byte_len, sub_chars, to_chars,
};
use crate::text::number::{decimal, show_usize};
use crate::text::split::opt_view;
use crate::tool::{text_result, SideEffect, ToolError, ToolErrorView, ToolResult};

verus! {

/// Where something is to be remembered.
#[derive(Debug, Clone, Copy, PartialEq, Eq, Structural)]
pub enum MemoryWriteTarget {
    /// What the user wrote, replaced as a whole.
    LongTerm,
    /// What was learnt, entry by entry.
    Auto,
}

/// What an entry is about.
#[derive(Debug, Clone, Copy, PartialEq, Eq, Structural)]
pub enum MemoryCategory {
    /// The user corrected a mistake.
    Correction,
    /// A mistake made again and again.
    Pitfall,
    /// What the user prefers.
    Pref,
    /// A decision about the project.
    Decision,
}

/// An entry. How sure it is stands elsewhere, under the same index.
#[derive(Debug)]
pub struct MemoryEntry {
    pub topic: String,
    pub content: String,
    pub category: MemoryCategory,
    /// The file it was learnt from.
    pub source: Option<String>,
}

/// An entry with its texts as sequences.
#[verifier::ext_equal]
pub struct EntryView {
    pub topic: Seq<char>,
    pub content: Seq<char>,
    pub category: MemoryCategory,
    pub source: Option<Seq<char>>,
}

impl View for MemoryEntry {
    type V = EntryView;

    open spec fn view(&self) -> EntryView {
        EntryView {
            topic: self.topic@,
            content: self.content@,
            category: self.category,
            source: opt_view(self.source),
        }
    }
}

/// The entries of a list.
pub open spec fn entry_views(v: Seq<MemoryEntry>) -> Seq<EntryView> {
    Seq::new(v.len(), |i: int| v[i]@)
}

/// The place of the first entry on a topic.
pub open spec fn topic_at(entries: Seq<EntryView>, topic: Seq<char>) -> Option<int>
    decreases entries.len(),
{
    if entries.len() == 0 {
        None
    } else {
        match topic_at(entries.drop_last(), topic) {
            Some(i) => Some(i),
            None => if entries.last().topic == topic {
                Some(entries.len() - 1)
            } else {
                None
            },
        }
    }
}

/// `topic_at` finds the first entry on the topic, if there is one.
pub proof fn lemma_topic_at(entries: Seq<EntryView>, topic: Seq<char>)
    ensures
        match topic_at(entries, topic) {
            Some(i) => 0 <= i < entries.len() && entries[i].topic == topic && forall|j: int|
                0 <= j < i ==> (#[trigger] entries[j]).topic != topic,
            None => forall|j: int|
                0 <= j < entries.len() ==> (#[trigger] entries[j]).topic != topic,
        },
    decreases entries.len(),
{
    if entries.len() > 0 {
        let init = entries.drop_last();
        lemma_topic_at(init, topic);
        assert forall|j: int| 0 <= j < init.len() implies #[trigger] entries[j] == init[j] by {}
    }
}

/// The entries after one more was learnt. On a topic that is known the entry
/// gets the new content and source and keeps its category.
pub open spec fn learnt(entries: Seq<EntryView>, e: EntryView) -> Seq<EntryView> {
    match topic_at(entries, e.topic) {
        Some(i) => entries.update(
            i,
            EntryView { content: e.content, source: e.source, ..entries[i] },
        ),
        None => entries.push(e),
    }
}

/// No topic has two entries.
pub open spec fn one_per_topic(entries: Seq<EntryView>) -> bool {
    forall|i: int, j: int|
        0 <= i < j < entries.len() ==> entries[i].topic != entries[j].topic
}

/// Learning never leaves two entries on one topic.
pub proof fn learning_keeps_topics_apart(entries: Seq<EntryView>, e: EntryView)
    requires
        one_per_topic(entries),
    ensures
        one_per_topic(learnt(entries, e)),
        topic_at(learnt(entries, e), e.topic) is Some,
        learnt(entries, e)[topic_at(learnt(entries, e), e.topic)->0].content == e.content,
{
    lemma_topic_at(entries, e.topic);
    let after = learnt(entries, e);
    lemma_topic_at(after, e.topic);
    match topic_at(entries, e.topic) {
        Some(i) => {
            assert(after[i].topic == e.topic);
            let k = topic_at(after, e.topic);
            assert(k is Some);
            if k->0 < i {
                assert(after[k->0] == entries[k->0]);
            }
            assert(k == Some(i));
        },
        None => {
            let n = entries.len() as int;
            assert(after[n].topic == e.topic);
            let k = topic_at(after, e.topic);
            assert(k is Some);
            if k->0 < n {
                assert(after[k->0] == entries[k->0]);
            }
        },
    }
}

/// What was learnt, kept in memory.
#[derive(Debug)]
pub struct InMemoryAutoMemory {
    entries: Vec<MemoryEntry>,
}

impl View for InMemoryAutoMemory {
    type V = Seq<EntryView>;

    closed spec fn view(&self) -> Seq<EntryView> {
        entry_views(self.entries@)
    }
}

impl Default for InMemoryAutoMemory {
    fn default() -> (r: Self)
        ensures
            r@ == Seq::<EntryView>::empty(),
    {
        InMemoryAutoMemory::new()
    }
}

impl InMemoryAutoMemory {
    /// Nothing was learnt.
    pub fn new() -> (r: Self)
        ensures
            r@ == Seq::<EntryView>::empty(),
    {
        let r = InMemoryAutoMemory { entries: Vec::new() };
        assert(r@ == Seq::<EntryView>::empty());
        r
    }

    /// What was learnt, the oldest first.
    pub fn entries(&self) -> (r: &Vec<MemoryEntry>)
        ensures
            entry_views(r@) == self@,
    {
        &self.entries
    }

    /// Learns an entry. The number of entries is returned, the place of this
    /// one, and whether its topic is new.
    pub fn add_entry(
        &mut self,
        topic: String,
        content: String,
        category: MemoryCategory,
        source: Option<String>,
    ) -> (r: (usize, usize, bool))
        ensures
            ({
                let e = EntryView {
                    topic: topic@,
                    content: content@,
                    category,
                    source: opt_view(source),
                };
                &&& final(self)@ == learnt(old(self)@, e)
                &&& r.0 == final(self)@.len()
                &&& match topic_at(old(self)@, topic@) {
                    Some(i) => r.1 == i && !r.2,
                    None => r.1 == old(self)@.len() && r.2,
                }
            }),
    {
        let ghost before = self@;
        proof {
            lemma_topic_at(before, topic@);
        }
        let mut i: usize = 0;
        while i < self.entries.len()
            invariant
                i <= self.entries@.len(),
                before == self@,
                before == old(self)@,
                forall|j: int| 0 <= j < i ==> (#[trigger] before[j]).topic != topic@,
            decreases self.entries@.len() - i,
        {
            assert(before[i as int] == self.entries@[i as int]@);
            if self.entries[i].topic == topic {
                proof {
                    lemma_topic_at(before, topic@);
                }
                let ghost cv = content@;
                let ghost sv = opt_view(source);
                let kept = MemoryEntry {
                    topic,
                    content,
                    category: self.entries[i].category,
                    source,
                };
                self.entries.set(i, kept);
                assert(self@ == before.update(
                    i as int,
                    EntryView { content: cv, source: sv, ..before[i as int] },
                ));
                return (self.entries.len(), i, false);
            }
            i = i + 1;
        }
        let e = MemoryEntry { topic, content, category, source };
        let ghost ev = e@;
        self.entries.push(e);
        assert(self@ == before.push(ev));
        (self.entries.len(), self.entries.len() - 1, true)
    }
}

/// The topic of an entry that was given none: the beginning of its content.
pub open spec fn default_topic(content: Seq<char>) -> Seq<char> {
    if content.len() <= 20 {
        content
    } else {
        content.take(20)
    }
}

/// The `memory.write` tool.
#[derive(Debug, Clone, Copy, Default)]
pub struct MemoryWrite {}

impl MemoryWrite {
    pub fn new() -> Self {
        MemoryWrite {  }
    }

    pub fn name(&self) -> (r: &'static str)
        ensures
            r@ == "memory.write"@,
    {
        "memory.write"
    }

    pub fn side_effect(&self) -> (r: SideEffect)
        ensures
            r == SideEffect::FileWrite,
    {
        SideEffect::FileWrite
    }

    /// What the caller is told after long-term memory was replaced, or could
    /// not be.
    pub fn long_term_result(&self, content: &str, saved: Result<(), String>) -> (r: Result<
        ToolResult,
        ToolError,
    >)
        ensures
            match saved {
                Ok(()) => r is Ok && r->Ok_0@ == text_result(
                    "long_term memory updated ("@ + decimal(byte_len(content@)) + " bytes)"@,
                    false,
                ),
                Err(e) => r is Err && r->Err_0@ == ToolErrorView::Exec("memory error: "@ + e@),
            },
    {
        match saved {
            Ok(()) => {
                let mut s = "long_term memory updated (".to_owned();
                let n: usize = str_byte_len(content);
                let shown = show_usize(n);
                s.append(shown.as_str());
                s.append(" bytes)");
                Ok(ToolResult::ok_text(s))
            },
            Err(e) => {
                let mut s = "memory error: ".to_owned();
                s.append(e.as_str());
                Err(ToolError::Exec(s))
            },
        }
    }

    /// Learns an entry: without a topic it goes under the beginning of its
    /// content, without a category under what the user prefers. The result,
    /// the place of the entry and whether its topic is new.
    pub fn learn(
        &self,
        memory: &mut InMemoryAutoMemory,
        content: String,
        topic: Option<String>,
        category: Option<MemoryCategory>,
        source: Option<String>,
    ) -> (r: (ToolResult, usize, bool))
        ensures
            ({
                let t = match topic {
                    Some(t) => t@,
                    None => default_topic(content@),
                };
                let e = EntryView {
                    topic: t,
                    content: content@,
                    category: match category {
                        Some(c) => c,
                        None => MemoryCategory::Pref,
                    },
                    source: opt_view(source),
                };
                &&& final(memory)@ == learnt(old(memory)@, e)
                &&& r.0@ == text_result(
                    "auto memory entry added (total "@ + decimal(final(memory)@.len())
                        + " entries)"@,
                    false,
                )
                &&& match topic_at(old(memory)@, t) {
                    Some(i) => r.1 == i && !r.2,
                    None => r.1 == old(memory)@.len() && r.2,
                }
            }),
    {
        let t = match topic {
            Some(t) => t,
            None => {
                let chars = to_chars(content.as_str());
                let n: usize = if chars.len() <= 20 {
                    chars.len()
                } else {
                    20
                };
                let head = sub_chars(chars.as_slice(), 0, n);
                assert(head@ == default_topic(content@));
                from_chars(head.as_slice())
            },
        };
        let c = match category {
            Some(c) => c,
            None => MemoryCategory::Pref,
        };
        let (count, place, is_new) = memory.add_entry(t, content, c, source);
        let mut s = "auto memory entry added (total ".to_owned();
        let shown = show_usize(count);
        s.append(shown.as_str());
        s.append(" entries)");
        (ToolResult::ok_text(s), place, is_new)
    }
}

/// What was learnt on a new topic stands at the end; on a known topic it takes
/// the place of what was known, whose category stays. Nothing else changes.
pub proof fn learning_changes_one_topic(
    memory: &mut InMemoryAutoMemory,
    topic: String,
    content: String,
    category: MemoryCategory,
    source: Option<String>,
    r: (usize, usize, bool),
)
    requires
        call_ensures(
            InMemoryAutoMemory::add_entry,
            (memory, topic, content, category, source),
            r,
        ),
    ensures
        ({
            let a = old(memory)@;
            let b = final(memory)@;
            let i = r.1 as int;
            &&& r.2 == (forall|j: int| 0 <= j < a.len() ==> (#[trigger] a[j]).topic != topic@)
            &&& r.0 == b.len()
            &&& b.len() == if r.2 {
                a.len() + 1
            } else {
                a.len()
            }
            &&& r.2 ==> i == a.len()
            &&& 0 <= i < b.len()
            &&& b[i].topic == topic@ && b[i].content == content@ && b[i].source == opt_view(source)
            &&& b[i].category == if r.2 {
                category
            } else {
                a[i].category
            }
            &&& forall|j: int| 0 <= j < a.len() && j != i ==> #[trigger] b[j] == a[j]
        }),
{
    lemma_topic_at(old(memory)@, topic@);
}

/// An entry without a topic goes under the first twenty characters of its
/// content, and one without a category is a preference.
pub proof fn what_is_left_out_has_a_default(
    tool: &MemoryWrite,
    memory: &mut InMemoryAutoMemory,
    content: String,
    topic: Option<String>,
    category: Option<MemoryCategory>,
    source: Option<String>,
    r: (ToolResult, usize, bool),
)
    requires
        call_ensures(MemoryWrite::learn, (tool, memory, content, topic, category, source), r),
    ensures
        ({
            let e = final(memory)@[r.1 as int];
            &&& r.1 < final(memory)@.len()
            &&& topic is Some ==> e.topic == topic->0@
            &&& topic is None && content@.len() <= 20 ==> e.topic == content@
            &&& topic is None && content@.len() > 20 ==> e.topic == content@.take(20)
            &&& e.content == content@
            &&& r.2 && category is Some ==> e.category == category->0
            &&& r.2 && category is None ==> e.category is Pref
            &&& r.2 ==> final(memory)@.len() == old(memory)@.len() + 1 && r.1
                == old(memory)@.len()
            &&& !r.2 ==> final(memory)@.len() == old(memory)@.len() && e.category == old(memory)@[r.1 as int].category
            &&& forall|j: int|
                0 <= j < old(memory)@.len() && j != r.1 ==> #[trigger] final(memory)@[j] == old(memory)@[j]
            &&& !r.0.is_error
        }),
{
    let t = match topic {
        Some(t) => t@,
        None => default_topic(content@),
    };
    lemma_topic_at(old(memory)@, t);
}

/// What the caller is told after long-term memory was replaced: how many bytes
/// it takes now.
pub proof fn long_term_memory_tells_its_bytes(
    tool: &MemoryWrite,
    content: &str,
    saved: Result<(), String>,
    r: Result<ToolResult, ToolError>,
)
    requires
        call_ensures(MemoryWrite::long_term_result, (tool, content, saved), r),
    ensures
        r is Ok == saved is Ok,
        r is Ok ==> r->Ok_0.content@ == "long_term memory updated ("@ + decimal(
            encode_utf8(content@).len(),
        ) + " bytes)"@,
{
    lemma_byte_len_is_encoding(content@);
}

} // verus!
