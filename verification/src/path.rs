//! Paths as text: components separated by `/`, compared without looking at a
//! file system.

use vstd::prelude::*;
use vstd::string::*;
use crate::text::chars::{chars_equal, from_chars, push_all, sub_chars, to_chars};
use crate::text::pick::{lemma_picks_none, lemma_picks_step, picks};
use crate::text::search::{index_from, lemma_index_from};
use crate::text::split::{char_views, joined, pieces, split_at_char};
use crate::tool::{ToolError, ToolErrorView};

verus! {

/// A piece between two separators that names something: not empty and not
/// the directory itself.
pub open spec fn names(piece: Seq<char>) -> bool {
    piece.len() > 0 && piece != seq!['.']
}

/// The step to the directory above.
pub open spec fn up() -> Seq<char> {
    seq!['.', '.']
}

/// The pieces that name something.
pub open spec fn naming(parts: Seq<Seq<char>>) -> Seq<Seq<char>>
    decreases parts.len(),
{
    if parts.len() == 0 {
        Seq::empty()
    } else {
        let init = naming(parts.drop_last());
        if names(parts.last()) {
            init.push(parts.last())
        } else {
            init
        }
    }
}

/// The components of a path.
pub open spec fn components(path: Seq<char>) -> Seq<Seq<char>> {
    naming(pieces(path, '/'))
}

/// The path starts at the root.
pub open spec fn is_absolute(path: Seq<char>) -> bool {
    path.len() > 0 && path[0] == '/'
}

/// The last component, unless it is a step up.
pub open spec fn file_name_of(path: Seq<char>) -> Option<Seq<char>> {
    let c = components(path);
    if c.len() == 0 || c.last() == up() {
        None
    } else {
        Some(c.last())
    }
}

/// The index of the last dot.
pub open spec fn last_dot(name: Seq<char>) -> Option<int>
    decreases name.len(),
{
    if name.len() == 0 {
        None
    } else if name.last() == '.' {
        Some(name.len() - 1)
    } else {
        last_dot(name.drop_last())
    }
}

/// What follows the last dot of a file name, where something stands before
/// that dot.
pub open spec fn extension_of(path: Seq<char>) -> Option<Seq<char>> {
    match file_name_of(path) {
        None => None,
        Some(name) => match last_dot(name) {
            None => None,
            Some(i) => if i == 0 {
                None
            } else {
                Some(name.skip(i + 1))
            },
        },
    }
}

/// The components with every step up taken: it removes the component before
/// it, does nothing at the root, and stays at the start of a relative path.
pub open spec fn normalized(absolute: bool, comps: Seq<Seq<char>>) -> Seq<Seq<char>>
    decreases comps.len(),
{
    if comps.len() == 0 {
        Seq::empty()
    } else {
        let m = normalized(absolute, comps.drop_last());
        if comps.last() != up() {
            m.push(comps.last())
        } else if m.len() > 0 && m.last() != up() {
            m.drop_last()
        } else if absolute {
            m
        } else {
            m.push(up())
        }
    }
}

/// One list of components begins with the other.
pub open spec fn is_prefix(a: Seq<Seq<char>>, b: Seq<Seq<char>>) -> bool {
    a.len() <= b.len() && b.take(a.len() as int) == a
}

/// `path` is `base` or lies below it, once every step up is taken.
pub open spec fn under(path: Seq<char>, base: Seq<char>) -> bool {
    is_absolute(path) == is_absolute(base) && is_prefix(
        normalized(is_absolute(base), components(base)),
        normalized(is_absolute(path), components(path)),
    )
}

/// `rel` taken from `base`: an absolute path stands for itself.
pub open spec fn joined_path(base: Seq<char>, rel: Seq<char>) -> Seq<char> {
    if is_absolute(rel) {
        rel
    } else if base.len() == 0 || base.last() == '/' {
        base + rel
    } else {
        base.push('/') + rel
    }
}

/// Splits a path into its components.
pub fn split_components(path: &[char]) -> (r: Vec<Vec<char>>)
    ensures
        char_views(r@) == components(path@),
{
    let parts = split_at_char(path, '/');
    let ghost all = pieces(path@, '/');
    let mut out: Vec<Vec<char>> = Vec::new();
    let mut i: usize = 0;
    assert(all.take(0) == Seq::<Seq<char>>::empty());
    assert(char_views(out@) == Seq::<Seq<char>>::empty());
    while i < parts.len()
        invariant
            i <= parts@.len(),
            char_views(parts@) == all,
            char_views(out@) == naming(all.take(i as int)),
        decreases parts@.len() - i,
    {
        let p = &parts[i];
        let ghost out0 = char_views(out@);
        assert(p@ == all[i as int]);
        assert(all.take(i + 1).drop_last() == all.take(i as int));
        let own = p.len() == 1 && p[0] == '.';
        proof {
            if own {
                assert(p@ =~= seq!['.']);
            }
        }
        if p.len() > 0 && !own {
            let c = sub_chars(p.as_slice(), 0, p.len());
            assert(c@ == p@);
            out.push(c);
            assert(char_views(out@) == out0.push(p@));
        }
        i = i + 1;
    }
    assert(all.take(all.len() as int) == all);
    out
}

/// Whether a component is the step up.
fn is_up(c: &Vec<char>) -> (r: bool)
    ensures
        r == (c@ == up()),
{
    let r = c.len() == 2 && c[0] == '.' && c[1] == '.';
    proof {
        if r {
            assert(c@ =~= up());
        }
    }
    r
}

/// Takes every step up.
fn normalize(absolute: bool, comps: &Vec<Vec<char>>) -> (r: Vec<Vec<char>>)
    ensures
        char_views(r@) == normalized(absolute, char_views(comps@)),
{
    let ghost all = char_views(comps@);
    let mut out: Vec<Vec<char>> = Vec::new();
    let mut i: usize = 0;
    assert(all.take(0) == Seq::<Seq<char>>::empty());
    assert(char_views(out@) == Seq::<Seq<char>>::empty());
    while i < comps.len()
        invariant
            i <= comps@.len(),
            all == char_views(comps@),
            char_views(out@) == normalized(absolute, all.take(i as int)),
        decreases comps@.len() - i,
    {
        let c = &comps[i];
        let ghost m = char_views(out@);
        assert(all.take(i + 1).drop_last() == all.take(i as int));
        assert(all.take(i + 1).last() == c@);
        let n: usize = out.len();
        if !is_up(c) {
            let copy = sub_chars(c.as_slice(), 0, c.len());
            assert(copy@ == c@);
            out.push(copy);
            assert(char_views(out@) == m.push(c@));
        } else if n > 0 && !is_up(&out[n - 1]) {
            assert(m.last() == out@[n - 1]@);
            out.pop();
            assert(char_views(out@) == m.drop_last());
        } else {
            assert(n > 0 ==> m.last() == out@[n - 1]@);
            if !absolute {
                let copy = sub_chars(c.as_slice(), 0, c.len());
                assert(copy@ == c@);
                out.push(copy);
                assert(char_views(out@) == m.push(up()));
            }
        }
        i = i + 1;
    }
    assert(all.take(all.len() as int) == all);
    out
}

/// Whether `path` is `base` or lies below it.
pub fn is_under(path: &str, base: &str) -> (r: bool)
    ensures
        r == under(path@, base@),
{
    let p = to_chars(path);
    let b = to_chars(base);
    let p_abs = p.len() > 0 && p[0] == '/';
    let b_abs = b.len() > 0 && b[0] == '/';
    if p_abs != b_abs {
        return false;
    }
    let pc = split_components(p.as_slice());
    let bc = split_components(b.as_slice());
    let pn = normalize(p_abs, &pc);
    let bn = normalize(b_abs, &bc);
    let ghost pv = char_views(pn@);
    let ghost bv = char_views(bn@);
    if bn.len() > pn.len() {
        return false;
    }
    let mut i: usize = 0;
    while i < bn.len()
        invariant
            i <= bn@.len() <= pn@.len(),
            pv == char_views(pn@),
            bv == char_views(bn@),
            bv == normalized(is_absolute(base@), components(base@)),
            pv == normalized(is_absolute(path@), components(path@)),
            is_absolute(path@) == is_absolute(base@),
            forall|j: int| 0 <= j < i ==> pv[j] == bv[j],
        decreases bn@.len() - i,
    {
        if !chars_equal(pn[i].as_slice(), bn[i].as_slice()) {
            assert(pv[i as int] != bv[i as int]);
            assert(pv.take(bv.len() as int)[i as int] != bv[i as int]);
            return false;
        }
        i = i + 1;
    }
    assert(pv.take(bv.len() as int) == bv);
    true
}

/// Takes `rel` from `base`.
pub fn join_path(base: &str, rel: &str) -> (r: String)
    ensures
        r@ == joined_path(base@, rel@),
{
    let rc = to_chars(rel);
    if rc.len() > 0 && rc[0] == '/' {
        return rel.to_owned();
    }
    let mut out = to_chars(base);
    if out.len() > 0 && out[out.len() - 1] != '/' {
        out.push('/');
    }
    push_all(&mut out, rc.as_slice());
    assert(out@ == joined_path(base@, rel@));
    from_chars(out.as_slice())
}

/// The last component, unless it is a step up.
pub fn file_name(path: &str) -> (r: Option<String>)
    ensures
        match r {
            Some(n) => file_name_of(path@) == Some(n@),
            None => file_name_of(path@) is None,
        },
{
    let p = to_chars(path);
    let comps = split_components(p.as_slice());
    let n: usize = comps.len();
    if n == 0 {
        return None;
    }
    assert(char_views(comps@).last() == comps@[n - 1]@);
    if is_up(&comps[n - 1]) {
        return None;
    }
    Some(from_chars(comps[n - 1].as_slice()))
}

/// What follows the last dot of a file name, where something stands before
/// that dot.
pub fn extension(path: &str) -> (r: Option<String>)
    ensures
        match r {
            Some(n) => extension_of(path@) == Some(n@),
            None => extension_of(path@) is None,
        },
{
    let name = match file_name(path) {
        Some(n) => to_chars(n.as_str()),
        None => {
            return None;
        },
    };
    let mut i: usize = name.len();
    assert(name@.take(name@.len() as int) == name@);
    while i > 0
        invariant
            i <= name@.len(),
            file_name_of(path@) == Some(name@),
            last_dot(name@) == last_dot(name@.take(i as int)),
        decreases i,
    {
        assert(name@.take(i as int).drop_last() == name@.take(i - 1));
        if name[i - 1] == '.' {
            if i == 1 {
                return None;
            }
            let ext = sub_chars(name.as_slice(), i, name.len());
            assert(ext@ == name@.skip(i as int));
            return Some(from_chars(ext.as_slice()));
        }
        i = i - 1;
    }
    None
}

/// The pieces of two texts with a separator between them are the pieces of
/// the one and of the other.
proof fn lemma_pieces_concat(a: Seq<char>, b: Seq<char>, c: char)
    ensures
        pieces(a.push(c) + b, c) == pieces(a, c) + pieces(b, c),
    decreases a.len(),
{
    let s = a.push(c) + b;
    lemma_index_from(a, c, 0);
    lemma_index_from(s, c, 0);
    match index_from(a, c, 0) {
        Some(i) => {
            let j = index_from(s, c, 0);
            assert(s[i] == c);
            assert(j is Some);
            if j->0 < i {
                assert(a[j->0] == s[j->0]);
            }
            assert(j == Some(i));
            assert(s.take(i) == a.take(i));
            assert(s.skip(i + 1) == a.skip(i + 1).push(c) + b);
            lemma_pieces_concat(a.skip(i + 1), b, c);
            assert(pieces(s, c) == seq![a.take(i)] + (pieces(a.skip(i + 1), c) + pieces(b, c)));
            assert(pieces(a, c) == seq![a.take(i)] + pieces(a.skip(i + 1), c));
        },
        None => {
            let n = a.len() as int;
            assert(s[n] == c);
            let j = index_from(s, c, 0);
            assert(j is Some);
            if j->0 < n {
                assert(a[j->0] == s[j->0]);
            }
            assert(j == Some(n));
            assert(s.take(n) == a);
            assert(s.skip(n + 1) == b);
        },
    }
}

/// Naming pieces add over concatenation.
proof fn lemma_naming_concat(a: Seq<Seq<char>>, b: Seq<Seq<char>>)
    ensures
        naming(a + b) == naming(a) + naming(b),
    decreases b.len(),
{
    if b.len() == 0 {
        assert(a + b == a);
        assert(naming(a) + naming(b) == naming(a));
    } else {
        assert((a + b).drop_last() == a + b.drop_last());
        lemma_naming_concat(a, b.drop_last());
        assert(naming(a + b) == naming(a) + naming(b));
    }
}

/// Without steps up nothing is removed.
proof fn lemma_normalized_extends(absolute: bool, a: Seq<Seq<char>>, b: Seq<Seq<char>>)
    requires
        forall|i: int| 0 <= i < b.len() ==> #[trigger] b[i] != up(),
    ensures
        normalized(absolute, a + b) == normalized(absolute, a) + b,
    decreases b.len(),
{
    if b.len() == 0 {
        assert(a + b == a);
        assert(normalized(absolute, a) + b == normalized(absolute, a));
    } else {
        let init = b.drop_last();
        assert((a + b).drop_last() == a + init);
        assert forall|i: int| 0 <= i < init.len() implies #[trigger] init[i] != up() by {
            assert(b[i] == init[i]);
        }
        lemma_normalized_extends(absolute, a, init);
        assert(b[b.len() - 1] != up());
        assert(normalized(absolute, a + b) == normalized(absolute, a) + b);
    }
}

/// A relative path without steps up stays below the directory it is taken
/// from.
pub proof fn plain_path_stays_below(base: Seq<char>, rel: Seq<char>)
    requires
        base.len() > 0,
        !is_absolute(rel),
        forall|i: int| 0 <= i < components(rel).len() ==> #[trigger] components(rel)[i] != up(),
    ensures
        under(joined_path(base, rel), base),
{
    let path = joined_path(base, rel);
    if base.last() == '/' {
        let head = base.drop_last();
        assert(path == head.push('/') + rel);
        lemma_pieces_concat(head, rel, '/');
        lemma_naming_concat(pieces(head, '/'), pieces(rel, '/'));
        let nothing = Seq::<char>::empty();
        assert(base == head.push('/') + nothing);
        lemma_pieces_concat(head, nothing, '/');
        lemma_index_from(nothing, '/', 0);
        assert(pieces(nothing, '/') == seq![nothing]);
        lemma_naming_concat(pieces(head, '/'), pieces(nothing, '/'));
        assert(seq![nothing].drop_last() == Seq::<Seq<char>>::empty());
        reveal_with_fuel(naming, 2);
        assert(naming(seq![nothing]) == Seq::<Seq<char>>::empty());
        assert(components(base) == components(head));
        assert(components(path) == components(base) + components(rel));
    } else {
        lemma_pieces_concat(base, rel, '/');
        lemma_naming_concat(pieces(base, '/'), pieces(rel, '/'));
        assert(components(path) == components(base) + components(rel));
    }
    lemma_normalized_extends(is_absolute(base), components(base), components(rel));
    let n = normalized(is_absolute(base), components(base));
    assert((n + components(rel)).take(n.len() as int) == n);
}

/// What a look at the file system found at a path.
#[derive(Debug)]
pub struct PathProbe {
    /// The canonical path of the target, if it exists.
    pub target: Option<String>,
    /// The canonical path of the target's parent, if that exists.
    pub parent: Option<String>,
    /// The parent is a directory.
    pub parent_is_dir: bool,
}

/// Where a path leads, or why it must not be used.
pub open spec fn resolution(workdir: Seq<char>, input: Seq<char>, probe: PathProbe) -> Result<
    Seq<char>,
    ToolErrorView,
> {
    match probe.target {
        Some(t) => if under(t@, workdir) {
            Ok(t@)
        } else {
            Err(ToolErrorView::PathEscaped(input))
        },
        None => match (probe.parent, file_name_of(joined_path(workdir, input))) {
            (Some(p), Some(name)) => if !under(joined_path(p@, name), workdir) {
                Err(ToolErrorView::PathEscaped(input))
            } else if !probe.parent_is_dir {
                Err(ToolErrorView::NotFound(input))
            } else {
                Ok(joined_path(p@, name))
            },
            _ => Err(ToolErrorView::NotFound(input)),
        },
    }
}

/// The path that `input` stands for, if it lies in `workdir`: the canonical
/// path of a target that exists, else its name in the canonical path of its
/// parent.
pub fn resolve_path(workdir: &str, input: &str, probe: PathProbe) -> (r: Result<String, ToolError>)
    ensures
        match r {
            Ok(p) => resolution(workdir@, input@, probe) == Ok::<Seq<char>, ToolErrorView>(p@),
            Err(e) => resolution(workdir@, input@, probe) == Err::<Seq<char>, ToolErrorView>(e@),
        },
{
    match probe.target {
        Some(t) => {
            if is_under(t.as_str(), workdir) {
                Ok(t)
            } else {
                Err(ToolError::PathEscaped(input.to_owned()))
            }
        },
        None => {
            let candidate = join_path(workdir, input);
            match (probe.parent, file_name(candidate.as_str())) {
                (Some(p), Some(name)) => {
                    let full = join_path(p.as_str(), name.as_str());
                    if !is_under(full.as_str(), workdir) {
                        Err(ToolError::PathEscaped(input.to_owned()))
                    } else if !probe.parent_is_dir {
                        Err(ToolError::NotFound(input.to_owned()))
                    } else {
                        Ok(full)
                    }
                },
                _ => Err(ToolError::NotFound(input.to_owned())),
            }
        },
    }
}

/// Whatever the file system holds, a path that is accepted lies in the working
/// directory.
pub proof fn accepted_path_lies_in_workdir(
    workdir: Seq<char>,
    input: Seq<char>,
    probe: PathProbe,
)
    ensures
        resolution(workdir, input, probe) matches Ok(p) ==> under(p, workdir),
{
}

/// What a look at a directory found.
#[derive(Debug)]
pub enum DirProbe {
    Directory,
    NotDirectory,
    Missing,
    Failed(String),
}

/// Whether a directory is there; why not, otherwise.
pub fn ensure_dir(path: &str, probe: DirProbe) -> (r: Result<(), ToolError>)
    ensures
        match probe {
            DirProbe::Directory => r is Ok,
            DirProbe::NotDirectory => r is Err && r->Err_0@ == ToolErrorView::InvalidInput(
                "not a directory: "@ + path@,
            ),
            DirProbe::Missing => r is Err && r->Err_0@ == ToolErrorView::NotFound(path@),
            DirProbe::Failed(e) => r is Err && r->Err_0@ == ToolErrorView::Io(e@),
        },
{
    match probe {
        DirProbe::Directory => Ok(()),
        DirProbe::NotDirectory => {
            let mut s = "not a directory: ".to_owned();
            s.append(path);
            Err(ToolError::InvalidInput(s))
        },
        DirProbe::Missing => Err(ToolError::NotFound(path.to_owned())),
        DirProbe::Failed(e) => Err(ToolError::Io(e)),
    }
}

/// The canonical form of a path of which only a beginning exists: the
/// canonical path of that beginning with the rest, as it was written, behind
/// it.
pub open spec fn reattached(anchor: Seq<char>, tail: Seq<char>) -> Seq<char> {
    if tail.len() == 0 {
        anchor
    } else {
        joined_path(anchor, tail)
    }
}

/// Whether `candidate` lies in `workdir`. `anchor` is the canonical path of
/// the longest beginning of `candidate` that exists and `tail` the rest of it.
pub fn assert_within_workdir(workdir: &str, candidate: &str, anchor: &str, tail: &str) -> (r:
    Result<(), ToolError>)
    ensures
        r is Ok == under(reattached(anchor@, tail@), workdir@),
        r is Err ==> r->Err_0@ == ToolErrorView::PathEscaped(
            "path escapes workdir: "@ + candidate@,
        ),
{
    let tail_len: usize = tail.unicode_len();
    let full = if tail_len == 0 {
        anchor.to_owned()
    } else {
        join_path(anchor, tail)
    };
    if is_under(full.as_str(), workdir) {
        Ok(())
    } else {
        let mut s = "path escapes workdir: ".to_owned();
        s.append(candidate);
        Err(ToolError::PathEscaped(s))
    }
}

/// The first `k` components of a path.
pub open spec fn ancestor(path: Seq<char>, k: int) -> Seq<char> {
    let body = joined(components(path).take(k), seq!['/']);
    if is_absolute(path) {
        seq!['/'] + body
    } else {
        body
    }
}

/// The components of a path from the `k`-th on.
pub open spec fn remainder(path: Seq<char>, k: int) -> Seq<char> {
    joined(components(path).skip(k), seq!['/'])
}

fn join_components(comps: &Vec<Vec<char>>, from: usize, to: usize) -> (r: Vec<char>)
    requires
        from <= to <= comps@.len(),
    ensures
        r@ == joined(char_views(comps@).subrange(from as int, to as int), seq!['/']),
{
    let ghost all = char_views(comps@);
    let mut out: Vec<char> = Vec::new();
    let mut i: usize = from;
    assert(all.subrange(from as int, from as int) == Seq::<Seq<char>>::empty());
    while i < to
        invariant
            from <= i <= to <= comps@.len(),
            all == char_views(comps@),
            out@ == joined(all.subrange(from as int, i as int), seq!['/']),
        decreases to - i,
    {
        let ghost now = all.subrange(from as int, i + 1);
        let ghost out0 = out@;
        assert(now.drop_last() == all.subrange(from as int, i as int));
        assert(now.last() == comps@[i as int]@);
        if i > from {
            out.push('/');
        }
        push_all(&mut out, comps[i].as_slice());
        proof {
            if i > from {
                assert(out@ == out0 + seq!['/'] + now.last());
            } else {
                assert(out@ == now[0]);
            }
        }
        i = i + 1;
    }
    out
}

/// The ways to cut a path in two, from the longest beginning to the shortest:
/// each beginning, and the rest. The path itself is not among the beginnings.
pub fn ancestor_splits(path: &str) -> (r: Vec<(String, String)>)
    ensures
        r@.len() == components(path@).len(),
        forall|j: int|
            0 <= j < r@.len() ==> (#[trigger] r@[j]).0@ == ancestor(
                path@,
                components(path@).len() - 1 - j,
            ) && r@[j].1@ == remainder(path@, components(path@).len() - 1 - j),
{
    let p = to_chars(path);
    let absolute = p.len() > 0 && p[0] == '/';
    let comps = split_components(p.as_slice());
    let n: usize = comps.len();
    let ghost all = components(path@);
    let mut out: Vec<(String, String)> = Vec::new();
    let mut k: usize = n;
    while k > 0
        invariant
            k <= n,
            n == comps@.len(),
            all == char_views(comps@),
            all == components(path@),
            absolute == is_absolute(path@),
            out@.len() == n - k,
            forall|j: int|
                0 <= j < out@.len() ==> (#[trigger] out@[j]).0@ == ancestor(path@, n - 1 - j)
                    && out@[j].1@ == remainder(path@, n - 1 - j),
        decreases k,
    {
        k = k - 1;
        let mut head: Vec<char> = Vec::new();
        if absolute {
            head.push('/');
        }
        let body = join_components(&comps, 0, k);
        push_all(&mut head, body.as_slice());
        let tail = join_components(&comps, k, n);
        proof {
            assert(all.subrange(0, k as int) == all.take(k as int));
            assert(all.subrange(k as int, n as int) == all.skip(k as int));
            assert(head@ == ancestor(path@, k as int));
        }
        out.push((from_chars(head.as_slice()), from_chars(tail.as_slice())));
    }
    out
}

proof fn lemma_naming_picks(parts: Seq<Seq<char>>, picked: Seq<int>)
    requires
        picks(picked, parts.len() as int, |i: int| parts[i].len() > 0 && parts[i] != seq!['.']),
    ensures
        naming(parts) == Seq::new(picked.len(), |k: int| parts[picked[k]]),
    decreases parts.len(),
{
    let n = parts.len() as int;
    let wanted = |i: int| parts[i].len() > 0 && parts[i] != seq!['.'];
    if n == 0 {
        lemma_picks_none(picked, n, wanted);
        assert(Seq::new(picked.len(), |k: int| parts[picked[k]]) == Seq::<Seq<char>>::empty());
    } else {
        lemma_picks_step(picked, n, wanted);
        let init = parts.drop_last();
        let fewer = if wanted(n - 1) {
            picked.drop_last()
        } else {
            picked
        };
        let narrow = |i: int| init[i].len() > 0 && init[i] != seq!['.'];
        assert(picks(fewer, n - 1, narrow)) by {
            assert(picks(fewer, n - 1, wanted));
            assert forall|i: int| 0 <= i < n - 1 && #[trigger] narrow(i) implies fewer.contains(
                i,
            ) by {
                assert(wanted(i));
            }
            assert forall|a: int| 0 <= a < fewer.len() implies 0 <= #[trigger] fewer[a] < n - 1
                && narrow(fewer[a]) by {
                assert(wanted(fewer[a]));
            }
        }
        lemma_naming_picks(init, fewer);
        assert forall|k: int| 0 <= k < fewer.len() implies #[trigger] init[fewer[k]]
            == parts[fewer[k]] by {
            assert(0 <= fewer[k] < n - 1);
        }
        assert(naming(parts) == Seq::new(picked.len(), |k: int| parts[picked[k]]));
    }
}

/// The components of a path are its pieces between slashes, in order, without
/// those that are empty or a single dot.
pub proof fn components_are_the_naming_pieces(
    path: &[char],
    r: Vec<Vec<char>>,
    between: Vec<Vec<char>>,
    picked: Seq<int>,
)
    requires
        call_ensures(split_components, (path,), r),
        call_ensures(split_at_char, (path, '/'), between),
        picks(
            picked,
            between@.len() as int,
            |i: int| between@[i]@.len() > 0 && between@[i]@ != seq!['.'],
        ),
    ensures
        r@.len() == picked.len(),
        forall|k: int| 0 <= k < r@.len() ==> (#[trigger] r@[k])@ == between@[picked[k]]@,
{
    let parts = char_views(between@);
    let given = |i: int| between@[i]@.len() > 0 && between@[i]@ != seq!['.'];
    let want = |i: int| parts[i].len() > 0 && parts[i] != seq!['.'];
    assert(picks(picked, parts.len() as int, want)) by {
        assert(picks(picked, between@.len() as int, given));
        assert forall|i: int| 0 <= i < parts.len() && #[trigger] want(i) implies picked.contains(
            i,
        ) by {
            assert(given(i));
        }
        assert forall|a: int| 0 <= a < picked.len() implies 0 <= #[trigger] picked[a] < parts.len()
            && want(picked[a]) by {
            assert(given(picked[a]));
        }
    }
    lemma_naming_picks(parts, picked);
    assert(char_views(r@).len() == r@.len());
    assert forall|k: int| 0 <= k < r@.len() implies (#[trigger] r@[k])@ == between@[picked[k]]@ by {
        assert(char_views(r@)[k] == r@[k]@);
        assert(0 <= picked[k] < between@.len());
    }
}

/// What follows is taken from where the steps before lead.
proof fn lemma_normalized_on(
    absolute: bool,
    a: Seq<Seq<char>>,
    b: Seq<Seq<char>>,
    more: Seq<Seq<char>>,
)
    requires
        normalized(absolute, a) == normalized(absolute, b),
    ensures
        normalized(absolute, a + more) == normalized(absolute, b + more),
    decreases more.len(),
{
    if more.len() == 0 {
        assert(a + more == a);
        assert(b + more == b);
    } else {
        lemma_normalized_on(absolute, a, b, more.drop_last());
        assert((a + more).drop_last() == a + more.drop_last());
        assert((b + more).drop_last() == b + more.drop_last());
    }
}

/// A step into a directory and a step up again lead nowhere.
pub proof fn step_in_and_up_cancel(
    absolute: bool,
    a: Seq<Seq<char>>,
    x: Seq<char>,
    b: Seq<Seq<char>>,
)
    requires
        x != seq!['.', '.'],
    ensures
        normalized(absolute, a + seq![x, seq!['.', '.']] + b) == normalized(absolute, a + b),
{
    let inner = a + seq![x, seq!['.', '.']];
    assert(inner.drop_last() == a.push(x));
    assert(a.push(x).drop_last() == a);
    assert(normalized(absolute, a.push(x)) == normalized(absolute, a).push(x));
    assert(normalized(absolute, a).push(x).drop_last() == normalized(absolute, a));
    lemma_normalized_on(absolute, inner, a, b);
}

/// There is nothing above the root.
pub proof fn step_up_from_the_root_stays(b: Seq<Seq<char>>)
    ensures
        normalized(true, seq![seq!['.', '.']] + b) == normalized(true, b),
{
    let one = seq![seq!['.', '.']];
    let none = Seq::<Seq<char>>::empty();
    assert(one.drop_last() == none);
    assert(one.last() == up());
    reveal_with_fuel(normalized, 2);
    assert(normalized(true, one) == none);
    lemma_normalized_on(true, one, none, b);
    assert(none + b == b);
}

/// Components without steps up are left as they are, and so are the steps up
/// at the start of a relative path.
pub proof fn nothing_else_is_taken_away(ups: Seq<Seq<char>>, plain: Seq<Seq<char>>)
    requires
        forall|i: int| 0 <= i < ups.len() ==> #[trigger] ups[i] == seq!['.', '.'],
        forall|i: int| 0 <= i < plain.len() ==> #[trigger] plain[i] != seq!['.', '.'],
    ensures
        normalized(true, plain) == plain,
        normalized(false, ups + plain) == ups + plain,
{
    let none = Seq::<Seq<char>>::empty();
    lemma_normalized_extends(true, none, plain);
    assert(none + plain == plain);
    lemma_ups_stay(ups);
    lemma_normalized_extends(false, ups, plain);
}

proof fn lemma_ups_stay(ups: Seq<Seq<char>>)
    requires
        forall|i: int| 0 <= i < ups.len() ==> #[trigger] ups[i] == up(),
    ensures
        normalized(false, ups) == ups,
    decreases ups.len(),
{
    if ups.len() > 0 {
        let init = ups.drop_last();
        assert forall|i: int| 0 <= i < init.len() implies #[trigger] init[i] == up() by {
            assert(ups[i] == init[i]);
        }
        lemma_ups_stay(init);
        assert(ups[ups.len() - 1] == up());
        if init.len() > 0 {
            assert(init[init.len() - 1] == up());
        }
        assert(init.push(up()) == ups);
    }
}

/// The components of `b` are the first components of `p`.
pub open spec fn first_of(b: Seq<Seq<char>>, p: Seq<Seq<char>>) -> bool {
    b.len() <= p.len() && forall|i: int| 0 <= i < b.len() ==> #[trigger] b[i] == p[i]
}

/// A path lies below a directory exactly where both or neither start at the
/// root and, with every step up taken, the components of the directory are the
/// first components of the path.
pub proof fn below_means_a_common_beginning(path: &str, base: &str, r: bool)
    requires
        call_ensures(is_under, (path, base), r),
    ensures
        ({
            let p_root = path@.len() > 0 && path@[0] == '/';
            let b_root = base@.len() > 0 && base@[0] == '/';
            let p = normalized(p_root, components(path@));
            let b = normalized(b_root, components(base@));
            r == (p_root == b_root && first_of(b, p))
        }),
{
    let p = normalized(is_absolute(path@), components(path@));
    let b = normalized(is_absolute(base@), components(base@));
    if b.len() <= p.len() {
        if first_of(b, p) {
            assert(p.take(b.len() as int) == b);
        }
        if p.take(b.len() as int) == b {
            assert forall|i: int| 0 <= i < b.len() implies #[trigger] b[i] == p[i] by {
                assert(p.take(b.len() as int)[i] == b[i]);
            }
        }
    }
}

proof fn lemma_joined_components(base: Seq<char>, rel: Seq<char>)
    requires
        base.len() > 0,
        !is_absolute(rel),
    ensures
        components(joined_path(base, rel)) == components(base) + components(rel),
{
    let path = joined_path(base, rel);
    if base.last() == '/' {
        let head = base.drop_last();
        assert(path == head.push('/') + rel);
        lemma_pieces_concat(head, rel, '/');
        lemma_naming_concat(pieces(head, '/'), pieces(rel, '/'));
        let nothing = Seq::<char>::empty();
        assert(base == head.push('/') + nothing);
        lemma_pieces_concat(head, nothing, '/');
        lemma_index_from(nothing, '/', 0);
        assert(pieces(nothing, '/') == seq![nothing]);
        lemma_naming_concat(pieces(head, '/'), pieces(nothing, '/'));
        assert(seq![nothing].drop_last() == Seq::<Seq<char>>::empty());
        reveal_with_fuel(naming, 2);
        assert(naming(seq![nothing]) == Seq::<Seq<char>>::empty());
        assert(components(base) == components(head));
    } else {
        lemma_pieces_concat(base, rel, '/');
        lemma_naming_concat(pieces(base, '/'), pieces(rel, '/'));
    }
}

/// A path taken from a directory begins with the directory and goes on with
/// the path; one that starts at the root stands for itself.
pub proof fn path_is_taken_from_its_base(base: &str, rel: &str, r: String)
    requires
        call_ensures(join_path, (base, rel), r),
    ensures
        rel@.len() > 0 && rel@[0] == '/' ==> r@ == rel@,
        base@.len() == 0 ==> r@ == rel@,
        (rel@.len() == 0 || rel@[0] != '/') && base@.len() > 0 ==> {
            &&& r@.len() >= base@.len() + rel@.len()
            &&& r@.take(base@.len() as int) == base@
            &&& r@.skip(r@.len() - rel@.len()) == rel@
            &&& components(r@) == components(base@) + components(rel@)
        },
{
    if (rel@.len() == 0 || rel@[0] != '/') && base@.len() > 0 {
        lemma_joined_components(base@, rel@);
        assert(r@.take(base@.len() as int) == base@);
        assert(r@.skip(r@.len() - rel@.len()) == rel@);
    } else if base@.len() == 0 {
        assert(base@ + rel@ == rel@);
    }
}

/// The name of a file is the last component of its path; a path that has none,
/// or whose last component is a step up, has no name.
pub proof fn name_is_the_last_component(
    path: &str,
    chars: &[char],
    comps: Vec<Vec<char>>,
    r: Option<String>,
)
    requires
        call_ensures(file_name, (path,), r),
        chars@ == path@,
        call_ensures(split_components, (chars,), comps),
    ensures
        r is Some == (comps@.len() > 0 && comps@.last()@ != seq!['.', '.']),
        r is Some ==> r->0@ == comps@.last()@,
{
    assert(char_views(comps@).len() == comps@.len());
    if comps@.len() > 0 {
        assert(char_views(comps@).last() == comps@.last()@);
    }
}

proof fn lemma_last_dot(name: Seq<char>)
    ensures
        match last_dot(name) {
            Some(i) => 0 <= i < name.len() && name[i] == '.' && forall|j: int|
                i < j < name.len() ==> #[trigger] name[j] != '.',
            None => forall|j: int| 0 <= j < name.len() ==> #[trigger] name[j] != '.',
        },
    decreases name.len(),
{
    if name.len() > 0 && name.last() != '.' {
        let init = name.drop_last();
        lemma_last_dot(init);
        assert forall|j: int| 0 <= j < init.len() implies #[trigger] init[j] == name[j] by {}
        match last_dot(init) {
            Some(i) => {
                assert forall|j: int| i < j < name.len() implies #[trigger] name[j] != '.' by {
                    if j < init.len() {
                        assert(init[j] == name[j]);
                    }
                }
            },
            None => {
                assert forall|j: int| 0 <= j < name.len() implies #[trigger] name[j] != '.' by {
                    if j < init.len() {
                        assert(init[j] == name[j]);
                    }
                }
            },
        }
    }
}

/// The extension of a file is what follows the last dot of its name, where
/// something stands before that dot.
pub proof fn extension_follows_the_last_dot(
    path: &str,
    name: Option<String>,
    r: Option<String>,
)
    requires
        call_ensures(file_name, (path,), name),
        call_ensures(extension, (path,), r),
    ensures
        name is None ==> r is None,
        name is Some ==> {
            let n = name->0@;
            &&& r is Some == (exists|i: int| 0 < i < n.len() && #[trigger] n[i] == '.' && forall|
                j: int,
            |
                i < j < n.len() ==> n[j] != '.')
            &&& r is Some ==> {
                let e = r->0@;
                let i = n.len() - e.len() - 1;
                &&& 0 < i
                &&& n[i] == '.'
                &&& n.skip(i + 1) == e
                &&& forall|j: int| 0 <= j < e.len() ==> #[trigger] e[j] != '.'
            }
        },
{
    if name is Some {
        let n = name->0@;
        lemma_last_dot(n);
        if let Some(i) = last_dot(n) {
            if i > 0 {
                assert(n[i] == '.');
                let e = r->0@;
                assert forall|j: int| 0 <= j < e.len() implies #[trigger] e[j] != '.' by {
                    assert(e[j] == n[i + 1 + j]);
                }
            }
        }
    }
}

/// What a path of the caller stands for: a target that exists, where it lies
/// in the working directory, else its name in its parent, where that is a
/// directory and the two lie in the working directory.
pub proof fn resolved_path_lies_in_the_working_directory(
    workdir: &str,
    input: &str,
    probe: PathProbe,
    there: &str,
    inside: bool,
    r: Result<String, ToolError>,
)
    requires
        call_ensures(resolve_path, (workdir, input, probe), r),
        probe.target is Some ==> there@ == probe.target->0@,
        probe.target is None && r is Ok ==> there@ == r->Ok_0@,
        call_ensures(is_under, (there, workdir), inside),
    ensures
        r is Ok ==> inside && there@ == r->Ok_0@,
        probe.target is Some && inside ==> r is Ok,
        probe.target is Some && !inside ==> r is Err && r->Err_0@ == ToolErrorView::PathEscaped(
            input@,
        ),
        probe.target is None && (probe.parent is None || !probe.parent_is_dir) ==> r is Err,
        r is Err ==> r->Err_0@ == ToolErrorView::PathEscaped(input@) || r->Err_0@
            == ToolErrorView::NotFound(input@),
{
}

/// A target that does not exist yet is its name in the directory that holds
/// it.
pub proof fn new_target_is_named_in_its_parent(
    workdir: &str,
    input: &str,
    probe: PathProbe,
    parent: &str,
    candidate: String,
    whole: &str,
    name: Option<String>,
    short: &str,
    full: String,
    path: &str,
    inside: bool,
    r: Result<String, ToolError>,
)
    requires
        call_ensures(resolve_path, (workdir, input, probe), r),
        probe.target is None,
        probe.parent is Some && parent@ == probe.parent->0@,
        call_ensures(join_path, (workdir, input), candidate),
        whole@ == candidate@,
        call_ensures(file_name, (whole,), name),
        name is Some && short@ == name->0@,
        call_ensures(join_path, (parent, short), full),
        path@ == full@,
        call_ensures(is_under, (path, workdir), inside),
    ensures
        r is Ok == (inside && probe.parent_is_dir),
        r is Ok ==> r->Ok_0@ == full@,
        !inside ==> r->Err_0@ == ToolErrorView::PathEscaped(input@),
        inside && !probe.parent_is_dir ==> r->Err_0@ == ToolErrorView::NotFound(input@),
{
}

proof fn lemma_pieces_joined(parts: Seq<Seq<char>>, c: char)
    requires
        parts.len() > 0,
        forall|i: int| 0 <= i < parts.len() ==> !(#[trigger] parts[i]).contains(c),
    ensures
        pieces(joined(parts, seq![c]), c) == parts,
    decreases parts.len(),
{
    let last = parts.last();
    lemma_index_from(last, c, 0);
    assert(!parts[parts.len() - 1].contains(c));
    assert(pieces(last, c) == seq![last]);
    if parts.len() > 1 {
        let init = parts.drop_last();
        assert forall|i: int| 0 <= i < init.len() implies !(#[trigger] init[i]).contains(c) by {
            assert(init[i] == parts[i]);
        }
        lemma_pieces_joined(init, c);
        let head = joined(init, seq![c]);
        assert(joined(parts, seq![c]) == head.push(c) + last);
        lemma_pieces_concat(head, last, c);
        assert(init + seq![last] == parts);
    } else {
        assert(parts == seq![last]);
    }
}

proof fn lemma_naming_all(parts: Seq<Seq<char>>)
    requires
        forall|i: int| 0 <= i < parts.len() ==> names(#[trigger] parts[i]),
    ensures
        naming(parts) == parts,
    decreases parts.len(),
{
    if parts.len() > 0 {
        let init = parts.drop_last();
        assert forall|i: int| 0 <= i < init.len() implies names(#[trigger] init[i]) by {
            assert(init[i] == parts[i]);
        }
        lemma_naming_all(init);
        assert(names(parts[parts.len() - 1]));
        assert(init.push(parts.last()) == parts);
    }
}

/// Every naming piece is one of the pieces.
pub proof fn lemma_naming_from(parts: Seq<Seq<char>>)
    ensures
        forall|i: int|
            0 <= i < naming(parts).len() ==> names(#[trigger] naming(parts)[i]) && parts.contains(
                naming(parts)[i],
            ),
    decreases parts.len(),
{
    if parts.len() > 0 {
        let init = parts.drop_last();
        lemma_naming_from(init);
        assert forall|i: int| 0 <= i < naming(parts).len() implies names(
            #[trigger] naming(parts)[i],
        ) && parts.contains(naming(parts)[i]) by {
            if i < naming(init).len() {
                assert(naming(parts)[i] == naming(init)[i]);
                let k = choose|k: int| 0 <= k < init.len() && init[k] == naming(init)[i];
                assert(parts[k] == naming(parts)[i]);
            } else {
                assert(parts[parts.len() - 1] == naming(parts)[i]);
            }
        }
    }
}

proof fn lemma_no_slash_in_pieces(s: Seq<char>, c: char)
    ensures
        forall|i: int| 0 <= i < pieces(s, c).len() ==> !(#[trigger] pieces(s, c)[i]).contains(c),
    decreases s.len(),
{
    lemma_index_from(s, c, 0);
    if let Some(k) = index_from(s, c, 0) {
        lemma_no_slash_in_pieces(s.skip(k + 1), c);
        assert forall|i: int| 0 <= i < pieces(s, c).len() implies !(#[trigger] pieces(
            s,
            c,
        )[i]).contains(c) by {
            if i > 0 {
                assert(pieces(s, c)[i] == pieces(s.skip(k + 1), c)[i - 1]);
            }
        }
    }
}

/// The components of joined components are the components.
proof fn lemma_components_again(path: Seq<char>, a: int, b: int)
    requires
        0 <= a <= b <= components(path).len(),
    ensures
        components(joined(components(path).subrange(a, b), seq!['/'])) == components(
            path,
        ).subrange(a, b),
{
    let all = components(path);
    let part = all.subrange(a, b);
    lemma_naming_from(pieces(path, '/'));
    lemma_no_slash_in_pieces(path, '/');
    assert forall|i: int| 0 <= i < part.len() implies names(#[trigger] part[i]) && !part[i].contains(
        '/',
    ) by {
        assert(part[i] == all[a + i]);
        let k = choose|k: int|
            0 <= k < pieces(path, '/').len() && pieces(path, '/')[k] == all[a + i];
        assert(!pieces(path, '/')[k].contains('/'));
    }
    if part.len() > 0 {
        lemma_pieces_joined(part, '/');
        lemma_naming_all(part);
    } else {
        let nothing = Seq::<char>::empty();
        assert(joined(part, seq!['/']) == nothing);
        lemma_index_from(nothing, '/', 0);
        assert(pieces(nothing, '/') == seq![nothing]);
        assert(seq![nothing].drop_last() == Seq::<Seq<char>>::empty());
        reveal_with_fuel(naming, 2);
        assert(naming(seq![nothing]) == part);
    }
}

/// The ways to cut a path in two: the first leaves one component behind, each
/// further one a component more, up to all of them; the two parts together
/// have the components of the path, and the first part starts at the root
/// where the path does.
pub proof fn cuts_of_a_path(path: &str, r: Vec<(String, String)>, j: int)
    requires
        call_ensures(ancestor_splits, (path,), r),
        0 <= j < r@.len(),
    ensures
        r@.len() == components(path@).len(),
        components(r@[j].0@) + components(r@[j].1@) == components(path@),
        components(r@[j].1@).len() == j + 1,
        (r@[j].0@.len() > 0 && r@[j].0@[0] == '/') || path@.len() == 0 || path@[0] != '/',
{
    let all = components(path@);
    let k = all.len() - 1 - j;
    lemma_components_again(path@, 0, k);
    lemma_components_again(path@, k, all.len() as int);
    assert(all.subrange(0, k) == all.take(k));
    assert(all.subrange(k, all.len() as int) == all.skip(k));
    assert(all.take(k) + all.skip(k) == all);
    let body = joined(all.take(k), seq!['/']);
    if is_absolute(path@) {
        let nothing = Seq::<char>::empty();
        assert(r@[j].0@ == nothing.push('/') + body);
        lemma_pieces_concat(nothing, body, '/');
        lemma_index_from(nothing, '/', 0);
        assert(pieces(nothing, '/') == seq![nothing]);
        lemma_naming_concat(seq![nothing], pieces(body, '/'));
        assert(seq![nothing].drop_last() == Seq::<Seq<char>>::empty());
        reveal_with_fuel(naming, 2);
        assert(naming(seq![nothing]) == Seq::<Seq<char>>::empty());
        assert(Seq::<Seq<char>>::empty() + naming(pieces(body, '/')) == naming(pieces(body, '/')));
    }
}

/// A path of which only a beginning exists lies in the working directory
/// exactly where that beginning, with the rest taken from it, does.
pub proof fn missing_path_is_judged_with_its_rest(
    workdir: &str,
    candidate: &str,
    anchor: &str,
    tail: &str,
    full: String,
    path: &str,
    inside: bool,
    r: Result<(), ToolError>,
)
    requires
        call_ensures(assert_within_workdir, (workdir, candidate, anchor, tail), r),
        call_ensures(join_path, (anchor, tail), full),
        path@ == if tail@.len() == 0 {
            anchor@
        } else {
            full@
        },
        call_ensures(is_under, (path, workdir), inside),
    ensures
        r is Ok == inside,
        r is Err ==> r->Err_0@ == ToolErrorView::PathEscaped("path escapes workdir: "@ + candidate@),
{
}

} // verus!
