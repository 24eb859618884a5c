//! Commands that run in the background.
//!
//! The store keeps at most [`MAX_TRACKED_SHELLS`] of them. A further one takes
//! the place of the oldest that has ended or, where none has, of the oldest.

use vstd::prelude::*;
use vstd::string::*;
use crate::ids::{fresh_id, is_id};
use crate::shell::run::labelled;
use crate::text::bytes::{decode_lossy, lossy_text};
use crate::tool::{text_result, RenderIntent, SideEffect, ToolError, ToolErrorView, ToolResult};

verus! {

/// The most background commands the store keeps.
pub const MAX_TRACKED_SHELLS: usize = 128;

/// What has come out of a background command so far.
#[derive(Debug)]
pub struct BackgroundShellStatus {
    pub stdout: String,
    pub stderr: String,
    /// The process has ended.
    pub exited: bool,
    /// How it ended, once it has.
    pub exit_code: Option<i32>,
}

/// One output stream of a background command.
#[derive(Debug)]
pub struct StreamBuffer {
    pub text: String,
    /// Bytes that came so far.
    pub total: usize,
    /// The mark of the cut has been written.
    pub marked: bool,
}

/// A stream with its text as a sequence.
#[verifier::ext_equal]
pub struct StreamView {
    pub text: Seq<char>,
    pub total: int,
    pub marked: bool,
}

impl View for StreamBuffer {
    type V = StreamView;

    open spec fn view(&self) -> StreamView {
        StreamView { text: self.text@, total: self.total as int, marked: self.marked }
    }
}

/// The mark where the text of a stream was cut.
pub open spec fn stream_mark() -> Seq<char> {
    "\n...[output truncated: 超过后台输出上限，进程继续运行]"@
}

/// A stream before anything came.
pub open spec fn empty_stream() -> StreamView {
    StreamView { text: Seq::empty(), total: 0, marked: false }
}

/// The stream after a further chunk. As long as all bytes so far fit in
/// `cap`, the chunk is added; the first chunk that does not fit is replaced by
/// a mark; what comes after that is dropped.
pub open spec fn after_chunk(s: StreamView, chunk: Seq<u8>, cap: int) -> StreamView {
    let sum = s.total + chunk.len();
    let total = if sum > usize::MAX {
        usize::MAX as int
    } else {
        sum
    };
    if total <= cap {
        StreamView { text: s.text + lossy_text(chunk), total, marked: s.marked }
    } else if !s.marked {
        StreamView { text: s.text + stream_mark(), total, marked: true }
    } else {
        StreamView { text: s.text, total, marked: true }
    }
}

impl StreamBuffer {
    /// A stream before anything came.
    pub fn new() -> (r: Self)
        ensures
            r@ == empty_stream(),
    {
        StreamBuffer { text: String::new(), total: 0, marked: false }
    }

    /// Takes a further chunk.
    pub fn push_chunk(&mut self, chunk: &[u8], cap: usize)
        ensures
            final(self)@ == after_chunk(old(self)@, chunk@, cap as int),
    {
        let n: usize = chunk.len();
        let total: usize = if n > usize::MAX - self.total {
            usize::MAX
        } else {
            self.total + n
        };
        self.total = total;
        if total <= cap {
            let piece = decode_lossy(chunk);
            self.text.append(piece.as_str());
        } else if !self.marked {
            self.marked = true;
            self.text.append("\n...[output truncated: 超过后台输出上限，进程继续运行]");
        }
    }
}

/// Once a stream is marked as cut its text never changes again.
pub proof fn cut_stream_stays(s: StreamView, chunk: Seq<u8>, cap: int)
    requires
        s.marked,
        s.total > cap,
        s.total <= usize::MAX,
    ensures
        after_chunk(s, chunk, cap).text == s.text,
        after_chunk(s, chunk, cap).marked,
        after_chunk(s, chunk, cap).total > cap,
{
}

/// One background command.
#[derive(Debug)]
pub struct ShellEntry {
    pub id: String,
    pub stdout: StreamBuffer,
    pub stderr: StreamBuffer,
    pub exit_code: Option<i32>,
    /// Its place in the order of starting.
    pub seq: u64,
    /// Bytes kept of each stream.
    pub cap: usize,
}

/// A background command with its texts as sequences.
#[verifier::ext_equal]
pub struct EntryView {
    pub id: Seq<char>,
    pub stdout: StreamView,
    pub stderr: StreamView,
    pub exit_code: Option<i32>,
    pub seq: u64,
    pub cap: usize,
}

impl View for ShellEntry {
    type V = EntryView;

    open spec fn view(&self) -> EntryView {
        EntryView {
            id: self.id@,
            stdout: self.stdout@,
            stderr: self.stderr@,
            exit_code: self.exit_code,
            seq: self.seq,
            cap: self.cap,
        }
    }
}

/// The commands of a list.
pub open spec fn entry_views(v: Seq<ShellEntry>) -> Seq<EntryView> {
    Seq::new(v.len(), |i: int| v[i]@)
}

/// `a` leaves the store before `b`: one that has ended before one that runs,
/// and else the older one.
pub open spec fn leaves_before(a: EntryView, b: EntryView) -> bool {
    if (a.exit_code is Some) != (b.exit_code is Some) {
        a.exit_code is Some
    } else {
        a.seq < b.seq
    }
}

/// The place of the command that leaves first among the first `n`.
pub open spec fn victim_to(entries: Seq<EntryView>, n: int) -> int
    decreases n,
{
    if n <= 1 {
        0
    } else {
        let v = victim_to(entries, n - 1);
        if leaves_before(entries[n - 1], entries[v]) {
            n - 1
        } else {
            v
        }
    }
}

/// No other command leaves before the one chosen.
pub proof fn victim_leaves_first(entries: Seq<EntryView>, n: int)
    requires
        1 <= n <= entries.len(),
    ensures
        0 <= victim_to(entries, n) < n,
        forall|i: int|
            0 <= i < n ==> !leaves_before(#[trigger] entries[i], entries[victim_to(entries, n)]),
    decreases n,
{
    if n > 1 {
        victim_leaves_first(entries, n - 1);
    }
}

/// A running command leaves only where none has ended.
pub proof fn running_leaves_only_if_all_run(entries: Seq<EntryView>)
    requires
        entries.len() > 0,
        entries[victim_to(entries, entries.len() as int)].exit_code is None,
    ensures
        forall|i: int| 0 <= i < entries.len() ==> (#[trigger] entries[i]).exit_code is None,
{
    victim_leaves_first(entries, entries.len() as int);
    let v = entries[victim_to(entries, entries.len() as int)];
    assert forall|i: int| 0 <= i < entries.len() implies (#[trigger] entries[i]).exit_code is None by {
        assert(!leaves_before(entries[i], v));
    }
}

/// The commands after room has been made for another one.
pub open spec fn with_room(entries: Seq<EntryView>) -> Seq<EntryView> {
    if entries.len() < MAX_TRACKED_SHELLS {
        entries
    } else {
        entries.remove(victim_to(entries, entries.len() as int))
    }
}

/// The place of the command with this id.
pub open spec fn entry_at(entries: Seq<EntryView>, id: Seq<char>) -> Option<int>
    decreases entries.len(),
{
    if entries.len() == 0 {
        None
    } else {
        match entry_at(entries.drop_last(), id) {
            Some(i) => Some(i),
            None => if entries.last().id == id {
                Some(entries.len() - 1)
            } else {
                None
            },
        }
    }
}

/// `entry_at` finds the first command with the id, if there is one.
pub proof fn lemma_entry_at(entries: Seq<EntryView>, id: Seq<char>)
    ensures
        match entry_at(entries, id) {
            Some(i) => 0 <= i < entries.len() && entries[i].id == id && forall|j: int|
                0 <= j < i ==> (#[trigger] entries[j]).id != id,
            None => forall|j: int| 0 <= j < entries.len() ==> (#[trigger] entries[j]).id != id,
        },
    decreases entries.len(),
{
    if entries.len() > 0 {
        let init = entries.drop_last();
        lemma_entry_at(init, id);
        assert forall|j: int| 0 <= j < init.len() implies #[trigger] entries[j] == init[j] by {}
    }
}

/// The list with this command at the end; it replaces one with the same id.
pub open spec fn inserted(entries: Seq<EntryView>, e: EntryView) -> Seq<EntryView> {
    match entry_at(entries, e.id) {
        Some(i) => entries.remove(i).push(e),
        None => entries.push(e),
    }
}

/// The commands are listed in the order in which they started, which is that
/// of their numbers, and every number is below the next one to be given.
pub open spec fn in_start_order(entries: Seq<EntryView>, next: int) -> bool {
    &&& forall|i: int, j: int| 0 <= i < j < entries.len() ==> entries[i].seq < entries[j].seq
    &&& forall|i: int| 0 <= i < entries.len() ==> (#[trigger] entries[i]).seq < next
}

/// Taking a command off the list keeps the order.
proof fn lemma_removed_in_order(entries: Seq<EntryView>, next: int, v: int)
    requires
        in_start_order(entries, next),
        0 <= v < entries.len(),
    ensures
        in_start_order(entries.remove(v), next),
{
    let left = entries.remove(v);
    assert forall|i: int, j: int| 0 <= i < j < left.len() implies left[i].seq < left[j].seq by {
        let i0 = if i < v { i } else { i + 1 };
        let j0 = if j < v { j } else { j + 1 };
        assert(left[i] == entries[i0] && left[j] == entries[j0]);
    }
    assert forall|i: int| 0 <= i < left.len() implies (#[trigger] left[i]).seq < next by {
        let i0 = if i < v { i } else { i + 1 };
        assert(left[i] == entries[i0]);
    }
}

/// A command that starts comes last in the order, with room made for it.
pub proof fn start_keeps_the_order(entries: Seq<EntryView>, fresh: EntryView)
    requires
        in_start_order(entries, fresh.seq as int),
    ensures
        in_start_order(inserted(with_room(entries), fresh), fresh.seq + 1),
{
    let next = fresh.seq as int;
    let room = with_room(entries);
    if entries.len() >= MAX_TRACKED_SHELLS {
        victim_leaves_first(entries, entries.len() as int);
        lemma_removed_in_order(entries, next, victim_to(entries, entries.len() as int));
    }
    lemma_entry_at(room, fresh.id);
    if let Some(i) = entry_at(room, fresh.id) {
        lemma_removed_in_order(room, next, i);
    }
}

/// The command that leaves to make room started before every other of its
/// kind: before all that have ended where one has, else before all.
pub proof fn oldest_of_its_kind_leaves(entries: Seq<EntryView>, next: int)
    requires
        in_start_order(entries, next),
        entries.len() > 0,
    ensures
        ({
            let v = victim_to(entries, entries.len() as int);
            &&& 0 <= v < entries.len()
            &&& entries[v].exit_code is Some == (exists|i: int|
                0 <= i < entries.len() && (#[trigger] entries[i]).exit_code is Some)
            &&& forall|i: int|
                0 <= i < entries.len() && i != v && ((#[trigger] entries[i]).exit_code is Some
                    == entries[v].exit_code is Some) ==> v < i && entries[v].seq < entries[i].seq
        }),
{
    let v = victim_to(entries, entries.len() as int);
    victim_leaves_first(entries, entries.len() as int);
    if exists|i: int| 0 <= i < entries.len() && (#[trigger] entries[i]).exit_code is Some {
        let i = choose|i: int| 0 <= i < entries.len() && (#[trigger] entries[i]).exit_code is Some;
        assert(!leaves_before(entries[i], entries[v]));
    }
    assert forall|i: int|
        0 <= i < entries.len() && i != v && ((#[trigger] entries[i]).exit_code is Some
            == entries[v].exit_code is Some) implies v < i && entries[v].seq < entries[i].seq by {
        assert(!leaves_before(entries[i], entries[v]));
        if i < v {
            assert(entries[i].seq < entries[v].seq);
        } else {
            assert(entries[v].seq < entries[i].seq);
        }
    }
}

/// What the list holds under an id.
pub open spec fn entry_of(entries: Seq<EntryView>, id: Seq<char>) -> Option<EntryView> {
    match entry_at(entries, id) {
        Some(i) => Some(entries[i]),
        None => None,
    }
}

/// No id occurs twice.
pub open spec fn ids_differ(entries: Seq<EntryView>) -> bool {
    forall|i: int, j: int| 0 <= i < j < entries.len() ==> entries[i].id != entries[j].id
}

/// Taking a command off the list leaves what stands under every other id.
proof fn lemma_entry_of_removed(entries: Seq<EntryView>, v: int, id: Seq<char>)
    requires
        ids_differ(entries),
        0 <= v < entries.len(),
    ensures
        ids_differ(entries.remove(v)),
        entry_of(entries.remove(v), id) == if id == entries[v].id {
            None
        } else {
            entry_of(entries, id)
        },
{
    let left = entries.remove(v);
    lemma_entry_at(entries, id);
    lemma_entry_at(left, id);
    assert forall|i: int, j: int| 0 <= i < j < left.len() implies left[i].id != left[j].id by {
        let i0 = if i < v { i } else { i + 1 };
        let j0 = if j < v { j } else { j + 1 };
        assert(left[i] == entries[i0] && left[j] == entries[j0]);
    }
    if let Some(k) = entry_at(left, id) {
        let k0 = if k < v { k } else { k + 1 };
        assert(left[k] == entries[k0]);
        let i = entry_at(entries, id)->0;
        if i != k0 {
            assert(i < k0);
        }
    } else if let Some(i) = entry_at(entries, id) {
        if i != v {
            let i0 = if i < v { i } else { i - 1 };
            assert(left[i0] == entries[i]);
        }
    }
}

/// Starting a command: it is in the store afterwards, as the last one. Every
/// other id stands for what it did before, but for the one command that has
/// to leave where there was no room, which is not found any more. Under a new
/// id the store then holds one command more, up to its limit.
pub proof fn started_command_is_tracked(entries: Seq<EntryView>, fresh: EntryView)
    requires
        entries.len() <= MAX_TRACKED_SHELLS,
        ids_differ(entries),
    ensures
        ({
            let after = inserted(with_room(entries), fresh);
            let full = entries.len() == MAX_TRACKED_SHELLS;
            let v = victim_to(entries, entries.len() as int);
            &&& entry_at(after, fresh.id) == Some(after.len() - 1)
            &&& after.last() == fresh
            &&& after.len() <= MAX_TRACKED_SHELLS
            &&& ids_differ(after)
            &&& full ==> 0 <= v < entries.len()
            &&& forall|id: Seq<char>|
                id != fresh.id ==> #[trigger] entry_of(after, id) == if full && id
                    == entries[v].id {
                    None
                } else {
                    entry_of(entries, id)
                }
            &&& entry_of(entries, fresh.id) is None ==> after == if full {
                entries.remove(v).push(fresh)
            } else {
                entries.push(fresh)
            }
        }),
{
    let full = entries.len() == MAX_TRACKED_SHELLS;
    let v = victim_to(entries, entries.len() as int);
    let room = with_room(entries);
    let after = inserted(room, fresh);
    if full {
        victim_leaves_first(entries, entries.len() as int);
        lemma_entry_of_removed(entries, v, fresh.id);
    }
    let place = entry_at(room, fresh.id);
    lemma_entry_at(room, fresh.id);
    if place is Some {
        lemma_entry_of_removed(room, place->0, fresh.id);
    }
    let rest = after.drop_last();
    assert(rest == if place is Some {
        room.remove(place->0)
    } else {
        room
    });
    lemma_entry_at(rest, fresh.id);
    assert(entry_at(rest, fresh.id) is None);
    assert forall|i: int, j: int| 0 <= i < j < after.len() implies after[i].id != after[j].id by {
        assert(after[i] == rest[i]);
        if j < rest.len() {
            assert(after[j] == rest[j]);
        }
    }
    assert forall|id: Seq<char>| id != fresh.id implies #[trigger] entry_of(after, id) == if full
        && id == entries[v].id {
        None
    } else {
        entry_of(entries, id)
    } by {
        lemma_entry_at(rest, id);
        assert(entry_of(after, id) == entry_of(rest, id));
        if place is Some {
            lemma_entry_of_removed(room, place->0, id);
        }
        if full {
            lemma_entry_of_removed(entries, v, id);
        }
    }
}

/// A command that has just started.
pub open spec fn fresh_entry(id: Seq<char>, seq: u64, cap: usize) -> EntryView {
    EntryView {
        id,
        stdout: empty_stream(),
        stderr: empty_stream(),
        exit_code: None,
        seq,
        cap,
    }
}

/// A command that had to leave the store.
#[derive(Debug)]
pub struct Evicted {
    pub id: String,
    /// It had not ended, so it has to be killed.
    pub running: bool,
}

/// Background commands kept in memory.
#[derive(Debug)]
pub struct InMemoryBackgroundShellStore {
    entries: Vec<ShellEntry>,
    next_seq: u64,
}

impl Default for InMemoryBackgroundShellStore {
    fn default() -> (r: Self)
        ensures
            r.wf(),
            r.in_order(),
            r.entries() == Seq::<EntryView>::empty(),
            r.next_seq() == 0,
    {
        InMemoryBackgroundShellStore::new()
    }
}

impl InMemoryBackgroundShellStore {
    /// The commands in the store, the one that started last at the end.
    pub closed spec fn entries(&self) -> Seq<EntryView> {
        entry_views(self.entries@)
    }

    /// The number that the next command gets.
    pub closed spec fn next_seq(&self) -> u64 {
        self.next_seq
    }

    /// The store keeps to its limit, and no id occurs twice.
    pub open spec fn wf(&self) -> bool {
        &&& self.entries().len() <= MAX_TRACKED_SHELLS
        &&& ids_differ(self.entries())
    }

    /// The commands stand in the order of their numbers. Every operation keeps
    /// this as long as the numbers have not run out.
    pub open spec fn in_order(&self) -> bool {
        in_start_order(self.entries(), self.next_seq() as int)
    }

    /// An empty store.
    pub fn new() -> (r: Self)
        ensures
            r.entries() == Seq::<EntryView>::empty(),
            r.next_seq() == 0,
            r.wf(),
            r.in_order(),
    {
        let r = InMemoryBackgroundShellStore { entries: Vec::new(), next_seq: 0 };
        assert(r.entries() == Seq::<EntryView>::empty());
        r
    }

    /// The number of commands in the store.
    pub fn len(&self) -> (r: usize)
        ensures
            r == self.entries().len(),
    {
        self.entries.len()
    }

    /// The index of the command with the given id.
    fn find(&self, id: &String) -> (r: Option<usize>)
        ensures
            match r {
                Some(i) => entry_at(self.entries(), id@) == Some(i as int),
                None => entry_at(self.entries(), id@) is None,
            },
    {
        proof {
            lemma_entry_at(self.entries(), id@);
        }
        let mut i: usize = 0;
        while i < self.entries.len()
            invariant
                i <= self.entries@.len(),
                forall|j: int| 0 <= j < i ==> (#[trigger] self.entries()[j]).id != id@,
            decreases self.entries@.len() - i,
        {
            assert(self.entries()[i as int] == self.entries@[i as int]@);
            if self.entries[i].id == *id {
                proof {
                    lemma_entry_at(self.entries(), id@);
                }
                return Some(i);
            }
            i = i + 1;
        }
        None
    }

    /// Makes room for another command. What had to leave for it is returned.
    pub fn evict_oldest(&mut self) -> (r: Option<Evicted>)
        requires
            old(self).wf(),
        ensures
            final(self).wf(),
            old(self).in_order() ==> final(self).in_order(),
            final(self).entries() == with_room(old(self).entries()),
            final(self).entries().len() < MAX_TRACKED_SHELLS,
            final(self).next_seq() == old(self).next_seq(),
            r is None == (old(self).entries().len() < MAX_TRACKED_SHELLS),
            r is Some ==> {
                let v = old(self).entries()[victim_to(
                    old(self).entries(),
                    old(self).entries().len() as int,
                )];
                &&& r->0.id@ == v.id
                &&& r->0.running == (v.exit_code is None)
            },
    {
        if self.entries.len() < MAX_TRACKED_SHELLS {
            return None;
        }
        let ghost all = self.entries();
        let mut v: usize = 0;
        let mut n: usize = 1;
        while n < self.entries.len()
            invariant
                1 <= n <= self.entries@.len(),
                all == self.entries(),
                v == victim_to(all, n as int),
                v < n,
            decreases self.entries@.len() - n,
        {
            let a = &self.entries[n];
            let b = &self.entries[v];
            assert(all[n as int] == a@ && all[v as int] == b@);
            let first = if a.exit_code.is_some() != b.exit_code.is_some() {
                a.exit_code.is_some()
            } else {
                a.seq < b.seq
            };
            if first {
                v = n;
            }
            n = n + 1;
        }
        assert(all[v as int] == self.entries@[v as int]@);
        let gone = self.entries.remove(v);
        assert(self.entries() == all.remove(v as int));
        proof {
            let left = self.entries();
            assert forall|i: int, j: int| 0 <= i < j < left.len() implies left[i].id
                != left[j].id by {
                let i0 = if i < v { i } else { i + 1 };
                let j0 = if j < v { j } else { j + 1 };
                assert(left[i] == all[i0] && left[j] == all[j0]);
            }
            if old(self).in_order() {
                lemma_removed_in_order(all, self.next_seq() as int, v as int);
            }
        }
        Some(Evicted { running: gone.exit_code.is_none(), id: gone.id })
    }

    /// Takes up a command that has just started, under a given id. What had
    /// to leave for it is returned.
    pub fn register(&mut self, shell_id: String, max_output_bytes: usize) -> (r: Option<Evicted>)
        requires
            old(self).wf(),
        ensures
            final(self).wf(),
            old(self).in_order() && old(self).next_seq() < u64::MAX ==> final(self).in_order(),
            final(self).entries() == inserted(
                with_room(old(self).entries()),
                fresh_entry(shell_id@, old(self).next_seq(), max_output_bytes),
            ),
            final(self).next_seq() == (if old(self).next_seq() == u64::MAX {
                0
            } else {
                (old(self).next_seq() + 1) as u64
            }),
            r is None == (old(self).entries().len() < MAX_TRACKED_SHELLS),
            r is Some ==> {
                let v = old(self).entries()[victim_to(
                    old(self).entries(),
                    old(self).entries().len() as int,
                )];
                &&& r->0.id@ == v.id
                &&& r->0.running == (v.exit_code is None)
            },
    {
        let seq: u64 = self.next_seq;
        self.next_seq = if seq == u64::MAX {
            0
        } else {
            seq + 1
        };
        let gone = self.evict_oldest();
        let ghost room = self.entries();
        proof {
            lemma_entry_at(room, shell_id@);
        }
        let place = self.find(&shell_id);
        let entry = ShellEntry {
            id: shell_id,
            stdout: StreamBuffer::new(),
            stderr: StreamBuffer::new(),
            exit_code: None,
            seq,
            cap: max_output_bytes,
        };
        let ghost e = entry@;
        if let Some(i) = place {
            self.entries.remove(i);
            assert(self.entries() == room.remove(i as int));
        }
        let ghost rest = self.entries();
        self.entries.push(entry);
        assert(self.entries() == rest.push(e));
        proof {
            if old(self).in_order() && seq < u64::MAX {
                start_keeps_the_order(old(self).entries(), e);
            }
            if let Some(i) = place {
                assert forall|j: int| 0 <= j < rest.len() implies (#[trigger] rest[j]).id
                    != e.id by {
                    let j0 = if j < i { j } else { j + 1 };
                    assert(rest[j] == room[j0]);
                }
                assert forall|j: int, k: int| 0 <= j < k < rest.len() implies rest[j].id
                    != rest[k].id by {
                    let j0 = if j < i { j } else { j + 1 };
                    let k0 = if k < i { k } else { k + 1 };
                    assert(rest[j] == room[j0] && rest[k] == room[k0]);
                }
            }
        }
        gone
    }

    /// Takes up a command that has just started, under a fresh id.
    pub fn spawn(&mut self, max_output_bytes: usize) -> (r: (String, Option<Evicted>))
        requires
            old(self).wf(),
        ensures
            final(self).wf(),
            is_id(r.0@),
            old(self).in_order() && old(self).next_seq() < u64::MAX ==> final(self).in_order(),
            final(self).entries() == inserted(
                with_room(old(self).entries()),
                fresh_entry(r.0@, old(self).next_seq(), max_output_bytes),
            ),
            final(self).next_seq() == (if old(self).next_seq() == u64::MAX {
                0
            } else {
                (old(self).next_seq() + 1) as u64
            }),
            r.1 is None == (old(self).entries().len() < MAX_TRACKED_SHELLS),
            r.1 is Some ==> {
                let v = old(self).entries()[victim_to(
                    old(self).entries(),
                    old(self).entries().len() as int,
                )];
                &&& r.1->0.id@ == v.id
                &&& r.1->0.running == (v.exit_code is None)
            },
    {
        let id = fresh_id();
        let name = id.clone();
        let gone = self.register(id, max_output_bytes);
        (name, gone)
    }

    /// What has come out of a command so far.
    pub fn output(&self, shell_id: String) -> (r: Result<BackgroundShellStatus, ToolError>)
        ensures
            match entry_at(self.entries(), shell_id@) {
                None => r is Err && r->Err_0@ == ToolErrorView::NotFound(shell_id@),
                Some(i) => {
                    let e = self.entries()[i];
                    &&& r is Ok
                    &&& r->Ok_0.stdout@ == e.stdout.text
                    &&& r->Ok_0.stderr@ == e.stderr.text
                    &&& r->Ok_0.exit_code == e.exit_code
                    &&& r->Ok_0.exited == (e.exit_code is Some)
                },
            },
    {
        proof {
            lemma_entry_at(self.entries(), shell_id@);
        }
        match self.find(&shell_id) {
            None => Err(ToolError::NotFound(shell_id)),
            Some(i) => {
                assert(self.entries()[i as int] == self.entries@[i as int]@);
                let e = &self.entries[i];
                Ok(
                    BackgroundShellStatus {
                        stdout: e.stdout.text.clone(),
                        stderr: e.stderr.text.clone(),
                        exited: e.exit_code.is_some(),
                        exit_code: e.exit_code,
                    },
                )
            },
        }
    }

    /// Whether the process of a command has to be killed to end it; one that
    /// has ended is left alone.
    pub fn kill(&self, shell_id: String) -> (r: Result<bool, ToolError>)
        ensures
            match entry_at(self.entries(), shell_id@) {
                None => r is Err && r->Err_0@ == ToolErrorView::NotFound(shell_id@),
                Some(i) => r == Ok::<bool, ToolError>(self.entries()[i].exit_code is None),
            },
    {
        proof {
            lemma_entry_at(self.entries(), shell_id@);
        }
        match self.find(&shell_id) {
            None => Err(ToolError::NotFound(shell_id)),
            Some(i) => {
                assert(self.entries()[i as int] == self.entries@[i as int]@);
                Ok(self.entries[i].exit_code.is_none())
            },
        }
    }

    /// Records that the process of a command has ended. A process ended by a
    /// signal has no exit code; -1 stands for it.
    pub fn record_exit(&mut self, shell_id: &String, code: Option<i32>)
        requires
            old(self).wf(),
        ensures
            final(self).wf(),
            old(self).in_order() ==> final(self).in_order(),
            final(self).next_seq() == old(self).next_seq(),
            final(self).entries() == (match entry_at(old(self).entries(), shell_id@) {
                None => old(self).entries(),
                Some(i) => old(self).entries().update(
                    i,
                    EntryView {
                        exit_code: Some(
                            match code {
                                Some(c) => c,
                                None => -1i32,
                            },
                        ),
                        ..old(self).entries()[i]
                    },
                ),
            }),
    {
        let ghost all = self.entries();
        proof {
            lemma_entry_at(all, shell_id@);
        }
        if let Some(i) = self.find(shell_id) {
            let c: i32 = match code {
                Some(c) => c,
                None => -1,
            };
            assert(all[i as int] == self.entries@[i as int]@);
            self.entries[i].exit_code = Some(c);
            assert(self.entries() == all.update(
                i as int,
                EntryView { exit_code: Some(c), ..all[i as int] },
            ));
        }
    }

    /// Takes a further chunk of a command's output or, with `is_stderr`, of
    /// its errors. A command that is not in the store any more is ignored.
    pub fn push_chunk(&mut self, shell_id: &String, is_stderr: bool, chunk: &[u8])
        requires
            old(self).wf(),
        ensures
            final(self).wf(),
            old(self).in_order() ==> final(self).in_order(),
            final(self).next_seq() == old(self).next_seq(),
            final(self).entries() == (match entry_at(old(self).entries(), shell_id@) {
                None => old(self).entries(),
                Some(i) => {
                    let e = old(self).entries()[i];
                    old(self).entries().update(
                        i,
                        if is_stderr {
                            EntryView { stderr: after_chunk(e.stderr, chunk@, e.cap as int), ..e }
                        } else {
                            EntryView { stdout: after_chunk(e.stdout, chunk@, e.cap as int), ..e }
                        },
                    )
                },
            }),
    {
        let ghost all = self.entries();
        proof {
            lemma_entry_at(all, shell_id@);
        }
        if let Some(i) = self.find(shell_id) {
            let cap: usize = self.entries[i].cap;
            assert(all[i as int] == self.entries@[i as int]@);
            let ghost e = all[i as int];
            if is_stderr {
                self.entries[i].stderr.push_chunk(chunk, cap);
                assert(self.entries() == all.update(
                    i as int,
                    EntryView { stderr: after_chunk(e.stderr, chunk@, cap as int), ..e },
                ));
            } else {
                self.entries[i].stdout.push_chunk(chunk, cap);
                assert(self.entries() == all.update(
                    i as int,
                    EntryView { stdout: after_chunk(e.stdout, chunk@, cap as int), ..e },
                ));
            }
        }
    }
}

/// Why a command could not be started.
#[derive(Debug)]
pub enum StartFailure {
    /// The sandbox could not be set up.
    SandboxRefused(String),
    SpawnFailed(String),
    /// The process runs, but its sandbox could not be completed.
    PostSpawnFailed(String),
    StdoutLost,
    StderrLost,
}

/// What the caller is told of a command that could not be started.
pub open spec fn start_error(why: StartFailure) -> ToolErrorView {
    ToolErrorView::Exec(
        match why {
            StartFailure::SandboxRefused(e) => "sandbox apply failed: "@ + e@,
            StartFailure::SpawnFailed(e) => "spawn 失败: "@ + e@,
            StartFailure::PostSpawnFailed(e) => "sandbox post_spawn failed: "@ + e@,
            StartFailure::StdoutLost => "stdout pipe 丢失"@,
            StartFailure::StderrLost => "stderr pipe 丢失"@,
        },
    )
}

/// What is still to be done to the process, and the error of the call.
#[derive(Debug)]
pub struct StartRefusal {
    /// Kill the process.
    pub kill_child: bool,
    pub error: ToolError,
}

/// The `shell.background` tool.
#[derive(Debug, Clone, Copy, Default)]
pub struct ShellBackground {}

impl ShellBackground {
    pub fn new() -> Self {
        ShellBackground {  }
    }

    pub fn name(&self) -> (r: &'static str)
        ensures
            r@ == "shell.background"@,
    {
        "shell.background"
    }

    pub fn side_effect(&self) -> (r: SideEffect)
        ensures
            r == SideEffect::Command,
    {
        SideEffect::Command
    }

    /// The command to start; a call without one is refused.
    pub fn command(&self, command: Option<String>) -> (r: Result<String, ToolError>)
        ensures
            match command {
                Some(c) => r is Ok && r->Ok_0@ == c@,
                None => r is Err && r->Err_0@ == ToolErrorView::InvalidInput("command 缺失"@),
            },
    {
        match command {
            Some(c) => Ok(c),
            None => Err(ToolError::InvalidInput("command 缺失".to_owned())),
        }
    }

    /// What follows where a command could not be started. One whose sandbox
    /// could not be completed is killed.
    pub fn start_failed(&self, why: StartFailure) -> (r: StartRefusal)
        ensures
            r.error@ == start_error(why),
            r.kill_child == (why is PostSpawnFailed),
    {
        let kill_child = match why {
            StartFailure::PostSpawnFailed(_) => true,
            _ => false,
        };
        let text = match why {
            StartFailure::SandboxRefused(e) => labelled("sandbox apply failed: ", e),
            StartFailure::SpawnFailed(e) => labelled("spawn 失败: ", e),
            StartFailure::PostSpawnFailed(e) => labelled("sandbox post_spawn failed: ", e),
            StartFailure::StdoutLost => "stdout pipe 丢失".to_owned(),
            StartFailure::StderrLost => "stderr pipe 丢失".to_owned(),
        };
        StartRefusal { kill_child, error: ToolError::Exec(text) }
    }

    /// What the caller is told of a command that has started.
    pub fn started(&self, shell_id: &str) -> (r: ToolResult)
        ensures
            r@ == text_result(
                "后台 shell 已启动 (shell_id="@ + shell_id@ + ")。用 shell.output 读取输出。"@,
                false,
            ),
    {
        let mut s = "后台 shell 已启动 (shell_id=".to_owned();
        s.append(shell_id);
        s.append(")。用 shell.output 读取输出。");
        ToolResult::ok_text(s)
    }
}

/// The id in a call that has to name a command.
fn required_id(shell_id: Option<String>) -> (r: Result<String, ToolError>)
    ensures
        match shell_id {
            Some(c) => r is Ok && r->Ok_0@ == c@,
            None => r is Err && r->Err_0@ == ToolErrorView::InvalidInput("shell_id 缺失"@),
        },
{
    match shell_id {
        Some(c) => Ok(c),
        None => Err(ToolError::InvalidInput("shell_id 缺失".to_owned())),
    }
}

/// The `shell.output` tool.
#[derive(Debug, Clone, Copy, Default)]
pub struct ShellOutput {}

impl ShellOutput {
    pub fn new() -> Self {
        ShellOutput {  }
    }

    pub fn name(&self) -> (r: &'static str)
        ensures
            r@ == "shell.output"@,
    {
        "shell.output"
    }

    pub fn side_effect(&self) -> (r: SideEffect)
        ensures
            r == SideEffect::Nothing,
    {
        SideEffect::Nothing
    }

    /// The texts whose secrets have to be hidden before they are shown: what
    /// the command has written as output and as errors.
    pub fn texts_to_hide(&self, store: &InMemoryBackgroundShellStore, shell_id: Option<String>) -> (r:
        Option<(String, String)>)
        ensures
            match r {
                Some(t) => shell_id is Some && (match entry_at(
                    store.entries(),
                    shell_id->0@,
                ) {
                    Some(i) => t.0@ == store.entries()[i].stdout.text && t.1@
                        == store.entries()[i].stderr.text,
                    None => false,
                }),
                None => shell_id is None || entry_at(store.entries(), shell_id->0@) is None,
            },
    {
        match shell_id {
            None => None,
            Some(id) => match store.output(id) {
                Err(_) => None,
                Ok(s) => Some((s.stdout, s.stderr)),
            },
        }
    }

    /// What has come out of a command so far; `stdout` and `stderr` are the
    /// texts that `texts_to_hide` names, with their secrets hidden.
    pub fn execute(
        &self,
        store: &InMemoryBackgroundShellStore,
        shell_id: Option<String>,
        stdout: String,
        stderr: String,
    ) -> (r: Result<BackgroundShellStatus, ToolError>)
        ensures
            shell_id is None ==> r is Err && r->Err_0@ == ToolErrorView::InvalidInput(
                "shell_id 缺失"@,
            ),
            shell_id is Some ==> match entry_at(store.entries(), shell_id->0@) {
                None => r is Err && r->Err_0@ == ToolErrorView::NotFound(shell_id->0@),
                Some(i) => {
                    let e = store.entries()[i];
                    &&& r is Ok
                    &&& r->Ok_0.stdout@ == stdout@
                    &&& r->Ok_0.stderr@ == stderr@
                    &&& r->Ok_0.exit_code == e.exit_code
                    &&& r->Ok_0.exited == (e.exit_code is Some)
                },
            },
    {
        let id = match required_id(shell_id) {
            Ok(id) => id,
            Err(e) => {
                return Err(e);
            },
        };
        match store.output(id) {
            Err(e) => Err(e),
            Ok(s) => Ok(
                BackgroundShellStatus {
                    stdout,
                    stderr,
                    exited: s.exited,
                    exit_code: s.exit_code,
                },
            ),
        }
    }

    /// The result is shown as structured data.
    pub fn render_output(&self, status: &BackgroundShellStatus) -> (r: RenderIntent)
        ensures
            r is Json,
    {
        RenderIntent::Json
    }
}

/// The `shell.kill` tool.
#[derive(Debug, Clone, Copy, Default)]
pub struct ShellKill {}

impl ShellKill {
    pub fn new() -> Self {
        ShellKill {  }
    }

    pub fn name(&self) -> (r: &'static str)
        ensures
            r@ == "shell.kill"@,
    {
        "shell.kill"
    }

    pub fn side_effect(&self) -> (r: SideEffect)
        ensures
            r == SideEffect::Command,
    {
        SideEffect::Command
    }

    /// What the caller is told, and whether the process has to be killed for
    /// it to be true.
    pub fn execute(&self, store: &InMemoryBackgroundShellStore, shell_id: Option<String>) -> (r:
        Result<(ToolResult, bool), ToolError>)
        ensures
            shell_id is None ==> r is Err && r->Err_0@ == ToolErrorView::InvalidInput(
                "shell_id 缺失"@,
            ),
            shell_id is Some ==> match entry_at(store.entries(), shell_id->0@) {
                None => r is Err && r->Err_0@ == ToolErrorView::NotFound(shell_id->0@),
                Some(i) => {
                    &&& r is Ok
                    &&& r->Ok_0.0@ == text_result("后台 shell 已终止"@, false)
                    &&& r->Ok_0.1 == (store.entries()[i].exit_code is None)
                },
            },
    {
        let id = match required_id(shell_id) {
            Ok(id) => id,
            Err(e) => {
                return Err(e);
            },
        };
        match store.kill(id) {
            Err(e) => Err(e),
            Ok(must_kill) => Ok((ToolResult::ok_text("后台 shell 已终止".to_owned()), must_kill)),
        }
    }
}

/// A chunk is added behind the text so far where all bytes so far fit; the
/// first that does not fit leaves the mark behind the text in its place, and
/// after that nothing is added. Every byte is counted.
pub proof fn chunk_goes_behind_the_text(stream: &mut StreamBuffer, chunk: &[u8], cap: usize)
    requires
        call_ensures(StreamBuffer::push_chunk, (stream, chunk, cap), ()),
    ensures
        ({
            let before = *old(stream);
            let after = *final(stream);
            let fits = before.total + chunk@.len() <= cap || cap == usize::MAX;
            let mark = "\n...[output truncated: 超过后台输出上限，进程继续运行]"@;
            &&& after.text@.len() >= before.text@.len()
            &&& after.text@.take(before.text@.len() as int) == before.text@
            &&& after.text@.skip(before.text@.len() as int) == if fits {
                lossy_text(chunk@)
            } else if before.marked {
                Seq::<char>::empty()
            } else {
                mark
            }
            &&& after.marked == (before.marked || !fits)
            &&& before.total + chunk@.len() <= usize::MAX ==> after.total == before.total
                + chunk@.len()
        }),
{
    let a = old(stream).text@;
    let b = final(stream).text@;
    assert(b.take(a.len() as int) == a);
    assert((a + lossy_text(chunk@)).skip(a.len() as int) == lossy_text(chunk@));
    assert((a + stream_mark()).skip(a.len() as int) == stream_mark());
    assert(a.skip(a.len() as int) == Seq::<char>::empty());
}

/// The stream after chunks in order, from the start.
pub open spec fn after_chunks(chunks: Seq<Seq<u8>>, cap: int) -> StreamView
    decreases chunks.len(),
{
    if chunks.len() == 0 {
        empty_stream()
    } else {
        after_chunk(after_chunks(chunks.drop_last(), cap), chunks.last(), cap)
    }
}

/// The texts of chunks one after the other.
pub open spec fn texts_of(chunks: Seq<Seq<u8>>) -> Seq<char> {
    chunks.map_values(|c: Seq<u8>| lossy_text(c)).flatten()
}

proof fn lemma_texts_push(chunks: Seq<Seq<u8>>, c: Seq<u8>)
    ensures
        texts_of(chunks.push(c)) == texts_of(chunks) + lossy_text(c),
        chunks.push(c).flatten() == chunks.flatten() + c,
{
    let f = |c: Seq<u8>| lossy_text(c);
    assert(chunks.push(c).map_values(f) == chunks.map_values(f).push(lossy_text(c)));
    chunks.map_values(f).lemma_flatten_push(lossy_text(c));
    chunks.lemma_flatten_push(c);
}

/// As long as all bytes fit, a stream holds the texts of all its chunks, one
/// after the other.
pub proof fn stream_holds_every_chunk_that_fits(chunks: Seq<Seq<u8>>, cap: int)
    requires
        chunks.flatten().len() <= cap <= usize::MAX,
    ensures
        after_chunks(chunks, cap).text == texts_of(chunks),
        after_chunks(chunks, cap).total == chunks.flatten().len(),
        !after_chunks(chunks, cap).marked,
    decreases chunks.len(),
{
    if chunks.len() > 0 {
        let init = chunks.drop_last();
        assert(chunks == init.push(chunks.last()));
        lemma_texts_push(init, chunks.last());
        stream_holds_every_chunk_that_fits(init, cap);
    } else {
        assert(texts_of(chunks) == Seq::<char>::empty());
    }
}

/// Once the bytes do not fit, a stream holds the texts of the chunks before
/// the first that did not, and the mark behind them.
pub proof fn stream_stops_at_the_first_chunk_too_many(chunks: Seq<Seq<u8>>, k: int, cap: int)
    requires
        0 <= k < chunks.len(),
        chunks.take(k).flatten().len() <= cap <= usize::MAX,
        chunks.take(k + 1).flatten().len() > cap,
        chunks.flatten().len() <= usize::MAX,
    ensures
        after_chunks(chunks, cap).text == texts_of(chunks.take(k))
            + "\n...[output truncated: 超过后台输出上限，进程继续运行]"@,
        after_chunks(chunks, cap).marked,
        after_chunks(chunks, cap).total > cap,
    decreases chunks.len(),
{
    let init = chunks.drop_last();
    assert(chunks == init.push(chunks.last()));
    lemma_texts_push(init, chunks.last());
    if k == chunks.len() - 1 {
        assert(chunks.take(k) == init);
        assert(chunks.take(k + 1) == chunks);
        stream_holds_every_chunk_that_fits(init, cap);
    } else {
        assert(init.take(k) == chunks.take(k));
        assert(init.take(k + 1) == chunks.take(k + 1));
        stream_stops_at_the_first_chunk_too_many(init, k, cap);
    }
}

proof fn lemma_entry_of_updated(entries: Seq<EntryView>, at: int, e: EntryView, id: Seq<char>)
    requires
        ids_differ(entries),
        0 <= at < entries.len(),
        e.id == entries[at].id,
    ensures
        entry_of(entries.update(at, e), id) == if id == e.id {
            Some(e)
        } else {
            entry_of(entries, id)
        },
{
    let now = entries.update(at, e);
    lemma_entry_at(entries, id);
    lemma_entry_at(now, id);
    if let Some(i) = entry_at(now, id) {
        assert(now[i].id == entries[i].id);
        if i != at && id == e.id {
            assert(entries[i].id != entries[at].id);
        }
        let k = entry_at(entries, id)->0;
        if k != i {
            assert(entries[k].id == entries[i].id);
            assert(now[k].id == id);
        }
    } else {
        if id == e.id {
            assert(now[at].id == id);
        }
        if let Some(k) = entry_at(entries, id) {
            assert(now[k].id == id);
        }
    }
}

/// What a command writes is read back: a chunk that fits stands behind what
/// was read before, in the stream it came on, and neither the other stream nor
/// any other command changes.
pub proof fn written_chunk_is_read_back(
    store: &mut InMemoryBackgroundShellStore,
    shell_id: &String,
    is_stderr: bool,
    chunk: &[u8],
    other: String,
    before: Result<BackgroundShellStatus, ToolError>,
    after: Result<BackgroundShellStatus, ToolError>,
)
    requires
        old(store).wf(),
        call_ensures(
            InMemoryBackgroundShellStore::push_chunk,
            (store, shell_id, is_stderr, chunk),
            (),
        ),
        call_ensures(InMemoryBackgroundShellStore::output, (&*old(store), other), before),
        call_ensures(InMemoryBackgroundShellStore::output, (&*final(store), other), after),
    ensures
        after is Ok == before is Ok,
        before is Ok ==> {
            let a = before->Ok_0;
            let b = after->Ok_0;
            let e = entry_of(old(store).entries(), other@)->0;
            let total = if is_stderr {
                e.stderr.total
            } else {
                e.stdout.total
            };
            &&& a.exit_code == b.exit_code && a.exited == b.exited
            &&& other@ != shell_id@ || is_stderr ==> b.stdout@ == a.stdout@
            &&& other@ != shell_id@ || !is_stderr ==> b.stderr@ == a.stderr@
            &&& other@ == shell_id@ && total + chunk@.len() <= e.cap ==> if is_stderr {
                b.stderr@ == a.stderr@ + lossy_text(chunk@)
            } else {
                b.stdout@ == a.stdout@ + lossy_text(chunk@)
            }
        },
{
    let all = old(store).entries();
    lemma_entry_at(all, shell_id@);
    if let Some(i) = entry_at(all, shell_id@) {
        let e = final(store).entries()[i];
        lemma_entry_of_updated(all, i, e, other@);
    }
}

/// A command whose end was recorded has ended, with its code or, where a
/// signal ended it, with -1; its output stays, and no other command changes.
pub proof fn recorded_end_is_read_back(
    store: &mut InMemoryBackgroundShellStore,
    shell_id: &String,
    code: Option<i32>,
    other: String,
    before: Result<BackgroundShellStatus, ToolError>,
    after: Result<BackgroundShellStatus, ToolError>,
    kill: Result<bool, ToolError>,
)
    requires
        old(store).wf(),
        call_ensures(InMemoryBackgroundShellStore::record_exit, (store, shell_id, code), ()),
        call_ensures(InMemoryBackgroundShellStore::output, (&*old(store), other), before),
        call_ensures(InMemoryBackgroundShellStore::output, (&*final(store), other), after),
        call_ensures(InMemoryBackgroundShellStore::kill, (&*final(store), other), kill),
    ensures
        after is Ok == before is Ok,
        kill is Ok == before is Ok,
        before is Ok ==> {
            let a = before->Ok_0;
            let b = after->Ok_0;
            &&& b.stdout@ == a.stdout@
            &&& b.stderr@ == a.stderr@
            &&& other@ != shell_id@ ==> b.exit_code == a.exit_code
            &&& other@ == shell_id@ && code is Some ==> b.exit_code == code
            &&& other@ == shell_id@ && code is None ==> b.exit_code == Some(-1i32)
            &&& b.exited == b.exit_code is Some
            &&& kill->Ok_0 == !b.exited
        },
{
    let all = old(store).entries();
    lemma_entry_at(all, shell_id@);
    if let Some(i) = entry_at(all, shell_id@) {
        let e = final(store).entries()[i];
        lemma_entry_of_updated(all, i, e, other@);
    }
}

/// A command that was just started is found under its id, has written nothing
/// and runs; every other command but the one that had to leave is found as it
/// was, and that one is named and not found any more.
pub proof fn started_command_is_found(
    store: &mut InMemoryBackgroundShellStore,
    cap: usize,
    started: (String, Option<Evicted>),
    id: String,
    before: Result<BackgroundShellStatus, ToolError>,
    after: Result<BackgroundShellStatus, ToolError>,
)
    requires
        old(store).wf(),
        call_ensures(InMemoryBackgroundShellStore::spawn, (store, cap), started),
        call_ensures(InMemoryBackgroundShellStore::output, (&*old(store), id), before),
        call_ensures(InMemoryBackgroundShellStore::output, (&*final(store), id), after),
    ensures
        id@ == started.0@ ==> {
            &&& after is Ok
            &&& after->Ok_0.stdout@.len() == 0
            &&& after->Ok_0.stderr@.len() == 0
            &&& !after->Ok_0.exited
            &&& entry_of(final(store).entries(), id@) matches Some(e)
            &&& e.cap == cap
            &&& e.stdout.total == 0 && e.stderr.total == 0
            &&& !e.stdout.marked && !e.stderr.marked
        },
        id@ != started.0@ && started.1 is Some && id@ == started.1->0.id@ ==> {
            &&& before is Ok
            &&& after is Err
            &&& started.1->0.running == !before->Ok_0.exited
        },
        id@ != started.0@ && (started.1 is None || id@ != started.1->0.id@) ==> {
            &&& after is Ok == before is Ok
            &&& before is Ok ==> {
                &&& after->Ok_0.stdout@ == before->Ok_0.stdout@
                &&& after->Ok_0.stderr@ == before->Ok_0.stderr@
                &&& after->Ok_0.exit_code == before->Ok_0.exit_code
            }
        },
        started.1 is Some == (old(store).entries().len() == 128),
        final(store).entries().len() <= 128,
{
    let all = old(store).entries();
    let fresh = fresh_entry(started.0@, old(store).next_seq(), cap);
    started_command_is_tracked(all, fresh);
    lemma_entry_at(final(store).entries(), id@);
    lemma_entry_at(all, id@);
    let v = victim_to(all, all.len() as int);
    if all.len() == MAX_TRACKED_SHELLS {
        if id@ == all[v].id {
            let k = entry_at(all, id@)->0;
            if k != v {
                assert(all[k].id == all[v].id);
            }
        }
    }
    assert(entry_of(final(store).entries(), id@) == entry_of(final(store).entries(), id@));
}

/// The command that leaves is the one that started first of those that have
/// ended or, where none has, of all: no command that started before it has
/// ended, and none that started after it leaves in its place.
pub proof fn oldest_command_leaves(
    store: &mut InMemoryBackgroundShellStore,
    r: Option<Evicted>,
)
    requires
        old(store).wf(),
        old(store).in_order(),
        call_ensures(InMemoryBackgroundShellStore::evict_oldest, (store,), r),
    ensures
        r is None ==> final(store).entries() == old(store).entries(),
        r is Some ==> exists|v: int| #![trigger old(store).entries()[v]]
            {
                let all = old(store).entries();
                &&& 0 <= v < all.len()
                &&& r->0.id@ == all[v].id
                &&& final(store).entries() == all.remove(v)
                &&& forall|i: int| 0 <= i < v ==> (#[trigger] all[i]).exit_code is None
                &&& all[v].exit_code is None ==> v == 0 && forall|i: int|
                    0 <= i < all.len() ==> (#[trigger] all[i]).exit_code is None
            },
{
    let all = old(store).entries();
    if r is Some {
        oldest_of_its_kind_leaves(all, old(store).next_seq() as int);
        let v = victim_to(all, all.len() as int);
        assert forall|i: int| 0 <= i < v implies (#[trigger] all[i]).exit_code is None by {
            if all[i].exit_code is Some {
                assert(all[v].exit_code is Some);
            }
        }
        if all[v].exit_code is None {
            if v != 0 {
                assert(all[0].exit_code is None);
            }
        }
        assert(all[v] == all[v]);
    }
}

/// What is shown of a command's output is what hiding its secrets gave of
/// exactly the texts it wrote.
pub proof fn shown_output_was_hidden(
    tool: &ShellOutput,
    store: &InMemoryBackgroundShellStore,
    id: String,
    status: Result<BackgroundShellStatus, ToolError>,
    to_hide: Option<(String, String)>,
    stdout: String,
    stderr: String,
    shown: Result<BackgroundShellStatus, ToolError>,
)
    requires
        call_ensures(InMemoryBackgroundShellStore::output, (store, id), status),
        call_ensures(ShellOutput::texts_to_hide, (tool, store, Some(id)), to_hide),
        call_ensures(ShellOutput::execute, (tool, store, Some(id), stdout, stderr), shown),
    ensures
        status is Ok == to_hide is Some,
        status is Ok == shown is Ok,
        status is Ok ==> {
            &&& to_hide matches Some((out, err))
            &&& out@ == status->Ok_0.stdout@
            &&& err@ == status->Ok_0.stderr@
            &&& shown->Ok_0.stdout@ == stdout@
            &&& shown->Ok_0.stderr@ == stderr@
            &&& shown->Ok_0.exit_code == status->Ok_0.exit_code
            &&& shown->Ok_0.exited == status->Ok_0.exited
        },
        status is Err ==> shown->Err_0@ == status->Err_0@,
{
}

/// A chunk that does not fit is not read back: the first in its place leaves
/// the mark, and further ones leave nothing.
pub proof fn chunk_too_many_leaves_a_mark(
    store: &mut InMemoryBackgroundShellStore,
    shell_id: &String,
    chunk: &[u8],
    id: String,
    before: Result<BackgroundShellStatus, ToolError>,
    after: Result<BackgroundShellStatus, ToolError>,
)
    requires
        old(store).wf(),
        id@ == shell_id@,
        call_ensures(InMemoryBackgroundShellStore::push_chunk, (store, shell_id, false, chunk), ()),
        call_ensures(InMemoryBackgroundShellStore::output, (&*old(store), id), before),
        call_ensures(InMemoryBackgroundShellStore::output, (&*final(store), id), after),
        before is Ok,
        entry_of(old(store).entries(), id@)->0.cap < usize::MAX,
        entry_of(old(store).entries(), id@)->0.stdout.total + chunk@.len() > entry_of(
            old(store).entries(),
            id@,
        )->0.cap,
    ensures
        after is Ok,
        after->Ok_0.stdout@ == if entry_of(old(store).entries(), id@)->0.stdout.marked {
            before->Ok_0.stdout@
        } else {
            before->Ok_0.stdout@
                + "\n...[output truncated: 超过后台输出上限，进程继续运行]"@
        },
        entry_of(final(store).entries(), id@)->0.stdout.marked,
        entry_of(final(store).entries(), id@)->0.stdout.total > entry_of(
            final(store).entries(),
            id@,
        )->0.cap,
{
    let all = old(store).entries();
    lemma_entry_at(all, shell_id@);
    if let Some(i) = entry_at(all, shell_id@) {
        let e = final(store).entries()[i];
        lemma_entry_of_updated(all, i, e, id@);
    }
}

/// A command that runs has to be killed, one that has ended is left alone, and
/// one that is not known is told as such.
pub proof fn running_commands_alone_are_killed(
    tool: &ShellKill,
    store: &InMemoryBackgroundShellStore,
    id: String,
    status: Result<BackgroundShellStatus, ToolError>,
    r: Result<(ToolResult, bool), ToolError>,
)
    requires
        call_ensures(InMemoryBackgroundShellStore::output, (store, id), status),
        call_ensures(ShellKill::execute, (tool, store, Some(id)), r),
    ensures
        r is Ok == status is Ok,
        r matches Ok((told, must)) ==> must == !status->Ok_0.exited && !told.is_error,
        r is Err ==> r->Err_0@ == ToolErrorView::NotFound(id@),
{
}

} // verus!
