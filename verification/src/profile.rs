//! Per-pass timing: which query slots a pass writes, when a frame is reported, and how the ticks of a
//! frame are grouped into a table.

use crate::bytes::word_of;
use crate::text::{push_decimal, same};
use crate::transfer::{bytes_of_words, ByteOrder};
use vstd::prelude::*;
use vstd::string::{StrSliceExecFns, StringExecFns};

verus! {

/// How many passes one frame can be timed for.
///
/// The sort is one pass per stage, and there are `m * (m + 1) / 2` stages for `2^m` keys. With four
/// more passes, this covers every swarm up to 2^21 keys.
pub const MAX_TIMED_PASSES: usize = 256;

/// The characters of each label.
pub open spec fn label_texts(labels: Seq<&'static str>) -> Seq<Seq<char>> {
    Seq::new(labels.len(), |i: int| labels[i]@)
}

/// What a pass gets when it starts.
#[derive(Debug, Clone, Copy, PartialEq, Eq, Structural)]
pub enum PassSlot {
    /// The queries that the pass writes at its beginning and at its end.
    Timed {
        /// Query written at the beginning.
        begin: u32,
        /// Query written at the end.
        end: u32,
    },
    /// No queries are left in this frame.
    Untimed {
        /// Whether this has not happened before, and deserves a warning.
        first: bool,
    },
}

/// The queries of the pass that comes after `n` others.
pub open spec fn timed_slot(n: nat) -> PassSlot {
    PassSlot::Timed { begin: (2 * n) as u32, end: (2 * n + 1) as u32 }
}

/// Which passes of a frame are timed, and which frames are reported.
#[derive(Debug)]
pub struct PassRecorder {
    labels: Vec<&'static str>,
    capacity: usize,
    frames: u64,
    interval: u64,
    overflowed: bool,
}

/// The state of a recorder.
pub struct RecorderView {
    /// Labels of the passes recorded this frame, in slot order.
    pub labels: Seq<Seq<char>>,
    /// Passes that one frame can be timed for.
    pub capacity: nat,
    /// Frames finished so far.
    pub frames: nat,
    /// A report is due every this many frames.
    pub interval: nat,
    /// Whether a frame has run out of slots before.
    pub overflowed: bool,
}

impl View for PassRecorder {
    type V = RecorderView;

    closed spec fn view(&self) -> RecorderView {
        RecorderView {
            labels: label_texts(self.labels@),
            capacity: self.capacity as nat,
            frames: self.frames as nat,
            interval: self.interval as nat,
            overflowed: self.overflowed,
        }
    }
}

impl RecorderView {
    /// The invariant: slots and interval are positive, and no frame has more passes than slots.
    pub open spec fn wf(self) -> bool {
        &&& 0 < self.capacity <= MAX_TIMED_PASSES
        &&& 0 < self.interval
        &&& self.labels.len() <= self.capacity
    }
}

impl PassRecorder {
    /// A recorder for `capacity` passes per frame that reports every `interval` frames, both moved into
    /// the range that makes sense.
    pub fn new(capacity: usize, interval: u64) -> (recorder: PassRecorder)
        ensures
            recorder@.wf(),
            recorder@ == (RecorderView {
                labels: Seq::empty(),
                capacity: if capacity < 1 {
                    1
                } else if capacity > MAX_TIMED_PASSES {
                    MAX_TIMED_PASSES as nat
                } else {
                    capacity as nat
                },
                frames: 0,
                interval: if interval < 1 {
                    1
                } else {
                    interval as nat
                },
                overflowed: false,
            }),
    {
        let labels: Vec<&'static str> = Vec::new();
        assert(label_texts(labels@) =~= Seq::<Seq<char>>::empty());
        PassRecorder {
            labels,
            capacity: if capacity < 1 {
                1
            } else if capacity > MAX_TIMED_PASSES {
                MAX_TIMED_PASSES
            } else {
                capacity
            },
            frames: 0,
            interval: if interval < 1 {
                1
            } else {
                interval
            },
            overflowed: false,
        }
    }

    /// Queries in the set: two per slot.
    pub fn query_count(&self) -> (n: u32)
        requires
            self@.wf(),
        ensures
            n == 2 * self@.capacity,
    {
        self.capacity as u32 * 2
    }

    /// Starts a timed pass. Once the slots of the frame are used up, the pass runs untimed: a partial
    /// profile beats a corrupted query set.
    pub fn begin_pass(&mut self, label: &'static str) -> (slot: PassSlot)
        requires
            old(self)@.wf(),
        ensures
            final(self)@.wf(),
            old(self)@.labels.len() < old(self)@.capacity ==> {
                &&& slot == timed_slot(old(self)@.labels.len())
                &&& final(self)@ == (RecorderView {
                    labels: old(self)@.labels.push(label@),
                    ..old(self)@
                })
            },
            old(self)@.labels.len() >= old(self)@.capacity ==> {
                &&& slot == (PassSlot::Untimed { first: !old(self)@.overflowed })
                &&& final(self)@ == (RecorderView { overflowed: true, ..old(self)@ })
            },
    {
        let slot: usize = self.labels.len();
        let ghost before = label_texts(self.labels@);
        if slot >= self.capacity {
            let first = !self.overflowed;
            self.overflowed = true;
            return PassSlot::Untimed { first };
        }
        self.labels.push(label);
        assert(label_texts(self.labels@) =~= before.push(label@));
        let begin: u32 = slot as u32 * 2;
        PassSlot::Timed { begin, end: begin + 1 }
    }

    /// How many passes have been recorded this frame.
    pub fn recorded_passes(&self) -> (n: usize)
        ensures
            n == self@.labels.len(),
    {
        self.labels.len()
    }

    /// How many queries of this frame have to be resolved.
    pub fn resolve_count(&self) -> (n: u32)
        requires
            self@.wf(),
        ensures
            n == 2 * self@.labels.len(),
    {
        self.labels.len() as u32 * 2
    }

    /// Ends a frame and gives its labels out if the frame is to be reported: if it timed anything and
    /// its turn has come. The next frame starts with no passes either way.
    pub fn finish_frame(&mut self) -> (report: Option<Vec<&'static str>>)
        requires
            old(self)@.wf(),
            old(self)@.frames < u64::MAX,
        ensures
            final(self)@.wf(),
            final(self)@ == (RecorderView {
                labels: Seq::empty(),
                frames: old(self)@.frames + 1,
                ..old(self)@
            }),
            match report {
                Some(labels) => {
                    &&& label_texts(labels@) == old(self)@.labels
                    &&& old(self)@.labels.len() > 0
                    &&& (old(self)@.frames + 1) % old(self)@.interval == 0
                },
                None => old(self)@.labels.len() == 0 || (old(self)@.frames + 1)
                    % old(self)@.interval != 0,
            },
    {
        let mut labels: Vec<&'static str> = Vec::new();
        assert(label_texts(labels@) =~= Seq::<Seq<char>>::empty());
        std::mem::swap(&mut labels, &mut self.labels);
        self.frames = self.frames + 1;
        if labels.len() == 0 {
            return None;
        }
        if self.frames % self.interval != 0 {
            return None;
        }
        Some(labels)
    }
}

/// No two passes of a frame write the same query, every pass begins and ends with queries of its own, and
/// every query is in the set.
pub proof fn law_slots_do_not_overlap(a: nat, b: nat, capacity: nat)
    requires
        a < capacity <= MAX_TIMED_PASSES,
        b < capacity,
    ensures
        timed_slot(a)->begin != timed_slot(b)->end,
        timed_slot(a)->begin == timed_slot(b)->begin ==> a == b,
        timed_slot(a)->end == timed_slot(b)->end ==> a == b,
        timed_slot(a)->begin < timed_slot(a)->end < 2 * capacity,
{
}

/// The bytes of a timestamp, most significant byte first.
pub open spec fn be64(v: u64) -> Seq<u8> {
    crate::bytes::be32((v / 0x1_0000_0000) as u32) + crate::bytes::be32((v % 0x1_0000_0000) as u32)
}

/// The bytes of a timestamp in a byte order.
pub open spec fn tick_bytes(tick: u64, order: ByteOrder) -> Seq<u8> {
    match order {
        ByteOrder::LeastFirst => be64(tick).reverse(),
        ByteOrder::MostFirst => be64(tick),
    }
}

/// Whether `ticks` are the timestamps in a buffer, all of them in one byte order. Bytes that do not make
/// up a whole timestamp are left out.
pub open spec fn holds_ticks(view: Seq<u8>, ticks: Seq<u64>, order: ByteOrder) -> bool {
    &&& ticks.len() == view.len() / 8
    &&& forall|i: int|
        0 <= i < ticks.len() ==> view.subrange(8 * i, 8 * i + 8) == tick_bytes(
            #[trigger] ticks[i],
            order,
        )
}

/// A byte order leaves no choice: a buffer holds one row of timestamps in it.
pub proof fn law_a_byte_order_decides_the_timestamps(
    view: Seq<u8>,
    a: Seq<u64>,
    b: Seq<u64>,
    order: ByteOrder,
)
    requires
        holds_ticks(view, a, order),
        holds_ticks(view, b, order),
    ensures
        a == b,
{
    assert forall|i: int| 0 <= i < a.len() implies a[i] == b[i] by {
        let (x, y) = (a[i], b[i]);
        assert(tick_bytes(x, order) == tick_bytes(y, order));
        assert(be64(x).reverse().reverse() =~= be64(x));
        assert(be64(y).reverse().reverse() =~= be64(y));
        assert(be64(x) == be64(y));
        let none = Seq::<u8>::empty();
        let (p, q) = ((x / 0x1_0000_0000) as u32, (x % 0x1_0000_0000) as u32);
        let (r, s) = ((y / 0x1_0000_0000) as u32, (y % 0x1_0000_0000) as u32);
        crate::bytes::law_be32_reads_back(p, none, crate::bytes::be32(q));
        crate::bytes::law_be32_reads_back(r, none, crate::bytes::be32(s));
        crate::bytes::law_be32_reads_back(q, crate::bytes::be32(p), none);
        crate::bytes::law_be32_reads_back(s, crate::bytes::be32(r), none);
        assert(none + crate::bytes::be32(p) + crate::bytes::be32(q) =~= be64(x));
        assert(none + crate::bytes::be32(r) + crate::bytes::be32(s) =~= be64(y));
        assert(crate::bytes::be32(p) + crate::bytes::be32(q) + none =~= be64(x));
        assert(crate::bytes::be32(r) + crate::bytes::be32(s) + none =~= be64(y));
    }
    assert(a =~= b);
}

/// The timestamp whose eight bytes start at `at`.
fn tick_at(view: &[u8], at: usize, order: ByteOrder) -> (tick: u64)
    requires
        at + 8 <= view.len(),
    ensures
        view@.subrange(at as int, at as int + 8) == tick_bytes(tick, order),
{
    let (high, low): (u32, u32) = match order {
        ByteOrder::LeastFirst => (
            word_of(view[at + 7], view[at + 6], view[at + 5], view[at + 4]),
            word_of(view[at + 3], view[at + 2], view[at + 1], view[at]),
        ),
        ByteOrder::MostFirst => (
            word_of(view[at], view[at + 1], view[at + 2], view[at + 3]),
            word_of(view[at + 4], view[at + 5], view[at + 6], view[at + 7]),
        ),
    };
    let tick: u64 = high as u64 * 0x1_0000_0000 + low as u64;
    proof {
        assert(tick / 0x1_0000_0000 == high);
        assert(tick % 0x1_0000_0000 == low);
        assert(be64(tick) == crate::bytes::be32(high) + crate::bytes::be32(low));
        assert(view@.subrange(at as int, at as int + 8) =~= tick_bytes(tick, order));
    }
    tick
}

/// Decodes the timestamps in a buffer that holds them in the given byte order.
pub fn decode_ticks_in(view: &[u8], order: ByteOrder) -> (ticks: Vec<u64>)
    ensures
        holds_ticks(view@, ticks@, order),
{
    let mut ticks: Vec<u64> = Vec::new();
    let mut at: usize = 0;
    while view.len() - at >= 8
        invariant
            at <= view@.len(),
            at == 8 * ticks@.len(),
            forall|i: int|
                0 <= i < ticks@.len() ==> view@.subrange(8 * i, 8 * i + 8) == tick_bytes(
                    #[trigger] ticks@[i],
                    order,
                ),
        decreases view@.len() - at,
    {
        ticks.push(tick_at(view, at, order));
        at += 8;
    }
    ticks
}

/// Decodes the timestamps in a buffer that was read back, in the byte order of the machine. Which of the
/// two orders that is, is left open; it is the same for every timestamp.
pub fn decode_ticks(view: &[u8]) -> (ticks: Vec<u64>)
    ensures
        exists|order: ByteOrder| #[trigger] holds_ticks(view@, ticks@, order),
{
    let mut word: Vec<u32> = Vec::new();
    word.push(1);
    assert(word@ =~= seq![1u32]);
    decode_ticks_in(view, ByteOrder::of_one(&bytes_of_words(&word)))
}

/// The ticks that a pass took. A clock that ran backwards counts as none.
pub open spec fn elapsed(begin: u64, end: u64) -> u64 {
    if end < begin {
        0
    } else {
        (end - begin) as u64
    }
}

/// The ticks of each of `passes` passes, as far as there are pairs of timestamps for them.
pub open spec fn spec_pass_ticks(passes: nat, ticks: Seq<u64>) -> Seq<u64> {
    let n = if passes * 2 <= ticks.len() {
        passes
    } else {
        ticks.len() / 2
    };
    Seq::new(n, |i: int| elapsed(ticks[2 * i], ticks[2 * i + 1]))
}

/// The ticks of each pass, from the timestamps at its beginning and its end.
pub fn pass_ticks(passes: usize, ticks: &[u64]) -> (out: Vec<u64>)
    ensures
        out@ == spec_pass_ticks(passes as nat, ticks@),
        forall|i: int|
            0 <= i < out@.len() && ticks@[2 * i] <= ticks@[2 * i + 1] ==> ticks@[2 * i]
                + #[trigger] out@[i] == ticks@[2 * i + 1],
{
    let mut out: Vec<u64> = Vec::new();
    let mut i: usize = 0;
    while i < passes && i < ticks.len() / 2
        invariant
            i <= passes,
            i <= ticks@.len() / 2,
            out@.len() == i,
            forall|k: int|
                0 <= k < i ==> #[trigger] out@[k] == elapsed(ticks@[2 * k], ticks@[2 * k + 1]),
        decreases passes - i,
    {
        let begin: u64 = ticks[2 * i];
        let end: u64 = ticks[2 * i + 1];
        out.push(
            if end < begin {
                0
            } else {
                end - begin
            },
        );
        i += 1;
    }
    assert(out@ =~= spec_pass_ticks(passes as nat, ticks@));
    out
}

/// The beginning of a pass and the ticks reported for it make up its end; a pass that seems to end before
/// it begins is reported as none. Every pass with two timestamps is reported, and no other.
pub proof fn law_a_beginning_and_its_ticks_make_the_end(passes: nat, ticks: Seq<u64>, i: int)
    ensures
        spec_pass_ticks(passes, ticks).len() <= passes,
        2 * spec_pass_ticks(passes, ticks).len() <= ticks.len(),
        spec_pass_ticks(passes, ticks).len() == passes || 2 * spec_pass_ticks(passes, ticks).len() + 2
            > ticks.len(),
        0 <= i < spec_pass_ticks(passes, ticks).len() ==> {
            &&& ticks[2 * i] <= ticks[2 * i + 1] ==> ticks[2 * i] + spec_pass_ticks(passes, ticks)[i]
                == ticks[2 * i + 1]
            &&& ticks[2 * i] >= ticks[2 * i + 1] ==> spec_pass_ticks(passes, ticks)[i] == 0
        },
{
}

/// A pass writes the two queries behind those of the passes before it: the first when it begins, the
/// second when it ends.
pub proof fn law_passes_write_their_queries_in_order(n: nat)
    requires
        n < 256,
    ensures
        timed_slot(n) == (PassSlot::Timed { begin: (n + n) as u32, end: (n + n + 1) as u32 }),
{
}

/// A timestamp is the number that its eight bytes make up: each weighs 256 times what its neighbour does,
/// the first least or most, as the byte order has it.
pub proof fn law_a_timestamp_is_what_its_bytes_make_up(
    view: Seq<u8>,
    ticks: Seq<u64>,
    order: ByteOrder,
    i: int,
)
    requires
        holds_ticks(view, ticks, order),
        0 <= i < ticks.len(),
    ensures
        8 * ticks.len() <= view.len() < 8 * ticks.len() + 8,
        order == ByteOrder::MostFirst ==> ticks[i] == view[8 * i] * 0x100_0000_0000_0000 + view[8 * i
            + 1] * 0x1_0000_0000_0000 + view[8 * i + 2] * 0x100_0000_0000 + view[8 * i + 3]
            * 0x1_0000_0000 + view[8 * i + 4] * 0x100_0000 + view[8 * i + 5] * 0x1_0000 + view[8 * i
            + 6] * 0x100 + view[8 * i + 7],
        order == ByteOrder::LeastFirst ==> ticks[i] == view[8 * i + 7] * 0x100_0000_0000_0000
            + view[8 * i + 6] * 0x1_0000_0000_0000 + view[8 * i + 5] * 0x100_0000_0000 + view[8 * i
            + 4] * 0x1_0000_0000 + view[8 * i + 3] * 0x100_0000 + view[8 * i + 2] * 0x1_0000 + view[8
            * i + 1] * 0x100 + view[8 * i],
{
    let t = ticks[i];
    let b = view.subrange(8 * i, 8 * i + 8);
    assert(b == tick_bytes(t, order));
    let (high, low) = ((t / 0x1_0000_0000) as u32, (t % 0x1_0000_0000) as u32);
    crate::bytes::law_be32_puts_the_heaviest_byte_first(high);
    crate::bytes::law_be32_puts_the_heaviest_byte_first(low);
    assert(t == high * 0x1_0000_0000 + low);
    let (h, l) = (crate::bytes::be32(high), crate::bytes::be32(low));
    assert(be64(t) == h + l);
    assert(view[8 * i] == b[0] && view[8 * i + 1] == b[1] && view[8 * i + 2] == b[2]);
    assert(view[8 * i + 3] == b[3] && view[8 * i + 4] == b[4] && view[8 * i + 5] == b[5]);
    assert(view[8 * i + 6] == b[6] && view[8 * i + 7] == b[7]);
    if order == ByteOrder::MostFirst {
        assert(b[0] == h[0] && b[1] == h[1] && b[2] == h[2] && b[3] == h[3]);
        assert(b[4] == l[0] && b[5] == l[1] && b[6] == l[2] && b[7] == l[3]);
    } else {
        assert(b[7] == h[0] && b[6] == h[1] && b[5] == h[2] && b[4] == h[3]);
        assert(b[3] == l[0] && b[2] == l[1] && b[1] == l[2] && b[0] == l[3]);
    }
}

/// The passes of one name within a frame.
#[derive(Debug)]
pub struct PassGroup {
    /// The passes' label.
    pub label: &'static str,
    /// The ticks of each of them, in order.
    pub ticks: Vec<u64>,
}

/// The view of a group: its label and the ticks of its passes.
pub type GroupView = (Seq<char>, Seq<u64>);

impl View for PassGroup {
    type V = GroupView;

    open spec fn view(&self) -> GroupView {
        (self.label@, self.ticks@)
    }
}

/// The views of groups.
pub open spec fn group_views(groups: Seq<PassGroup>) -> Seq<GroupView> {
    Seq::new(groups.len(), |i: int| groups[i]@)
}

/// The place of a label among groups: the first group that bears it, or the end.
pub open spec fn place(groups: Seq<GroupView>, label: Seq<char>) -> int
    decreases groups.len(),
{
    if groups.len() == 0 || groups[0].0 == label {
        0
    } else {
        1 + place(groups.skip(1), label)
    }
}

/// Groups with one more pass in them: in the group of its label, or in a new one at the end.
pub open spec fn with_pass(groups: Seq<GroupView>, label: Seq<char>, ticks: u64) -> Seq<GroupView> {
    let i = place(groups, label);
    if i < groups.len() {
        groups.update(i, (label, groups[i].1.push(ticks)))
    } else {
        groups.push((label, seq![ticks]))
    }
}

/// The first `n` passes grouped by label, in the order in which the labels first appear.
pub open spec fn grouped(labels: Seq<Seq<char>>, ticks: Seq<u64>, n: int) -> Seq<GroupView>
    decreases n,
{
    if n <= 0 {
        Seq::empty()
    } else {
        with_pass(grouped(labels, ticks, n - 1), labels[n - 1], ticks[n - 1])
    }
}

proof fn lemma_place(groups: Seq<GroupView>, label: Seq<char>, i: int)
    requires
        0 <= i <= groups.len(),
        forall|k: int| 0 <= k < i ==> (#[trigger] groups[k]).0 != label,
        i < groups.len() ==> groups[i].0 == label,
    ensures
        place(groups, label) == i,
    decreases groups.len(),
{
    if groups.len() > 0 && groups[0].0 != label {
        let rest = groups.skip(1);
        assert forall|k: int| 0 <= k < i - 1 implies (#[trigger] rest[k]).0 != label by {
            assert(rest[k] == groups[k + 1]);
        }
        if i < groups.len() {
            assert(rest[i - 1] == groups[i]);
        }
        lemma_place(rest, label, i - 1);
    }
}

proof fn lemma_place_is(groups: Seq<GroupView>, label: Seq<char>)
    ensures
        0 <= place(groups, label) <= groups.len(),
        forall|k: int| 0 <= k < place(groups, label) ==> (#[trigger] groups[k]).0 != label,
        place(groups, label) < groups.len() ==> groups[place(groups, label)].0 == label,
    decreases groups.len(),
{
    if groups.len() > 0 && groups[0].0 != label {
        let rest = groups.skip(1);
        lemma_place_is(rest, label);
        assert forall|k: int| 0 <= k < place(groups, label) implies (#[trigger] groups[k]).0 != label by {
            if k > 0 {
                assert(rest[k - 1] == groups[k]);
            }
        }
        if place(groups, label) < groups.len() {
            assert(rest[place(rest, label)] == groups[place(groups, label)]);
        }
    }
}

/// Groups the passes of a frame by label, in the order in which the labels first appear.
///
/// The sort alone is some hundred passes of one name, which nobody reads as a hundred rows.
pub fn group_passes(labels: &Vec<&'static str>, ticks: &Vec<u64>) -> (groups: Vec<PassGroup>)
    requires
        ticks@.len() <= labels@.len(),
    ensures
        group_views(groups@) == grouped(label_texts(labels@), ticks@, ticks@.len() as int),
{
    let mut groups: Vec<PassGroup> = Vec::new();
    let mut n: usize = 0;
    assert(group_views(groups@) =~= Seq::<GroupView>::empty());
    while n < ticks.len()
        invariant
            n <= ticks@.len() <= labels@.len(),
            group_views(groups@) == grouped(label_texts(labels@), ticks@, n as int),
        decreases ticks@.len() - n,
    {
        let label: &'static str = labels[n];
        assert(label_texts(labels@)[n as int] == label@);
        let ghost before = group_views(groups@);
        let mut i: usize = 0;
        while i < groups.len() && !same(groups[i].label, label)
            invariant
                i <= groups@.len(),
                before == group_views(groups@),
                forall|k: int| 0 <= k < i ==> (#[trigger] before[k]).0 != label@,
            decreases groups@.len() - i,
        {
            assert(before[i as int].0 == groups@[i as int].label@);
            i += 1;
        }
        if i < groups.len() {
            let mut group = groups.remove(i);
            group.ticks.push(ticks[n]);
            groups.insert(i, group);
            proof {
                assert(before[i as int].0 == label@);
                lemma_place(before, label@, i as int);
                assert(group_views(groups@) =~= with_pass(before, label@, ticks@[n as int]));
            }
        } else {
            let mut first: Vec<u64> = Vec::new();
            first.push(ticks[n]);
            groups.push(PassGroup { label, ticks: first });
            proof {
                lemma_place(before, label@, i as int);
                assert(first@ =~= seq![ticks@[n as int]]);
                assert(group_views(groups@) =~= with_pass(before, label@, ticks@[n as int]));
            }
        }
        n += 1;
    }
    groups
}

/// The number of passes in groups.
pub open spec fn pass_count(groups: Seq<GroupView>) -> nat
    decreases groups.len(),
{
    if groups.len() == 0 {
        0
    } else {
        pass_count(groups.drop_last()) + groups.last().1.len()
    }
}

proof fn lemma_pass_count_update(groups: Seq<GroupView>, i: int, group: GroupView)
    requires
        0 <= i < groups.len(),
    ensures
        pass_count(groups.update(i, group)) == pass_count(groups) - groups[i].1.len() + group.1.len(),
    decreases groups.len(),
{
    let updated = groups.update(i, group);
    if i == groups.len() - 1 {
        assert(updated.drop_last() =~= groups.drop_last());
    } else {
        lemma_pass_count_update(groups.drop_last(), i, group);
        assert(updated.drop_last() =~= groups.drop_last().update(i, group));
    }
}

/// The ticks of those of the first `n` passes that bear a label, in order.
pub open spec fn ticks_of(labels: Seq<Seq<char>>, ticks: Seq<u64>, n: int, label: Seq<char>) -> Seq<u64>
    decreases n,
{
    if n <= 0 {
        Seq::empty()
    } else if labels[n - 1] == label {
        ticks_of(labels, ticks, n - 1, label).push(ticks[n - 1])
    } else {
        ticks_of(labels, ticks, n - 1, label)
    }
}

proof fn lemma_grouping_counts(labels: Seq<Seq<char>>, ticks: Seq<u64>, n: int)
    requires
        0 <= n <= labels.len(),
        n <= ticks.len(),
    ensures
        pass_count(grouped(labels, ticks, n)) == n,
        forall|i: int, j: int|
            0 <= i < j < grouped(labels, ticks, n).len() ==> (#[trigger] grouped(labels, ticks, n)[i]).0
                != (#[trigger] grouped(labels, ticks, n)[j]).0,
    decreases n,
{
    if n > 0 {
        lemma_grouping_counts(labels, ticks, n - 1);
        let before = grouped(labels, ticks, n - 1);
        let label = labels[n - 1];
        let i = place(before, label);
        lemma_place_is(before, label);
        let after = grouped(labels, ticks, n);
        if i < before.len() {
            lemma_pass_count_update(before, i, (label, before[i].1.push(ticks[n - 1])));
            assert forall|a: int, b: int| 0 <= a < b < after.len() implies (#[trigger] after[a]).0
                != (#[trigger] after[b]).0 by {
                assert(before[a].0 != before[b].0);
            }
        } else {
            assert(after.drop_last() =~= before);
            assert forall|a: int, b: int| 0 <= a < b < after.len() implies (#[trigger] after[a]).0
                != (#[trigger] after[b]).0 by {
                assert(after[a] == before[a]);
                if b < before.len() {
                    assert(after[b] == before[b]);
                    assert(before[a].0 != before[b].0);
                }
            }
        }
    }
}

/// Whether a label is borne by one of the groups.
pub open spec fn is_grouped(groups: Seq<GroupView>, label: Seq<char>) -> bool {
    exists|i: int| 0 <= i < groups.len() && (#[trigger] groups[i]).0 == label
}

proof fn lemma_groups_hold(labels: Seq<Seq<char>>, ticks: Seq<u64>, n: int)
    requires
        0 <= n <= labels.len(),
        n <= ticks.len(),
    ensures
        forall|i: int|
            0 <= i < grouped(labels, ticks, n).len() ==> (#[trigger] grouped(labels, ticks, n)[i]).1
                == ticks_of(labels, ticks, n, grouped(labels, ticks, n)[i].0),
        forall|i: int|
            0 <= i < grouped(labels, ticks, n).len() ==> (#[trigger] grouped(labels, ticks, n)[i]).1.len()
                > 0,
        forall|label: Seq<char>|
            !is_grouped(grouped(labels, ticks, n), label) ==> #[trigger] ticks_of(
                labels,
                ticks,
                n,
                label,
            ) == Seq::<u64>::empty(),
        forall|k: int| 0 <= k < n ==> is_grouped(grouped(labels, ticks, n), #[trigger] labels[k]),
    decreases n,
{
    if n > 0 {
        lemma_groups_hold(labels, ticks, n - 1);
        lemma_grouping_counts(labels, ticks, n - 1);
        let (before, after) = (grouped(labels, ticks, n - 1), grouped(labels, ticks, n));
        let label = labels[n - 1];
        let at = place(before, label);
        lemma_place_is(before, label);
        if at < before.len() {
            assert(before[at].0 == label);
        } else {
            assert(!is_grouped(before, label));
        }
        assert(after[at].0 == label);
        assert forall|i: int| 0 <= i < after.len() implies (#[trigger] after[i]).1 == ticks_of(
            labels,
            ticks,
            n,
            after[i].0,
        ) by {
            if i == at {
                assert(ticks_of(labels, ticks, n - 1, label) == (if at < before.len() {
                    before[at].1
                } else {
                    Seq::<u64>::empty()
                }));
                assert(after[i].1 =~= ticks_of(labels, ticks, n - 1, label).push(ticks[n - 1]));
            } else {
                assert(after[i] == before[i]);
                assert(before[i].0 != label);
            }
        }
        assert forall|l: Seq<char>| is_grouped(before, l) implies is_grouped(after, l) by {
            let i = choose|i: int| 0 <= i < before.len() && (#[trigger] before[i]).0 == l;
            assert(after[i].0 == l);
        }
        assert forall|l: Seq<char>| !is_grouped(after, l) implies #[trigger] ticks_of(
            labels,
            ticks,
            n,
            l,
        ) == Seq::<u64>::empty() by {
            assert(!is_grouped(before, l));
            assert(ticks_of(labels, ticks, n - 1, l) == Seq::<u64>::empty());
            assert(l != label);
        }
        assert forall|k: int| 0 <= k < n implies is_grouped(after, #[trigger] labels[k]) by {
            if k < n - 1 {
                assert(is_grouped(before, labels[k]));
            }
        }
    }
}

/// Grouping loses no pass and mixes none up: there is one group for every label that occurs and no
/// other, and it holds the ticks of the passes of that label, in order.
pub proof fn law_grouping_keeps_every_pass(labels: Seq<Seq<char>>, ticks: Seq<u64>, n: int)
    requires
        0 <= n <= labels.len(),
        n <= ticks.len(),
    ensures
        pass_count(grouped(labels, ticks, n)) == n,
        forall|i: int, j: int|
            0 <= i < j < grouped(labels, ticks, n).len() ==> (#[trigger] grouped(labels, ticks, n)[i]).0
                != (#[trigger] grouped(labels, ticks, n)[j]).0,
        forall|i: int|
            0 <= i < grouped(labels, ticks, n).len() ==> (#[trigger] grouped(labels, ticks, n)[i]).1
                == ticks_of(labels, ticks, n, grouped(labels, ticks, n)[i].0),
        forall|i: int|
            0 <= i < grouped(labels, ticks, n).len() ==> (#[trigger] grouped(labels, ticks, n)[i]).1.len()
                > 0,
        forall|k: int| 0 <= k < n ==> is_grouped(grouped(labels, ticks, n), #[trigger] labels[k]),
{
    lemma_grouping_counts(labels, ticks, n);
    lemma_groups_hold(labels, ticks, n);
}

/// Spaces in a row.
pub open spec fn spaces(n: int) -> Seq<char> {
    Seq::new(
        if n < 0 {
            0
        } else {
            n as nat
        },
        |i: int| ' ',
    )
}

/// A text moved to the left of a column; a longer one sticks out.
pub open spec fn left(text: Seq<char>, width: int) -> Seq<char> {
    text + spaces(width - text.len())
}

/// A text moved to the right of a column; a longer one sticks out.
pub open spec fn right(text: Seq<char>, width: int) -> Seq<char> {
    spaces(width - text.len()) + text
}

fn push_spaces(out: &mut String, len: usize, width: usize)
    ensures
        final(out)@ == old(out)@ + spaces(width - len),
{
    let mut n: usize = len;
    assert(out@ =~= old(out)@ + spaces(0));
    while n < width
        invariant
            len <= n,
            n <= width || n == len,
            out@ == old(out)@ + spaces(n - len),
        decreases width - n,
    {
        out.push(' ');
        assert(spaces(n + 1 - len) =~= spaces(n - len).push(' '));
        assert(out@ =~= old(out)@ + spaces(n + 1 - len));
        n += 1;
    }
    assert(spaces(width - len) =~= spaces(n - len));
}

fn push_left(out: &mut String, text: &str, width: usize)
    ensures
        final(out)@ == old(out)@ + left(text@, width as int),
{
    out.append(text);
    push_spaces(out, text.unicode_len(), width);
    assert(out@ =~= old(out)@ + left(text@, width as int));
}

fn push_right(out: &mut String, text: &str, width: usize)
    ensures
        final(out)@ == old(out)@ + right(text@, width as int),
{
    push_spaces(out, text.unicode_len(), width);
    out.append(text);
    assert(out@ =~= old(out)@ + right(text@, width as int));
}

/// All passes of one label within a frame, and what they took together.
#[derive(Debug)]
pub struct PassTotal {
    /// The passes' label.
    pub label: &'static str,
    /// How many passes carried it.
    pub passes: u32,
    /// Their time in milliseconds, with three decimals.
    pub millis: String,
}

/// The timings of one frame.
#[derive(Debug)]
pub struct FrameTimings {
    /// Time per label, in the order in which the labels first appear.
    pub totals: Vec<PassTotal>,
    /// Time of all passes together in milliseconds, with three decimals. This is not the frame time: it
    /// leaves out everything that was not timed, and the gaps between passes.
    pub total_millis: String,
}

/// The number of passes in words.
pub open spec fn calls_text(passes: u32) -> Seq<char> {
    if passes == 1 {
        "1 pass"@
    } else {
        right(crate::text::decimal(passes as nat), 3) + " passes"@
    }
}

impl PassTotal {
    /// The line of the table.
    pub open spec fn line(self) -> Seq<char> {
        "    "@ + left(self.label@, 14) + " "@ + calls_text(self.passes) + "   "@ + right(
            self.millis@,
            7,
        ) + " ms\n"@
    }

    fn push_line(&self, out: &mut String)
        ensures
            final(out)@ == old(out)@ + self.line(),
    {
        out.append("    ");
        push_left(out, self.label, 14);
        out.append(" ");
        if self.passes == 1 {
            out.append("1 pass");
        } else {
            let mut n = String::new();
            push_decimal(&mut n, self.passes as u64);
            assert(n@ =~= crate::text::decimal(self.passes as nat));
            push_right(out, n.as_str(), 3);
            out.append(" passes");
        }
        out.append("   ");
        push_right(out, self.millis.as_str(), 7);
        out.append(" ms\n");
        assert(out@ =~= old(out)@ + self.line());
    }
}

/// The lines of the first `n` totals.
pub open spec fn lines_of(totals: Seq<PassTotal>, n: int) -> Seq<char>
    decreases n,
{
    if n <= 0 {
        Seq::empty()
    } else {
        lines_of(totals, n - 1) + totals[n - 1].line()
    }
}

impl FrameTimings {
    /// The table: a title, one line per label, and the total.
    pub open spec fn table(self, title: Seq<char>) -> Seq<char> {
        title + "\n"@ + lines_of(self.totals@, self.totals@.len() as int) + "    "@ + left(
            "total"@,
            14,
        ) + "            "@ + right(self.total_millis@, 7) + " ms\n"@
    }

    /// Formats the table of a frame's passes under a title.
    pub fn format_table(&self, title: &str) -> (out: String)
        ensures
            out@ == self.table(title@),
    {
        let mut out = title.to_owned();
        out.append("\n");
        let mut i: usize = 0;
        assert(out@ =~= title@ + "\n"@ + lines_of(self.totals@, 0));
        while i < self.totals.len()
            invariant
                i <= self.totals@.len(),
                out@ == title@ + "\n"@ + lines_of(self.totals@, i as int),
            decreases self.totals@.len() - i,
        {
            self.totals[i].push_line(&mut out);
            assert(out@ =~= title@ + "\n"@ + lines_of(self.totals@, i as int + 1));
            i += 1;
        }
        out.append("    ");
        push_left(&mut out, "total", 14);
        out.append("            ");
        push_right(&mut out, self.total_millis.as_str(), 7);
        out.append(" ms\n");
        out
    }
}

/// Where a label first appears among the first `n`.
pub open spec fn first_seen(labels: Seq<Seq<char>>, n: int, label: Seq<char>) -> int
    decreases n,
{
    if n <= 0 {
        0
    } else if first_seen(labels, n - 1, label) < n - 1 {
        first_seen(labels, n - 1, label)
    } else if labels[n - 1] == label {
        n - 1
    } else {
        n
    }
}

proof fn lemma_groups_in_order(labels: Seq<Seq<char>>, ticks: Seq<u64>, n: int)
    requires
        0 <= n <= labels.len(),
        n <= ticks.len(),
    ensures
        forall|i: int|
            0 <= i < grouped(labels, ticks, n).len() ==> 0 <= first_seen(
                labels,
                n,
                (#[trigger] grouped(labels, ticks, n)[i]).0,
            ) < n,
        forall|i: int, j: int|
            0 <= i < j < grouped(labels, ticks, n).len() ==> first_seen(
                labels,
                n,
                (#[trigger] grouped(labels, ticks, n)[i]).0,
            ) < first_seen(labels, n, (#[trigger] grouped(labels, ticks, n)[j]).0),
    decreases n,
{
    if n > 0 {
        lemma_groups_in_order(labels, ticks, n - 1);
        let (before, after) = (grouped(labels, ticks, n - 1), grouped(labels, ticks, n));
        let label = labels[n - 1];
        lemma_place_is(before, label);
        lemma_groups_hold(labels, ticks, n - 1);
        if place(before, label) >= before.len() {
            assert(after =~= before.push((label, seq![ticks[n - 1]])));
            lemma_not_seen(labels, ticks, n - 1, label);
            assert forall|i: int, j: int| 0 <= i < j < after.len() implies first_seen(
                labels,
                n,
                (#[trigger] after[i]).0,
            ) < first_seen(labels, n, (#[trigger] after[j]).0) by {
                assert(after[i] == before[i]);
                if j < before.len() {
                    assert(after[j] == before[j]);
                }
            }
            assert forall|i: int| 0 <= i < after.len() implies 0 <= first_seen(
                labels,
                n,
                (#[trigger] after[i]).0,
            ) < n by {
                if i < before.len() {
                    assert(after[i] == before[i]);
                }
            }
        } else {
            assert forall|i: int| 0 <= i < after.len() implies (#[trigger] after[i]).0 == before[i].0 by {}
        }
    }
}

proof fn lemma_not_seen(labels: Seq<Seq<char>>, ticks: Seq<u64>, n: int, label: Seq<char>)
    requires
        0 <= n <= labels.len(),
        n <= ticks.len(),
        forall|k: int| 0 <= k < grouped(labels, ticks, n).len() ==> (#[trigger] grouped(
            labels,
            ticks,
            n,
        )[k]).0 != label,
    ensures
        first_seen(labels, n, label) == n,
{
    lemma_groups_hold(labels, ticks, n);
    assert forall|k: int| 0 <= k < n implies #[trigger] labels[k] != label by {
        assert(is_grouped(grouped(labels, ticks, n), labels[k]));
    }
    lemma_first_seen(labels, n, label);
}

proof fn lemma_first_seen(labels: Seq<Seq<char>>, n: int, label: Seq<char>)
    requires
        0 <= n <= labels.len(),
        forall|k: int| 0 <= k < n ==> #[trigger] labels[k] != label,
    ensures
        first_seen(labels, n, label) == n,
    decreases n,
{
    if n > 0 {
        lemma_first_seen(labels, n - 1, label);
    }
}

/// The groups stand in the order in which their labels first appear.
pub proof fn law_groups_stand_in_order_of_appearance(
    labels: Seq<Seq<char>>,
    ticks: Seq<u64>,
    n: int,
    i: int,
    j: int,
)
    requires
        0 <= n <= labels.len(),
        n <= ticks.len(),
        0 <= i < j < grouped(labels, ticks, n).len(),
    ensures
        first_seen(labels, n, grouped(labels, ticks, n)[i].0) < first_seen(
            labels,
            n,
            grouped(labels, ticks, n)[j].0,
        ) < n,
{
    lemma_groups_in_order(labels, ticks, n);
}

/// Columns line up: a text that fits its column is padded with spaces to the column's width, on the right
/// or on the left, and one that does not fit is kept whole.
pub proof fn law_columns_keep_their_text(text: Seq<char>, width: int)
    requires
        0 <= width,
    ensures
        left(text, width).take(text.len() as int) == text,
        right(text, width).skip(right(text, width).len() - text.len()) == text,
        text.len() <= width ==> left(text, width).len() == width && right(text, width).len() == width,
        text.len() >= width ==> left(text, width) == text && right(text, width) == text,
        forall|k: int| text.len() <= k < width ==> left(text, width)[k] == ' ',
        forall|k: int| 0 <= k < width - text.len() ==> right(text, width)[k] == ' ',
{
    let (l, r) = (left(text, width), right(text, width));
    assert(l.take(text.len() as int) =~= text);
    assert(r.skip(r.len() - text.len()) =~= text);
    if text.len() >= width {
        assert(l =~= text);
        assert(r =~= text);
    }
}

/// A line of the table is four spaces, the label, the number of passes and the time in milliseconds: the
/// label comes first, the time last, and the number of passes is written out in between.
pub proof fn law_a_line_names_its_passes(total: PassTotal)
    ensures
        ("    "@ + total.label@).is_prefix_of(total.line()),
        total.line().len() >= (total.millis@ + " ms\n"@).len(),
        total.line().skip(total.line().len() - (total.millis@ + " ms\n"@).len()) == total.millis@
            + " ms\n"@,
        total.label@.len() <= 14 ==> total.line().subrange(19, 19 + calls_text(total.passes).len() as int)
            == calls_text(total.passes),
        calls_text(1) == "1 pass"@,
        100 <= total.passes ==> calls_text(total.passes) == crate::text::decimal(total.passes as nat)
            + " passes"@,
{
    let line = total.line();
    let end = total.millis@ + " ms\n"@;
    reveal_strlit("    ");
    reveal_strlit(" ");
    let label = left(total.label@, 14);
    assert(("    "@ + total.label@) =~= line.subrange(0, 4 + total.label@.len() as int));
    assert(line.skip(line.len() - end.len()) =~= end);
    if total.label@.len() <= 14 {
        assert(label.len() == 14);
        assert(line.subrange(19, 19 + calls_text(total.passes).len() as int) =~= calls_text(total.passes));
    }
    if 100 <= total.passes {
        let text = crate::text::decimal(total.passes as nat);
        reveal_with_fuel(crate::text::decimal, 3);
        assert(text.len() >= 3);
        assert(right(text, 3) =~= text);
    }
}

/// A number of passes is written out, moved to the right of three columns, unless it is one.
pub proof fn law_passes_are_counted_in_words(passes: u32)
    requires
        passes != 1,
    ensures
        calls_text(passes).len() >= 10,
        calls_text(passes).skip(calls_text(passes).len() - 7) == " passes"@,
        calls_text(passes).take(calls_text(passes).len() - 7) == right(
            crate::text::decimal(passes as nat),
            3,
        ),
        MAX_TIMED_PASSES == 256,
{
    reveal_strlit(" passes");
    let all = calls_text(passes);
    let text = crate::text::decimal(passes as nat);
    law_columns_keep_their_text(text, 3);
    assert(right(text, 3).len() >= 3);
    assert(all.skip(all.len() - 7) =~= " passes"@);
    assert(all.take(all.len() - 7) =~= right(text, 3));
}

/// A line of the table lines up with every other: the label takes fourteen columns behind four spaces, and
/// the time stands three spaces behind the passes, moved to the right of seven columns.
pub proof fn law_lines_of_the_table_line_up(total: PassTotal)
    requires
        total.label@.len() <= 14,
    ensures
        total.line().len() == 19 + calls_text(total.passes).len() + 3 + right(total.millis@, 7).len() + 4,
        total.line().subrange(4, 18) == left(total.label@, 14),
        total.line().subrange(
            22 + calls_text(total.passes).len() as int,
            22 + calls_text(total.passes).len() + right(total.millis@, 7).len() as int,
        ) == right(total.millis@, 7),
{
    let line = total.line();
    let (calls, time) = (calls_text(total.passes), right(total.millis@, 7));
    reveal_strlit("    ");
    reveal_strlit(" ");
    reveal_strlit("   ");
    reveal_strlit(" ms\n");
    assert(left(total.label@, 14).len() == 14);
    assert(line.subrange(4, 18) =~= left(total.label@, 14));
    assert(line.subrange(22 + calls.len() as int, 22 + calls.len() + time.len() as int) =~= time);
}

/// The table is its title on a line of its own, the lines of the totals in order, and the total.
pub proof fn law_the_table_holds_every_total(timings: FrameTimings, title: Seq<char>, i: int)
    requires
        0 <= i < timings.totals@.len(),
    ensures
        (title + "\n"@).is_prefix_of(timings.table(title)),
        ({
            let at = title.len() + 1 + lines_of(timings.totals@, i).len();
            timings.table(title).subrange(at as int, at + timings.totals@[i].line().len() as int)
                == timings.totals@[i].line()
        }),
        lines_of(timings.totals@, 0).len() == 0,
        lines_of(timings.totals@, i + 1).len() == lines_of(timings.totals@, i).len()
            + timings.totals@[i].line().len(),
        ({
            let end = timings.table(title).skip(
                title.len() + 1 + lines_of(timings.totals@, timings.totals@.len() as int).len() as int,
            );
            &&& end.len() == 30 + right(timings.total_millis@, 7).len() + 4
            &&& end.take(30) == left("    total"@, 30)
            &&& end.skip(30) == right(timings.total_millis@, 7) + " ms\n"@
        }),
{
    reveal_strlit("\n");
    reveal_strlit("    ");
    reveal_strlit("            ");
    reveal_strlit("total");
    reveal_strlit("    total");
    reveal_strlit(" ms\n");
    let totals = timings.totals@;
    let all = timings.table(title);
    let n = totals.len() as int;
    assert((title + "\n"@) =~= all.subrange(0, title.len() as int + 1));
    lemma_lines_prefix(totals, i + 1, n);
    let at = (title.len() + 1 + lines_of(totals, i).len()) as int;
    let line = totals[i].line();
    let (some, every) = (lines_of(totals, i + 1), lines_of(totals, n));
    assert forall|k: int| 0 <= k < line.len() implies all[at + k] == line[k] by {
        assert(some[lines_of(totals, i).len() + k] == line[k]);
        assert(every[lines_of(totals, i).len() + k] == some[lines_of(totals, i).len() + k]);
    }
    assert(all.subrange(at, at + line.len()) =~= line);
    let end = all.skip((title.len() + 1 + every.len()) as int);
    assert(end =~= "    "@ + left("total"@, 14) + "            "@ + right(timings.total_millis@, 7)
        + " ms\n"@);
    assert(end.take(30) =~= left("    total"@, 30));
    assert(end.skip(30) =~= right(timings.total_millis@, 7) + " ms\n"@);
}

proof fn lemma_lines_prefix(totals: Seq<PassTotal>, n: int, m: int)
    requires
        0 <= n <= m,
    ensures
        lines_of(totals, n).is_prefix_of(lines_of(totals, m)),
        lines_of(totals, n).len() <= lines_of(totals, m).len(),
        forall|k: int|
            0 <= k < lines_of(totals, n).len() ==> lines_of(totals, m)[k] == lines_of(totals, n)[k],
    decreases m,
{
    if n < m {
        lemma_lines_prefix(totals, n, m - 1);
        let (a, b) = (lines_of(totals, n), lines_of(totals, m));
        assert(a =~= b.subrange(0, a.len() as int));
    }
}

} // verus!
