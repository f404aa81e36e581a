//! The queue of scheduled ticks of a compiled circuit: which tick functions are due, in
//! what order, and what the queue hands back when the circuit is reset.
//!
//! A tick function is named by its index among the compiled tick functions; running one
//! is the caller's work, which takes the next due function from [`TickQueue::pop_due`].
use vstd::prelude::*;
use crate::geometry::BlockPos;

verus! {

/// How urgently a scheduled tick runs among the ticks due at the same time; the first
/// variant runs first.
#[derive(Clone, Copy, Debug, PartialEq, Eq, Structural)]
pub enum TickPriority {
    Highest,
    Higher,
    High,
    Normal,
}

pub open spec fn priority_rank(p: TickPriority) -> int {
    match p {
        TickPriority::Highest => 0,
        TickPriority::Higher => 1,
        TickPriority::High => 2,
        TickPriority::Normal => 3,
    }
}

/// A pending tick as the world records it: when, how urgent, and for which position.
#[derive(Clone, Copy, Debug, PartialEq, Eq, Structural)]
pub struct TickEntry {
    pub ticks_left: u32,
    pub tick_priority: TickPriority,
    pub pos: BlockPos,
}

/// A pending tick of a compiled circuit: when, how urgent, and which tick function runs.
#[derive(Clone, Copy, Debug, PartialEq, Eq, Structural)]
pub struct ScheduledTick {
    pub ticks_left: u32,
    pub priority: TickPriority,
    pub tick_fn: usize,
}

/// `a` runs no later than `b`: sooner, or as soon and at least as urgent.
pub open spec fn runs_no_later(a: ScheduledTick, b: ScheduledTick) -> bool {
    a.ticks_left < b.ticks_left || (a.ticks_left == b.ticks_left && priority_rank(a.priority)
        <= priority_rank(b.priority))
}

/// `s` with `x` placed after every entry that runs no later than it, in a sorted `s`.
pub open spec fn insert_sorted(s: Seq<ScheduledTick>, x: ScheduledTick) -> Seq<ScheduledTick>
    decreases s.len(),
{
    if s.len() == 0 {
        seq![x]
    } else if runs_no_later(s.last(), x) {
        s.push(x)
    } else {
        insert_sorted(s.drop_last(), x).push(s.last())
    }
}

/// The stable sort of `s` by time, then urgency: entries that tie keep their order.
pub open spec fn sorted_ticks(s: Seq<ScheduledTick>) -> Seq<ScheduledTick>
    decreases s.len(),
{
    if s.len() == 0 {
        Seq::empty()
    } else {
        insert_sorted(sorted_ticks(s.drop_last()), s.last())
    }
}

pub open spec fn is_sorted(s: Seq<ScheduledTick>) -> bool {
    forall|i: int, j: int| 0 <= i < j < s.len() ==> runs_no_later(#[trigger] s[i], #[trigger] s[j])
}

/// The priority a compiled tick function asks for by number.
pub open spec fn spec_priority_from_number(priority: u8) -> TickPriority {
    match priority {
        0 => TickPriority::Normal,
        1 => TickPriority::High,
        2 => TickPriority::Higher,
        _ => TickPriority::Highest,
    }
}

/// The ticks scheduled in a compiled circuit.
pub struct TickQueue {
    to_be_ticked: Vec<ScheduledTick>,
}

impl TickQueue {
    pub closed spec fn entries(&self) -> Seq<ScheduledTick> {
        self.to_be_ticked@
    }

    /// An empty queue.
    pub fn new() -> (q: TickQueue)
        ensures
            q.entries().len() == 0,
    {
        TickQueue { to_be_ticked: Vec::new() }
    }

    /// The pending ticks, in queue order.
    pub fn ticks(&self) -> (v: Vec<ScheduledTick>)
        ensures
            v@ == self.entries(),
    {
        self.to_be_ticked.clone()
    }

    /// Schedules the tick function `tick_fn` in `delay` ticks, with the priority a
    /// compiled tick function asks for by number: 0 normal, 1 high, 2 higher, 3 highest.
    pub fn schedule_tick(&mut self, delay: u32, priority: u8, tick_fn: usize)
        requires
            priority <= 3,
        ensures
            final(self).entries() == old(self).entries().push(
                ScheduledTick { ticks_left: delay, priority: spec_priority_from_number(priority), tick_fn },
            ),
    {
        let priority = match priority {
            0 => TickPriority::Normal,
            1 => TickPriority::High,
            2 => TickPriority::Higher,
            _ => TickPriority::Highest,
        };
        self.to_be_ticked.push(ScheduledTick { ticks_left: delay, priority, tick_fn });
    }

    /// Queues the world's pending ticks at compilation: each runs the tick function of the
    /// node at its position, the node being the last of `node_positions` that stands there
    /// and its tick function the one of `tick_fns` with that node's index. Every tick's
    /// position must be a node's, with a tick function.
    pub fn schedule_entries(&mut self, ticks: &Vec<TickEntry>, node_positions: &Vec<BlockPos>, tick_fns: &Vec<usize>)
        requires
            forall|i: int| 0 <= i < ticks@.len() ==> node_positions@.contains(#[trigger] ticks@[i].pos)
                && last_index_of(node_positions@, ticks@[i].pos) < tick_fns@.len(),
        ensures
            final(self).entries().len() == old(self).entries().len() + ticks@.len(),
            final(self).entries().subrange(0, old(self).entries().len() as int) == old(self).entries(),
            forall|i: int| 0 <= i < ticks@.len() ==> #[trigger] final(self).entries()[old(self).entries().len() + i]
                == (ScheduledTick {
                    ticks_left: ticks@[i].ticks_left,
                    priority: ticks@[i].tick_priority,
                    tick_fn: tick_fns@[last_index_of(node_positions@, ticks@[i].pos)],
                }),
    {
        let ghost start = self.to_be_ticked@;
        let mut i: usize = 0;
        while i < ticks.len()
            invariant
                i <= ticks@.len(),
                forall|j: int| 0 <= j < ticks@.len() ==> node_positions@.contains(#[trigger] ticks@[j].pos)
                    && last_index_of(node_positions@, ticks@[j].pos) < tick_fns@.len(),
                self.to_be_ticked@.len() == start.len() + i,
                self.to_be_ticked@.subrange(0, start.len() as int) == start,
                forall|j: int| 0 <= j < i ==> #[trigger] self.to_be_ticked@[start.len() + j]
                    == (ScheduledTick {
                        ticks_left: ticks@[j].ticks_left,
                        priority: ticks@[j].tick_priority,
                        tick_fn: tick_fns@[last_index_of(node_positions@, ticks@[j].pos)],
                    }),
            decreases ticks@.len() - i,
        {
            let entry = ticks[i];
            let node = last_position_of(node_positions, entry.pos);
            let ghost before = self.to_be_ticked@;
            self.to_be_ticked.push(ScheduledTick { ticks_left: entry.ticks_left, priority: entry.tick_priority, tick_fn: tick_fns[node] });
            assert forall|j: int| 0 <= j < i + 1 implies #[trigger] self.to_be_ticked@[start.len() + j]
                == (ScheduledTick {
                    ticks_left: ticks@[j].ticks_left,
                    priority: ticks@[j].tick_priority,
                    tick_fn: tick_fns@[last_index_of(node_positions@, ticks@[j].pos)],
                }) by {
                if j < i {
                    assert(self.to_be_ticked@[start.len() + j] == before[start.len() + j]);
                }
            }
            assert(self.to_be_ticked@.subrange(0, start.len() as int) =~= before.subrange(0, start.len() as int));
            i = i + 1;
        }
    }

    /// Orders the queue for a tick: by time left, then by urgency, ties keeping their order.
    pub fn sort_for_tick(&mut self)
        ensures
            final(self).entries() == sorted_ticks(old(self).entries()),
    {
        let ghost original = self.to_be_ticked@;
        let mut sorted: Vec<ScheduledTick> = Vec::new();
        let mut i: usize = 0;
        while i < self.to_be_ticked.len()
            invariant
                self.to_be_ticked@ == original,
                i <= original.len(),
                sorted@ == sorted_ticks(original.subrange(0, i as int)),
            decreases original.len() - i,
        {
            let x = self.to_be_ticked[i];
            insert_entry(&mut sorted, x);
            assert(original.subrange(0, i + 1).drop_last() =~= original.subrange(0, i as int));
            i = i + 1;
        }
        assert(original.subrange(0, i as int) =~= original);
        self.to_be_ticked = sorted;
    }

    /// Takes the tick function of the first entry off the queue when that entry is due now.
    pub fn pop_due(&mut self) -> (f: Option<usize>)
        ensures
            old(self).entries().len() > 0 && old(self).entries()[0].ticks_left == 0 ==> f == Some(
                old(self).entries()[0].tick_fn,
            ) && final(self).entries() == old(self).entries().drop_first(),
            !(old(self).entries().len() > 0 && old(self).entries()[0].ticks_left == 0) ==> f is None
                && final(self).entries() == old(self).entries(),
    {
        if self.to_be_ticked.len() > 0 && self.to_be_ticked[0].ticks_left == 0 {
            let entry = self.to_be_ticked.remove(0);
            assert(self.to_be_ticked@ =~= old(self).to_be_ticked@.drop_first());
            Some(entry.tick_fn)
        } else {
            None
        }
    }

    /// Empties the queue into the world's form of pending ticks: each entry's tick
    /// function is found among `tick_fns`, and the tick is recorded at the position of the
    /// first node with that function. Each entry's function must first occur in
    /// `tick_fns` at the index of a node.
    pub fn reset(&mut self, tick_fns: &Vec<usize>, node_positions: &Vec<BlockPos>) -> (ticks: Vec<TickEntry>)
        requires
            forall|i: int| 0 <= i < old(self).entries().len() ==> tick_fns@.contains(#[trigger] old(self).entries()[i].tick_fn)
                && first_index_of(tick_fns@, old(self).entries()[i].tick_fn) < node_positions@.len(),
        ensures
            final(self).entries().len() == 0,
            ticks@.len() == old(self).entries().len(),
            forall|i: int| 0 <= i < ticks@.len() ==> #[trigger] ticks@[i] == (TickEntry {
                ticks_left: old(self).entries()[i].ticks_left,
                tick_priority: old(self).entries()[i].priority,
                pos: node_positions@[first_index_of(tick_fns@, old(self).entries()[i].tick_fn)],
            }),
    {
        let mut ticks: Vec<TickEntry> = Vec::new();
        let mut i: usize = 0;
        while i < self.to_be_ticked.len()
            invariant
                self.to_be_ticked@ == old(self).to_be_ticked@,
                i <= self.to_be_ticked@.len(),
                forall|k: int| 0 <= k < old(self).entries().len() ==> tick_fns@.contains(#[trigger] old(self).entries()[k].tick_fn)
                    && first_index_of(tick_fns@, old(self).entries()[k].tick_fn) < node_positions@.len(),
                ticks@.len() == i,
                forall|k: int| 0 <= k < i ==> #[trigger] ticks@[k] == (TickEntry {
                    ticks_left: old(self).entries()[k].ticks_left,
                    tick_priority: old(self).entries()[k].priority,
                    pos: node_positions@[first_index_of(tick_fns@, old(self).entries()[k].tick_fn)],
                }),
            decreases self.to_be_ticked@.len() - i,
        {
            let entry = self.to_be_ticked[i];
            assert(tick_fns@.contains(old(self).entries()[i as int].tick_fn));
            let index = position_of(tick_fns, entry.tick_fn);
            ticks.push(TickEntry { ticks_left: entry.ticks_left, tick_priority: entry.priority, pos: node_positions[index] });
            i = i + 1;
        }
        self.to_be_ticked = Vec::new();
        ticks
    }
}

/// The index of the first occurrence of `x` in `s`.
pub open spec fn first_index_of(s: Seq<usize>, x: usize) -> int {
    choose|i: int| 0 <= i < s.len() && s[i] == x && forall|j: int| 0 <= j < i ==> s[j] != x
}

/// The index of the last occurrence of `x` in `s`.
pub open spec fn last_index_of(s: Seq<BlockPos>, x: BlockPos) -> int {
    choose|i: int| 0 <= i < s.len() && s[i] == x && forall|j: int| i < j < s.len() ==> s[j] != x
}

fn last_position_of(s: &Vec<BlockPos>, x: BlockPos) -> (i: usize)
    requires
        s@.contains(x),
    ensures
        i == last_index_of(s@, x),
        i < s@.len(),
{
    let mut n: usize = s.len();
    while n > 0
        invariant
            n <= s@.len(),
            s@.contains(x),
            forall|j: int| n <= j < s@.len() ==> s@[j] != x,
        decreases n,
    {
        if s[n - 1] == x {
            proof {
                let c = last_index_of(s@, x);
                assert(0 <= c < s@.len() && s@[c] == x && forall|j: int| c < j < s@.len() ==> s@[j] != x) by {
                    let w = n - 1;
                    assert(s@[w as int] == x && forall|j: int| w < j < s@.len() ==> s@[j] != x);
                }
                if c < n - 1 {
                } else if c > n - 1 {
                }
            }
            return n - 1;
        }
        n = n - 1;
    }
    0
}

fn position_of(s: &Vec<usize>, x: usize) -> (i: usize)
    requires
        s@.contains(x),
    ensures
        i == first_index_of(s@, x),
        i < s@.len(),
{
    let mut i: usize = 0;
    while i < s.len()
        invariant
            i <= s@.len(),
            s@.contains(x),
            forall|j: int| 0 <= j < i ==> s@[j] != x,
        decreases s@.len() - i,
    {
        if s[i] == x {
            proof {
                let c = first_index_of(s@, x);
                assert(0 <= i < s@.len() && s@[i as int] == x && forall|j: int| 0 <= j < i ==> s@[j] != x);
                assert(0 <= c < s@.len() && s@[c] == x && forall|j: int| 0 <= j < c ==> s@[j] != x);
                if c < i {
                } else if c > i {
                    assert(s@[i as int] != x);
                }
            }
            return i;
        }
        i = i + 1;
    }
    assert(false);
    0
}

fn runs_no_later_exec(a: ScheduledTick, b: ScheduledTick) -> (r: bool)
    ensures
        r == runs_no_later(a, b),
{
    let ra: u8 = match a.priority {
        TickPriority::Highest => 0,
        TickPriority::Higher => 1,
        TickPriority::High => 2,
        TickPriority::Normal => 3,
    };
    let rb: u8 = match b.priority {
        TickPriority::Highest => 0,
        TickPriority::Higher => 1,
        TickPriority::High => 2,
        TickPriority::Normal => 3,
    };
    a.ticks_left < b.ticks_left || (a.ticks_left == b.ticks_left && ra <= rb)
}

/// Places `x` after every entry that runs no later than it.
fn insert_entry(sorted: &mut Vec<ScheduledTick>, x: ScheduledTick)
    ensures
        final(sorted)@ == insert_sorted(old(sorted)@, x),
{
    let ghost s0 = sorted@;
    // The entries after the place of `x`, last first.
    let mut moved: Vec<ScheduledTick> = Vec::new();
    while sorted.len() > 0 && !runs_no_later_exec(sorted[sorted.len() - 1], x)
        invariant
            insert_sorted(s0, x) == insert_sorted(sorted@, x) + moved@.reverse(),
        decreases sorted@.len(),
    {
        let ghost before = sorted@;
        assert(!runs_no_later(before.last(), x));
        let last = sorted.pop().unwrap();
        assert(before.drop_last() =~= sorted@);
        assert(insert_sorted(before, x) == insert_sorted(sorted@, x).push(last));
        assert(moved@.push(last).reverse() =~= seq![last] + moved@.reverse());
        assert(insert_sorted(sorted@, x).push(last) + moved@.reverse() =~= insert_sorted(sorted@, x) + moved@.push(last).reverse());
        moved.push(last);
    }
    assert(insert_sorted(sorted@, x) == sorted@.push(x));
    sorted.push(x);
    while moved.len() > 0
        invariant
            insert_sorted(s0, x) == sorted@ + moved@.reverse(),
        decreases moved@.len(),
    {
        let y = moved.pop().unwrap();
        let ghost m = moved@;
        assert(m.push(y).reverse() =~= seq![y] + m.reverse());
        assert(sorted@ + (seq![y] + m.reverse()) =~= sorted@.push(y) + m.reverse());
        sorted.push(y);
    }
    assert(sorted@ + moved@.reverse() =~= sorted@);
}

/// Inserting into a sorted queue keeps it sorted and holds the same entries plus the
/// inserted one.
pub proof fn lemma_insert_sorted(s: Seq<ScheduledTick>, x: ScheduledTick)
    requires
        is_sorted(s),
    ensures
        is_sorted(insert_sorted(s, x)),
        insert_sorted(s, x).to_multiset() == s.to_multiset().insert(x),
    decreases s.len(),
{
    broadcast use {vstd::seq_lib::group_to_multiset_ensures, vstd::multiset::group_multiset_axioms};

    if s.len() == 0 {
        assert(s =~= Seq::<ScheduledTick>::empty());
        assert(seq![x] =~= s.push(x));
    } else if runs_no_later(s.last(), x) {
        assert forall|i: int, j: int| 0 <= i < j < s.push(x).len() implies runs_no_later(#[trigger] s.push(x)[i], #[trigger] s.push(x)[j]) by {
            if j == s.len() as int && i < s.len() - 1 {
                assert(runs_no_later(s[i], s[s.len() - 1]));
            }
        }
    } else {
        let init = s.drop_last();
        assert(is_sorted(init)) by {
            assert forall|i: int, j: int| 0 <= i < j < init.len() implies runs_no_later(#[trigger] init[i], #[trigger] init[j]) by {
                assert(init[i] == s[i] && init[j] == s[j]);
            }
        }
        lemma_insert_sorted(init, x);
        let r = insert_sorted(init, x);
        let last = s.last();
        // Every entry of `r` runs no later than `last`: the entries of `init` because `s`
        // is sorted, and `x` because `last` does not run before it.
        assert forall|i: int| 0 <= i < r.len() implies runs_no_later(#[trigger] r[i], last) by {
            assert(r.to_multiset().count(r[i]) > 0);
            assert(init.to_multiset().insert(x).count(r[i]) > 0);
            if r[i] != x {
                assert(init.to_multiset().count(r[i]) > 0);
                assert(init.contains(r[i]));
                let k = choose|k: int| 0 <= k < init.len() && init[k] == r[i];
                assert(runs_no_later(s[k], s[s.len() - 1]));
            }
        }
        assert forall|i: int, j: int| 0 <= i < j < r.push(last).len() implies runs_no_later(#[trigger] r.push(last)[i], #[trigger] r.push(last)[j]) by {
            if j == r.len() as int {
                assert(runs_no_later(r[i], last));
            } else {
                assert(r.push(last)[i] == r[i] && r.push(last)[j] == r[j]);
            }
        }
        assert(s =~= init.push(last));
        assert(r.push(last).to_multiset() =~= init.push(last).to_multiset().insert(x));
    }
}

/// Urgency follows the order in which the priorities are declared: `Highest` runs
/// before `Higher`, before `High`, before `Normal`. By number, a tick scheduled with the
/// larger priority number runs first among ticks due at the same time; and two ticks
/// due at the same time, scheduled with numbers `a > b` in the order `b`, `a`, come out
/// of the sort in the order `a`, `b`.
pub proof fn lemma_priority_urgency(x: ScheduledTick, y: ScheduledTick, a: u8, b: u8)
    ensures
        priority_rank(TickPriority::Highest) < priority_rank(TickPriority::Higher),
        priority_rank(TickPriority::Higher) < priority_rank(TickPriority::High),
        priority_rank(TickPriority::High) < priority_rank(TickPriority::Normal),
        b < a <= 3 ==> priority_rank(spec_priority_from_number(a)) < priority_rank(spec_priority_from_number(b)),
        b < a <= 3 && x.ticks_left == y.ticks_left && x.priority == spec_priority_from_number(b) && y.priority
            == spec_priority_from_number(a) ==> sorted_ticks(seq![x, y]) == seq![y, x],
        x.ticks_left < y.ticks_left ==> sorted_ticks(seq![y, x]) == seq![x, y],
{
    let s = seq![x, y];
    assert(s.drop_last() =~= seq![x]);
    assert(seq![x].drop_last() =~= Seq::<ScheduledTick>::empty());
    assert(sorted_ticks(Seq::<ScheduledTick>::empty()) =~= Seq::<ScheduledTick>::empty());
    assert(sorted_ticks(seq![x]) =~= seq![x]) by {
        assert(seq![x].drop_last() =~= Seq::<ScheduledTick>::empty());
        assert(seq![x].last() == x);
        assert(insert_sorted(Seq::empty(), x) =~= seq![x]);
    }
    assert(seq![x].drop_last() =~= Seq::<ScheduledTick>::empty());
    if b < a <= 3 && x.ticks_left == y.ticks_left && x.priority == spec_priority_from_number(b) && y.priority
        == spec_priority_from_number(a) {
        assert(!runs_no_later(x, y));
        assert(insert_sorted(Seq::empty(), y) =~= seq![y]);
        assert(insert_sorted(seq![x], y) =~= seq![y, x]);
    }
    let t = seq![y, x];
    assert(t.drop_last() =~= seq![y]);
    assert(sorted_ticks(seq![y]) =~= seq![y]) by {
        assert(seq![y].drop_last() =~= Seq::<ScheduledTick>::empty());
        assert(seq![y].last() == y);
        assert(insert_sorted(Seq::empty(), y) =~= seq![y]);
    }
    if x.ticks_left < y.ticks_left {
        assert(insert_sorted(Seq::empty(), x) =~= seq![x]);
        assert(!runs_no_later(y, x));
        assert(seq![y].last() == y);
        assert(insert_sorted(seq![y], x) == insert_sorted(seq![y].drop_last(), x).push(y));
        assert(insert_sorted(seq![y], x) =~= seq![x, y]);
    }
}

/// Sorting for a tick keeps exactly the scheduled entries and orders them by time, then
/// urgency.
pub proof fn lemma_sorted_ticks(s: Seq<ScheduledTick>)
    ensures
        is_sorted(sorted_ticks(s)),
        sorted_ticks(s).to_multiset() == s.to_multiset(),
    decreases s.len(),
{
    broadcast use {vstd::seq_lib::group_to_multiset_ensures, vstd::multiset::group_multiset_axioms};

    if s.len() > 0 {
        lemma_sorted_ticks(s.drop_last());
        lemma_insert_sorted(sorted_ticks(s.drop_last()), s.last());
        assert(s =~= s.drop_last().push(s.last()));
    }
}

} // verus!
