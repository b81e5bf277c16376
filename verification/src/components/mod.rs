//! Onboard components: when each one runs within a step, and the telemetry
//! channels it declares.
//!
//! A component's physics lives with the caller; what is fixed here is the
//! order in which components run, so that producers report to the power bus
//! before consumers read it.

pub mod battery;
pub mod solar;
pub mod telemetry;

use vstd::prelude::*;

verus! {

/// When a component runs within a step, so that producers report before
/// consumers read.
#[derive(Clone, Copy, PartialEq, Eq, Structural, PartialOrd, Ord, Debug)]
pub enum ExecutionOrder {
    /// Puts power onto the bus. Runs first.
    Source,
    /// Draws power from the bus.
    Load,
    /// Absorbs whatever is left over. Runs last.
    Storage,
}

impl ExecutionOrder {
    /// Position of this phase within a step: sources first, storage last.
    pub open spec fn rank(self) -> int {
        match self {
            ExecutionOrder::Source => 0,
            ExecutionOrder::Load => 1,
            ExecutionOrder::Storage => 2,
        }
    }
}

/// Static description of one telemetry channel, used to label plots.
#[derive(Debug)]
pub struct ChannelSpec {
    /// Unique within a satellite, e.g. `"main_battery.state_of_charge"`.
    pub id: String,
    /// Human-readable name for the plot title.
    pub label: String,
    /// Unit symbol for the axis, e.g. `"W"` or `"%"`.
    pub unit: String,
}

impl ChannelSpec {
    /// The channel's id, label and unit as character sequences.
    pub open spec fn text(&self) -> (Seq<char>, Seq<char>, Seq<char>) {
        (self.id@, self.label@, self.unit@)
    }
}

impl Clone for ChannelSpec {
    fn clone(&self) -> (copy: Self)
        ensures
            copy.text() == self.text(),
    {
        ChannelSpec { id: self.id.clone(), label: self.label.clone(), unit: self.unit.clone() }
    }
}

/// The entries of `items` that run in phase `phase`, in their original order.
pub open spec fn in_phase<T>(items: Seq<(ExecutionOrder, T)>, phase: ExecutionOrder) -> Seq<
    (ExecutionOrder, T),
> {
    items.filter(runs_in(phase))
}

/// Whether a configured entry runs in phase `phase`.
pub open spec fn runs_in<T>(phase: ExecutionOrder) -> spec_fn((ExecutionOrder, T)) -> bool {
    |item: (ExecutionOrder, T)| item.0 == phase
}

/// The order in which a step runs `items`: every source, then every load, then
/// every storage, each group in the order it was configured.
pub open spec fn execution_sequence<T>(items: Seq<(ExecutionOrder, T)>) -> Seq<
    (ExecutionOrder, T),
> {
    in_phase(items, ExecutionOrder::Source) + in_phase(items, ExecutionOrder::Load) + in_phase(
        items,
        ExecutionOrder::Storage,
    )
}

/// Orders configured components (each paired with its phase) so that every
/// source reports to the bus before any storage reads it. The sort is
/// stable: components of one phase keep their configured order.
pub fn order_for_execution<T>(items: Vec<(ExecutionOrder, T)>) -> (ordered: Vec<(ExecutionOrder, T)>)
    ensures
        ordered@ == execution_sequence(items@),
{
    let ghost all = items@;
    let mut sources: Vec<(ExecutionOrder, T)> = Vec::new();
    let mut loads: Vec<(ExecutionOrder, T)> = Vec::new();
    let mut storage: Vec<(ExecutionOrder, T)> = Vec::new();
    for item in it: items
        invariant
            it.seq() == all,
            sources@ == in_phase(all.take(it.index() as int), ExecutionOrder::Source),
            loads@ == in_phase(all.take(it.index() as int), ExecutionOrder::Load),
            storage@ == in_phase(all.take(it.index() as int), ExecutionOrder::Storage),
    {
        let ghost k = it.index() as int;
        proof {
            assert(all.take(k + 1) == all.take(k).push(all[k]));
            all.take(k).lemma_filter_push(all[k], runs_in::<T>(ExecutionOrder::Source));
            all.take(k).lemma_filter_push(all[k], runs_in::<T>(ExecutionOrder::Load));
            all.take(k).lemma_filter_push(all[k], runs_in::<T>(ExecutionOrder::Storage));
        }
        match item.0 {
            ExecutionOrder::Source => sources.push(item),
            ExecutionOrder::Load => loads.push(item),
            ExecutionOrder::Storage => storage.push(item),
        }
    }
    proof {
        assert(all.take(all.len() as int) == all);
    }
    sources.append(&mut loads);
    sources.append(&mut storage);
    sources
}

/// Filtering by a predicate that every element meets changes nothing.
proof fn lemma_filter_keeps_all<A>(s: Seq<A>, pred: spec_fn(A) -> bool)
    requires
        forall|i: int| 0 <= i < s.len() ==> pred(#[trigger] s[i]),
    ensures
        s.filter(pred) == s,
    decreases s.len(),
{
    reveal(Seq::filter);
    if s.len() > 0 {
        lemma_filter_keeps_all(s.drop_last(), pred);
    }
}

/// Filtering by a predicate that no element meets leaves nothing.
proof fn lemma_filter_keeps_none<A>(s: Seq<A>, pred: spec_fn(A) -> bool)
    requires
        forall|i: int| 0 <= i < s.len() ==> !pred(#[trigger] s[i]),
    ensures
        s.filter(pred) == Seq::<A>::empty(),
    decreases s.len(),
{
    reveal(Seq::filter);
    if s.len() > 0 {
        lemma_filter_keeps_none(s.drop_last(), pred);
    }
}

/// Every entry of `in_phase(items, phase)` runs in `phase`.
proof fn lemma_in_phase_members<T>(items: Seq<(ExecutionOrder, T)>, phase: ExecutionOrder)
    ensures
        forall|i: int|
            0 <= i < in_phase(items, phase).len() ==> (#[trigger] in_phase(items, phase)[i]).0
                == phase,
{
    assert forall|i: int| 0 <= i < in_phase(items, phase).len() implies (#[trigger] in_phase(
        items,
        phase,
    )[i]).0 == phase by {
        items.lemma_filter_pred(runs_in(phase), i);
    }
}

/// The three phases together hold exactly as many entries as were configured.
proof fn lemma_phases_cover<T>(items: Seq<(ExecutionOrder, T)>)
    ensures
        in_phase(items, ExecutionOrder::Source).len() + in_phase(items, ExecutionOrder::Load).len()
            + in_phase(items, ExecutionOrder::Storage).len() == items.len(),
    decreases items.len(),
{
    reveal(Seq::filter);
    if items.len() > 0 {
        lemma_phases_cover(items.drop_last());
    }
}

/// A step runs its components sorted by phase: no component runs before one
/// of an earlier phase, so every source reports before any storage reads.
pub proof fn lemma_execution_sequence_sorted<T>(items: Seq<(ExecutionOrder, T)>)
    ensures
        forall|i: int, j: int|
            0 <= i <= j < execution_sequence(items).len() ==> (#[trigger] execution_sequence(
                items,
            )[i]).0.rank() <= (#[trigger] execution_sequence(items)[j]).0.rank(),
{
    let sources = in_phase(items, ExecutionOrder::Source);
    let loads = in_phase(items, ExecutionOrder::Load);
    let storage = in_phase(items, ExecutionOrder::Storage);
    lemma_in_phase_members(items, ExecutionOrder::Source);
    lemma_in_phase_members(items, ExecutionOrder::Load);
    lemma_in_phase_members(items, ExecutionOrder::Storage);
    let all = execution_sequence(items);
    assert forall|i: int| 0 <= i < all.len() implies (#[trigger] all[i]).0.rank() == (if i
        < sources.len() {
        0int
    } else if i < sources.len() + loads.len() {
        1int
    } else {
        2int
    }) by {
        if i < sources.len() {
            assert(all[i] == sources[i]);
        } else if i < sources.len() + loads.len() {
            assert(all[i] == loads[i - sources.len()]);
        } else {
            assert(all[i] == storage[i - sources.len() - loads.len()]);
        }
    }
}

/// The configured components, counted by phase: every one lies in exactly one.
proof fn lemma_phases_partition<T>(items: Seq<(ExecutionOrder, T)>)
    ensures
        items.to_multiset() =~= in_phase(items, ExecutionOrder::Source).to_multiset().add(
            in_phase(items, ExecutionOrder::Load).to_multiset(),
        ).add(in_phase(items, ExecutionOrder::Storage).to_multiset()),
    decreases items.len(),
{
    broadcast use vstd::multiset::group_multiset_axioms;
    broadcast use vstd::seq_lib::group_to_multiset_ensures;

    if items.len() == 0 {
        reveal(Seq::filter);
    } else {
        let prev = items.drop_last();
        let last = items.last();
        lemma_phases_partition(prev);
        assert(prev.push(last) == items);
        prev.lemma_filter_push(last, runs_in::<T>(ExecutionOrder::Source));
        prev.lemma_filter_push(last, runs_in::<T>(ExecutionOrder::Load));
        prev.lemma_filter_push(last, runs_in::<T>(ExecutionOrder::Storage));
    }
}

/// Ordering a step neither drops nor duplicates a component: the ordered
/// sequence is a permutation of the configured one.
pub proof fn lemma_execution_sequence_permutes<T>(items: Seq<(ExecutionOrder, T)>)
    ensures
        execution_sequence(items).to_multiset() =~= items.to_multiset(),
{
    broadcast use vstd::multiset::group_multiset_axioms;

    let sources = in_phase(items, ExecutionOrder::Source);
    let loads = in_phase(items, ExecutionOrder::Load);
    let storage = in_phase(items, ExecutionOrder::Storage);
    lemma_phases_partition(items);
    vstd::seq_lib::lemma_multiset_commutative(sources + loads, storage);
    vstd::seq_lib::lemma_multiset_commutative(sources, loads);
}

/// Ordering a step moves no component across or within its phase: the
/// components of each phase come out exactly as they were configured.
/// Together with [`lemma_execution_sequence_sorted`] this makes the ordering
/// a stable sort by phase.
pub proof fn lemma_execution_sequence_stable<T>(
    items: Seq<(ExecutionOrder, T)>,
    phase: ExecutionOrder,
)
    ensures
        in_phase(execution_sequence(items), phase) == in_phase(items, phase),
        execution_sequence(items).len() == items.len(),
{
    let sources = in_phase(items, ExecutionOrder::Source);
    let loads = in_phase(items, ExecutionOrder::Load);
    let storage = in_phase(items, ExecutionOrder::Storage);
    lemma_in_phase_members(items, ExecutionOrder::Source);
    lemma_in_phase_members(items, ExecutionOrder::Load);
    lemma_in_phase_members(items, ExecutionOrder::Storage);
    lemma_phases_cover(items);
    let pred = runs_in::<T>(phase);
    Seq::filter_distributes_over_add(sources + loads, storage, pred);
    Seq::filter_distributes_over_add(sources, loads, pred);
    match phase {
        ExecutionOrder::Source => {
            lemma_filter_keeps_all(sources, pred);
            lemma_filter_keeps_none(loads, pred);
            lemma_filter_keeps_none(storage, pred);
        },
        ExecutionOrder::Load => {
            lemma_filter_keeps_none(sources, pred);
            lemma_filter_keeps_all(loads, pred);
            lemma_filter_keeps_none(storage, pred);
        },
        ExecutionOrder::Storage => {
            lemma_filter_keeps_none(sources, pred);
            lemma_filter_keeps_none(loads, pred);
            lemma_filter_keeps_all(storage, pred);
        },
    }
    assert(sources + loads + storage == execution_sequence(items));
}

} // verus!
