use vstd::prelude::*;
use crate::action::{WidgetActionItem, WidgetUid};
use crate::draw::{calls_factory, drawn, held, reconciled, reported, resolved};
use crate::draw::{DrawStep, MissingTemplate};
use crate::event::{event_pass, event_row, event_step, EventStep};
use crate::key::CheckBoxId;

verus! {

/// A run of draw passes: `caches[j]` is the cache before pass `j` and
/// `caches[j + 1]` the cache after it, `passes[j]` holds the steps of pass `j`.
pub open spec fn history<C, W>(
    caches: Seq<Map<CheckBoxId, W>>,
    passes: Seq<Seq<DrawStep<C, W>>>,
) -> bool {
    &&& caches.len() == passes.len() + 1
    &&& forall|j: int|
        0 <= j < passes.len() ==> (#[trigger] passes[j]).len() <= usize::MAX && caches[j + 1]
            == reconciled(caches[j], passes[j])
}

/// After a pass the cache holds a widget for just the rows that were drawn:
/// for every row where the pass reports none left out, and nothing where the
/// list is empty.
pub proof fn lemma_cache_matches_rows<C, W>(
    widgets: Map<CheckBoxId, W>,
    steps: Seq<DrawStep<C, W>>,
    result: Result<(), MissingTemplate>,
)
    requires
        steps.len() <= usize::MAX,
        reported(widgets, steps, result),
    ensures
        forall|k: CheckBoxId| #[trigger]
            reconciled(widgets, steps).contains_key(k) <==> 0 <= k.position() < steps.len()
                && resolved(widgets, steps, k.position()),
        result is Ok ==> forall|k: CheckBoxId| #[trigger]
            reconciled(widgets, steps).contains_key(k) <==> 0 <= k.position() < steps.len(),
        steps.len() == 0 ==> reconciled(widgets, steps) == Map::<CheckBoxId, W>::empty(),
{
    if steps.len() == 0 {
        assert(reconciled(widgets, steps) =~= Map::<CheckBoxId, W>::empty());
    }
}

/// Reuse. Of two passes in a row over lists of the same length, the second
/// draws every row that the first one drew, with the same widget, and does not
/// call the factory for it.
pub proof fn lemma_reuse<C, W>(
    widgets: Map<CheckBoxId, W>,
    first: Seq<DrawStep<C, W>>,
    second: Seq<DrawStep<C, W>>,
    position: int,
)
    requires
        first.len() == second.len(),
        first.len() <= usize::MAX,
        0 <= position < first.len(),
        resolved(widgets, first, position),
    ensures
        !calls_factory(reconciled(widgets, first), position),
        drawn(held(reconciled(widgets, first), CheckBoxId::at(position)), second[position])
            == drawn(held(widgets, CheckBoxId::at(position)), first[position]),
        reconciled(reconciled(widgets, first), second)[CheckBoxId::at(position)] == reconciled(
            widgets,
            first,
        )[CheckBoxId::at(position)],
{
}

/// Creation once. Once a widget is held under a key, no pass calls the
/// factory for that key for as long as every pass still has the key's row,
/// however many passes that may be; and through all of them the key keeps the
/// same widget.
pub proof fn lemma_creation_once<C, W>(
    caches: Seq<Map<CheckBoxId, W>>,
    passes: Seq<Seq<DrawStep<C, W>>>,
    key: CheckBoxId,
    from: int,
    to: int,
)
    requires
        history(caches, passes),
        0 <= from <= to <= passes.len(),
        caches[from].contains_key(key),
        forall|j: int| from <= j < to ==> key.position() < (#[trigger] passes[j]).len(),
    ensures
        forall|j: int| from <= j < to ==> !calls_factory(#[trigger] caches[j], key.position()),
        forall|j: int|
            from <= j <= to ==> (#[trigger] caches[j]).contains_key(key) && caches[j][key]
                == caches[from][key],
    decreases to - from,
{
    if from < to {
        lemma_creation_once(caches, passes, key, from, to - 1);
        let last = to - 1;
        assert(passes[last].len() <= usize::MAX);
        assert(caches[last].contains_key(key));
        assert(caches[last + 1] == reconciled(caches[last], passes[last]));
        assert(CheckBoxId::at(key.position()) == key);
    }
}

/// Eviction. When the list has shrunk from one pass to the next, the second
/// pass drops the widgets of the rows that are gone, and only those: a key is
/// held after it just where it was held before it and its row is still there,
/// or where the pass made it anew.
pub proof fn lemma_eviction<C, W>(
    widgets: Map<CheckBoxId, W>,
    first: Seq<DrawStep<C, W>>,
    second: Seq<DrawStep<C, W>>,
    key: CheckBoxId,
)
    requires
        second.len() < first.len(),
        first.len() <= usize::MAX,
    ensures
        ({
            let before = reconciled(widgets, first);
            let after = reconciled(before, second);
            &&& before.contains_key(key) && !after.contains_key(key) <==> before.contains_key(key)
                && second.len() <= key.position() < first.len()
            &&& before.contains_key(key) && after.contains_key(key) ==> after[key] == before[key]
            &&& resolved(widgets, first, key.position()) && second.len() <= key.position()
                < first.len() ==> before.contains_key(key) && !after.contains_key(key)
        }),
{
}

/// Growth. When the list has grown from one pass to the next, the second pass
/// calls the factory for every row that is new, and holds under the row's key
/// just what the factory made for it.
pub proof fn lemma_growth<C, W>(
    widgets: Map<CheckBoxId, W>,
    first: Seq<DrawStep<C, W>>,
    second: Seq<DrawStep<C, W>>,
    position: int,
)
    requires
        first.len() < second.len(),
        second.len() <= usize::MAX,
        first.len() <= position < second.len(),
    ensures
        ({
            let before = reconciled(widgets, first);
            let after = reconciled(before, second);
            let key = CheckBoxId::at(position);
            &&& calls_factory(before, position)
            &&& after.contains_key(key) <==> second[position].made is Some
            &&& after.contains_key(key) ==> Some(after[key]) == second[position].made
        }),
{
}

/// Idempotent replace. A second pass over a list of the same length drops
/// nothing, and calls the factory only for the rows that the first pass left
/// out; where the first pass drew every row, the second leaves the cache as it
/// was.
pub proof fn lemma_idempotent_replace<C, W>(
    widgets: Map<CheckBoxId, W>,
    first: Seq<DrawStep<C, W>>,
    second: Seq<DrawStep<C, W>>,
)
    requires
        first.len() == second.len(),
        first.len() <= usize::MAX,
    ensures
        ({
            let before = reconciled(widgets, first);
            let after = reconciled(before, second);
            &&& forall|k: CheckBoxId| #[trigger]
                before.contains_key(k) ==> after.contains_key(k) && after[k] == before[k]
            &&& forall|i: int|
                0 <= i < first.len() ==> (calls_factory(before, i) <==> !resolved(
                    widgets,
                    first,
                    i,
                ))
            &&& (forall|i: int| 0 <= i < first.len() ==> resolved(widgets, first, i)) ==> after
                == before
        }),
{
    let before = reconciled(widgets, first);
    let after = reconciled(before, second);
    if forall|i: int| 0 <= i < first.len() ==> resolved(widgets, first, i) {
        assert forall|k: CheckBoxId| after.contains_key(k) implies before.contains_key(k) by {
            assert(resolved(widgets, first, k.position()));
        }
        assert(after =~= before);
    }
}

/// Event fan-out. In an event pass every widget that is held is handed the
/// event exactly once: each key of the cache has one step of the pass, and
/// there are as many steps as widgets.
pub proof fn lemma_fan_out<C, W, E, A, U, H, D>(
    widget_uid: U,
    handle_event: H,
    dispatch_action: D,
    widgets: Map<CheckBoxId, W>,
    order: Seq<CheckBoxId>,
    event: E,
    cx: C,
    steps: Seq<EventStep<C, A>>,
    out: C,
    key: CheckBoxId,
) -> (slot: int) where
    U: Fn(&W) -> WidgetUid,
    H: Fn(C, &W, &E) -> (C, Vec<A>),
    D: Fn(C, WidgetActionItem<A>) -> C,

    requires
        order.no_duplicates(),
        forall|k: CheckBoxId| order.contains(k) <==> widgets.contains_key(k),
        event_pass(widget_uid, handle_event, dispatch_action, widgets, order, event, cx, steps, out),
        widgets.contains_key(key),
    ensures
        widgets.dom().finite(),
        steps.len() == widgets.len(),
        0 <= slot < steps.len(),
        order[slot] == key,
        forall|i: int| 0 <= i < steps.len() && order[i] == key ==> i == slot,
        event_step(widget_uid, handle_event, dispatch_action, widgets[key], event, steps[slot]),
{
    order.unique_seq_to_set();
    assert(widgets.dom() =~= order.to_set());
    let slot = choose|i: int| 0 <= i < order.len() && order[i] == key;
    assert(event_row(
        widget_uid,
        handle_event,
        dispatch_action,
        widgets,
        order,
        event,
        cx,
        steps,
        slot,
    ));
    slot
}

} // verus!
