use vstd::prelude::*;
use crate::action::{WidgetActionItem, WidgetUid};
use crate::key::CheckBoxId;

verus! {

/// What an event pass did at one widget.
///
/// The widget is handed the event in the context `before` and gives back the
/// context `handled` with its `actions`. Each action is then passed on under
/// `widget_uid`; `relayed` holds the context after each of them.
pub struct EventStep<C, A> {
    pub before: C,
    pub widget_uid: WidgetUid,
    pub handled: C,
    pub actions: Vec<A>,
    pub relayed: Seq<C>,
}

impl<C, A> EventStep<C, A> {
    /// The context in which the action at `index` is passed on.
    pub open spec fn context_at(self, index: int) -> C {
        if index == 0 {
            self.handled
        } else {
            self.relayed[index - 1]
        }
    }

    /// The context in which the widget is left.
    pub open spec fn after(self) -> C {
        self.context_at(self.actions@.len() as int)
    }
}

/// The action at `index` of a step is passed on under the identity of the
/// step's widget, in the context that the action before it left.
pub open spec fn relays<C, A, D>(dispatch_action: D, step: EventStep<C, A>, index: int) -> bool where
    D: Fn(C, WidgetActionItem<A>) -> C,
 {
    dispatch_action.ensures(
        (
            step.context_at(index),
            (WidgetActionItem { widget_uid: step.widget_uid, action: step.actions@[index] }),
        ),
        step.relayed[index],
    )
}

/// One widget of an event pass: the widget is asked for its identity, is
/// handed the event once, and each action it gives is passed on once, in
/// order, under that identity.
pub open spec fn event_step<C, W, E, A, U, H, D>(
    widget_uid: U,
    handle_event: H,
    dispatch_action: D,
    widget: W,
    event: E,
    step: EventStep<C, A>,
) -> bool where
    U: Fn(&W) -> WidgetUid,
    H: Fn(C, &W, &E) -> (C, Vec<A>),
    D: Fn(C, WidgetActionItem<A>) -> C,
 {
    &&& widget_uid.ensures((&widget,), step.widget_uid)
    &&& handle_event.ensures((step.before, &widget, &event), (step.handled, step.actions))
    &&& step.relayed.len() == step.actions@.len()
    &&& forall|a: int| 0 <= a < step.actions@.len() ==> #[trigger] relays(dispatch_action, step, a)
}

/// The context in which the widget at `i` is reached.
pub open spec fn event_context_at<C, A>(cx: C, steps: Seq<EventStep<C, A>>, i: int) -> C {
    if i == 0 {
        cx
    } else {
        steps[i - 1].after()
    }
}

/// Slot `i` of an event pass: its step begins in the context in which the
/// slot is reached, and is a step on the widget that `widgets` holds under
/// the slot's key.
pub open spec fn event_row<C, W, E, A, U, H, D>(
    widget_uid: U,
    handle_event: H,
    dispatch_action: D,
    widgets: Map<CheckBoxId, W>,
    order: Seq<CheckBoxId>,
    event: E,
    cx: C,
    steps: Seq<EventStep<C, A>>,
    i: int,
) -> bool where
    U: Fn(&W) -> WidgetUid,
    H: Fn(C, &W, &E) -> (C, Vec<A>),
    D: Fn(C, WidgetActionItem<A>) -> C,
 {
    &&& steps[i].before == event_context_at(cx, steps, i)
    &&& event_step(widget_uid, handle_event, dispatch_action, widgets[order[i]], event, steps[i])
}

/// A whole event pass: one step for each slot of `order`, in that order, from
/// the context `cx` to the context `out`.
pub open spec fn event_pass<C, W, E, A, U, H, D>(
    widget_uid: U,
    handle_event: H,
    dispatch_action: D,
    widgets: Map<CheckBoxId, W>,
    order: Seq<CheckBoxId>,
    event: E,
    cx: C,
    steps: Seq<EventStep<C, A>>,
    out: C,
) -> bool where
    U: Fn(&W) -> WidgetUid,
    H: Fn(C, &W, &E) -> (C, Vec<A>),
    D: Fn(C, WidgetActionItem<A>) -> C,
 {
    &&& steps.len() == order.len()
    &&& out == event_context_at(cx, steps, steps.len() as int)
    &&& forall|i: int|
        0 <= i < steps.len() ==> #[trigger] event_row(
            widget_uid,
            handle_event,
            dispatch_action,
            widgets,
            order,
            event,
            cx,
            steps,
            i,
        )
}

} // verus!
