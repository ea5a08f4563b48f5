use vstd::prelude::*;
use crate::key::CheckBoxId;

verus! {

/// What a draw pass did at one position of the list.
///
/// The drawing context is threaded through the pass: `before` is the context
/// on reaching the position, `resolved` the context once the position's
/// widget is at hand, `after` the context on leaving the position. `made` is
/// what the factory gave where it was asked, and `None` where the cache held
/// the widget already.
pub struct DrawStep<C, W> {
    pub before: C,
    pub made: Option<W>,
    pub resolved: C,
    pub after: C,
}

/// A row whose widget could not be made, so that the row was not drawn.
#[derive(Clone, Copy, Debug, PartialEq, Eq, Structural)]
pub struct MissingTemplate {
    pub key: CheckBoxId,
}

/// The widget that `widgets` holds under `key`, if any.
pub open spec fn held<W>(widgets: Map<CheckBoxId, W>, key: CheckBoxId) -> Option<W> {
    if widgets.contains_key(key) {
        Some(widgets[key])
    } else {
        None
    }
}

/// Whether the pass calls the factory at `position`: it does so exactly where
/// the cache holds nothing under the position's key.
pub open spec fn calls_factory<W>(widgets: Map<CheckBoxId, W>, position: int) -> bool {
    held(widgets, CheckBoxId::at(position)) is None
}

/// The widget that a step drew: the one held before the pass, or else the
/// one that the factory made, or none.
pub open spec fn drawn<C, W>(held: Option<W>, step: DrawStep<C, W>) -> Option<W> {
    match held {
        Some(w) => Some(w),
        None => step.made,
    }
}

/// One position of a pass over a row with `text`, where the cache held `held`
/// under the row's key when the pass began.
///
/// A widget that is held is drawn as it is and the factory is not called. Where
/// none is held the factory is called once; the widget it gives is drawn, and
/// where it gives none the row is left out.
pub open spec fn draw_step<C, W, F, D>(
    factory: F,
    draw: D,
    held: Option<W>,
    text: String,
    step: DrawStep<C, W>,
) -> bool where F: Fn(C) -> (C, Option<W>), D: Fn(C, &W, &String) -> C {
    match held {
        Some(w) => {
            &&& step.made is None
            &&& step.resolved == step.before
            &&& draw.ensures((step.resolved, &w, &text), step.after)
        },
        None => {
            &&& factory.ensures((step.before,), (step.resolved, step.made))
            &&& match step.made {
                Some(w) => draw.ensures((step.resolved, &w, &text), step.after),
                None => step.after == step.resolved,
            }
        },
    }
}

/// The context in which position `i` is reached: the context given to the
/// pass, or the one in which the position before was left.
pub open spec fn draw_context_at<C, W>(cx: C, steps: Seq<DrawStep<C, W>>, i: int) -> C {
    if i == 0 {
        cx
    } else {
        steps[i - 1].after
    }
}

/// Position `i` of a pass: its step begins in the context in which the
/// position is reached, and is a step on the row at `i` with the widget that
/// the cache held under the row's key when the pass began.
pub open spec fn draw_row<C, W, F, D>(
    factory: F,
    draw: D,
    widgets: Map<CheckBoxId, W>,
    todos: Seq<String>,
    cx: C,
    steps: Seq<DrawStep<C, W>>,
    i: int,
) -> bool where F: Fn(C) -> (C, Option<W>), D: Fn(C, &W, &String) -> C {
    &&& steps[i].before == draw_context_at(cx, steps, i)
    &&& draw_step(factory, draw, held(widgets, CheckBoxId::at(i)), todos[i], steps[i])
}

/// The rows of a draw pass: one step for each row of `todos`, in order, from
/// the cache `widgets` and the context `cx`, to the context `out`.
pub open spec fn draw_pass<C, W, F, D>(
    factory: F,
    draw: D,
    widgets: Map<CheckBoxId, W>,
    todos: Seq<String>,
    cx: C,
    steps: Seq<DrawStep<C, W>>,
    out: C,
) -> bool where F: Fn(C) -> (C, Option<W>), D: Fn(C, &W, &String) -> C {
    &&& steps.len() == todos.len()
    &&& out == draw_context_at(cx, steps, steps.len() as int)
    &&& forall|i: int|
        0 <= i < steps.len() ==> #[trigger] draw_row(factory, draw, widgets, todos, cx, steps, i)
}

/// Whether the row at `position` had a widget to be drawn with.
pub open spec fn resolved<C, W>(
    widgets: Map<CheckBoxId, W>,
    steps: Seq<DrawStep<C, W>>,
    position: int,
) -> bool {
    drawn(held(widgets, CheckBoxId::at(position)), steps[position]) is Some
}

/// The cache after a pass with the steps `steps` that began with `widgets`:
/// it holds the widgets of the rows that were drawn and no others, each row's
/// widget being the one that was drawn.
pub open spec fn reconciled<C, W>(
    widgets: Map<CheckBoxId, W>,
    steps: Seq<DrawStep<C, W>>,
) -> Map<CheckBoxId, W> {
    Map::new(
        |k: CheckBoxId| 0 <= k.position() < steps.len() && resolved(widgets, steps, k.position()),
        |k: CheckBoxId| drawn(held(widgets, k), steps[k.position()]).unwrap(),
    )
}

/// What a pass reports: success where every row was drawn, and else the first
/// row that was left out.
pub open spec fn reported<C, W>(
    widgets: Map<CheckBoxId, W>,
    steps: Seq<DrawStep<C, W>>,
    result: Result<(), MissingTemplate>,
) -> bool {
    match result {
        Ok(_) => forall|i: int| 0 <= i < steps.len() ==> resolved(widgets, steps, i),
        Err(e) => {
            &&& 0 <= e.key.position() < steps.len()
            &&& !resolved(widgets, steps, e.key.position())
            &&& forall|i: int| 0 <= i < e.key.position() ==> resolved(widgets, steps, i)
        },
    }
}

} // verus!
