use vstd::prelude::*;
use crate::action::{WidgetActionItem, WidgetUid};
use crate::cache::WidgetCache;
use crate::draw::{draw_context_at, draw_pass, draw_row, reconciled, reported, resolved};
use crate::draw::{DrawStep, MissingTemplate};
use crate::event::{event_context_at, event_pass, event_row, relays, EventStep};
use crate::key::CheckBoxId;

verus! {

/// What a list is to its callers: the rows, the widgets by key, and the order
/// in which events reach the widgets.
pub struct TodoListView<W> {
    pub todos: Seq<String>,
    pub widgets: Map<CheckBoxId, W>,
    pub order: Seq<CheckBoxId>,
}

/// A list of rows of text, with one persistent widget for each row that has
/// been drawn.
pub struct TodoList<W> {
    todos: Vec<String>,
    items: WidgetCache<W>,
}

spec fn outcome(missing: Option<CheckBoxId>) -> Result<(), MissingTemplate> {
    match missing {
        Some(key) => Err(MissingTemplate { key }),
        None => Ok(()),
    }
}

impl<W> Default for TodoList<W> {
    fn default() -> (list: TodoList<W>)
        ensures
            list.wf(),
            list@.todos == Seq::<String>::empty(),
            list@.widgets == Map::<CheckBoxId, W>::empty(),
            list@.order == Seq::<CheckBoxId>::empty(),
    {
        TodoList::new()
    }
}

impl<W> View for TodoList<W> {
    type V = TodoListView<W>;

    closed spec fn view(&self) -> TodoListView<W> {
        TodoListView { todos: self.todos@, widgets: self.items@, order: self.items.keys() }
    }
}

impl<W> TodoList<W> {
    /// The cache is sound and no pass is under way.
    pub closed spec fn wf(&self) -> bool {
        &&& self.items.wf()
        &&& self.items.visited() == Set::<CheckBoxId>::empty()
    }

    /// A list without rows and without widgets.
    pub fn new() -> (list: TodoList<W>)
        ensures
            list.wf(),
            list@.todos == Seq::<String>::empty(),
            list@.widgets == Map::<CheckBoxId, W>::empty(),
            list@.order == Seq::<CheckBoxId>::empty(),
    {
        TodoList { todos: Vec::new(), items: WidgetCache::new() }
    }

    /// The rows.
    pub fn todos(&self) -> (todos: &Vec<String>)
        ensures
            todos@ == self@.todos,
    {
        &self.todos
    }

    /// The widgets.
    pub fn items(&self) -> (items: &WidgetCache<W>)
        requires
            self.wf(),
        ensures
            items.wf(),
            items@ == self@.widgets,
            items.keys() == self@.order,
            items.visited() == Set::<CheckBoxId>::empty(),
    {
        &self.items
    }

    /// Replaces the rows. The widgets stay as they are until the next draw
    /// pass.
    pub fn set_todos(&mut self, todos: Vec<String>)
        ensures
            final(self)@.todos == todos@,
            final(self)@.widgets == old(self)@.widgets,
            final(self)@.order == old(self)@.order,
            old(self).wf() ==> final(self).wf(),
    {
        self.todos = todos
    }

    /// Draws the rows in order and brings the widgets in line with them.
    ///
    /// The rows are drawn between one call of `begin` and one call of `end`.
    /// Each row is drawn with the widget held under its key; where none is
    /// held, `factory` is asked for one, which is held from then on. A row for
    /// which the factory gives no widget is left out and the pass goes on.
    /// When all rows are done, the widgets of keys that no row has any more
    /// are dropped. The context `cx` goes through every call in turn and
    /// comes back as the first part of the result; the second part names the
    /// first row that was left out, if one was.
    pub fn draw_walk<C, B, F, D, E>(
        &mut self,
        cx: C,
        begin: B,
        factory: F,
        draw: D,
        end: E,
    ) -> (out: (C, Result<(), MissingTemplate>)) where
        B: Fn(C) -> C,
        F: Fn(C) -> (C, Option<W>),
        D: Fn(C, &W, &String) -> C,
        E: Fn(C) -> C,

        requires
            old(self).wf(),
            forall|c: C| begin.requires((c,)),
            forall|c: C| factory.requires((c,)),
            forall|c: C, w: W, text: String| draw.requires((c, &w, &text)),
            forall|c: C| end.requires((c,)),
        ensures
            final(self).wf(),
            final(self)@.todos == old(self)@.todos,
            exists|begun: C, steps: Seq<DrawStep<C, W>>, drawn: C|
                begin.ensures((cx,), begun) && #[trigger] draw_pass(
                    factory,
                    draw,
                    old(self)@.widgets,
                    old(self)@.todos,
                    begun,
                    steps,
                    drawn,
                ) && end.ensures((drawn,), out.0) && final(self)@.widgets == reconciled(
                    old(self)@.widgets,
                    steps,
                ) && reported(old(self)@.widgets, steps, out.1),
    {
        let ghost start = *self;
        let ghost mut steps: Seq<DrawStep<C, W>> = Seq::empty();
        let mut cx = begin(cx);
        let ghost first = cx;
        let mut missing: Option<CheckBoxId> = None;
        let n = self.todos.len();
        let mut i: usize = 0;
        while i < n
            invariant
                i <= n,
                n == self.todos@.len(),
                self.todos@ == start.todos@,
                self.items.wf(),
                forall|c: C| factory.requires((c,)),
                forall|c: C, w: W, text: String| draw.requires((c, &w, &text)),
                steps.len() == i,
                cx == draw_context_at(first, steps, i as int),
                forall|j: int|
                    0 <= j < i ==> #[trigger] draw_row(
                        factory,
                        draw,
                        start.items@,
                        start.todos@,
                        first,
                        steps,
                        j,
                    ),
                forall|k: CheckBoxId|
                    #[trigger] self.items@.contains_key(k) <==> start.items@.contains_key(k) || (0
                        <= k.position() < i && steps[k.position()].made is Some),
                forall|k: CheckBoxId|
                    #[trigger] self.items@.contains_key(k) ==> Some(self.items@[k]) == (
                    if start.items@.contains_key(k) {
                        Some(start.items@[k])
                    } else {
                        steps[k.position()].made
                    }),
                forall|k: CheckBoxId|
                    #[trigger] self.items.visited().contains(k) <==> self.items@.contains_key(k)
                        && 0 <= k.position() < i,
                reported(start.items@, steps, outcome(missing)),
            decreases n - i,
        {
            let key = CheckBoxId::of_position(i);
            let ghost reached = cx;
            let ghost cache = self.items;
            let ghost earlier = steps;
            let (cx_resolved, found) = self.items.get_or_create(cx, key, &factory);
            let ghost resolved_cx = cx_resolved;
            let ghost made: Option<W> = if cache@.contains_key(key) {
                None
            } else {
                match found {
                    Some(w) => Some(*w),
                    None => None,
                }
            };
            let drew = found.is_some();
            cx = match found {
                Some(widget) => draw(cx_resolved, widget, &self.todos[i]),
                None => cx_resolved,
            };
            if drew {
                self.items.mark_visited(key);
            } else if missing.is_none() {
                missing = Some(key);
            }
            proof {
                let step = DrawStep { before: reached, made, resolved: resolved_cx, after: cx };
                steps = steps.push(step);
                assert forall|j: int| 0 <= j < i + 1 implies #[trigger] draw_row(
                    factory,
                    draw,
                    start.items@,
                    start.todos@,
                    first,
                    steps,
                    j,
                ) by {
                    if j < i {
                        assert(draw_row(factory, draw, start.items@, start.todos@, first, earlier, j));
                    }
                }
                assert forall|j: int| 0 <= j < i implies resolved(start.items@, steps, j)
                    == resolved(start.items@, earlier, j) by {
                    assert(steps[j] == earlier[j]);
                }
            }
            i += 1;
        }
        let ghost drawn = cx;
        let cx = end(cx);
        self.items.retain_visited();
        let result = match missing {
            Some(key) => Err(MissingTemplate { key }),
            None => Ok(()),
        };
        proof {
            assert(self.items@ =~= reconciled(start.items@, steps));
            assert(draw_pass(factory, draw, start@.widgets, start@.todos, first, steps, drawn));
        }
        (cx, result)
    }

    /// Hands `event` to every widget and passes each action that comes back
    /// on, under the identity of the widget it came from.
    ///
    /// The widgets are taken in the order of their slots. Each one is asked
    /// for its identity by `widget_uid` and is handed the event once by
    /// `handle_event`; its actions go to `dispatch_action` one by one, in the
    /// order in which the widget gave them. The context `cx` goes through
    /// every call in turn and is the result. The list itself stays as it is.
    pub fn handle_event_with<C, E, A, U, H, D>(
        &self,
        cx: C,
        event: &E,
        widget_uid: U,
        handle_event: H,
        dispatch_action: D,
    ) -> (out: C) where
        U: Fn(&W) -> WidgetUid,
        H: Fn(C, &W, &E) -> (C, Vec<A>),
        D: Fn(C, WidgetActionItem<A>) -> C,

        requires
            self.wf(),
            forall|w: W| widget_uid.requires((&w,)),
            forall|c: C, w: W, e: E| handle_event.requires((c, &w, &e)),
            forall|c: C, item: WidgetActionItem<A>| dispatch_action.requires((c, item)),
        ensures
            self@.order.no_duplicates(),
            forall|k: CheckBoxId| self@.order.contains(k) <==> self@.widgets.contains_key(k),
            exists|steps: Seq<EventStep<C, A>>|
                event_pass(
                    widget_uid,
                    handle_event,
                    dispatch_action,
                    self@.widgets,
                    self@.order,
                    *event,
                    cx,
                    steps,
                    out,
                ),
    {
        let ghost first = cx;
        let ghost mut steps: Seq<EventStep<C, A>> = Seq::empty();
        let mut cx = cx;
        let n = self.items.len();
        let mut i: usize = 0;
        while i < n
            invariant
                i <= n,
                n == self.items.keys().len(),
                self.items.wf(),
                forall|w: W| widget_uid.requires((&w,)),
                forall|c: C, w: W, e: E| handle_event.requires((c, &w, &e)),
                forall|c: C, item: WidgetActionItem<A>| dispatch_action.requires((c, item)),
                steps.len() == i,
                cx == event_context_at(first, steps, i as int),
                forall|j: int|
                    0 <= j < i ==> #[trigger] event_row(
                        widget_uid,
                        handle_event,
                        dispatch_action,
                        self.items@,
                        self.items.keys(),
                        *event,
                        first,
                        steps,
                        j,
                    ),
            decreases n - i,
        {
            let ghost reached = cx;
            let ghost earlier = steps;
            let widget = self.items.widget_at(i);
            let uid = widget_uid(widget);
            let (cx_handled, actions) = handle_event(cx, widget, event);
            let ghost handled = cx_handled;
            let ghost given = actions;
            let ghost mut relayed: Seq<C> = Seq::empty();
            cx = cx_handled;
            for action in it: actions
                invariant
                    forall|c: C, item: WidgetActionItem<A>| dispatch_action.requires((c, item)),
                    it.seq() == given@,
                    relayed.len() == it.index(),
                    cx == (EventStep {
                        before: reached,
                        widget_uid: uid,
                        handled,
                        actions: given,
                        relayed,
                    }).context_at(it.index() as int),
                    forall|a: int|
                        0 <= a < it.index() ==> #[trigger] relays(
                            dispatch_action,
                            (EventStep {
                                before: reached,
                                widget_uid: uid,
                                handled,
                                actions: given,
                                relayed,
                            }),
                            a,
                        ),
            {
                let ghost sent = EventStep {
                    before: reached,
                    widget_uid: uid,
                    handled,
                    actions: given,
                    relayed,
                };
                cx = dispatch_action(cx, WidgetActionItem::new(action, uid));
                proof {
                    relayed = relayed.push(cx);
                    let now = EventStep {
                        before: reached,
                        widget_uid: uid,
                        handled,
                        actions: given,
                        relayed,
                    };
                    assert forall|a: int| 0 <= a < it.index() + 1 implies #[trigger] relays(
                        dispatch_action,
                        now,
                        a,
                    ) by {
                        if a < it.index() {
                            assert(relays(dispatch_action, sent, a));
                        }
                    }
                }
            }
            proof {
                let step = EventStep {
                    before: reached,
                    widget_uid: uid,
                    handled,
                    actions: given,
                    relayed,
                };
                steps = steps.push(step);
                assert forall|j: int| 0 <= j < i + 1 implies #[trigger] event_row(
                    widget_uid,
                    handle_event,
                    dispatch_action,
                    self.items@,
                    self.items.keys(),
                    *event,
                    first,
                    steps,
                    j,
                ) by {
                    if j < i {
                        assert(event_row(
                            widget_uid,
                            handle_event,
                            dispatch_action,
                            self.items@,
                            self.items.keys(),
                            *event,
                            first,
                            earlier,
                            j,
                        ));
                    }
                }
            }
            i += 1;
        }
        proof {
            assert(event_pass(
                widget_uid,
                handle_event,
                dispatch_action,
                self@.widgets,
                self@.order,
                *event,
                first,
                steps,
                cx,
            ));
        }
        cx
    }
}

} // verus!
