use vstd::prelude::*;

verus! {

/// The identity of a widget, as the toolkit gives it.
#[derive(Clone, Copy, Debug, PartialEq, Eq, Hash, Structural)]
pub struct WidgetUid(pub u64);

/// An action together with the identity of the widget that produced it.
#[derive(Debug)]
pub struct WidgetActionItem<A> {
    pub widget_uid: WidgetUid,
    pub action: A,
}

impl<A> WidgetActionItem<A> {
    /// Tags `action` with the identity of its widget.
    pub fn new(action: A, widget_uid: WidgetUid) -> (item: WidgetActionItem<A>)
        ensures
            item.action == action,
            item.widget_uid == widget_uid,
    {
        WidgetActionItem { widget_uid, action }
    }
}

} // verus!
