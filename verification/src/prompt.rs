use vstd::prelude::*;

verus! {

/// What a text input reports on an event.
#[derive(Debug, PartialEq, Eq)]
pub enum TextInputAction {
    Change(String),
    Return(String),
    Escape,
    KeyFocus,
    KeyFocusLost,
    NoAction,
}

/// The application's own state: the rows that were entered so far.
pub struct App {
    todos: Vec<String>,
}

impl Default for App {
    fn default() -> (app: App)
        ensures
            app@ == Seq::<String>::empty(),
    {
        App::new()
    }
}

impl View for App {
    type V = Seq<String>;

    closed spec fn view(&self) -> Seq<String> {
        self.todos@
    }
}

/// Whether `index` is the place of the first `Return` among `actions`.
pub open spec fn first_return(actions: Seq<TextInputAction>, index: int) -> bool {
    &&& 0 <= index < actions.len()
    &&& actions[index] is Return
    &&& forall|j: int| 0 <= j < index ==> !(actions[j] is Return)
}

impl App {
    /// An application without rows.
    pub fn new() -> (app: App)
        ensures
            app@ == Seq::<String>::empty(),
    {
        App { todos: Vec::new() }
    }

    /// The rows, oldest first.
    pub fn todos(&self) -> (todos: &Vec<String>)
        ensures
            todos@ == self@,
    {
        &self.todos
    }

    /// Takes the actions that one event brought. The text of the first
    /// `Return` among them becomes a new last row, and the result says whether
    /// there was one; other actions, and further `Return`s, change nothing.
    pub fn handle_actions(&mut self, actions: Vec<TextInputAction>) -> (added: bool)
        ensures
            added <==> exists|i: int| first_return(actions@, i),
            !added ==> final(self)@ == old(self)@,
            forall|i: int|
                first_return(actions@, i) ==> final(self)@ == old(self)@.push(
                    actions@[i]->Return_0,
                ),
    {
        let ghost all = actions@;
        let ghost mut place: int = 0;
        let mut entered: Option<String> = None;
        for action in it: actions
            invariant
                it.seq() == all,
                match entered {
                    Some(text) => first_return(all, place) && place < it.index() && text
                        == all[place]->Return_0,
                    None => forall|j: int| 0 <= j < it.index() ==> !(all[j] is Return),
                },
        {
            if entered.is_none() {
                if let TextInputAction::Return(text) = action {
                    proof {
                        place = it.index() as int;
                    }
                    entered = Some(text);
                }
            }
        }
        match entered {
            Some(text) => {
                self.todos.push(text);
                assert forall|i: int| first_return(all, i) implies i == place by {}
                true
            },
            None => false,
        }
    }
}

} // verus!
