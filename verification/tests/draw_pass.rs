use todo_makepad::{CheckBoxId, MissingTemplate, TodoList};

/// A handle into the toolkit's arena of controls.
#[derive(Clone, Copy, Debug, PartialEq, Eq)]
struct Handle(usize);

#[derive(Clone, Debug, PartialEq, Eq)]
struct Control {
    label: String,
    draws: usize,
}

/// A stand-in for a widget toolkit: it owns the controls and counts what is
/// asked of it.
#[derive(Debug, Default)]
struct Toolkit {
    controls: Vec<Control>,
    created: usize,
    refused: usize,
    refuse: Vec<usize>,
    drawn: Vec<(usize, String)>,
    calls: Vec<&'static str>,
}

fn begin(mut tk: Toolkit) -> Toolkit {
    tk.calls.push("begin");
    tk
}

fn end(mut tk: Toolkit) -> Toolkit {
    tk.calls.push("end");
    tk
}

fn make(mut tk: Toolkit) -> (Toolkit, Option<Handle>) {
    tk.calls.push("make");
    let asked = tk.created + tk.refused;
    if tk.refuse.contains(&asked) {
        tk.refused += 1;
        return (tk, None);
    }
    let handle = Handle(tk.controls.len());
    tk.controls.push(Control { label: String::new(), draws: 0 });
    tk.created += 1;
    (tk, Some(handle))
}

fn draw(mut tk: Toolkit, handle: &Handle, text: &String) -> Toolkit {
    tk.controls[handle.0].label = text.clone();
    tk.controls[handle.0].draws += 1;
    tk.drawn.push((handle.0, text.clone()));
    tk.calls.push("draw");
    tk
}

fn rows(texts: &[&str]) -> Vec<String> {
    texts.iter().map(|t| t.to_string()).collect()
}

fn pass(list: &mut TodoList<Handle>, tk: Toolkit) -> (Toolkit, Result<(), MissingTemplate>) {
    list.draw_walk(tk, begin, make, draw, end)
}

fn handle_at(list: &TodoList<Handle>, position: usize) -> Option<Handle> {
    list.items().get(CheckBoxId::of_position(position)).copied()
}

fn label_at(list: &TodoList<Handle>, tk: &Toolkit, position: usize) -> String {
    tk.controls[handle_at(list, position).unwrap().0].label.clone()
}

#[test]
fn scenario_grow_shrink_relabel() {
    let mut list: TodoList<Handle> = TodoList::new();
    let (tk, result) = pass(&mut list, Toolkit::default());
    assert_eq!(result, Ok(()));
    assert_eq!(list.items().len(), 0);
    assert_eq!(tk.created, 0);

    list.set_todos(rows(&["a", "b"]));
    let (tk, result) = pass(&mut list, tk);
    assert_eq!(result, Ok(()));
    assert_eq!(list.items().len(), 2);
    assert_eq!(tk.created, 2);
    assert_eq!(label_at(&list, &tk, 0), "a");
    assert_eq!(label_at(&list, &tk, 1), "b");
    let first = handle_at(&list, 0).unwrap();
    let second = handle_at(&list, 1).unwrap();
    assert_ne!(first, second);

    list.set_todos(rows(&["a"]));
    let (tk, result) = pass(&mut list, tk);
    assert_eq!(result, Ok(()));
    assert_eq!(list.items().len(), 1);
    assert_eq!(handle_at(&list, 0), Some(first));
    assert_eq!(handle_at(&list, 1), None);
    assert_eq!(label_at(&list, &tk, 0), "a");
    assert_eq!(tk.created, 2);

    list.set_todos(rows(&["x"]));
    let (tk, result) = pass(&mut list, tk);
    assert_eq!(result, Ok(()));
    assert_eq!(list.items().len(), 1);
    assert_eq!(handle_at(&list, 0), Some(first));
    assert_eq!(label_at(&list, &tk, 0), "x");
    assert_eq!(tk.created, 2);
}

#[test]
fn empty_list_yields_empty_cache() {
    let mut list: TodoList<Handle> = TodoList::new();
    list.set_todos(rows(&["a", "b", "c"]));
    let (tk, _) = pass(&mut list, Toolkit::default());
    assert_eq!(list.items().len(), 3);
    list.set_todos(Vec::new());
    let (tk, result) = pass(&mut list, tk);
    assert_eq!(result, Ok(()));
    assert_eq!(list.items().len(), 0);
    assert_eq!(tk.created, 3);
    assert_eq!(tk.drawn.len(), 3);
}

#[test]
fn same_length_reuses_every_handle() {
    let mut list: TodoList<Handle> = TodoList::new();
    list.set_todos(rows(&["a", "b", "c"]));
    let (tk, _) = pass(&mut list, Toolkit::default());
    let before: Vec<Option<Handle>> = (0..3).map(|i| handle_at(&list, i)).collect();
    list.set_todos(rows(&["p", "q", "r"]));
    let (tk, result) = pass(&mut list, tk);
    assert_eq!(result, Ok(()));
    let after: Vec<Option<Handle>> = (0..3).map(|i| handle_at(&list, i)).collect();
    assert_eq!(before, after);
    assert_eq!(before, vec![Some(Handle(0)), Some(Handle(1)), Some(Handle(2))]);
    assert_eq!(tk.created, 3);
    assert_eq!(label_at(&list, &tk, 0), "p");
    assert_eq!(label_at(&list, &tk, 1), "q");
    assert_eq!(label_at(&list, &tk, 2), "r");
}

#[test]
fn factory_runs_once_while_key_stays() {
    let mut list: TodoList<Handle> = TodoList::new();
    let mut tk = Toolkit::default();
    let lengths = [2usize, 3, 2, 5, 2, 2, 4];
    for (round, len) in lengths.iter().enumerate() {
        let texts: Vec<String> = (0..*len).map(|i| format!("{}-{}", round, i)).collect();
        list.set_todos(texts);
        let (next, result) = pass(&mut list, tk);
        tk = next;
        assert_eq!(result, Ok(()));
        assert_eq!(handle_at(&list, 0), Some(Handle(0)));
        assert_eq!(handle_at(&list, 1), Some(Handle(1)));
    }
    // rows 0 and 1 were made once; row 2 three times, rows 3 and 4 as often as
    // the list grew over them
    assert_eq!(tk.created, 2 + 3 + 2 + 1);
    assert_eq!(tk.controls[0].draws, lengths.len());
    assert_eq!(tk.controls[1].draws, lengths.len());
}

#[test]
fn shrinking_evicts_exactly_the_tail() {
    let mut list: TodoList<Handle> = TodoList::new();
    list.set_todos(rows(&["a", "b", "c", "d", "e"]));
    let (tk, _) = pass(&mut list, Toolkit::default());
    let before: Vec<Option<Handle>> = (0..5).map(|i| handle_at(&list, i)).collect();
    list.set_todos(rows(&["a", "b"]));
    let (tk, result) = pass(&mut list, tk);
    assert_eq!(result, Ok(()));
    assert_eq!(list.items().len(), 2);
    for i in 0..2 {
        assert_eq!(handle_at(&list, i), before[i]);
    }
    for i in 2..5 {
        assert_eq!(handle_at(&list, i), None);
        assert!(!list.items().contains(CheckBoxId(i as u64)));
    }
    assert_eq!(tk.created, 5);
}

#[test]
fn growing_creates_exactly_the_new_rows() {
    let mut list: TodoList<Handle> = TodoList::new();
    list.set_todos(rows(&["a", "b"]));
    let (tk, _) = pass(&mut list, Toolkit::default());
    assert_eq!(tk.created, 2);
    list.set_todos(rows(&["a", "b", "c", "d"]));
    let (tk, result) = pass(&mut list, tk);
    assert_eq!(result, Ok(()));
    assert_eq!(tk.created, 4);
    assert_eq!(list.items().len(), 4);
    assert_eq!(handle_at(&list, 0), Some(Handle(0)));
    assert_eq!(handle_at(&list, 1), Some(Handle(1)));
    assert_eq!(handle_at(&list, 2), Some(Handle(2)));
    assert_eq!(handle_at(&list, 3), Some(Handle(3)));
    assert_eq!(tk.controls[2].draws, 1);
    assert_eq!(tk.controls[3].draws, 1);
    assert_eq!(label_at(&list, &tk, 3), "d");
}

#[test]
fn replacing_with_the_same_list_changes_nothing() {
    let mut list: TodoList<Handle> = TodoList::new();
    list.set_todos(rows(&["a", "b", "c"]));
    let (tk, _) = pass(&mut list, Toolkit::default());
    let before: Vec<Option<Handle>> = (0..4).map(|i| handle_at(&list, i)).collect();
    list.set_todos(rows(&["a", "b", "c"]));
    list.set_todos(rows(&["a", "b", "c"]));
    let (tk, result) = pass(&mut list, tk);
    assert_eq!(result, Ok(()));
    let after: Vec<Option<Handle>> = (0..4).map(|i| handle_at(&list, i)).collect();
    assert_eq!(before, after);
    assert_eq!(tk.created, 3);
    assert_eq!(list.items().len(), 3);
}

#[test]
fn evicted_key_gets_a_fresh_handle() {
    let mut list: TodoList<Handle> = TodoList::new();
    list.set_todos(rows(&["a", "b"]));
    let (tk, _) = pass(&mut list, Toolkit::default());
    assert_eq!(handle_at(&list, 1), Some(Handle(1)));
    list.set_todos(rows(&["a"]));
    let (tk, _) = pass(&mut list, tk);
    assert_eq!(handle_at(&list, 1), None);
    list.set_todos(rows(&["a", "b"]));
    let (tk, _) = pass(&mut list, tk);
    assert_eq!(handle_at(&list, 1), Some(Handle(2)));
    assert_eq!(handle_at(&list, 0), Some(Handle(0)));
    assert_eq!(tk.created, 3);
}

#[test]
fn rows_are_drawn_in_order() {
    let mut list: TodoList<Handle> = TodoList::new();
    list.set_todos(rows(&["a", "b", "c"]));
    let (tk, _) = pass(&mut list, Toolkit::default());
    assert_eq!(
        tk.drawn,
        vec![(0, "a".to_string()), (1, "b".to_string()), (2, "c".to_string())]
    );
    list.set_todos(rows(&["c", "a"]));
    let (tk, _) = pass(&mut list, tk);
    assert_eq!(tk.drawn[3..], [(0, "c".to_string()), (1, "a".to_string())]);
}

#[test]
fn widgets_stay_with_their_position() {
    let mut list: TodoList<Handle> = TodoList::new();
    list.set_todos(rows(&["first", "second"]));
    let (tk, _) = pass(&mut list, Toolkit::default());
    let top = handle_at(&list, 0).unwrap();
    list.set_todos(rows(&["second", "first"]));
    let (tk, _) = pass(&mut list, tk);
    assert_eq!(handle_at(&list, 0), Some(top));
    assert_eq!(label_at(&list, &tk, 0), "second");
    assert_eq!(label_at(&list, &tk, 1), "first");
}

#[test]
fn set_todos_waits_for_the_next_pass() {
    let mut list: TodoList<Handle> = TodoList::new();
    list.set_todos(rows(&["a", "b"]));
    assert_eq!(list.todos(), &rows(&["a", "b"]));
    assert_eq!(list.items().len(), 0);
    let (tk, _) = pass(&mut list, Toolkit::default());
    list.set_todos(rows(&["z"]));
    assert_eq!(list.todos(), &rows(&["z"]));
    assert_eq!(list.items().len(), 2);
    assert_eq!(label_at(&list, &tk, 0), "a");
    let (tk, _) = pass(&mut list, tk);
    assert_eq!(list.items().len(), 1);
    assert_eq!(label_at(&list, &tk, 0), "z");
}

#[test]
fn missing_template_leaves_the_row_out() {
    let mut list: TodoList<Handle> = TodoList::new();
    list.set_todos(rows(&["a", "b", "c", "d"]));
    let mut tk = Toolkit::default();
    tk.refuse = vec![1, 3];
    let (mut tk, result) = pass(&mut list, tk);
    assert_eq!(result, Err(MissingTemplate { key: CheckBoxId(1) }));
    assert_eq!(tk.created, 2);
    assert_eq!(tk.refused, 2);
    assert_eq!(list.items().len(), 2);
    assert_eq!(handle_at(&list, 0), Some(Handle(0)));
    assert_eq!(handle_at(&list, 1), None);
    assert_eq!(handle_at(&list, 2), Some(Handle(1)));
    assert_eq!(handle_at(&list, 3), None);
    assert_eq!(tk.drawn, vec![(0, "a".to_string()), (1, "c".to_string())]);

    // with the template back, the next pass makes what was left out and keeps
    // the rest
    tk.refuse.clear();
    let (tk, result) = pass(&mut list, tk);
    assert_eq!(result, Ok(()));
    assert_eq!(list.items().len(), 4);
    assert_eq!(handle_at(&list, 0), Some(Handle(0)));
    assert_eq!(handle_at(&list, 1), Some(Handle(2)));
    assert_eq!(handle_at(&list, 2), Some(Handle(1)));
    assert_eq!(handle_at(&list, 3), Some(Handle(3)));
    assert_eq!(tk.created, 4);
}

#[test]
fn missing_template_reports_the_first_row() {
    let mut list: TodoList<Handle> = TodoList::new();
    list.set_todos(rows(&["a", "b", "c"]));
    let mut tk = Toolkit::default();
    tk.refuse = vec![0, 1, 2];
    let (tk, result) = pass(&mut list, tk);
    assert_eq!(result, Err(MissingTemplate { key: CheckBoxId(0) }));
    assert_eq!(list.items().len(), 0);
    assert!(tk.drawn.is_empty());
}

#[test]
fn default_list_is_empty() {
    let list: TodoList<Handle> = TodoList::default();
    assert!(list.todos().is_empty());
    assert_eq!(list.items().len(), 0);
}

#[test]
fn rows_are_drawn_between_begin_and_end() {
    let mut list: TodoList<Handle> = TodoList::new();
    list.set_todos(rows(&["a", "b"]));
    let (mut tk, _) = pass(&mut list, Toolkit::default());
    assert_eq!(tk.calls, vec!["begin", "make", "draw", "make", "draw", "end"]);
    tk.calls.clear();
    list.set_todos(rows(&["a", "b", "c"]));
    let (mut tk, _) = pass(&mut list, tk);
    assert_eq!(tk.calls, vec!["begin", "draw", "draw", "make", "draw", "end"]);
    tk.calls.clear();
    list.set_todos(Vec::new());
    let (tk, _) = pass(&mut list, tk);
    assert_eq!(tk.calls, vec!["begin", "end"]);
}

#[test]
fn a_refused_row_is_not_drawn() {
    let mut list: TodoList<Handle> = TodoList::new();
    list.set_todos(rows(&["a", "b"]));
    let mut tk = Toolkit::default();
    tk.refuse = vec![0];
    let (tk, result) = pass(&mut list, tk);
    assert_eq!(result, Err(MissingTemplate { key: CheckBoxId(0) }));
    assert_eq!(tk.calls, vec!["begin", "make", "make", "draw", "end"]);
    assert_eq!(handle_at(&list, 1), Some(Handle(0)));
}
