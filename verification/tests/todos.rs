use moto::{Outcome, Pair, Reduce, Reducer, Store, Subscriber, SubscriberModel};
use std::cell::Cell;
use std::rc::Rc;

#[derive(Clone, PartialEq, Debug)]
struct Todo {
    title: String,
    done: bool,
}

#[derive(Clone, Copy, PartialEq, Debug)]
enum Visibility {
    All,
    Active,
    Done,
}

enum Act {
    Add(&'static str),
    Toggle(usize),
    SetVisibility(Visibility),
}

struct TodoList {
    items: Vec<Todo>,
}

impl Reducer for TodoList {
    type Action = Act;

    // The specification items exist only for the verifier; they are never
    // called at run time.
    fn step(self, _action: Act) -> Self {
        self
    }
    fn flag(self, _action: Act) -> bool {
        false
    }
    fn unchanged_is_identity(_s: Self, _action: Act) {}

    fn dispatch(&mut self, action: &Act) -> bool {
        let out = match action {
            Act::Add(title) => {
                let mut items = self.items.clone();
                items.push(Todo { title: title.to_string(), done: false });
                Outcome::Changed(items)
            }
            Act::Toggle(i) if *i < self.items.len() => {
                let mut items = self.items.clone();
                items[*i].done = !items[*i].done;
                Outcome::Changed(items)
            }
            _ => Outcome::Unchanged(self.items.clone()),
        };
        let changed = out.is_changed();
        self.items = out.into_value();
        changed
    }
}

struct VisibilityChoice {
    current: Visibility,
}

impl Reducer for VisibilityChoice {
    type Action = Act;

    // The specification items exist only for the verifier; they are never
    // called at run time.
    fn step(self, _action: Act) -> Self {
        self
    }
    fn flag(self, _action: Act) -> bool {
        false
    }
    fn unchanged_is_identity(_s: Self, _action: Act) {}

    fn dispatch(&mut self, action: &Act) -> bool {
        let out = match action {
            // Setting the visibility it already has is explicitly a no-op.
            Act::SetVisibility(v) if *v != self.current => Outcome::Changed(*v),
            _ => Outcome::Unchanged(self.current),
        };
        let changed = out.is_changed();
        self.current = out.into_value();
        changed
    }
}

type App = Pair<TodoList, VisibilityChoice>;

struct CountSub {
    runs: Rc<Cell<u32>>,
}

impl SubscriberModel<App> for CountSub {
    fn effect(self, pre: moto::StoreModel<App, Self>) -> (Self, moto::StoreModel<App, Self>) {
        (self, pre)
    }
}

impl<M> Subscriber<App, M> for CountSub {
    fn update(&mut self, _store: &mut Store<App, M, CountSub>) {
        self.runs.set(self.runs.get() + 1);
    }
}

fn fresh(runs: &Rc<Cell<u32>>) -> Store<App, Reduce, CountSub> {
    let mut store = Store::new(Pair {
        first: TodoList { items: Vec::new() },
        second: VisibilityChoice { current: Visibility::All },
    });
    store.subscribe(CountSub { runs: Rc::clone(runs) });
    store
}

#[test]
fn add_changes_the_todo_list_only() {
    let runs = Rc::new(Cell::new(0));
    let mut store = fresh(&runs);
    store.dispatch(Act::Add("water the plants"));
    let state = store.get_state();
    assert_eq!(
        state.first.items,
        vec![Todo { title: "water the plants".to_string(), done: false }]
    );
    assert_eq!(state.second.current, Visibility::All);
    assert_eq!(runs.get(), 1);
}

#[test]
fn toggle_flips_exactly_one_entry() {
    let runs = Rc::new(Cell::new(0));
    let mut store = fresh(&runs);
    store.dispatch(Act::Add("a"));
    store.dispatch(Act::Add("b"));
    store.dispatch(Act::Toggle(1));
    let state = store.get_state();
    assert!(!state.first.items[0].done);
    assert!(state.first.items[1].done);
    assert_eq!(runs.get(), 3);
}

#[test]
fn setting_the_current_visibility_is_a_noop() {
    let runs = Rc::new(Cell::new(0));
    let mut store = fresh(&runs);
    store.dispatch(Act::SetVisibility(Visibility::All));
    assert_eq!(store.get_state().second.current, Visibility::All);
    assert_eq!(runs.get(), 0);
}

#[test]
fn setting_a_new_visibility_changes_it() {
    let runs = Rc::new(Cell::new(0));
    let mut store = fresh(&runs);
    store.dispatch(Act::SetVisibility(Visibility::Active));
    assert_eq!(store.get_state().second.current, Visibility::Active);
    assert_eq!(runs.get(), 1);
    store.dispatch(Act::SetVisibility(Visibility::Done));
    assert_eq!(store.get_state().second.current, Visibility::Done);
    assert_eq!(runs.get(), 2);
}

#[test]
fn toggle_out_of_range_is_a_noop() {
    let runs = Rc::new(Cell::new(0));
    let mut store = fresh(&runs);
    store.dispatch(Act::Add("a"));
    store.dispatch(Act::Toggle(5));
    assert_eq!(runs.get(), 1);
    assert!(!store.get_state().first.items[0].done);
}
