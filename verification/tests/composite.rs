use moto::{Outcome, Pair, Reduce, Reducer, Store, Subscriber, SubscriberModel};
use std::cell::RefCell;
use std::rc::Rc;

#[derive(Clone, Copy, PartialEq, Debug)]
enum Act {
    Inc,
    Flip,
    Nothing,
}

struct CounterPart {
    value: i64,
}

impl Reducer for CounterPart {
    type Action = Act;

    // The specification items exist only for the verifier; they are never
    // called at run time.
    fn step(self, _action: Act) -> Self {
        self
    }
    fn flag(self, _action: Act) -> bool {
        false
    }
    fn unchanged_is_identity(_s: Self, _action: Act) {}

    fn dispatch(&mut self, action: &Act) -> bool {
        let out = match action {
            Act::Inc => Outcome::Changed(self.value + 1),
            _ => Outcome::Unchanged(self.value),
        };
        let changed = out.is_changed();
        self.value = out.into_value();
        changed
    }
}

struct TogglePart {
    on: bool,
}

impl Reducer for TogglePart {
    type Action = Act;

    // The specification items exist only for the verifier; they are never
    // called at run time.
    fn step(self, _action: Act) -> Self {
        self
    }
    fn flag(self, _action: Act) -> bool {
        false
    }
    fn unchanged_is_identity(_s: Self, _action: Act) {}

    fn dispatch(&mut self, action: &Act) -> bool {
        let out = match action {
            Act::Flip => Outcome::Changed(!self.on),
            // `Nothing` is recognized but deliberately leaves the value alone.
            Act::Nothing => Outcome::Unchanged(self.on),
            _ => Outcome::Unchanged(self.on),
        };
        let changed = out.is_changed();
        self.on = out.into_value();
        changed
    }
}

type App = Pair<CounterPart, TogglePart>;

struct SeqSub {
    id: u32,
    log: Rc<RefCell<Vec<u32>>>,
}

impl SubscriberModel<App> for SeqSub {
    fn effect(self, pre: moto::StoreModel<App, Self>) -> (Self, moto::StoreModel<App, Self>) {
        (self, pre)
    }
}

impl<M> Subscriber<App, M> for SeqSub {
    fn update(&mut self, _store: &mut Store<App, M, SeqSub>) {
        self.log.borrow_mut().push(self.id);
    }
}

fn fresh(counter: i64, on: bool) -> Store<App, Reduce, SeqSub> {
    Store::new(Pair {
        first: CounterPart { value: counter },
        second: TogglePart { on },
    })
}

#[test]
fn nested_change_bubbles_to_the_composite_flag() {
    let log = Rc::new(RefCell::new(Vec::new()));
    let mut store = fresh(7, false);
    store.subscribe(SeqSub { id: 1, log: Rc::clone(&log) });
    store.dispatch(Act::Flip);
    // Only the nested sub-state changed, yet the dispatch counts as changed.
    assert_eq!(store.get_state().first.value, 7);
    assert!(store.get_state().second.on);
    assert_eq!(*log.borrow(), vec![1]);
}

#[test]
fn recognized_but_unchanged_action_is_not_a_change() {
    let log = Rc::new(RefCell::new(Vec::new()));
    let mut store = fresh(0, true);
    store.subscribe(SeqSub { id: 1, log: Rc::clone(&log) });
    store.dispatch(Act::Nothing);
    assert_eq!(store.get_state().first.value, 0);
    assert!(store.get_state().second.on);
    assert!(log.borrow().is_empty());
}

#[test]
fn subscribers_run_once_each_in_subscription_order() {
    let log = Rc::new(RefCell::new(Vec::new()));
    let mut store = fresh(0, false);
    store.subscribe(SeqSub { id: 1, log: Rc::clone(&log) });
    store.subscribe(SeqSub { id: 2, log: Rc::clone(&log) });
    store.subscribe(SeqSub { id: 3, log: Rc::clone(&log) });
    store.dispatch(Act::Inc);
    assert_eq!(*log.borrow(), vec![1, 2, 3]);
    store.dispatch(Act::Inc);
    assert_eq!(*log.borrow(), vec![1, 2, 3, 1, 2, 3]);
}
