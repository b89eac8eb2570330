use moto::{Middleware, Reduce, Reducer, Store, Subscriber, SubscriberModel};
use std::marker::PhantomData;

#[derive(Clone, Copy)]
enum Act {
    Mark(i64),
    Run,
}

struct Log {
    entries: Vec<i64>,
}

impl Reducer for Log {
    type Action = Act;

    // The specification items exist only for the verifier; they are never
    // called at run time.
    fn step(self, _action: Act) -> Self {
        self
    }
    fn flag(self, _action: Act) -> bool {
        false
    }
    fn unchanged_is_identity(_s: Self, _action: Act) {}

    fn dispatch(&mut self, action: &Act) -> bool {
        match action {
            Act::Mark(i) => self.entries.push(*i),
            Act::Run => self.entries.push(0),
        }
        true
    }
}

struct NoSub;

impl SubscriberModel<Log> for NoSub {
    fn effect(self, pre: moto::StoreModel<Log, Self>) -> (Self, moto::StoreModel<Log, Self>) {
        (self, pre)
    }
}

impl<M> Subscriber<Log, M> for NoSub {
    fn update(&mut self, _store: &mut Store<Log, M, NoSub>) {}
}

struct Outer<N>(PhantomData<N>);

impl<N: Middleware<Log, NoSub>> Middleware<Log, NoSub> for Outer<N> {
    fn effect(pre: moto::StoreModel<Log, NoSub>, _action: Act) -> moto::StoreModel<Log, NoSub> {
        pre
    }

    fn apply<E>(store: &mut Store<Log, E, NoSub>, action: Act)
    where
        NoSub: Subscriber<Log, E>,
    {
        store.reduce(Act::Mark(10));
        N::apply::<E>(store, action);
        store.reduce(Act::Mark(19));
    }
}

struct Inner<N>(PhantomData<N>);

impl<N: Middleware<Log, NoSub>> Middleware<Log, NoSub> for Inner<N> {
    fn effect(pre: moto::StoreModel<Log, NoSub>, _action: Act) -> moto::StoreModel<Log, NoSub> {
        pre
    }

    fn apply<E>(store: &mut Store<Log, E, NoSub>, action: Act)
    where
        NoSub: Subscriber<Log, E>,
    {
        store.reduce(Act::Mark(20));
        N::apply::<E>(store, action);
        store.reduce(Act::Mark(29));
    }
}

/// A middleware that never hands the action on.
struct Mute;

impl Middleware<Log, NoSub> for Mute {
    fn effect(pre: moto::StoreModel<Log, NoSub>, _action: Act) -> moto::StoreModel<Log, NoSub> {
        pre
    }

    fn apply<E>(_store: &mut Store<Log, E, NoSub>, _action: Act)
    where
        NoSub: Subscriber<Log, E>,
    {
    }
}

#[test]
fn middleware_runs_outermost_first_in_declared_order() {
    // Declared order [Outer, Inner]: Outer-before, Inner-before, base,
    // Inner-after, Outer-after.
    let mut store: Store<Log, Outer<Inner<Reduce>>, NoSub> =
        Store::new(Log { entries: Vec::new() });
    store.dispatch(Act::Run);
    assert_eq!(store.get_state().entries, vec![10, 20, 0, 29, 19]);
}

#[test]
fn empty_declaration_composes_to_the_bare_reduce_primitive() {
    let mut store: Store<Log, Reduce, NoSub> = Store::new(Log { entries: Vec::new() });
    store.dispatch(Act::Run);
    assert_eq!(store.get_state().entries, vec![0]);
}

#[test]
fn a_middleware_may_suppress_the_dispatch() {
    let mut store: Store<Log, Mute, NoSub> = Store::new(Log { entries: Vec::new() });
    store.dispatch(Act::Run);
    assert!(store.get_state().entries.is_empty());
}
