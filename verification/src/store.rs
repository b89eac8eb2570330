//! The runtime protocol: stores, reducers, middleware and subscribers.
//!
//! A [`Store`] owns the root state, a middleware entry point chosen once at
//! construction (the type parameter `M`), and the subscriber list.  Every
//! dispatch runs to completion through the middleware chain, the reducer tree
//! and the notification pass before it returns.

use vstd::prelude::*;

verus! {

/// The mathematical model of a store: the root state together with the
/// subscriber list, with the middleware selector erased.  Contracts speak
/// about stores through this model.
pub struct StoreModel<R, S> {
    pub state: R,
    pub subs: Seq<S>,
}

/// The composed dispatch operation over one (possibly nested) state shape.
///
/// `step` and `flag` are the specification of `dispatch`: the state it leaves
/// behind and the change flag it reports.  The flag of a composite is the
/// disjunction of the flags of its parts, and a transition function that does
/// not recognize an action must report no change and leave the value as it
/// was; `unchanged_is_identity` is that obligation on every implementation.
pub trait Reducer: Sized {
    type Action;

    /// The state that `dispatch` leaves behind for a given action.
    spec fn step(self, action: Self::Action) -> Self;

    /// Whether any bound transition function reports a change for the action.
    spec fn flag(self, action: Self::Action) -> bool;

    /// An action that no bound transition function recognizes is a
    /// bit-for-bit no-op on the state.
    proof fn unchanged_is_identity(s: Self, action: Self::Action)
        ensures
            !s.flag(action) ==> s.step(action) == s,
    ;

    fn dispatch(&mut self, action: &Self::Action) -> (changed: bool)
        ensures
            *final(self) == old(self).step(*action),
            changed == old(self).flag(*action),
    ;
}

/// One link of the dispatch chain.  `apply` receives the whole store and the
/// action and decides whether, when and how often to hand the action on; its
/// whole behaviour is pinned down by the `effect` specification of the
/// implementing type.  A wrapping link hands the store on to its inner link,
/// so `apply` is generic over the entry link `E` that the store was built
/// with: the links of one chain all act on the same store type.
pub trait Middleware<R: Reducer, S>: Sized {
    /// The store that `apply` leaves behind.
    spec fn effect(pre: StoreModel<R, S>, action: R::Action) -> StoreModel<R, S>;

    fn apply<E>(store: &mut Store<R, E, S>, action: R::Action) where S: Subscriber<R, E>
        ensures
            final(store)@ == Self::effect(old(store)@, action),
    ;
}

/// The observable behaviour of a subscriber: what one notification does to
/// the subscriber itself and to the store it watches.  The effect belongs to
/// the subscriber alone — it does not depend on the middleware chain of the
/// store it is subscribed to.
pub trait SubscriberModel<R: Reducer>: Sized {
    /// The subscriber and store values that one notification leaves behind.
    spec fn effect(self, pre: StoreModel<R, Self>) -> (Self, StoreModel<R, Self>);
}

/// An external observer, notified once per changed dispatch, in subscription
/// order, with mutable access to the whole store (so it may itself dispatch
/// further actions).  The inherited `effect` pins down what one notification
/// does to the subscriber and to the store.
pub trait Subscriber<R: Reducer, M>: SubscriberModel<R> {
    fn update(&mut self, store: &mut Store<R, M, Self>)
        ensures
            (*final(self), final(store)@) == Self::effect(*old(self), old(store)@),
    ;
}

/// The owner of the root state, the middleware entry point `M` (fixed at
/// construction and never changed afterward), and the subscriber list.
pub struct Store<R, M, S> {
    root: R,
    entry: core::marker::PhantomData<M>,
    subs: Vec<S>,
}

impl<R, M, S> View for Store<R, M, S> {
    type V = StoreModel<R, S>;

    closed spec fn view(&self) -> StoreModel<R, S> {
        StoreModel { state: self.root, subs: self.subs@ }
    }
}

/// The store left behind after the subscribers `subs[i..]` have been notified
/// in order, starting from store `m`: each subscriber's `effect` is applied
/// exactly once, and each sees the store exactly as its predecessors left it.
pub open spec fn notify_from<R: Reducer, S: SubscriberModel<R>>(
    subs: Seq<S>,
    i: int,
    m: StoreModel<R, S>,
) -> (Seq<S>, StoreModel<R, S>)
    decreases subs.len() - i,
{
    if i < 0 || i >= subs.len() {
        (subs, m)
    } else {
        let (sub, mid) = S::effect(subs[i], m);
        notify_from::<R, S>(subs.update(i, sub), i + 1, mid)
    }
}

/// What one `reduce` call does to a store.  The root reducer always runs;
/// only when it reports a change does the notification pass run, over a store
/// whose subscriber list has been taken out for the duration of the pass (so
/// a nested dispatch from inside a subscriber notifies nobody).  When the
/// pass ends, the notified subscribers come back in subscription order, and
/// subscriptions made during the pass stay registered after them: they are
/// kept for the store's lifetime, merely not notified within the pass that
/// added them.
pub open spec fn reduce_model<R: Reducer, S: SubscriberModel<R>>(
    pre: StoreModel<R, S>,
    action: R::Action,
) -> StoreModel<R, S> {
    let stepped = pre.state.step(action);
    if !pre.state.flag(action) {
        StoreModel { state: stepped, subs: pre.subs }
    } else {
        let started = StoreModel { state: stepped, subs: Seq::empty() };
        let (notified, after) = notify_from::<R, S>(pre.subs, 0, started);
        StoreModel { state: after.state, subs: notified + after.subs }
    }
}

impl<R, M, S> Store<R, M, S> where R: Reducer, M: Middleware<R, S>, S: Subscriber<R, M> {
    /// Hands the action to the bound middleware entry point.
    pub fn dispatch(&mut self, action: R::Action)
        ensures
            final(self)@ == M::effect(old(self)@, action),
    {
        M::apply::<M>(self, action);
    }
}

impl<R, M, S> Store<R, M, S> where R: Reducer, S: Subscriber<R, M> {
    /// A store over the given initial state, with the middleware entry point
    /// `M` bound once and for all and an empty subscriber list.
    pub fn new(root: R) -> (store: Store<R, M, S>)
        ensures
            store@.state == root,
            store@.subs == Seq::<S>::empty(),
    {
        Store { root, entry: core::marker::PhantomData, subs: Vec::new() }
    }

    /// The innermost step of the chain: runs the root reducer and, if it
    /// reports a change, notifies every subscriber once, in subscription
    /// order, each with mutable access to the store.  Subscribers added
    /// during the pass stay registered, after the notified ones, and get
    /// their first notification on the next changed dispatch.  Every call
    /// runs its own complete notification pass, so a middleware that hands
    /// one action on more than once triggers one fully ordered pass per
    /// call.
    pub fn reduce(&mut self, action: R::Action)
        ensures
            final(self)@ == reduce_model::<R, S>(old(self)@, action),
    {
        let changed = self.root.dispatch(&action);
        if changed {
            let mut pending: Vec<S> = Vec::new();
            core::mem::swap(&mut pending, &mut self.subs);
            let ghost orig = pending@;
            let ghost started = self@;
            let mut done: Vec<S> = Vec::new();
            while pending.len() > 0
                invariant
                    done@.len() + pending@.len() == orig.len(),
                    pending@ =~= orig.skip(done@.len() as int),
                    notify_from::<R, S>(orig, 0, started) == notify_from::<R, S>(
                        done@ + pending@,
                        done@.len() as int,
                        self@,
                    ),
                decreases pending@.len(),
            {
                let ghost done0 = done@;
                let ghost pending0 = pending@;
                let ghost m0 = self@;
                let mut sub = pending.remove(0);
                sub.update(self);
                done.push(sub);
                proof {
                    let (sub1, mid1) = S::effect(pending0[0], m0);
                    assert((done0 + pending0)[done0.len() as int] == pending0[0]);
                    assert((done0 + pending0).update(done0.len() as int, sub1) =~= done@
                        + pending@);
                }
            }
            proof {
                assert(done@ + pending@ =~= done@);
            }
            let ghost after = self@;
            done.append(&mut self.subs);
            self.subs = done;
            proof {
                assert(self@.subs == notify_from::<R, S>(orig, 0, started).0 + after.subs);
            }
        }
    }

    /// A read-only view of the current root state.
    pub fn get_state(&self) -> (state: &R)
        ensures
            *state == self@.state,
    {
        &self.root
    }

    /// Appends the subscriber to the notification list and returns its
    /// position as an opaque token.
    pub fn subscribe(&mut self, sub: S) -> (token: usize)
        ensures
            final(self)@.state == old(self)@.state,
            final(self)@.subs == old(self)@.subs.push(sub),
            token == old(self)@.subs.len(),
    {
        let token: usize = self.subs.len();
        self.subs.push(sub);
        token
    }

    /// Token-based removal is deliberately left unimplemented: the call is a
    /// no-op and every subscriber stays registered.
    pub fn unsubscribe(&mut self, token: usize)
        ensures
            *final(self) == *old(self),
    {
        let _ = token;
    }
}

/// The innermost "reduce" primitive of the middleware chain: the middleware
/// that hands the action straight to `Store::reduce`.  A store with no
/// declared middleware composes to exactly this link.
pub struct Reduce;

impl<R: Reducer, S: SubscriberModel<R>> Middleware<R, S> for Reduce {
    open spec fn effect(pre: StoreModel<R, S>, action: R::Action) -> StoreModel<R, S> {
        reduce_model::<R, S>(pre, action)
    }

    fn apply<E>(store: &mut Store<R, E, S>, action: R::Action) where S: Subscriber<R, E> {
        store.reduce(action);
    }
}

/// Composition of two reducers over the same action type into one composite
/// reducer: both parts run exactly once per dispatch, and the composite's
/// change flag is the disjunction of the parts' flags.  Nesting `Pair`s
/// composes a state tree of arbitrary shape into one root reducer.
pub struct Pair<P, Q> {
    pub first: P,
    pub second: Q,
}

impl<A, P, Q> Reducer for Pair<P, Q> where P: Reducer<Action = A>, Q: Reducer<Action = A> {
    type Action = A;

    open spec fn step(self, action: A) -> Self {
        Pair { first: self.first.step(action), second: self.second.step(action) }
    }

    open spec fn flag(self, action: A) -> bool {
        self.first.flag(action) || self.second.flag(action)
    }

    proof fn unchanged_is_identity(s: Self, action: A) {
        P::unchanged_is_identity(s.first, action);
        Q::unchanged_is_identity(s.second, action);
    }

    fn dispatch(&mut self, action: &A) -> (changed: bool) {
        let first_changed = self.first.dispatch(action);
        let second_changed = self.second.dispatch(action);
        first_changed || second_changed
    }
}

/// Law: an action that no bound transition function recognizes is a no-op
/// bit-for-bit — the state is unchanged, the change flag is false, and no
/// subscriber is notified.
pub proof fn lemma_unrecognized_action_is_noop<R: Reducer, S: SubscriberModel<R>>(
    pre: StoreModel<R, S>,
    action: R::Action,
)
    requires
        !pre.state.flag(action),
    ensures
        reduce_model::<R, S>(pre, action) == pre,
{
    R::unchanged_is_identity(pre.state, action);
}

/// Law: on a store with no subscribers installed, and for a reducer whose
/// reported change is honest (a reported change never reproduces the old
/// state), a reduce changes the state if and only if at least one bound
/// transition function — direct or in a nested sub-reducer — reports a
/// change for the action.
pub proof fn lemma_changes_iff_some_transition_changed<R: Reducer, S: SubscriberModel<R>>(
    pre: StoreModel<R, S>,
    action: R::Action,
)
    requires
        pre.subs.len() == 0,
        pre.state.flag(action) ==> pre.state.step(action) != pre.state,
    ensures
        reduce_model::<R, S>(pre, action).state != pre.state <==> pre.state.flag(action),
{
    R::unchanged_is_identity(pre.state, action);
}

/// The notification pass leaves the root state alone whenever every
/// subscriber's effect does.
pub proof fn lemma_notify_preserves_state<R: Reducer, S: SubscriberModel<R>>(
    subs: Seq<S>,
    i: int,
    m: StoreModel<R, S>,
)
    requires
        forall|s: S, pre: StoreModel<R, S>| (#[trigger] S::effect(s, pre)).1.state == pre.state,
    ensures
        notify_from::<R, S>(subs, i, m).1.state == m.state,
    decreases subs.len() - i,
{
    if 0 <= i < subs.len() {
        let (sub, mid) = S::effect(subs[i], m);
        lemma_notify_preserves_state::<R, S>(subs.update(i, sub), i + 1, mid);
    }
}

/// Law: for a reducer whose reported change is honest (a reported change
/// never reproduces the old state) and subscribers that observe without
/// changing the state, a reduce changes the state if and only if at least
/// one bound transition function — direct or in a nested sub-reducer —
/// reports a change for the action, whatever subscribers are installed.
pub proof fn lemma_changes_iff_with_passive_subscribers<R: Reducer, S: SubscriberModel<R>>(
    pre: StoreModel<R, S>,
    action: R::Action,
)
    requires
        forall|s: S, m: StoreModel<R, S>| (#[trigger] S::effect(s, m)).1.state == m.state,
        pre.state.flag(action) ==> pre.state.step(action) != pre.state,
    ensures
        reduce_model::<R, S>(pre, action).state != pre.state <==> pre.state.flag(action),
{
    R::unchanged_is_identity(pre.state, action);
    if pre.state.flag(action) {
        let started = StoreModel {
            state: pre.state.step(action),
            subs: Seq::<S>::empty(),
        };
        lemma_notify_preserves_state::<R, S>(pre.subs, 0, started);
    }
}

/// Law: a change reported anywhere in a nested sub-state bubbles up: the
/// composite's change flag is the disjunction of its parts' flags, so it is
/// set whenever either part — in particular a nested sub-reducer — reports a
/// change, even if no other field changed.
pub proof fn lemma_sub_change_bubbles<A, P, Q>(s: Pair<P, Q>, action: A) where
    P: Reducer<Action = A>,
    Q: Reducer<Action = A>,

    ensures
        s.second.flag(action) ==> s.flag(action),
        s.first.flag(action) ==> s.flag(action),
        s.flag(action) == (s.first.flag(action) || s.second.flag(action)),
{
}

/// Law: the notification pass touches every subscriber exactly once, in
/// subscription order.  Subscriber `i` runs first, on the store exactly as
/// the pass received it; its updated value is never touched again; and the
/// rest of the pass continues on the store it left behind.  The pass
/// preserves the number of subscribers.
pub proof fn lemma_notification_in_order<R: Reducer, S: SubscriberModel<R>>(
    subs: Seq<S>,
    i: int,
    m: StoreModel<R, S>,
)
    requires
        0 <= i < subs.len(),
    ensures
        ({
            let (sub, mid) = S::effect(subs[i], m);
            let (notified, after) = notify_from::<R, S>(subs, i, m);
            &&& notified.len() == subs.len()
            &&& notified[i] == sub
            &&& (notified, after) == notify_from::<R, S>(subs.update(i, sub), i + 1, mid)
        }),
    decreases subs.len() - i,
{
    let (sub, mid) = S::effect(subs[i], m);
    let stepped = subs.update(i, sub);
    lemma_notify_preserves_prefix::<R, S>(stepped, i + 1, mid);
}

/// The notification pass never touches subscribers that stand before its
/// starting index, and it preserves the length of the subscriber list.
pub proof fn lemma_notify_preserves_prefix<R: Reducer, S: SubscriberModel<R>>(
    subs: Seq<S>,
    i: int,
    m: StoreModel<R, S>,
)
    ensures
        ({
            let (notified, after) = notify_from::<R, S>(subs, i, m);
            &&& notified.len() == subs.len()
            &&& forall|j: int| 0 <= j < i && j < subs.len() ==> notified[j] == subs[j]
        }),
    decreases subs.len() - i,
{
    if 0 <= i < subs.len() {
        let (sub, mid) = S::effect(subs[i], m);
        lemma_notify_preserves_prefix::<R, S>(subs.update(i, sub), i + 1, mid);
    }
}

} // verus!
