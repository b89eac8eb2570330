//! The result of one transition function: the (possibly unchanged) new value
//! of the field it is bound to, together with the signal whether the value
//! actually changed.

use vstd::prelude::*;

verus! {

/// What a transition function returns: the new field value in either arm,
/// distinguishing "this action left the value alone" from "this action
/// changed it".  Never an error: an action the function does not recognize
/// is the normal `Unchanged` outcome, carrying the value as it was.
pub enum Outcome<T> {
    Unchanged(T),
    Changed(T),
}

impl<T> Outcome<T> {
    /// The carried field value, whichever arm holds it.
    pub open spec fn value(self) -> T {
        match self {
            Outcome::Unchanged(t) => t,
            Outcome::Changed(t) => t,
        }
    }

    /// Whether the transition reported a change.
    pub open spec fn changed(self) -> bool {
        self is Changed
    }

    /// Takes the carried value out of the outcome.
    pub fn into_value(self) -> (t: T)
        ensures
            t == self.value(),
    {
        match self {
            Outcome::Unchanged(t) => t,
            Outcome::Changed(t) => t,
        }
    }

    /// Whether the transition reported a change.
    pub fn is_changed(&self) -> (changed: bool)
        ensures
            changed == self.changed(),
    {
        match self {
            Outcome::Unchanged(_) => false,
            Outcome::Changed(_) => true,
        }
    }

    /// Splits the outcome into the carried value and the change signal.
    pub fn split(self) -> (r: (T, bool))
        ensures
            r.0 == self.value(),
            r.1 == self.changed(),
    {
        match self {
            Outcome::Unchanged(t) => (t, false),
            Outcome::Changed(t) => (t, true),
        }
    }

    /// Law: when several transition functions are bound to one field they run
    /// in declared order, each seeing the prior function's output.  `chain`
    /// feeds the value carried so far into the next bound function and takes
    /// the disjunction of the change signals, so `first.chain(a, g)` runs `g`
    /// on exactly the value that `first` produced.
    pub fn chain<A, F: Fn(T, &A) -> Outcome<T>>(self, action: &A, f: F) -> (r: Outcome<T>)
        requires
            call_requires(f, (self.value(), action)),
        ensures
            exists|mid: Outcome<T>|
                {
                    &&& #[trigger] call_ensures(f, (self.value(), action), mid)
                    &&& r.value() == mid.value()
                    &&& r.changed() == (self.changed() || mid.changed())
                },
    {
        let (value, changed_so_far) = self.split();
        let out = f(value, action);
        let (new_value, step_changed) = out.split();
        if changed_so_far || step_changed {
            Outcome::Changed(new_value)
        } else {
            Outcome::Unchanged(new_value)
        }
    }
}

} // verus!
