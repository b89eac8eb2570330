//! A declarative, composable state container.
//!
//! Application state is held in a single root value owned by a [`store::Store`]
//! and mutated only through pure transition functions composed into a
//! [`store::Reducer`] tree.  Cross-cutting behaviour is inserted through an
//! ordered chain of [`store::Middleware`] links, and [`store::Subscriber`]s are
//! notified exactly when a dispatch actually changed the state.
//!
//! The [`compose`] module holds the construction-time composition algorithm:
//! it turns declarative, textual binding lists into validated, ordered plans
//! and builds the middleware chain so that the first declared middleware runs
//! outermost.

pub mod compose;
pub mod outcome;
pub mod store;

pub use outcome::Outcome;
pub use store::{Middleware, Pair, Reduce, Reducer, Store, StoreModel, Subscriber, SubscriberModel};
