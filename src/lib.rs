//! A small authorization-rule evaluator.
//!
//! An application describes its resource types through [`AccessControl`],
//! writes permission rules ([`Rule`]) for them, and asks a [`Subject`] whether
//! an ordered list of rules allows it, or under which scope constraints it
//! would be allowed.
//!
//! Rules for several resource types can share one list: the application
//! declares an enum with one variant per resource type, each holding a
//! `Rule` of that type, and implements [`AsRule`] once per variant. Viewing an
//! entry as a rule of another type then yields `None`.
mod rule;
mod query;

pub use rule::{AccessControl, AsRule, Rule, Scope, get_rules};
pub use query::Subject;
