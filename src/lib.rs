//! Checks observed BGP routes against the routing policies that ASes publish
//! in the Internet Routing Registry.
//!
//! The corpus of policies and sets is held in [`query::QueryIr`]; a route is a
//! [`compare::Compare`], and [`compare::Compare::check`] grades each hop of its
//! AS path with the verdict lattice of [`report`].

pub mod as_regex;
pub mod aut_sys;
pub mod closure;
pub mod compare;
pub mod filter;
pub mod hill;
pub mod ir;
pub mod peering;
pub mod prefix;
pub mod query;
pub mod report;
pub mod simple_report;
pub mod verbosity;
pub mod members;
