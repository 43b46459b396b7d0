//! Route resolution and asynchronous gating for a single-page application.
//!
//! A request path is split into segments ([`path`]) and matched against a
//! fixed tree of route patterns ([`route`], [`matcher`]). Subtrees may wait
//! behind gates, whose checks run elsewhere and report back ([`gate`]), and
//! views may be loaded on first use, once for each node ([`lazy`]). The
//! controller ([`navigator`]) puts these together: from a path and the state
//! of gates and slots it plans where rendering stops ([`plan`]), says what to
//! render and what to start, and takes the reports. What holds of every
//! navigation is proved in [`laws`]. The pages and the route tree of the
//! application itself are in [`start`].

pub mod gate;
pub mod laws;
pub mod lazy;
pub mod matcher;
pub mod navigator;
pub mod path;
pub mod plan;
pub mod route;
pub mod start;
