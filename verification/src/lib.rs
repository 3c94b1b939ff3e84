//! The compiled core of a rule-matching engine for linguistic pattern
//! checking: leaf string/regex matchers with build-time caches, a
//! normalized boolean predicate algebra, quantified capturing
//! compositions with early-stop analysis, and the build pipelines that
//! resolve, filter and collect grammar and disambiguation rules.

pub mod atom;
pub mod build_info;
pub mod composition;
pub mod matcher;
pub mod pipeline;
pub mod text_matcher;
