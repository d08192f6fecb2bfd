//! Parser for the tabular text report of a dependency-auditing tool.
//!
//! The report lists one section per workspace: the workspace name, a
//! separator line, a fixed six-column header, an underline, and one row per
//! dependency.  `parser::OutdatedResult::try_from` turns the whole report
//! into a typed result or a descriptive error, and its behaviour is pinned
//! down by the specification-level state machine in `machine`.

pub mod laws;
pub mod machine;
pub mod model;
pub mod parser;
pub mod text;

pub use model::DepKind;
pub use model::LatestVersion;
pub use model::OutdatedDep;
pub use model::OutdatedDepBuilder;
pub use model::ParseError;
pub use parser::OutdatedResult;
