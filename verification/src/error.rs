//! Errors of the configuration checks.

use vstd::prelude::*;

verus! {

/// Which configured path a check was applied to.
#[derive(Debug, Clone, Copy, PartialEq, Eq, Structural)]
pub enum PathRole {
    PortalSource,
    PortalTarget,
    Rule,
}

/// Why a configuration was refused.
#[derive(Debug, Clone, PartialEq, Eq)]
pub enum ConfigError {
    /// A path is empty, absolute, or has an empty, `..` or inner `.` component.
    InvalidPath { role: PathRole, value: String },
    /// A path uses `{`/`}` brace expansion.
    BraceExpansion { role: PathRole, value: String },
    /// A portal target holds glob syntax.
    WildcardTarget { value: String },
    /// A literal file portal targets the target-directory root `.`.
    LiteralFileAtRoot { key: String },
    /// A rule or portal pattern that `glob` refuses.
    InvalidPattern { pattern: String },
    /// Two entries deploy to the same target.
    Collision { target: String, existing: String, source: String },
    /// One target is an ancestor directory of another.
    StructuralConflict { first: String, second: String },
}

} // verus!
