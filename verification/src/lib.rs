//! Static usage-sharing analysis over a canonicalized expression tree.
//!
//! For every named binding referenced by an analyzed expression, the
//! classifier decides whether each runtime instance of the binding is
//! referenced at most once (`Unique`) or may be referenced more than once
//! along some executable path (`Shared`). Downstream reference-counting
//! passes use `Unique` as permission to elide retain/release pairs.

pub mod expr;
pub mod laws;
pub mod options;
pub mod sharing;
pub mod usage;

pub use expr::Expr;
pub use expr::Pattern;
pub use expr::Symbol;
pub use options::InferOptions;
pub use sharing::analyze;
pub use sharing::sharing_analysis;
pub use usage::ReferenceCount;
pub use usage::UsageMap;
