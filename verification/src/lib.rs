//! A composition framework for privacy-preserving data analysis.
//!
//! Statistical computations are assembled from small building blocks:
//! transformations, which reshape data and carry a *stability map*
//! bounding how much the output can move when the input moves, and
//! measurements, which inject calibrated noise and carry a *privacy
//! map* bounding the privacy loss. The chain operators compose the
//! blocks and their maps, re-validating domain and metric compatibility
//! at every boundary, so a finished pipeline carries a machine-checked
//! certificate of its sensitivity behaviour, not just a numeric result.
//!
//! The modules, leaves first:
//!
//! - [`fixed`]: exact fixed-point arithmetic with conservative rounding;
//! - [`error`]: the closed error taxonomy, returned as values;
//! - [`domains`]: domains, metrics, measures and the membership and
//!   validity relations over them;
//! - [`maps`]: stability and privacy maps, their monotonicity and the
//!   soundness of their point-wise composition;
//! - [`transformations`]: the sum, Lipschitz-multiplication and mean
//!   constructors, the pipeline interpreter and the chain operator;
//! - [`measurements`]: the Laplace mechanism and the
//!   transformation-measurement chain operator;
//! - [`bridge`]: the dispatch bridge for callers outside the library's
//!   type system.
//!
//! All quantities are held in the fixed-point type [`fixed::Fix`],
//! whose arithmetic rounds distance bounds away from zero: a published
//! bound can be loose, never too tight.

pub mod bridge;
pub mod domains;
pub mod error;
pub mod fixed;
pub mod maps;
pub mod measurements;
pub mod transformations;
