//! Reconstructs which ticket batches a sale paid for, from the amount paid,
//! the order in which batches are sold, and who sold it.
//!
//! - `batchnum`, `batch`: batch numbering and the price catalog.
//! - `pricing`, `candidate`: enumeration of the matches of a price, and their
//!   collapse into a candidate, cached per run.
//! - `decode`: reading a match back from its description.
//! - `kind`, `seller`, `sale`: sale channels and sale records.
//! - `plus`: the ledger of a run, its classes of sales and its export.
//! - `ambiguity`: the solvers that narrow ambiguous candidates, and their laws.
//! - `context`: the configuration of a run.
//! - `report`: figures and tables reported after a run.
//! - `text`, `fields`, `timefmt`, `csvread`: reading and writing text.

pub mod batchnum;
pub mod batch;
pub mod pricing;
pub mod candidate;
pub mod decode;
pub mod kind;
pub mod seller;
pub mod sale;
pub mod plus;
pub mod ambiguity;
pub mod context;
pub mod report;
pub mod text;
pub mod fields;
pub mod timefmt;
pub mod csvread;
