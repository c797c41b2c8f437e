//! Candidate agreement: the bookkeeping validators keep, during one round,
//! about each other's statements on parachain candidates.
//!
//! The heart of the crate is the statement [`Table`]. It takes in signed
//! statements, keeps the votes they cast, keeps evidence against validators
//! who break the rules, and names the candidates that have gathered enough
//! support to be put forward.
//!
//! Every executable function is verified against a mathematical model of the
//! table, [`TableView`]; the rules of the round are spec functions on that
//! model, and what follows from them is proved in [`laws`], [`selection`] and
//! [`reorder`].
//!
//! Beside the table stand two smaller pieces of a node's logic: the order of
//! the posts in a parachain's [`ingress`] queue, and the decisions of the
//! blocks [`import_queue`].

pub mod context;
pub mod import_queue;
pub mod ingress;
pub mod laws;
pub mod misbehavior;
pub mod model;
pub mod order;
pub mod plain;
pub mod record;
pub mod reorder;
pub mod selection;
pub mod table;
pub mod transport;

pub use crate::context::{Context, SignedStatement, Statement};
pub use crate::misbehavior::{
    Misbehavior, MultipleCandidates, UnauthorizedStatement, ValidityDoubleVote,
};
pub use crate::model::TableView;
pub use crate::record::{CandidateData, RecordView, ValidityVote};
pub use crate::table::{create, Table};
pub use crate::transport::UnecryptedAllowed;
