//! A recommender for wiki articles, built on the votes of the wiki's users.
//!
//! The library holds what is discrete in such a recommender, and proves it:
//!
//! - [`store`]: the database of articles, users and votes, with dense ids
//!   that never change and a total that is always the number of votes;
//! - [`ingest`], [`page`], [`request`]: what is read from the pages of the
//!   wiki and what is asked of it, as far as it is text;
//! - [`training`]: the schedule of a training run, factor by factor and
//!   sweep by sweep, and the hyperparameters that a run accepts;
//! - [`seen`]: the filter of the articles that a user has voted on;
//! - [`model`], [`rank`]: the trained model and its two queries, which rank
//!   what is left after the filter by the scores given for it;
//! - [`matrix`], [`ieee`]: the factor matrices, whose numbers are held by
//!   their bits, and the order of such numbers;
//! - [`parts`]: the plain parts that a database and a model are stored as.
//!
//! The library does no arithmetic on the numbers of the matrices: the sweeps
//! of a training run and the scores of a query are the caller's.

pub mod error;
pub mod ieee;
pub mod ingest;
pub mod matrix;
pub mod model;
pub mod page;
pub mod parts;
pub mod rank;
pub mod request;
pub mod seen;
pub mod store;
pub mod training;

pub use error::Error;
pub use matrix::Matrix;
pub use model::{ModelView, Prediction, PredictionModel};
pub use parts::{DatabaseParts, MatrixParts, ModelParts};
pub use store::{Database, DatabaseView, Vote};
pub use training::{Training, TrainingStep};
