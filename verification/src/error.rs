use vstd::prelude::*;

verus! {

/// Why an operation of this library was refused.
#[derive(Clone, Copy, Debug, PartialEq, Eq, Structural)]
pub enum Error {
    /// An article with this key is already stored.
    DuplicateArticle,
    /// No article with this key is stored.
    UnknownArticle,
    /// No user with this name, or with this id, is stored.
    UnknownUser,
    /// The number of latent factors or of iterations is below one, the
    /// learning rate is not above zero, or the regularization is below zero.
    Hyperparameter,
    /// Data read back from storage does not describe a database or a model.
    Decode,
}

} // verus!
