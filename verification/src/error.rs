//! Errors of the depot.
use vstd::prelude::*;

verus! {

/// What can go wrong with a request.
#[derive(Debug, PartialEq, Eq)]
pub enum DepotError {
    NotFound(String),
    Conflict(String),
    Forbidden(String),
    BadRequest(String),
    DataIntegrity(String),
    Internal(String),
}

/// The contents of a [`DepotError`].
pub enum DepotErrorView {
    NotFound(Seq<char>),
    Conflict(Seq<char>),
    Forbidden(Seq<char>),
    BadRequest(Seq<char>),
    DataIntegrity(Seq<char>),
    Internal(Seq<char>),
}

impl DeepView for DepotError {
    type V = DepotErrorView;

    open spec fn deep_view(&self) -> DepotErrorView {
        match self {
            DepotError::NotFound(m) => DepotErrorView::NotFound(m@),
            DepotError::Conflict(m) => DepotErrorView::Conflict(m@),
            DepotError::Forbidden(m) => DepotErrorView::Forbidden(m@),
            DepotError::BadRequest(m) => DepotErrorView::BadRequest(m@),
            DepotError::DataIntegrity(m) => DepotErrorView::DataIntegrity(m@),
            DepotError::Internal(m) => DepotErrorView::Internal(m@),
        }
    }
}

} // verus!
