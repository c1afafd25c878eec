//! Errors of the data plane.
use crate::text;
use vstd::prelude::*;
use vstd::string::*;

verus! {

/// What a handler answers when it refuses or fails.
#[derive(Debug)]
pub enum ErrorCode {
    NotFound,
    RejectedConstraint { constraint: String, detail: String },
    RejectedPrevalidation { reason: String },
    RejectedAuthz { resource: String },
    Internal { detail: String },
}

/// What an operation of the data plane fails with.
#[derive(Debug)]
pub enum Error {
    Storage { engine: String, detail: String },
    RejectedConstraint { collection: String, constraint: String, detail: String },
    RejectedAuthz { resource: String },
    Serialization { format: String, detail: String },
    Io { detail: String },
    PlanError { detail: String },
    /// What a transaction has staged would take more memory than this.
    TxnOverlayMemoryExceeded { limit: usize },
    Internal { detail: String },
}

/// An error as a mathematical value.
pub enum ErrorView {
    Storage { engine: Seq<char>, detail: Seq<char> },
    RejectedConstraint { collection: Seq<char>, constraint: Seq<char>, detail: Seq<char> },
    RejectedAuthz { resource: Seq<char> },
    Serialization { format: Seq<char>, detail: Seq<char> },
    Io { detail: Seq<char> },
    PlanError { detail: Seq<char> },
    TxnOverlayMemoryExceeded { limit: usize },
    Internal { detail: Seq<char> },
}

impl View for Error {
    type V = ErrorView;

    open spec fn view(&self) -> ErrorView {
        match *self {
            Error::Storage { engine, detail } => ErrorView::Storage {
                engine: engine@,
                detail: detail@,
            },
            Error::RejectedConstraint { collection, constraint, detail } => ErrorView::RejectedConstraint {
                collection: collection@,
                constraint: constraint@,
                detail: detail@,
            },
            Error::RejectedAuthz { resource } => ErrorView::RejectedAuthz { resource: resource@ },
            Error::Serialization { format, detail } => ErrorView::Serialization {
                format: format@,
                detail: detail@,
            },
            Error::Io { detail } => ErrorView::Io { detail: detail@ },
            Error::PlanError { detail } => ErrorView::PlanError { detail: detail@ },
            Error::TxnOverlayMemoryExceeded { limit } => ErrorView::TxnOverlayMemoryExceeded {
                limit,
            },
            Error::Internal { detail } => ErrorView::Internal { detail: detail@ },
        }
    }
}

/// An error in words.
pub open spec fn error_text(e: ErrorView) -> Seq<char> {
    match e {
        ErrorView::Storage { engine, detail } => engine + (": "@ + detail),
        ErrorView::RejectedConstraint { collection, constraint, detail } => collection + (": "@ + (
        constraint + (": "@ + detail))),
        ErrorView::RejectedAuthz { resource } => "not authorized: "@ + resource,
        ErrorView::Serialization { format, detail } => format + (": "@ + detail),
        ErrorView::Io { detail } => detail,
        ErrorView::PlanError { detail } => detail,
        ErrorView::TxnOverlayMemoryExceeded { limit } => "transaction overlay memory limit exceeded: "@
            + text::decimal(limit as nat),
        ErrorView::Internal { detail } => detail,
    }
}

impl Error {
    /// The error in words.
    pub fn text(&self) -> (r: String)
        ensures
            r@ == error_text(self@),
    {
        match self {
            Error::Storage { engine, detail } => tagged(engine.as_str(), detail.as_str()),
            Error::RejectedConstraint { collection, constraint, detail } => tagged(
                collection.as_str(),
                tagged(constraint.as_str(), detail.as_str()).as_str(),
            ),
            Error::RejectedAuthz { resource } => {
                let mut r = "not authorized: ".to_owned();
                r.append(resource.as_str());
                r
            },
            Error::Serialization { format, detail } => tagged(format.as_str(), detail.as_str()),
            Error::Io { detail } => detail.clone(),
            Error::PlanError { detail } => detail.clone(),
            Error::TxnOverlayMemoryExceeded { limit } => {
                let mut r = "transaction overlay memory limit exceeded: ".to_owned();
                text::push_decimal(&mut r, *limit as u64);
                r
            },
            Error::Internal { detail } => detail.clone(),
        }
    }
}

fn tagged(head: &str, tail: &str) -> (r: String)
    ensures
        r@ == head@ + (": "@ + tail@),
{
    let mut r = head.to_owned();
    r.append(": ");
    r.append(tail);
    proof {
        assert(r@ =~= head@ + (": "@ + tail@));
    }
    r
}

/// An answer as a mathematical value.
pub enum ErrorCodeView {
    NotFound,
    RejectedConstraint { constraint: Seq<char>, detail: Seq<char> },
    RejectedPrevalidation { reason: Seq<char> },
    RejectedAuthz { resource: Seq<char> },
    Internal { detail: Seq<char> },
}

impl View for ErrorCode {
    type V = ErrorCodeView;

    open spec fn view(&self) -> ErrorCodeView {
        match *self {
            ErrorCode::NotFound => ErrorCodeView::NotFound,
            ErrorCode::RejectedConstraint { constraint, detail } => ErrorCodeView::RejectedConstraint {
                constraint: constraint@,
                detail: detail@,
            },
            ErrorCode::RejectedPrevalidation { reason } => ErrorCodeView::RejectedPrevalidation {
                reason: reason@,
            },
            ErrorCode::RejectedAuthz { resource } => ErrorCodeView::RejectedAuthz {
                resource: resource@,
            },
            ErrorCode::Internal { detail } => ErrorCodeView::Internal { detail: detail@ },
        }
    }
}

} // verus!
