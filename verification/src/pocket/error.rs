//! What can go wrong in an exchange with the remote service.

use crate::text::opt_text;
use vstd::prelude::*;

verus! {

/// A fault of the exchange, as far as it is decided from plain values.
#[derive(Debug)]
pub enum PocketError {
    /// The remote answered with an error code of its protocol: the code, the
    /// message, and the body of the answer where it could be read.
    Proto(String, String, Option<String>),
    /// A page does not say how many entries there are in all, so that nothing
    /// tells whether more pages follow.
    InvalidPagintionRequest,
    /// A fault of no known kind.
    Unknown,
}

/// A fault as a value.
pub enum PocketErrorView {
    Proto(Seq<char>, Seq<char>, Option<Seq<char>>),
    InvalidPagintionRequest,
    Unknown,
}

impl View for PocketError {
    type V = PocketErrorView;

    open spec fn view(&self) -> PocketErrorView {
        match self {
            PocketError::Proto(code, message, body) => PocketErrorView::Proto(
                code@,
                message@,
                opt_text(*body),
            ),
            PocketError::InvalidPagintionRequest => PocketErrorView::InvalidPagintionRequest,
            PocketError::Unknown => PocketErrorView::Unknown,
        }
    }
}

pub type PocketResult<T> = Result<T, PocketError>;

/// The protocol fault that the headers of an answer report, if they report one.
pub open spec fn reported_fault(
    code: Option<Seq<char>>,
    message: Option<Seq<char>>,
    body: Option<Seq<char>>,
) -> Option<PocketErrorView> {
    match code {
        Some(c) => Some(
            PocketErrorView::Proto(
                c,
                match message {
                    Some(m) => m,
                    None => "unknown protocol"@,
                },
                body,
            ),
        ),
        None => None,
    }
}

/// Decides from the error headers of an answer whether the remote refused the
/// request. An answer with an error code is a protocol fault, with the message
/// of the error header, or `unknown protocol` where that header is missing, and
/// with the body of the answer. An answer without error code is none.
pub fn protocol_fault(code: Option<String>, message: Option<String>, body: Option<String>) -> (fault:
    Option<PocketError>)
    ensures
        match fault {
            Some(e) => reported_fault(opt_text(code), opt_text(message), opt_text(body)) == Some(
                e@,
            ),
            None => reported_fault(opt_text(code), opt_text(message), opt_text(body)) is None,
        },
{
    match code {
        Some(c) => {
            let m = match message {
                Some(m) => m,
                None => "unknown protocol".to_owned(),
            };
            Some(PocketError::Proto(c, m, body))
        },
        None => None,
    }
}

} // verus!
