//! What can go wrong with a turn.
use http::HeaderMap;
use vstd::prelude::*;

verus! {

/// Why a request got no usable response.
#[derive(Debug, Clone, PartialEq)]
pub enum TransportError {
    /// The server answered with an error status.
    Http {
        status: u16,
        url: Option<String>,
        headers: Option<HeaderMap>,
        body: Option<String>,
    },
    RetryLimit,
    Timeout,
    Network(String),
    Build(String),
}

/// Why a turn failed.
#[derive(Debug, Clone, PartialEq)]
pub enum ApiError {
    Transport(TransportError),
    Stream(String),
}

/// What an [`ApiError`] says.
pub enum ApiErrorView {
    Transport(TransportError),
    Stream(Seq<char>),
}

impl DeepView for ApiError {
    type V = ApiErrorView;

    open spec fn deep_view(&self) -> ApiErrorView {
        match self {
            ApiError::Transport(error) => ApiErrorView::Transport(*error),
            ApiError::Stream(message) => ApiErrorView::Stream(message@),
        }
    }
}

} // verus!
