//! Clients for streaming endpoints: what is sent where, and how.
use crate::error::{ApiError, ApiErrorView};
use crate::headers::{ascii_octets, header_lines, is_lower_header_name, is_visible_text, set_header};
use http::HeaderMap;
use vstd::prelude::*;
use vstd::string::StringExecFns;

pub mod chat_completions;
pub mod messages;

verus! {

/// What the requests of a client go through: a transport `T`, to a provider `P`, with
/// credentials `A`, watched by telemetry `R`.
#[derive(Debug)]
pub struct EndpointSession<T, P, A, R> {
    pub transport: T,
    pub provider: P,
    pub auth: A,
    pub request_telemetry: Option<R>,
}

impl<T, P, A, R> EndpointSession<T, P, A, R> {
    /// A session that nothing watches.
    pub fn new(transport: T, provider: P, auth: A) -> (r: Self)
        ensures
            r == (EndpointSession::<T, P, A, R> {
                transport,
                provider,
                auth,
                request_telemetry: None,
            }),
    {
        EndpointSession { transport, provider, auth, request_telemetry: None }
    }

    /// The session, watched by this telemetry.
    pub fn with_request_telemetry(self, request: Option<R>) -> (r: Self)
        ensures
            r == (EndpointSession::<T, P, A, R> { request_telemetry: request, ..self }),
    {
        EndpointSession {
            transport: self.transport,
            provider: self.provider,
            auth: self.auth,
            request_telemetry: request,
        }
    }
}

/// How the body of a request is asked to be compressed.
#[derive(Debug, Clone, Copy, PartialEq, Eq, Structural)]
pub enum Compression {
    Off,
    Zstd,
}

/// How the body of a request is compressed.
#[derive(Debug, Clone, Copy, PartialEq, Eq, Structural)]
pub enum RequestCompression {
    Off,
    Zstd,
}

/// Where a request goes.
#[derive(Debug, Clone, PartialEq, Eq)]
pub enum Target {
    /// To a path below the base URL of the provider.
    Path(String),
    /// To this URL.
    Url(String),
}

/// What a [`Target`] says.
pub enum TargetView {
    Path(Seq<char>),
    Url(Seq<char>),
}

impl DeepView for Target {
    type V = TargetView;

    open spec fn deep_view(&self) -> TargetView {
        match self {
            Target::Path(path) => TargetView::Path(path@),
            Target::Url(url) => TargetView::Url(url@),
        }
    }
}

/// How a request for a stream is sent.
#[derive(Debug, Clone, PartialEq, Eq)]
pub struct StreamPlan {
    pub method: String,
    pub target: Target,
    /// How the body is compressed, where that is not left to the session.
    pub compression: Option<RequestCompression>,
}

/// What a [`StreamPlan`] says.
pub struct PlanView {
    pub method: Seq<char>,
    pub target: TargetView,
    pub compression: Option<RequestCompression>,
}

impl DeepView for StreamPlan {
    type V = PlanView;

    open spec fn deep_view(&self) -> PlanView {
        PlanView {
            method: self.method@,
            target: self.target.deep_view(),
            compression: self.compression,
        }
    }
}

/// Asks for a stream of events in the headers of a request. Tells whether there was
/// room for that.
pub fn accept_event_stream(headers: &mut HeaderMap) -> (r: bool)
    ensures
        header_lines(*final(headers)) == (if r {
            header_lines(*old(headers)).insert("accept"@, seq![ascii_octets("text/event-stream"@)])
        } else {
            header_lines(*old(headers))
        }),
        header_lines(*old(headers)).dom().finite() && header_lines(*old(headers)).dom().len()
            <= 4096 ==> r,
{
    proof {
        reveal_strlit("accept");
        reveal_strlit("text/event-stream");
        assert(is_lower_header_name("accept"@));
        assert(is_visible_text("text/event-stream"@));
    }
    set_header(headers, "accept", "text/event-stream")
}

/// The error for a request whose body cannot be written, and why.
pub(crate) fn encoding_error(what: &str, reason: &str) -> (r: ApiError)
    ensures
        r.deep_view() == ApiErrorView::Stream(
            "failed to encode "@ + what@ + " request: "@ + reason@,
        ),
{
    let mut message = "failed to encode ".to_string();
    message.append(what);
    message.append(" request: ");
    message.append(reason);
    ApiError::Stream(message)
}

} // verus!
