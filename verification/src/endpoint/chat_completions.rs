//! The client for the Chat Completions API (`POST /v1/chat/completions`).
//!
//! The path of the endpoint is below the base URL of the provider, which ends with
//! the version of the API.
use crate::endpoint::{
    encoding_error, Compression, EndpointSession, PlanView, RequestCompression, StreamPlan,
    Target, TargetView,
};
use crate::error::{ApiError, ApiErrorView};
use crate::headers::{header_lines, no_headers, no_lines};
use http::HeaderMap;
use vstd::prelude::*;

verus! {

/// A client for the Chat Completions streaming endpoint.
#[derive(Debug)]
pub struct ChatCompletionsClient<T, P, A, R, S> {
    pub session: EndpointSession<T, P, A, R>,
    pub sse_telemetry: Option<S>,
}

/// What one request wants beyond its body.
#[derive(Debug)]
pub struct ChatCompletionsOptions<C> {
    pub extra_headers: HeaderMap,
    pub compression: Compression,
    /// Where to put the state that ties this turn to the next request.
    pub turn_state: Option<C>,
}

impl<C> Default for ChatCompletionsOptions<C> {
    fn default() -> (r: Self)
        ensures
            header_lines(r.extra_headers) == no_lines(),
            r.compression is Off,
            r.turn_state is None,
    {
        ChatCompletionsOptions {
            extra_headers: no_headers(),
            compression: Compression::Off,
            turn_state: None,
        }
    }
}

/// The compression that is asked for.
pub open spec fn compression_for(compression: Compression) -> RequestCompression {
    match compression {
        Compression::Off => RequestCompression::Off,
        Compression::Zstd => RequestCompression::Zstd,
    }
}

impl<T, P, A, R, S> ChatCompletionsClient<T, P, A, R, S> {
    pub fn new(transport: T, provider: P, auth: A) -> (r: Self)
        ensures
            r == (ChatCompletionsClient::<T, P, A, R, S> {
                session: EndpointSession { transport, provider, auth, request_telemetry: None },
                sse_telemetry: None,
            }),
    {
        ChatCompletionsClient {
            session: EndpointSession::new(transport, provider, auth),
            sse_telemetry: None,
        }
    }

    /// The client, watched by this telemetry.
    pub fn with_telemetry(self, request: Option<R>, sse: Option<S>) -> (r: Self)
        ensures
            r == (ChatCompletionsClient::<T, P, A, R, S> {
                session: EndpointSession { request_telemetry: request, ..self.session },
                sse_telemetry: sse,
            }),
    {
        ChatCompletionsClient {
            session: self.session.with_request_telemetry(request),
            sse_telemetry: sse,
        }
    }

    /// The path of the endpoint.
    fn path() -> (r: &'static str)
        ensures
            r@ == "chat/completions"@,
    {
        "chat/completions"
    }

    /// How requests are sent.
    pub fn plan(&self, compression: Compression) -> (r: StreamPlan)
        ensures
            r.deep_view() == (PlanView {
                method: "POST"@,
                target: TargetView::Path("chat/completions"@),
                compression: Some(compression_for(compression)),
            }),
            r.compression == Some(RequestCompression::Off) <==> compression is Off,
            r.compression == Some(RequestCompression::Zstd) <==> compression is Zstd,
    {
        let request_compression = match compression {
            Compression::Off => RequestCompression::Off,
            Compression::Zstd => RequestCompression::Zstd,
        };
        StreamPlan {
            method: "POST".to_string(),
            target: Target::Path(Self::path().to_string()),
            compression: Some(request_compression),
        }
    }
}

/// The error for a request whose body cannot be written.
pub fn chat_completions_encoding_error(reason: &str) -> (r: ApiError)
    ensures
        r.deep_view() == ApiErrorView::Stream(
            "failed to encode chat completions request: "@ + reason@,
        ),
{
    proof {
        reveal_strlit("failed to encode ");
        reveal_strlit("chat completions");
        reveal_strlit(" request: ");
        reveal_strlit("failed to encode chat completions request: ");
        assert("failed to encode "@ + "chat completions"@ + " request: "@
            =~= "failed to encode chat completions request: "@);
    }
    encoding_error("chat completions", reason)
}

} // verus!
