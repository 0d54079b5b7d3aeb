//! The client for the Messages API (`POST /v1/messages`).
//!
//! The URL of the endpoint is up to the caller: compatible providers may have it
//! anywhere.
use crate::endpoint::{encoding_error, EndpointSession, PlanView, StreamPlan, Target, TargetView};
use crate::error::{ApiError, ApiErrorView};
use crate::headers::{header_lines, no_headers, no_lines};
use http::HeaderMap;
use vstd::prelude::*;

verus! {

/// A client for the Messages streaming endpoint.
#[derive(Debug)]
pub struct MessagesClient<T, P, A, R, S> {
    pub session: EndpointSession<T, P, A, R>,
    pub sse_telemetry: Option<S>,
    /// The whole URL of the endpoint.
    pub endpoint_url: String,
}

/// What one request wants beyond its body.
#[derive(Debug)]
pub struct MessagesOptions<C> {
    pub extra_headers: HeaderMap,
    /// Where to put the state that ties this turn to the next request.
    pub turn_state: Option<C>,
}

impl<C> Default for MessagesOptions<C> {
    fn default() -> (r: Self)
        ensures
            header_lines(r.extra_headers) == no_lines(),
            r.turn_state is None,
    {
        MessagesOptions { extra_headers: no_headers(), turn_state: None }
    }
}

impl<T, P, A, R, S> MessagesClient<T, P, A, R, S> {
    pub fn new(transport: T, provider: P, auth: A, endpoint_url: String) -> (r: Self)
        ensures
            r == (MessagesClient::<T, P, A, R, S> {
                session: EndpointSession { transport, provider, auth, request_telemetry: None },
                sse_telemetry: None,
                endpoint_url,
            }),
    {
        MessagesClient {
            session: EndpointSession::new(transport, provider, auth),
            sse_telemetry: None,
            endpoint_url,
        }
    }

    /// The client, watched by this telemetry.
    pub fn with_telemetry(self, request: Option<R>, sse: Option<S>) -> (r: Self)
        ensures
            r == (MessagesClient::<T, P, A, R, S> {
                session: EndpointSession { request_telemetry: request, ..self.session },
                sse_telemetry: sse,
                ..self
            }),
    {
        MessagesClient {
            session: self.session.with_request_telemetry(request),
            sse_telemetry: sse,
            endpoint_url: self.endpoint_url,
        }
    }

    /// How requests are sent.
    pub fn plan(&self) -> (r: StreamPlan)
        ensures
            r.deep_view() == (PlanView {
                method: "POST"@,
                target: TargetView::Url(self.endpoint_url@),
                compression: None,
            }),
    {
        StreamPlan {
            method: "POST".to_string(),
            target: Target::Url(self.endpoint_url.clone()),
            compression: None,
        }
    }
}

/// The error for a request whose body cannot be written.
pub fn messages_encoding_error(reason: &str) -> (r: ApiError)
    ensures
        r.deep_view() == ApiErrorView::Stream("failed to encode messages request: "@ + reason@),
{
    proof {
        reveal_strlit("failed to encode ");
        reveal_strlit("messages");
        reveal_strlit(" request: ");
        reveal_strlit("failed to encode messages request: ");
        assert("failed to encode "@ + "messages"@ + " request: "@
            =~= "failed to encode messages request: "@);
    }
    encoding_error("messages", reason)
}

} // verus!
