//! What the server notes of each request.
use crate::text::{parse_u64, parsed_u64, pieces, split_all, trim, trimmed};
use vstd::prelude::*;

verus! {

/// What is known of a request before it is served. A header is absent where it
/// is no text.
#[derive(Debug)]
pub struct RequestFacts {
    pub request_id: Option<String>,
    pub method: String,
    pub path: String,
    /// The header `x-forwarded-for`.
    pub forwarded_for: Option<String>,
    /// The address of the connection.
    pub peer_ip: Option<String>,
    /// The header `content-length`.
    pub content_length: Option<String>,
    /// The identity attached to the request.
    pub user: Option<String>,
}

/// What is known once the request was served.
#[derive(Debug)]
pub struct ResponseFacts {
    pub status: u16,
    /// The header `content-length`.
    pub content_length: Option<String>,
    /// The identity that was resolved while serving.
    pub identity: Option<String>,
    pub elapsed_ns: u64,
}

/// A request that was served.
#[derive(Debug, PartialEq, Eq)]
pub struct CompletedRequest {
    pub request_id: String,
    pub username: String,
    pub ip: String,
    pub method: String,
    pub path: String,
    pub status: u16,
    pub action: String,
    pub elapsed_ns: u64,
    pub bytes_recv: u64,
    pub bytes_sent: u64,
}

/// The contents of a [`CompletedRequest`].
#[verifier::ext_equal]
pub struct CompletedRequestView {
    pub request_id: Seq<char>,
    pub username: Seq<char>,
    pub ip: Seq<char>,
    pub method: Seq<char>,
    pub path: Seq<char>,
    pub status: u16,
    pub action: Seq<char>,
    pub elapsed_ns: u64,
    pub bytes_recv: u64,
    pub bytes_sent: u64,
}

impl DeepView for CompletedRequest {
    type V = CompletedRequestView;

    open spec fn deep_view(&self) -> CompletedRequestView {
        CompletedRequestView {
            request_id: self.request_id@,
            username: self.username@,
            ip: self.ip@,
            method: self.method@,
            path: self.path@,
            status: self.status,
            action: self.action@,
            elapsed_ns: self.elapsed_ns,
            bytes_recv: self.bytes_recv,
            bytes_sent: self.bytes_sent,
        }
    }
}

/// A text, or another in its place.
pub open spec fn text_or(t: Option<Seq<char>>, other: Seq<char>) -> Seq<char> {
    match t {
        Some(s) => s,
        None => other,
    }
}

/// The address of the client: the first one that was forwarded, else that of the
/// connection.
pub open spec fn client_ip(forwarded_for: Option<Seq<char>>, peer_ip: Option<Seq<char>>) -> Seq<
    char,
> {
    match forwarded_for {
        Some(h) => trimmed(pieces(h, ',')[0]),
        None => text_or(peer_ip, "unknown"@),
    }
}

/// The length that a header gives, zero where it gives none.
pub open spec fn length_of(header: Option<Seq<char>>) -> u64 {
    match header {
        Some(h) => match parsed_u64(h) {
            Some(n) => n,
            None => 0,
        },
        None => 0,
    }
}

/// The user of a request: as resolved while serving, else as attached before.
pub open spec fn user_of(identity: Option<Seq<char>>, user: Option<Seq<char>>) -> Seq<char> {
    match identity {
        Some(i) => i,
        None => text_or(user, "unknown"@),
    }
}

/// The address of the client.
fn ip_of(forwarded_for: &Option<String>, peer_ip: &Option<String>) -> (r: String)
    ensures
        r@ == client_ip(forwarded_for.deep_view(), peer_ip.deep_view()),
{
    match forwarded_for {
        Some(h) => {
            let parts = split_all(h.as_str(), ',');
            assert(pieces(h@, ',').len() > 0);
            assert(parts.deep_view()[0] == parts@[0]@);
            trim(parts[0].as_str())
        },
        None => match peer_ip {
            Some(p) => p.clone(),
            None => "unknown".to_string(),
        },
    }
}

/// The length that a header gives.
fn header_length(header: &Option<String>) -> (r: u64)
    ensures
        r == length_of(header.deep_view()),
{
    match header {
        Some(h) => match parse_u64(h.as_str()) {
            Some(n) => n,
            None => 0,
        },
        None => 0,
    }
}

/// Put together what is noted of a request that was served.
pub fn request_event_middleware(req: &RequestFacts, resp: &ResponseFacts, action: &str) -> (r:
    CompletedRequest)
    ensures
        r.deep_view() == (CompletedRequestView {
            request_id: text_or(req.request_id.deep_view(), Seq::empty()),
            username: user_of(resp.identity.deep_view(), req.user.deep_view()),
            ip: client_ip(req.forwarded_for.deep_view(), req.peer_ip.deep_view()),
            method: req.method@,
            path: req.path@,
            status: resp.status,
            action: action@,
            elapsed_ns: resp.elapsed_ns,
            bytes_recv: length_of(req.content_length.deep_view()),
            bytes_sent: length_of(resp.content_length.deep_view()),
        }),
{
    let request_id = match &req.request_id {
        Some(i) => i.clone(),
        None => String::new(),
    };
    let username = match &resp.identity {
        Some(i) => i.clone(),
        None => match &req.user {
            Some(u) => u.clone(),
            None => "unknown".to_string(),
        },
    };
    CompletedRequest {
        request_id,
        username,
        ip: ip_of(&req.forwarded_for, &req.peer_ip),
        method: req.method.clone(),
        path: req.path.clone(),
        status: resp.status,
        action: action.to_string(),
        elapsed_ns: resp.elapsed_ns,
        bytes_recv: header_length(&req.content_length),
        bytes_sent: header_length(&resp.content_length),
    }
}

/// Where a completed request goes.
#[derive(Debug, Clone, Copy, PartialEq, Eq, Structural)]
pub struct Routing {
    /// To the log.
    pub logged: bool,
    /// To the live feed.
    pub published: bool,
}

/// Decide where a completed request goes. The log follows its setting; the live
/// feed leaves out the pages of the user interface and its own noise.
pub fn route_request(access_log: bool, ui_served: bool, feed_noise: bool) -> (r: Routing)
    ensures
        r.logged == access_log,
        r.published == (!ui_served && !feed_noise),
{
    Routing { logged: access_log, published: !ui_served && !feed_noise }
}

/// A request to an upstream registry.
#[derive(Debug, PartialEq, Eq)]
pub struct UpstreamEvent {
    pub method: String,
    pub url: String,
    pub status: u16,
    pub elapsed_ns: u128,
    pub bytes_sent: u64,
    pub bytes_recv: u64,
    pub action: String,
}

/// The contents of an [`UpstreamEvent`].
#[verifier::ext_equal]
pub struct UpstreamEventView {
    pub method: Seq<char>,
    pub url: Seq<char>,
    pub status: u16,
    pub elapsed_ns: u128,
    pub bytes_sent: u64,
    pub bytes_recv: u64,
    pub action: Seq<char>,
}

impl DeepView for UpstreamEvent {
    type V = UpstreamEventView;

    open spec fn deep_view(&self) -> UpstreamEventView {
        UpstreamEventView {
            method: self.method@,
            url: self.url@,
            status: self.status,
            elapsed_ns: self.elapsed_ns,
            bytes_sent: self.bytes_sent,
            bytes_recv: self.bytes_recv,
            action: self.action@,
        }
    }
}

/// What is noted of a request to an upstream registry.
pub fn log_upstream_event(
    method: &str,
    url: &str,
    status: u16,
    elapsed_ns: u128,
    bytes_sent: u64,
    bytes_recv: u64,
    action: &str,
) -> (r: UpstreamEvent)
    ensures
        r.deep_view() == (UpstreamEventView {
            method: method@,
            url: url@,
            status,
            elapsed_ns,
            bytes_sent,
            bytes_recv,
            action: action@,
        }),
{
    UpstreamEvent {
        method: method.to_string(),
        url: url.to_string(),
        status,
        elapsed_ns,
        bytes_sent,
        bytes_recv,
        action: action.to_string(),
    }
}

} // verus!
