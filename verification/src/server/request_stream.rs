//! The live feed of requests: a ring of the most recent ones, which a client is
//! given when it connects, and a stream of those that follow.
use crate::seqs::push_item;
use crate::server::audit::{CompletedRequest, CompletedRequestView};
use crate::text::{decimal, number_text};
use crate::time::Timestamp;
use std::collections::VecDeque;
use vstd::prelude::*;

verus! {

/// How many recent events a client is given when it connects.
pub const RECENT_CAPACITY: usize = 100;

/// One completed request, as the feed shows it.
#[derive(Debug)]
pub struct RequestEvent {
    /// Sequence number, by which clients tell events that they have already.
    pub seq: u64,
    pub timestamp: Timestamp,
    pub request_id: String,
    pub username: String,
    pub ip: String,
    pub method: String,
    pub path: String,
    pub status: u16,
    pub action: String,
    pub elapsed_ns: u64,
    pub bytes_recv: u64,
    pub bytes_sent: u64,
}

/// The contents of a [`RequestEvent`].
#[verifier::ext_equal]
pub struct RequestEventView {
    pub seq: u64,
    pub timestamp: Timestamp,
    pub request: CompletedRequestView,
}

impl DeepView for RequestEvent {
    type V = RequestEventView;

    open spec fn deep_view(&self) -> RequestEventView {
        RequestEventView {
            seq: self.seq,
            timestamp: self.timestamp,
            request: CompletedRequestView {
                request_id: self.request_id@,
                username: self.username@,
                ip: self.ip@,
                method: self.method@,
                path: self.path@,
                status: self.status,
                action: self.action@,
                elapsed_ns: self.elapsed_ns,
                bytes_recv: self.bytes_recv,
                bytes_sent: self.bytes_sent,
            },
        }
    }
}

impl RequestEvent {
    /// A copy of the event.
    pub fn copy(&self) -> (r: RequestEvent)
        ensures
            r.deep_view() == self.deep_view(),
    {
        RequestEvent {
            seq: self.seq,
            timestamp: self.timestamp,
            request_id: self.request_id.clone(),
            username: self.username.clone(),
            ip: self.ip.clone(),
            method: self.method.clone(),
            path: self.path.clone(),
            status: self.status,
            action: self.action.clone(),
            elapsed_ns: self.elapsed_ns,
            bytes_recv: self.bytes_recv,
            bytes_sent: self.bytes_sent,
        }
    }
}

/// The feed: the most recent events, oldest first, and the next sequence number.
#[derive(Debug)]
pub struct RequestStream {
    recent: VecDeque<RequestEvent>,
    seq: u64,
}

/// The contents of a [`RequestStream`].
#[verifier::ext_equal]
pub struct RequestStreamView {
    pub recent: Seq<RequestEventView>,
    pub next_seq: u64,
}

impl DeepView for RequestStream {
    type V = RequestStreamView;

    closed spec fn deep_view(&self) -> RequestStreamView {
        RequestStreamView { recent: self.recent.deep_view(), next_seq: self.seq }
    }
}

/// A feed on which nothing was published.
pub open spec fn empty_stream() -> RequestStreamView {
    RequestStreamView { recent: Seq::empty(), next_seq: 0 }
}

/// The sequence number after another: they start over after the last one.
pub open spec fn next_seq(n: u64) -> u64 {
    if n == u64::MAX {
        0
    } else {
        (n + 1) as u64
    }
}

/// The feed after one event more: a full ring loses its oldest event.
pub open spec fn published(
    s: RequestStreamView,
    at: Timestamp,
    request: CompletedRequestView,
) -> RequestStreamView {
    let event = RequestEventView { seq: s.next_seq, timestamp: at, request };
    RequestStreamView {
        recent: (if s.recent.len() == RECENT_CAPACITY {
            s.recent.skip(1)
        } else {
            s.recent
        }).push(event),
        next_seq: next_seq(s.next_seq),
    }
}

/// Calls `chrono::Utc::now` and takes its seconds and nanoseconds. Nothing is
/// claimed of the time.
#[verifier::external_body]
fn now_utc() -> (r: Timestamp) {
    let t = chrono::Utc::now();
    Timestamp { secs: t.timestamp(), nanos: t.timestamp_subsec_nanos() }
}

impl RequestStream {
    /// A feed on which nothing was published.
    pub fn new() -> (r: Self)
        ensures
            r.deep_view() == empty_stream(),
    {
        let r = RequestStream { recent: VecDeque::with_capacity(RECENT_CAPACITY), seq: 0 };
        assert(r.deep_view().recent =~= Seq::empty());
        r
    }

    /// Record a request that was completed at a given time. The event is returned
    /// for those who are connected.
    pub fn record(&mut self, at: Timestamp, request: CompletedRequest) -> (r: RequestEvent)
        ensures
            final(self).deep_view() == published(
                old(self).deep_view(),
                at,
                request.deep_view(),
            ),
            r.deep_view() == (RequestEventView {
                seq: old(self).deep_view().next_seq,
                timestamp: at,
                request: request.deep_view(),
            }),
    {
        let ghost before = self.recent.deep_view();
        let event = RequestEvent {
            seq: self.seq,
            timestamp: at,
            request_id: request.request_id,
            username: request.username,
            ip: request.ip,
            method: request.method,
            path: request.path,
            status: request.status,
            action: request.action,
            elapsed_ns: request.elapsed_ns,
            bytes_recv: request.bytes_recv,
            bytes_sent: request.bytes_sent,
        };
        let sent = event.copy();
        if self.recent.len() == RECENT_CAPACITY {
            let oldest = self.recent.pop_front();
            assert(self.recent.deep_view() =~= before.skip(1));
        }
        let ghost kept = self.recent.deep_view();
        self.recent.push_back(event);
        assert(self.recent.deep_view() =~= kept.push(event.deep_view()));
        self.seq = self.seq.wrapping_add(1);
        sent
    }

    /// Record a request that was just completed. The event is returned for those
    /// who are connected.
    pub fn publish(
        &mut self,
        request_id: &str,
        username: &str,
        ip: &str,
        method: &str,
        path: &str,
        status: u16,
        action: &str,
        elapsed_ns: u64,
        bytes_recv: u64,
        bytes_sent: u64,
    ) -> (r: RequestEvent)
        ensures
            r.deep_view() == (RequestEventView {
                seq: old(self).deep_view().next_seq,
                timestamp: r.timestamp,
                request: CompletedRequestView {
                    request_id: request_id@,
                    username: username@,
                    ip: ip@,
                    method: method@,
                    path: path@,
                    status,
                    action: action@,
                    elapsed_ns,
                    bytes_recv,
                    bytes_sent,
                },
            }),
            final(self).deep_view() == published(
                old(self).deep_view(),
                r.timestamp,
                r.deep_view().request,
            ),
    {
        let request = CompletedRequest {
            request_id: request_id.to_string(),
            username: username.to_string(),
            ip: ip.to_string(),
            method: method.to_string(),
            path: path.to_string(),
            status,
            action: action.to_string(),
            elapsed_ns,
            bytes_recv,
            bytes_sent,
        };
        self.record(now_utc(), request)
    }

    /// The recent events, oldest first, for a client that connects.
    pub fn subscribe(&self) -> (r: Vec<RequestEvent>)
        ensures
            r.deep_view() == self.deep_view().recent,
    {
        let ghost all = self.recent.deep_view();
        let mut out: Vec<RequestEvent> = Vec::new();
        let n: usize = self.recent.len();
        let mut i: usize = 0;
        assert(out.deep_view() =~= all.take(0));
        while i < n
            invariant
                i <= n,
                n == self.recent@.len(),
                all == self.recent.deep_view(),
                out.deep_view() == all.take(i as int),
            decreases n - i,
        {
            let event = self.recent[i].copy();
            push_item(&mut out, event);
            assert(out.deep_view() =~= all.take(i + 1));
            i = i + 1;
        }
        assert(all.take(n as int) =~= all);
        out
    }
}

impl Default for RequestStream {
    /// A feed on which nothing was published.
    fn default() -> (r: Self)
        ensures
            r.deep_view() == empty_stream(),
    {
        RequestStream::new()
    }
}

/// What a connected client is sent next.
#[derive(Debug)]
pub enum FeedFrame {
    /// An event named `snapshot` with the recent events.
    Snapshot,
    /// An event named `request`, with its sequence number for an id.
    Request { id: String, event: RequestEvent },
    /// Nothing more.
    End,
}

/// What comes from the stream behind a client.
#[derive(Debug)]
pub enum FeedSignal {
    /// The client has connected.
    Connected,
    /// An event was published.
    Published(RequestEvent),
    /// The client was too slow and has missed events.
    Lagged,
    /// The stream is closed.
    Closed,
}

/// The contents of a [`FeedFrame`].
#[verifier::ext_equal]
pub enum FeedFrameView {
    Snapshot,
    Request { id: Seq<char>, event: RequestEventView },
    End,
}

impl DeepView for FeedFrame {
    type V = FeedFrameView;

    open spec fn deep_view(&self) -> FeedFrameView {
        match self {
            FeedFrame::Snapshot => FeedFrameView::Snapshot,
            FeedFrame::Request { id, event } => FeedFrameView::Request {
                id: id@,
                event: event.deep_view(),
            },
            FeedFrame::End => FeedFrameView::End,
        }
    }
}

/// What a client is sent on a signal: a snapshot when it connects or has missed
/// events, else the event.
pub open spec fn frame_for(s: FeedSignal) -> FeedFrameView {
    match s {
        FeedSignal::Connected => FeedFrameView::Snapshot,
        FeedSignal::Published(e) => FeedFrameView::Request {
            id: decimal(e.seq as nat),
            event: e.deep_view(),
        },
        FeedSignal::Lagged => FeedFrameView::Snapshot,
        FeedSignal::Closed => FeedFrameView::End,
    }
}

/// What a connected client is sent on a signal.
pub fn request_stream(signal: FeedSignal) -> (r: FeedFrame)
    ensures
        r.deep_view() == frame_for(signal),
{
    match signal {
        FeedSignal::Connected => FeedFrame::Snapshot,
        FeedSignal::Published(event) => FeedFrame::Request { id: number_text(event.seq), event },
        FeedSignal::Lagged => FeedFrame::Snapshot,
        FeedSignal::Closed => FeedFrame::End,
    }
}

/// The feed after some requests were published on an empty one.
pub open spec fn stream_after(requests: Seq<(Timestamp, CompletedRequestView)>) -> RequestStreamView
    decreases requests.len(),
{
    if requests.len() == 0 {
        empty_stream()
    } else {
        published(stream_after(requests.drop_last()), requests.last().0, requests.last().1)
    }
}

/// The sequence number of the `i`-th request.
pub open spec fn seq_number(i: nat) -> u64 {
    (i % 0x1_0000_0000_0000_0000) as u64
}

/// The ring holds the most recent requests, oldest first, at most as many as it
/// has room for, and their sequence numbers follow each other.
pub proof fn law_ring_keeps_the_most_recent(requests: Seq<(Timestamp, CompletedRequestView)>)
    ensures
        ({
            let s = stream_after(requests);
            let n = requests.len();
            let k = if n < RECENT_CAPACITY {
                n
            } else {
                RECENT_CAPACITY as nat
            };
            &&& s.next_seq == seq_number(n)
            &&& s.recent.len() == k
            &&& forall|i: int|
                0 <= i < k ==> #[trigger] s.recent[i] == (RequestEventView {
                    seq: seq_number((n - k + i) as nat),
                    timestamp: requests[n - k + i].0,
                    request: requests[n - k + i].1,
                })
        }),
    decreases requests.len(),
{
    if requests.len() > 0 {
        let rest = requests.drop_last();
        law_ring_keeps_the_most_recent(rest);
        let s = stream_after(requests);
        let before = stream_after(rest);
        let n = requests.len();
        let k = if n < RECENT_CAPACITY {
            n
        } else {
            RECENT_CAPACITY as nat
        };
        assert(rest.len() == n - 1);
        assert(next_seq(seq_number((n - 1) as nat)) == seq_number(n));
        assert forall|i: int| 0 <= i < k implies #[trigger] s.recent[i] == (RequestEventView {
            seq: seq_number((n - k + i) as nat),
            timestamp: requests[n - k + i].0,
            request: requests[n - k + i].1,
        }) by {
            if i < k - 1 {
                let j = if before.recent.len() == RECENT_CAPACITY {
                    i + 1
                } else {
                    i
                };
                assert(s.recent[i] == before.recent[j]);
                assert(rest[n - k + i] == requests[n - k + i]);
            }
        }
    }
}

} // verus!
