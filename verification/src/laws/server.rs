//! What recording and feeding the requests of the server promises.
use crate::laws::text::{law_number_reads_back, law_only_digits_are_a_number};
use crate::server::audit::{
    client_ip, length_of, request_event_middleware, route_request, user_of, CompletedRequest,
    CompletedRequestView, RequestFacts, ResponseFacts, Routing,
};
use crate::server::request_stream::{
    frame_for, published, FeedFrameView, FeedSignal, RequestEvent, RequestEventView,
    RequestStreamView,
};
use crate::text::{decimal, find_char, lemma_find_char, trimmed};
use crate::time::Timestamp;
use vstd::prelude::*;

verus! {

/// A request comes from the first address of its forwarding header, without the
/// blanks round it; without the header, from the address of the connection.
pub proof fn law_first_forwarded_address_counts(
    first: Seq<char>,
    more: Seq<char>,
    peer: Option<Seq<char>>,
)
    requires
        !first.contains(','),
    ensures
        client_ip(Some(first), peer) == trimmed(first),
        client_ip(Some(first + seq![','] + more), peer) == trimmed(first),
        peer matches Some(p) ==> client_ip(None, peer) == p,
        peer is None ==> client_ip(None, peer) == "unknown"@,
{
    let s = first + seq![','] + more;
    lemma_find_char(s, ',', 0);
    lemma_find_char(first, ',', 0);
    let k = find_char(s, ',', 0);
    let n = first.len() as int;
    assert(s[n] == ',');
    if k < n {
        assert(first[k] == ',');
        assert(first.contains(','));
    }
    assert(k == n);
    assert(s.take(n) =~= first);
    let j = find_char(first, ',', 0);
    if 0 <= j < first.len() {
        assert(first.contains(first[j]));
    }
}

/// A length is the number that its header writes, and nothing where there is no
/// number.
pub proof fn law_length_is_the_number_of_the_header(n: u64, header: Seq<char>, i: int)
    ensures
        length_of(Some(decimal(n as nat))) == n,
        length_of(None) == 0,
        header.len() == 0 ==> length_of(Some(header)) == 0,
        0 < i < header.len() && !('0' <= header[i] <= '9') ==> length_of(Some(header)) == 0,
{
    law_number_reads_back(n);
    law_only_digits_are_a_number(header);
}

/// A request is that of the identity that was resolved, else of the user that it
/// named.
pub proof fn law_resolved_identity_counts(identity: Seq<char>, user: Option<Seq<char>>)
    ensures
        user_of(Some(identity), user) == identity,
        user matches Some(u) ==> user_of(None, user) == u,
        user is None ==> user_of(None, user) == "unknown"@,
{
}

/// An event tells of the request what was asked and of the response what was sent.
pub proof fn law_event_tells_request_and_response(
    req: RequestFacts,
    resp: ResponseFacts,
    action: &str,
    r: CompletedRequest,
    received: u64,
    sent: u64,
)
    requires
        call_ensures(request_event_middleware, (&req, &resp, action), r),
        req.content_length matches Some(c) && c@ == decimal(received as nat),
        resp.content_length matches Some(c) && c@ == decimal(sent as nat),
    ensures
        r.method@ == req.method@,
        r.path@ == req.path@,
        r.status == resp.status,
        r.elapsed_ns == resp.elapsed_ns,
        r.action@ == action@,
        r.bytes_recv == received,
        r.bytes_sent == sent,
        req.request_id matches Some(id) ==> r.request_id@ == id@,
        resp.identity matches Some(id) ==> r.username@ == id@,
        resp.identity is None ==> (req.user matches Some(u) ==> r.username@ == u@),
        req.forwarded_for is None ==> (req.peer_ip matches Some(p) ==> r.ip@ == p@),
{
    law_number_reads_back(received);
    law_number_reads_back(sent);
    let v = r.deep_view();
    assert(v.bytes_recv == received);
    assert(v.bytes_sent == sent);
}

/// Requests are logged where the access log is on, and published unless they serve
/// the page or the feed itself.
pub proof fn law_noise_is_not_published(log: bool, ui: bool, noise: bool, r: Routing)
    requires
        call_ensures(route_request, (log, ui, noise), r),
    ensures
        r.logged == log,
        ui || noise ==> !r.published,
        !ui && !noise ==> r.published,
{
}

/// A published request is the last of the recent ones, under the next number, and
/// pushes out the oldest only where there are a hundred already.
pub proof fn law_published_request_is_the_last(
    s: RequestStreamView,
    at: Timestamp,
    request: CompletedRequestView,
)
    ensures
        ({
            let after = published(s, at, request);
            &&& after.recent.len() > 0
            &&& after.recent.last() == (RequestEventView { seq: s.next_seq, timestamp: at, request })
            &&& s.recent.len() != 100 ==> after.recent.drop_last() == s.recent
            &&& s.recent.len() == 100 ==> after.recent.len() == 100 && forall|i: int|
                0 <= i < 99 ==> #[trigger] after.recent[i] == s.recent[i + 1]
            &&& s.next_seq < u64::MAX ==> after.next_seq == s.next_seq + 1
            &&& s.next_seq == u64::MAX ==> after.next_seq == 0
        }),
{
    let after = published(s, at, request);
    if s.recent.len() != 100 {
        assert(after.recent.drop_last() =~= s.recent);
    }
}

/// A client that connects or has missed events gets a snapshot; an event is sent
/// under its number; the end is told.
pub proof fn law_feed_tells_every_signal(e: RequestEvent)
    ensures
        frame_for(FeedSignal::Connected) is Snapshot,
        frame_for(FeedSignal::Lagged) is Snapshot,
        frame_for(FeedSignal::Closed) is End,
        frame_for(FeedSignal::Published(e)) == (FeedFrameView::Request {
            id: decimal(e.seq as nat),
            event: e.deep_view(),
        }),
{
}

} // verus!
