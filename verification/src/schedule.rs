use vstd::prelude::*;

use crate::request::HTTP_Request;
use crate::server::WebServer;
use crate::text::{has_prefix, starts_with};

verus! {

/// The first address prefix of the favoured local network.
pub open spec fn local_prefix_a() -> Seq<char> {
    seq!['1', '2', '8', '.', '1', '4', '3', '.']
}

/// The second address prefix of the favoured local network.
pub open spec fn local_prefix_b() -> Seq<char> {
    seq!['1', '3', '7', '.', '5', '4', '.']
}

/// The peer address lies in the favoured local network.
pub open spec fn is_local(peer: Seq<char>) -> bool {
    has_prefix(peer, local_prefix_a()) || has_prefix(peer, local_prefix_b())
}

/// The first queued request at or after `i` that comes from outside the local network.
pub open spec fn first_remote_from(q: Seq<HTTP_Request>, i: int) -> Option<int>
    decreases q.len() - i,
{
    if i < 0 || i >= q.len() {
        None
    } else if !is_local(q[i].peer_name@) {
        Some(i)
    } else {
        first_remote_from(q, i + 1)
    }
}

/// Where a new request goes: a request from the local network goes ahead of the first
/// queued request from outside (at the end when there is none); any other request goes to
/// the end.
pub open spec fn queue_slot(q: Seq<HTTP_Request>, req: HTTP_Request) -> int {
    if is_local(req.peer_name@) {
        match first_remote_from(q, 0) {
            Some(k) => k,
            None => q.len() as int,
        }
    } else {
        q.len() as int
    }
}

/// The queue after `req` joins it at its slot.
pub open spec fn enqueued(q: Seq<HTTP_Request>, req: HTTP_Request) -> Seq<HTTP_Request> {
    q.insert(queue_slot(q, req), req)
}

/// Every local request of `q` stands ahead of every remote one.
pub open spec fn locals_first(q: Seq<HTTP_Request>) -> bool {
    forall|i: int, j: int| 0 <= i < j < q.len() && is_local(#[trigger] q[j].peer_name@) ==> is_local(#[trigger] q[i].peer_name@)
}

pub proof fn lemma_first_remote_from(q: Seq<HTTP_Request>, i: int)
    requires
        0 <= i,
    ensures
        match first_remote_from(q, i) {
            Some(k) => i <= k < q.len() && !is_local(q[k].peer_name@)
                && forall|j: int| i <= j < k ==> is_local(#[trigger] q[j].peer_name@),
            None => forall|j: int| i <= j < q.len() ==> is_local(#[trigger] q[j].peer_name@),
        },
    decreases q.len() - i,
{
    if i < q.len() && is_local(q[i].peer_name@) {
        lemma_first_remote_from(q, i + 1);
    }
}

/// The slot lies within the queue or just past its end.
pub proof fn lemma_queue_slot(q: Seq<HTTP_Request>, req: HTTP_Request)
    ensures
        0 <= queue_slot(q, req) <= q.len(),
        is_local(req.peer_name@) ==> forall|j: int| 0 <= j < queue_slot(q, req) ==> is_local(#[trigger] q[j].peer_name@),
        is_local(req.peer_name@) && queue_slot(q, req) < q.len() ==> !is_local(q[queue_slot(q, req)].peer_name@),
{
    lemma_first_remote_from(q, 0);
}

/// Whether `peer` lies in the favoured local network.
fn is_local_peer(peer: &String) -> (r: bool)
    ensures
        r == is_local(peer@),
{
    proof {
        reveal_strlit("128.143.");
        reveal_strlit("137.54.");
    }
    let a = starts_with(peer.as_str(), "128.143.");
    let b = starts_with(peer.as_str(), "137.54.");
    proof {
        assert("128.143."@ =~= local_prefix_a());
        assert("137.54."@ =~= local_prefix_b());
    }
    a || b
}

impl WebServer {
    /// Queues a request for a large static file: a request from the local network goes ahead
    /// of the first queued request from outside; any other request joins the end.
    pub fn enqueue_static_file_request(queue: &mut Vec<HTTP_Request>, req: HTTP_Request)
        ensures
            final(queue)@ == enqueued(old(queue)@, req),
    {
        let ghost q = queue@;
        proof {
            lemma_first_remote_from(q, 0);
        }
        let n = queue.len();
        if !is_local_peer(&req.peer_name) {
            queue.push(req);
            proof {
                assert(queue@ =~= q.insert(n as int, req));
            }
            return;
        }
        let mut i: usize = 0;
        while i < n
            invariant
                n == q.len(),
                q == queue@,
                q == old(queue)@,
                i <= n,
                is_local(req.peer_name@),
                forall|j: int| 0 <= j < i ==> is_local(#[trigger] q[j].peer_name@),
            decreases n - i,
        {
            if !is_local_peer(&queue[i].peer_name) {
                proof {
                    lemma_first_remote_from(q, 0);
                    match first_remote_from(q, 0) {
                        Some(k) => {
                            if k < i {
                                assert(is_local(q[k].peer_name@));
                            } else if k > i {
                                assert(is_local(q[i as int].peer_name@));
                            }
                        },
                        None => {
                            assert(is_local(q[i as int].peer_name@));
                        },
                    }
                }
                queue.insert(i, req);
                return;
            }
            i = i + 1;
        }
        proof {
            lemma_first_remote_from(q, 0);
            match first_remote_from(q, 0) {
                Some(k) => {
                    assert(is_local(q[k].peer_name@));
                },
                None => {},
            }
        }
        queue.push(req);
        proof {
            assert(queue@ =~= q.insert(n as int, req));
        }
    }

    /// Takes the request at the head of the queue, if any.
    pub fn dequeue_static_file_request(queue: &mut Vec<HTTP_Request>) -> (r: Option<HTTP_Request>)
        ensures
            old(queue)@.len() == 0 ==> r is None && final(queue)@ == old(queue)@,
            old(queue)@.len() > 0 ==> r == Some(old(queue)@[0]) && final(queue)@ == old(queue)@.drop_first(),
    {
        if queue.len() == 0 {
            None
        } else {
            let r = queue.remove(0);
            proof {
                assert(queue@ =~= old(queue)@.drop_first());
            }
            Some(r)
        }
    }
}

} // verus!

verus! {

/// Offering a request queues it, once, and keeps every queued request in its order: the
/// queue grows by one, and without the new request it is the old queue.
pub proof fn law_queue_keeps_order(q: Seq<HTTP_Request>, req: HTTP_Request)
    ensures
        enqueued(q, req).len() == q.len() + 1,
        enqueued(q, req)[queue_slot(q, req)] == req,
        enqueued(q, req).remove(queue_slot(q, req)) == q,
{
    lemma_queue_slot(q, req);
    assert(enqueued(q, req).remove(queue_slot(q, req)) =~= q);
}

/// A local request is placed behind only local requests and ahead of every remote one; a
/// remote request joins the end.
pub proof fn law_local_requests_first(q: Seq<HTTP_Request>, req: HTTP_Request)
    ensures
        is_local(req.peer_name@) ==> forall|j: int| 0 <= j < queue_slot(q, req) ==> is_local(#[trigger] q[j].peer_name@),
        is_local(req.peer_name@) && queue_slot(q, req) < q.len() ==> !is_local(q[queue_slot(q, req)].peer_name@),
        !is_local(req.peer_name@) ==> queue_slot(q, req) == q.len(),
{
    lemma_queue_slot(q, req);
}

/// A queue whose local requests all stand ahead of its remote ones keeps that order when a
/// request joins it.
pub proof fn law_locals_stay_first(q: Seq<HTTP_Request>, req: HTTP_Request)
    requires
        locals_first(q),
    ensures
        locals_first(enqueued(q, req)),
{
    lemma_queue_slot(q, req);
    let k = queue_slot(q, req);
    let t = enqueued(q, req);
    assert forall|i: int, j: int| 0 <= i < j < t.len() && is_local(#[trigger] t[j].peer_name@) implies is_local(#[trigger] t[i].peer_name@) by {
        let i0 = if i < k { i } else { i - 1 };
        let j0 = if j < k { j } else { j - 1 };
        if i == k {
            if !is_local(req.peer_name@) {
                assert(k == q.len());
                assert(false);
            }
        } else if j == k {
            assert(is_local(req.peer_name@));
            assert(t[i] == q[i0]);
        } else {
            assert(t[i] == q[i0]);
            assert(t[j] == q[j0]);
            if i0 == j0 {
                assert(false);
            }
        }
    }
}

} // verus!

verus! {

/// A peer is local exactly when its address begins with `128.143.` or with `137.54.`; any
/// other peer (such as one in `128.2.`) is remote, and its request joins the end of the
/// queue.
pub proof fn law_local_network(peer: Seq<char>)
    ensures
        is_local(peer) <==> (peer.len() >= 8 && peer.subrange(0, 8) == seq!['1', '2', '8', '.', '1', '4', '3', '.'])
            || (peer.len() >= 7 && peer.subrange(0, 7) == seq!['1', '3', '7', '.', '5', '4', '.']),
{
}

} // verus!
