//! Deterministic request routing.
//!
//! Each node independently computes a stable 64-bit hash of the request's
//! identity `(requester, resource)`, probes which nodes are reachable, and
//! assigns the request to the alive node the hash selects. Nodes that compute
//! the same alive set agree on the assignment, so exactly one of them accepts
//! the request; the others reject it naming the assigned node.

use crate::bully::NodeInfo;
use crate::decimal::decimal_chars;
use crate::decimal::u32_to_string;
use crate::encryption::ctr_apply;
use crate::encryption::encrypt_data;
use crate::encryption::generate_key_from_username;
use crate::encryption::user_key_of;
use crate::protocol::ClientRequest;
use crate::protocol::ServerResponse;
use vstd::prelude::*;
use vstd::string::StringExecFns;
use vstd::string::StringSliceAdditionalSpecFns;

verus! {

pub const FNV_OFFSET_BASIS: u64 = 0xcbf29ce484222325;

pub const FNV_PRIME: u64 = 0x100000001b3;

/// One step of the FNV-1a hash: fold one byte into the state.
pub open spec fn fnv_step(h: u64, b: u8) -> u64 {
    vstd::wrapping::u64_specs::wrapping_mul(h ^ (b as u64), FNV_PRIME)
}

/// The FNV-1a state after folding `s` into `h`, byte by byte.
pub open spec fn fnv_extend(h: u64, s: Seq<u8>) -> u64
    decreases s.len(),
{
    if s.len() == 0 {
        h
    } else {
        fnv_extend(fnv_step(h, s[0]), s.drop_first())
    }
}

/// The request identity hash: FNV-1a over the requester's bytes, a zero
/// separator, and the resource's bytes.
pub open spec fn request_hash_of(user: Seq<u8>, file: Seq<u8>) -> u64 {
    fnv_extend(fnv_step(fnv_extend(FNV_OFFSET_BASIS, user), 0u8), file)
}

/// Folds a byte slice into an FNV-1a state.
fn fnv_extend_bytes(h0: u64, bytes: &[u8]) -> (r: u64)
    ensures
        r == fnv_extend(h0, bytes@),
{
    let mut h = h0;
    let mut i: usize = 0;
    proof {
        assert(bytes@.skip(0) =~= bytes@);
    }
    while i < bytes.len()
        invariant
            0 <= i <= bytes@.len(),
            fnv_extend(h, bytes@.skip(i as int)) == fnv_extend(h0, bytes@),
        decreases bytes@.len() - i,
    {
        let b = bytes[i];
        proof {
            let rest = bytes@.skip(i as int);
            assert(rest[0] == bytes@[i as int]);
            assert(rest.drop_first() =~= bytes@.skip(i as int + 1));
        }
        h = (h ^ (b as u64)).wrapping_mul(FNV_PRIME);
        i += 1;
    }
    proof {
        assert(bytes@.skip(bytes@.len() as int) =~= Seq::<u8>::empty());
    }
    h
}

/// The stable hash of a request's identity `(requester, resource)`.
pub fn request_hash(username: &str, filename: &str) -> (r: u64)
    ensures
        r == request_hash_of(username.spec_bytes(), filename.spec_bytes()),
{
    let h = fnv_extend_bytes(FNV_OFFSET_BASIS, username.as_bytes());
    let h = (h ^ 0u64).wrapping_mul(FNV_PRIME);
    fnv_extend_bytes(h, filename.as_bytes())
}

/// A strictly ascending sequence.
pub open spec fn strictly_sorted(s: Seq<u32>) -> bool {
    forall|i: int, j: int| 0 <= i < j < s.len() ==> s[i] < s[j]
}

/// Inserts `x` into a strictly sorted vector, keeping it strictly sorted.
fn insert_sorted(v: &mut Vec<u32>, x: u32)
    requires
        strictly_sorted(old(v)@),
        !old(v)@.contains(x),
    ensures
        strictly_sorted(final(v)@),
        final(v)@.len() == old(v)@.len() + 1,
        forall|y: u32| final(v)@.contains(y) <==> (old(v)@.contains(y) || y == x),
{
    let ghost prior = v@;
    let mut i: usize = 0;
    while i < v.len() && v[i] < x
        invariant
            0 <= i <= v@.len(),
            v@ == prior,
            forall|j: int| 0 <= j < i ==> prior[j] < x,
        decreases v@.len() - i,
    {
        i += 1;
    }
    proof {
        assert(forall|j: int| i <= j < prior.len() ==> prior[j] >= x) by {
            if i < prior.len() {
                assert(prior[i as int] >= x);
                assert(forall|j: int|
                    i < j < prior.len() ==> prior[i as int] < (#[trigger] prior[j]));
            }
        }
    }
    v.insert(i, x);
    proof {
        let now = v@;
        assert(forall|j: int| 0 <= j < i ==> now[j] == prior[j]);
        assert(now[i as int] == x);
        assert(forall|j: int| i < j < now.len() ==> now[j] == prior[j - 1]);
        assert forall|y: u32| now.contains(y) implies (prior.contains(y) || y == x) by {
            let k = choose|k: int| 0 <= k < now.len() && now[k] == y;
            if k < i {
                assert(prior[k] == y);
            } else if k > i {
                assert(prior[k - 1] == y);
            }
        }
        assert forall|y: u32| prior.contains(y) implies now.contains(y) by {
            let k = choose|k: int| 0 <= k < prior.len() && prior[k] == y;
            if k < i {
                assert(now[k] == y);
            } else {
                assert(now[k + 1] == y);
            }
        }
        assert(now.contains(x)) by {
            assert(now[i as int] == x);
        }
    }
}

/// The sorted alive set: this node's own identifier, plus every peer whose
/// liveness probe succeeded. `reachable[i]` reports the probe of `peers[i]`;
/// an entry carrying the node's own identifier is skipped, as the node does
/// not probe itself.
pub fn alive_from_probes(self_id: u32, peers: &Vec<NodeInfo>, reachable: &Vec<bool>) -> (alive: Vec<
    u32,
>)
    requires
        reachable@.len() == peers@.len(),
        // registry ids are unique
        forall|i: int, j: int|
            0 <= i < j < peers@.len() ==> (#[trigger] peers@[i]).id != (#[trigger] peers@[j]).id,
    ensures
        strictly_sorted(alive@),
        alive@.contains(self_id),
        forall|i: int|
            0 <= i < peers@.len() && (#[trigger] peers@[i]).id != self_id ==> (alive@.contains(
                peers@[i].id,
            ) <==> reachable@[i]),
        forall|y: u32|
            alive@.contains(y) ==> y == self_id || exists|i: int|
                0 <= i < peers@.len() && (#[trigger] peers@[i]).id == y && reachable@[i],
{
    let mut alive: Vec<u32> = Vec::new();
    alive.push(self_id);
    proof {
        assert(alive@ =~= seq![self_id]);
        assert(alive@.contains(self_id)) by {
            assert(alive@[0] == self_id);
        }
    }
    let mut i: usize = 0;
    while i < peers.len()
        invariant
            0 <= i <= peers@.len(),
            reachable@.len() == peers@.len(),
            forall|a: int, b: int|
                0 <= a < b < peers@.len() ==> (#[trigger] peers@[a]).id != (
                #[trigger] peers@[b]).id,
            strictly_sorted(alive@),
            alive@.contains(self_id),
            forall|j: int|
                0 <= j < i && (#[trigger] peers@[j]).id != self_id ==> (alive@.contains(
                    peers@[j].id,
                ) <==> reachable@[j]),
            forall|y: u32|
                alive@.contains(y) ==> y == self_id || exists|j: int|
                    0 <= j < i && (#[trigger] peers@[j]).id == y && reachable@[j],
        decreases peers@.len() - i,
    {
        let p_id = peers[i].id;
        proof {
            // this peer's id was not collected yet: ids before `i` differ
            if p_id != self_id && alive@.contains(p_id) {
                let j = choose|j: int|
                    0 <= j < i && (#[trigger] peers@[j]).id == p_id && reachable@[j];
                assert(peers@[j].id != peers@[i as int].id);
                assert(false);
            }
        }
        if p_id != self_id && reachable[i] {
            let ghost pre = alive@;
            insert_sorted(&mut alive, p_id);
            proof {
                assert forall|j: int|
                    0 <= j < i + 1 && (#[trigger] peers@[j]).id != self_id implies (
                alive@.contains(peers@[j].id) <==> reachable@[j]) by {
                    if j < i {
                        assert(peers@[j].id != peers@[i as int].id);
                        assert(alive@.contains(peers@[j].id) <==> (pre.contains(peers@[j].id)
                            || peers@[j].id == p_id));
                    } else {
                        assert(alive@.contains(p_id));
                    }
                }
            }
        }
        i += 1;
    }
    alive
}

/// The node an alive set assigns a hash to: the member at the index the hash
/// selects, the set being canonically sorted.
pub open spec fn spec_assigned(alive: Seq<u32>, hash: u64) -> u32
    recommends
        alive.len() > 0,
{
    alive[(hash as int) % (alive.len() as int)]
}

/// What a node decides about a request.
#[derive(Debug, Clone, Copy, PartialEq, Eq, Structural)]
pub enum RouteDecision {
    /// This node is responsible and must process the request; also the
    /// degenerate fallback when the alive set is empty.
    ProcessLocally,
    /// The request belongs to the named node and must be rejected here.
    Reject { assigned: u32 },
}

/// The routing decision of node `self_id` over an alive set and a hash.
pub open spec fn spec_route(self_id: u32, alive: Seq<u32>, hash: u64) -> RouteDecision {
    if alive.len() == 0 {
        RouteDecision::ProcessLocally
    } else if spec_assigned(alive, hash) == self_id {
        RouteDecision::ProcessLocally
    } else {
        RouteDecision::Reject { assigned: spec_assigned(alive, hash) }
    }
}

/// Decides whether this node must process a request hashing to `hash`, given
/// the alive set it computed.
pub fn route_request(self_id: u32, alive: &Vec<u32>, hash: u64) -> (r: RouteDecision)
    ensures
        r == spec_route(self_id, alive@, hash),
{
    if alive.len() == 0 {
        RouteDecision::ProcessLocally
    } else {
        let idx = (hash % (alive.len() as u64)) as usize;
        let assigned = alive[idx];
        if assigned == self_id {
            RouteDecision::ProcessLocally
        } else {
            RouteDecision::Reject { assigned }
        }
    }
}

/// Law (routing determinism): the assignment is a function of the alive set
/// and the hash alone, so nodes sharing an alive set agree on it: exactly the
/// assigned member processes the request, and every other member rejects it
/// naming the assigned one.
pub proof fn lemma_routing_agreement(alive: Seq<u32>, hash: u64)
    requires
        alive.len() > 0,
    ensures
        forall|n: u32|
            alive.contains(n) ==> ((#[trigger] spec_route(n, alive, hash)) is ProcessLocally <==> n
                == spec_assigned(alive, hash)),
        forall|n: u32|
            alive.contains(n) && n != spec_assigned(alive, hash) ==> (#[trigger] spec_route(
                n,
                alive,
                hash,
            )) == (RouteDecision::Reject { assigned: spec_assigned(alive, hash) }),
{
}

/// The reply sent back with a rejected request, naming the assigned node.
pub open spec fn reject_message(assigned: nat) -> Seq<char> {
    "Request assigned to Node "@ + decimal_chars(assigned)
}

/// Renders the rejection reply for `assigned`.
fn reject_response(assigned: u32) -> (r: String)
    ensures
        r@ == reject_message(assigned as nat),
{
    let mut m = String::from_str("Request assigned to Node ");
    let digits = u32_to_string(assigned);
    m.append(digits.as_str());
    m
}

/// Handles a client request on node `self_id` with the alive set it computed:
/// processes it — encrypting the payload under the requester's key — exactly
/// when the routing decision assigns it here, and rejects it naming the
/// assigned node otherwise.
pub fn handle_client_request(self_id: u32, alive: &Vec<u32>, request: ClientRequest) -> (r:
    ServerResponse)
    ensures
        match request {
            ClientRequest::UploadImage { username, image_data, filename } => {
                let h = request_hash_of(
                    vstd::utf8::encode_utf8(username@),
                    vstd::utf8::encode_utf8(filename@),
                );
                match spec_route(self_id, alive@, h) {
                    RouteDecision::ProcessLocally => (r matches ServerResponse::EncryptedImageData {
                        data,
                    } && data@ == ctr_apply(image_data@, user_key_of(username@))),
                    RouteDecision::Reject { assigned } => (r matches ServerResponse::Error {
                        message,
                    } && message@ == reject_message(assigned as nat)),
                }
            },
        },
{
    match request {
        ClientRequest::UploadImage { username, image_data, filename } => {
            let h = request_hash(username.as_str(), filename.as_str());
            match route_request(self_id, alive, h) {
                RouteDecision::ProcessLocally => {
                    let key = generate_key_from_username(username.as_str());
                    let encrypted = encrypt_data(image_data.as_slice(), &key);
                    ServerResponse::EncryptedImageData { data: encrypted }
                },
                RouteDecision::Reject { assigned } => {
                    ServerResponse::Error { message: reject_response(assigned) }
                },
            }
        },
    }
}

/// The first successful response of a broadcast round, if any.
pub open spec fn spec_first_success(rs: Seq<ServerResponse>) -> Option<ServerResponse>
    decreases rs.len(),
{
    if rs.len() == 0 {
        None
    } else if rs[0] matches ServerResponse::EncryptedImageData { .. } {
        Some(rs[0])
    } else {
        spec_first_success(rs.drop_first())
    }
}

/// Picks the first successful response of a broadcast round: rejections are
/// skipped, as the caller's fan-out expects exactly the assigned node to
/// answer with data.
pub fn select_first_success(responses: Vec<ServerResponse>) -> (r: Option<ServerResponse>)
    ensures
        r == spec_first_success(responses@),
{
    let ghost orig = responses@;
    let mut rs = responses;
    while rs.len() > 0
        invariant
            orig == responses@,
            spec_first_success(rs@) == spec_first_success(orig),
        decreases rs@.len(),
    {
        let ghost pre = rs@;
        let head = rs.remove(0);
        proof {
            assert(rs@ =~= pre.drop_first());
            assert(head == pre[0]);
        }
        match &head {
            ServerResponse::EncryptedImageData { data: _ } => {
                proof {
                    assert(pre[0] matches ServerResponse::EncryptedImageData { .. });
                    assert(spec_first_success(pre) == Some(pre[0]));
                }
                return Some(head);
            },
            ServerResponse::Error { message: _ } => {},
        }
    }
    None
}

} // verus!
