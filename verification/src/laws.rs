//! What holds of the node's operations taken together.

use crate::chord::{
    get_allows, node_entry, notify_accepts, put_allows, spec_adopts, spec_owns,
    spec_successor_covers, ChordService, RequestError,
};
use crate::crypto::address_pos;
use crate::finger_table::{
    is_closest_preceding, lemma_closest_preceding_exists, none_precedes, spec_closest_preceding,
    FingerEntryView,
};
use crate::kv_store::{
    distinct_keys, has_key, ingest, lemma_pairs_map_index, off_arc_part, on_arc_part, pairs_map,
    PairView, StoreView,
};
use crate::ring::{advance, between, clockwise, on_ring};
use crate::types::Value;
use vstd::prelude::*;

verus! {

/// A node lies on the arc that leads from just behind its predecessor to
/// itself, whatever the predecessor is.
pub proof fn lemma_predecessor_arc_holds_node(node: ChordService)
    requires
        node.wf(),
        node.predecessor() is Some,
    ensures
        between(
            node.pos as int,
            advance(address_pos(node.predecessor()->Some_0.address), 1),
            node.pos as int,
            false,
            false,
        ),
{
}

/// A caller that a node with a predecessor takes for its new predecessor
/// stands elsewhere than the node, unless the old predecessor stood
/// directly before the node.
pub proof fn lemma_new_predecessor_is_another(
    predecessor: FingerEntryView,
    own_pos: int,
    caller: Seq<char>,
)
    requires
        on_ring(own_pos),
        notify_accepts(Some(predecessor), own_pos, caller),
        advance(address_pos(predecessor.address), 1) != own_pos,
    ensures
        address_pos(caller) != own_pos,
{
}

/// The closed arc from the position behind a node to the node itself is
/// the whole ring.
pub proof fn lemma_whole_ring(p: int, own_pos: int)
    requires
        on_ring(p),
        on_ring(own_pos),
    ensures
        between(p, advance(own_pos, 1), own_pos, false, false),
{
}

/// Where the successor of a node stands elsewhere than the node, the keys
/// for which the node answers a lookup with its successor are the keys that
/// the successor owns once it has the node for predecessor.
pub proof fn lemma_found_is_owner(own: Seq<char>, successor: Seq<char>, key: int)
    requires
        on_ring(key),
        address_pos(own) != address_pos(successor),
    ensures
        spec_successor_covers(address_pos(own), successor, key) == spec_owns(
            Some(node_entry(own)),
            address_pos(successor),
            key,
        ),
{
}

/// A lookup that is passed on comes nearer to its key: the peer it is
/// passed to, unless it is the node itself, lies strictly between the node
/// and the key, so that fewer steps lead from it to the key.
pub proof fn lemma_forward_is_nearer(
    fingers: Seq<FingerEntryView>,
    own: FingerEntryView,
    key: int,
)
    requires
        on_ring(key),
    ensures
        ({
            let next = spec_closest_preceding(fingers, own, key);
            next == own || {
                &&& between(address_pos(next.address), own.key as int, key, true, true)
                &&& clockwise(address_pos(next.address), key) < clockwise(own.key as int, key)
                &&& address_pos(next.address) != key
            }
        }),
{
    let next = spec_closest_preceding(fingers, own, key);
    if !none_precedes(fingers, own.key as int, key) {
        lemma_closest_preceding_exists(fingers, own.key as int, key);
        let i = choose|i: int| is_closest_preceding(fingers, own.key as int, key, i);
        assert(fingers[i].precedes(own.key as int, key));
    }
}

/// A node that takes the predecessor of its successor for its new
/// successor moves its successor nearer: the new one lies between the node
/// and the old one. This holds unless the old successor stands directly
/// behind the node, where nothing can lie between.
pub proof fn lemma_adopted_successor_is_nearer(
    own_pos: int,
    successor: Seq<char>,
    reported: Seq<char>,
)
    requires
        on_ring(own_pos),
        own_pos != address_pos(successor),
        advance(own_pos, 1) != address_pos(successor),
        spec_adopts(own_pos, successor, Some(reported)),
    ensures
        clockwise(own_pos, address_pos(reported)) < clockwise(own_pos, address_pos(successor)),
        address_pos(reported) != own_pos,
{
}

/// Stabilizing leaves a settled link alone: a node whose successor already
/// has it for predecessor keeps that successor, and the successor, when
/// the node notifies it, keeps the node.
pub proof fn lemma_settled_link_stays(own: Seq<char>, successor: Seq<char>)
    requires
        address_pos(own) != address_pos(successor),
    ensures
        !spec_adopts(address_pos(own), successor, Some(own)),
        !notify_accepts(
            Some(node_entry(own)),
            address_pos(successor),
            own,
        ),
{
}

/// Where stabilizing changes nothing any more, the link is settled: if a
/// node does not take the predecessor that its successor reports, and the
/// successor does not take the node when notified, then the reported
/// predecessor stands where the node stands.
pub proof fn lemma_quiet_link_is_settled(own: Seq<char>, successor: Seq<char>, reported: Seq<char>)
    requires
        reported.len() > 0,
        address_pos(own) != address_pos(successor),
        address_pos(reported) != address_pos(successor),
        !spec_adopts(address_pos(own), successor, Some(reported)),
        !notify_accepts(
            Some(node_entry(reported)),
            address_pos(successor),
            own,
        ),
    ensures
        address_pos(reported) == address_pos(own),
{
}

/// Stabilizing heals a join. Where a node has joined between a node and
/// its successor, the successor takes the new node for predecessor when the
/// new node notifies it; the old node then takes the new node for
/// successor when it stabilizes; and the new node does not take the old
/// node, which lies before it, for successor.
pub proof fn lemma_join_is_healed(before: Seq<char>, joined: Seq<char>, successor: Seq<char>)
    requires
        joined.len() > 0,
        between(address_pos(joined), address_pos(before), address_pos(successor), true, true),
    ensures
        notify_accepts(
            Some(node_entry(before)),
            address_pos(successor),
            joined,
        ),
        spec_adopts(address_pos(before), successor, Some(joined)),
        !spec_adopts(address_pos(joined), successor, Some(before)),
        notify_accepts(None, address_pos(joined), before),
{
}

/// A get that follows a put of the same key on the same node returns the
/// value that was put.
pub proof fn lemma_put_then_get(
    predecessor: Option<FingerEntryView>,
    own_pos: int,
    before: StoreView,
    after: StoreView,
    key: Seq<u8>,
    value: Seq<u8>,
    put_reply: Result<(), RequestError>,
    get_reply: Result<Option<Value>, RequestError>,
)
    requires
        put_allows(predecessor, own_pos, before, after, key, value, put_reply),
        put_reply is Ok,
        get_allows(predecessor, own_pos, after, key, get_reply),
    ensures
        get_reply is Ok,
        get_reply->Ok_0 is Some,
        get_reply->Ok_0->Some_0@ == value,
{
}

/// A node refuses a get exactly when it refuses a put of the same key.
pub proof fn lemma_get_and_put_agree(
    predecessor: Option<FingerEntryView>,
    own_pos: int,
    before: StoreView,
    after: StoreView,
    key: Seq<u8>,
    value: Seq<u8>,
    put_reply: Result<(), RequestError>,
    get_reply: Result<Option<Value>, RequestError>,
)
    requires
        put_allows(predecessor, own_pos, before, after, key, value, put_reply),
        get_allows(predecessor, own_pos, before, key, get_reply),
    ensures
        put_reply is Ok <==> get_reply is Ok,
{
}

/// Putting pairs with distinct keys into a store one after the other
/// leaves the store overlaid with the map that the pairs spell out.
pub proof fn lemma_ingest_distinct(store: StoreView, pairs: Seq<PairView>)
    requires
        distinct_keys(pairs),
    ensures
        ingest(store, pairs) == store.union_prefer_right(pairs_map(pairs)),
    decreases pairs.len(),
{
    if pairs.len() == 0 {
        assert(pairs_map(pairs) =~= Map::<Seq<u8>, Seq<u8>>::empty());
        assert(store.union_prefer_right(pairs_map(pairs)) =~= store);
    } else {
        let front = pairs.drop_last();
        let last = pairs.last();
        assert(distinct_keys(front)) by {
            assert forall|i: int, j: int| 0 <= i < j < front.len() implies (#[trigger] front[i]).0
                != (#[trigger] front[j]).0 by {
                assert(pairs[i].0 != pairs[j].0);
            }
        }
        lemma_ingest_distinct(store, front);
        assert forall|key: Seq<u8>| has_key(pairs, key) <==> (has_key(front, key) || key
            == last.0) by {
            if has_key(pairs, key) {
                let c = choose|c: int| 0 <= c < pairs.len() && (#[trigger] pairs[c]).0 == key;
                if c < front.len() {
                    assert(front[c].0 == key);
                }
            }
            if has_key(front, key) {
                let c = choose|c: int| 0 <= c < front.len() && (#[trigger] front[c]).0 == key;
                assert(pairs[c].0 == key);
            }
            if key == last.0 {
                assert(pairs[pairs.len() - 1].0 == key);
            }
        }
        assert forall|key: Seq<u8>| has_key(pairs, key) implies pairs_map(pairs)[key] == (if key
            == last.0 {
            last.1
        } else {
            pairs_map(front)[key]
        }) by {
            let c = choose|c: int| 0 <= c < pairs.len() && (#[trigger] pairs[c]).0 == key;
            lemma_pairs_map_index(pairs, c);
            if c < front.len() {
                assert(front[c] == pairs[c]);
                lemma_pairs_map_index(front, c);
                assert(pairs[c].0 != pairs[pairs.len() - 1].0);
            }
        }
        assert(ingest(store, pairs) =~= store.union_prefer_right(pairs_map(pairs)));
    }
}

/// Handing pairs over loses nothing and doubles nothing: the pairs that
/// left a store, put back beside what stayed, give the store as it was;
/// none of them stayed behind; and the store that took them in holds each
/// of them.
pub proof fn lemma_handoff_round_trip(
    before: StoreView,
    lower: int,
    upper: int,
    pairs: Seq<PairView>,
    receiver: StoreView,
)
    requires
        distinct_keys(pairs),
        pairs_map(pairs) == on_arc_part(before, lower, upper, false, false),
    ensures
        off_arc_part(before, lower, upper, false, false).union_prefer_right(pairs_map(pairs))
            == before,
        off_arc_part(before, lower, upper, false, false).dom().disjoint(pairs_map(pairs).dom()),
        pairs_map(pairs).submap_of(ingest(receiver, pairs)),
        ingest(off_arc_part(before, lower, upper, false, false), pairs) == before,
{
    let stayed = off_arc_part(before, lower, upper, false, false);
    assert(stayed.union_prefer_right(pairs_map(pairs)) =~= before);
    lemma_ingest_distinct(receiver, pairs);
    lemma_ingest_distinct(stayed, pairs);
}

} // verus!
