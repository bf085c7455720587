//! Lookups on a settled ring: where every node has the node behind it for
//! successor, a lookup that is passed on from node to node ends at the
//! owner of its key, and stabilizing changes nothing.

use crate::chord::{
    is_mended, notify_accepts, spec_adopts, spec_successor_covers, ChordService,
};
use crate::cluster::{
    is_predecessor_of, is_successor_of, lemma_owner_is_successor, lemma_successor_unique,
};
use crate::crypto::address_pos;
use crate::finger_table::{
    is_closest_preceding, lemma_closest_preceding_exists, none_precedes, spec_closest_preceding,
};
use crate::ring::{
    advance, between, clockwise, lemma_clockwise_steps, on_ring, spec_finger_start, HashPos,
    RING_BITS,
};
use vstd::prelude::*;

verus! {

/// The positions at which `nodes` stand.
pub open spec fn node_positions(nodes: Seq<ChordService>) -> Seq<HashPos> {
    Seq::new(nodes.len(), |i: int| nodes[i].pos)
}

/// Whether one of `nodes` listens on `address`.
pub open spec fn is_node_address(nodes: Seq<ChordService>, address: Seq<char>) -> bool {
    exists|j: int| 0 <= j < nodes.len() && (#[trigger] nodes[j]).address@ == address
}

/// Whether no two of `nodes` stand at one position.
pub open spec fn distinct_positions(nodes: Seq<ChordService>) -> bool {
    forall|i: int, j: int|
        0 <= i < j < nodes.len() ==> (#[trigger] nodes[i]).pos != (#[trigger] nodes[j]).pos
}

/// Whether every finger of `node` that is set points to one of `nodes`.
pub open spec fn fingers_point_to_nodes(nodes: Seq<ChordService>, node: ChordService) -> bool {
    forall|f: int|
        0 <= f < node.finger_table@.len() && (#[trigger] node.finger_table@[f]).is_set()
            ==> is_node_address(nodes, node.finger_table@[f].address)
}

/// Whether the routing state of the node `at` is in order: it has the node
/// behind it for its immediate successor, in its successor list and in its
/// first finger, and every finger that is set points to one of the nodes.
#[verifier::opaque]
pub open spec fn node_in_order(nodes: Seq<ChordService>, at: int) -> bool {
    &&& nodes[at].wf()
    &&& nodes[at].successor().len() > 0
    &&& is_node_address(nodes, nodes[at].successor())
    &&& is_successor_of(
        node_positions(nodes),
        advance(nodes[at].pos as int, 1),
        address_pos(nodes[at].successor()),
    )
    &&& nodes[at].successor_agrees()
    &&& fingers_point_to_nodes(nodes, nodes[at])
}

/// Whether the routing state of `nodes` is in order: there are two nodes
/// or more, no two of them stand at one position, and the routing state of
/// each is in order.
pub open spec fn settled(nodes: Seq<ChordService>) -> bool {
    &&& nodes.len() >= 2
    &&& distinct_positions(nodes)
    &&& forall|i: int| 0 <= i < nodes.len() ==> #[trigger] node_in_order(nodes, i)
}

/// The answer to a lookup of `key` that starts at the node `at` and is
/// passed on from node to node, `hops` times at most. There is none where
/// a node passes the lookup to itself or to no node, or the hops run out.
pub open spec fn spec_lookup(nodes: Seq<ChordService>, at: int, key: int, hops: nat) -> Option<
    Seq<char>,
>
    decreases hops,
{
    let node = nodes[at];
    if spec_successor_covers(node.pos as int, node.successor(), key) {
        Some(node.successor())
    } else {
        let next = spec_closest_preceding(node.finger_table@, node.own_entry(), key);
        if hops == 0 || next == node.own_entry() || !is_node_address(nodes, next.address) {
            None
        } else {
            spec_lookup(
                nodes,
                choose|j: int| 0 <= j < nodes.len() && (#[trigger] nodes[j]).address@ == next.address,
                key,
                (hops - 1) as nat,
            )
        }
    }
}

/// A key on the arc that a node's successor covers has that successor for
/// its own successor.
proof fn lemma_covered_key(own: int, successor: int, key: int, other: int)
    requires
        on_ring(own),
        on_ring(successor),
        on_ring(key),
        on_ring(other),
        between(key, advance(own, 1), successor, false, false),
        clockwise(advance(own, 1), successor) <= clockwise(advance(own, 1), other),
    ensures
        clockwise(key, successor) <= clockwise(key, other),
{
    let behind = advance(own, 1);
    lemma_clockwise_steps(behind, successor);
    lemma_clockwise_steps(behind, other);
    lemma_clockwise_steps(key, successor);
    lemma_clockwise_steps(key, other);
}

/// A key that a node's successor does not cover lies behind the successor.
proof fn lemma_uncovered_key(own: int, successor: int, key: int)
    requires
        on_ring(own),
        on_ring(successor),
        on_ring(key),
        key != own,
        successor != own,
        !between(key, advance(own, 1), successor, false, false),
    ensures
        between(successor, own, key, true, true),
{
}

/// A peer strictly between a node and a key is nearer to the key.
proof fn lemma_between_is_nearer(peer: int, own: int, key: int)
    requires
        on_ring(peer),
        on_ring(own),
        on_ring(key),
        between(peer, own, key, true, true),
    ensures
        peer != key,
        peer != own,
        clockwise(peer, key) < clockwise(own, key),
{
    lemma_clockwise_steps(peer, key);
    lemma_clockwise_steps(own, key);
}

/// Where two nodes or more stand at different positions, the node behind
/// a node stands elsewhere than the node.
proof fn lemma_next_is_another(own: int, successor: int, other: int)
    requires
        on_ring(own),
        on_ring(successor),
        on_ring(other),
        other != own,
        clockwise(advance(own, 1), successor) <= clockwise(advance(own, 1), other),
    ensures
        successor != own,
{
    let behind = advance(own, 1);
    lemma_clockwise_steps(behind, successor);
    lemma_clockwise_steps(behind, other);
}

/// The first finger of a node whose routing state is in order precedes
/// every key that the node's successor does not cover, but for the
/// position of the node itself.
proof fn lemma_first_finger_precedes(nodes: Seq<ChordService>, at: int, key: int, other: int)
    requires
        0 <= at < nodes.len(),
        0 <= other < nodes.len(),
        nodes[other].pos != nodes[at].pos,
        node_in_order(nodes, at),
        on_ring(key),
        key != nodes[at].pos,
        !spec_successor_covers(nodes[at].pos as int, nodes[at].successor(), key),
    ensures
        !none_precedes(nodes[at].finger_table@, nodes[at].pos as int, key),
{
    reveal(node_in_order);
    let own = nodes[at].pos as int;
    let positions = node_positions(nodes);
    let successor = address_pos(nodes[at].successor());
    assert(clockwise(advance(own, 1), successor) <= clockwise(
        advance(own, 1),
        positions[other] as int,
    ));
    lemma_next_is_another(own, successor, nodes[other].pos as int);
    lemma_uncovered_key(own, successor, key);
    assert(nodes[at].finger_table@[0].precedes(own, key));
}

/// The successor of a node whose routing state is in order is the
/// successor of every key that it covers.
proof fn lemma_covering_successor(nodes: Seq<ChordService>, at: int, key: int)
    requires
        0 <= at < nodes.len(),
        node_in_order(nodes, at),
        on_ring(key),
        spec_successor_covers(nodes[at].pos as int, nodes[at].successor(), key),
    ensures
        is_successor_of(node_positions(nodes), key, address_pos(nodes[at].successor())),
        is_node_address(nodes, nodes[at].successor()),
{
    reveal(node_in_order);
    let own = nodes[at].pos as int;
    let positions = node_positions(nodes);
    let successor = address_pos(nodes[at].successor());
    assert forall|i: int| 0 <= i < positions.len() implies clockwise(key, successor) <= clockwise(
        key,
        #[trigger] positions[i] as int,
    ) by {
        lemma_covered_key(own, successor, key, positions[i] as int);
    }
}

/// A node whose routing state is in order stands at the position of its
/// address.
proof fn lemma_node_stands_at_its_address(nodes: Seq<ChordService>, at: int)
    requires
        0 <= at < nodes.len(),
        node_in_order(nodes, at),
    ensures
        nodes[at].pos as int == address_pos(nodes[at].address@),
        nodes[at].wf(),
{
    reveal(node_in_order);
}

/// The peer that a node whose routing state is in order passes a lookup
/// on to is another node, nearer to the key, unless no finger of the node
/// precedes the key.
proof fn lemma_next_hop(nodes: Seq<ChordService>, at: int, key: int) -> (hop: int)
    requires
        0 <= at < nodes.len(),
        node_in_order(nodes, at),
        on_ring(key),
        !none_precedes(nodes[at].finger_table@, nodes[at].pos as int, key),
    ensures
        ({
            let next = spec_closest_preceding(nodes[at].finger_table@, nodes[at].own_entry(), key);
            &&& next != nodes[at].own_entry()
            &&& is_node_address(nodes, next.address)
            &&& 0 <= hop < nodes.len()
            &&& hop == choose|j: int|
                0 <= j < nodes.len() && (#[trigger] nodes[j]).address@ == next.address
            &&& address_pos(nodes[hop].address@) != key
            &&& clockwise(address_pos(nodes[hop].address@), key) < clockwise(
                nodes[at].pos as int,
                key,
            )
        }),
{
    reveal(node_in_order);
    let node = nodes[at];
    let own = node.pos as int;
    let fingers = node.finger_table@;
    lemma_closest_preceding_exists(fingers, own, key);
    let i = choose|i: int| is_closest_preceding(fingers, own, key, i);
    let next = spec_closest_preceding(fingers, node.own_entry(), key);
    assert(next == fingers[i].referral());
    assert(fingers[i].is_set());
    assert(is_node_address(nodes, node.finger_table@[i].address));
    lemma_between_is_nearer(address_pos(next.address), own, key);
    choose|j: int| 0 <= j < nodes.len() && (#[trigger] nodes[j]).address@ == next.address
}

/// Where no two nodes stand at one position, each node has another node
/// beside it.
proof fn lemma_another_node(nodes: Seq<ChordService>, at: int) -> (other: int)
    requires
        nodes.len() >= 2,
        distinct_positions(nodes),
        0 <= at < nodes.len(),
    ensures
        0 <= other < nodes.len(),
        nodes[other].pos != nodes[at].pos,
{
    if at == 0 {
        assert(nodes[0].pos != nodes[1].pos);
        1
    } else {
        assert(nodes[0].pos != nodes[at].pos);
        0
    }
}

/// In a settled ring a lookup ends at the successor of its key, from
/// whatever node it starts, unless the key is the position of that very
/// node. It takes no more hops than steps lead from the node to the key.
pub proof fn lemma_lookup_finds_successor(nodes: Seq<ChordService>, at: int, key: int, hops: nat)
    requires
        settled(nodes),
        0 <= at < nodes.len(),
        on_ring(key),
        key != nodes[at].pos,
        hops >= clockwise(nodes[at].pos as int, key),
    ensures
        spec_lookup(nodes, at, key, hops) is Some,
        is_node_address(nodes, spec_lookup(nodes, at, key, hops)->Some_0),
        is_successor_of(
            node_positions(nodes),
            key,
            address_pos(spec_lookup(nodes, at, key, hops)->Some_0),
        ),
    decreases clockwise(nodes[at].pos as int, key),
{
    assert(node_in_order(nodes, at));
    if spec_successor_covers(nodes[at].pos as int, nodes[at].successor(), key) {
        lemma_covering_successor(nodes, at, key);
    } else {
        let other = lemma_another_node(nodes, at);
        lemma_first_finger_precedes(nodes, at, key, other);
        let hop = lemma_next_hop(nodes, at, key);
        assert(node_in_order(nodes, hop));
        lemma_node_stands_at_its_address(nodes, hop);
        lemma_lookup_finds_successor(nodes, hop, key, (hops - 1) as nat);
    }
}

/// The start of a finger is another position than that of its node.
proof fn lemma_finger_start_is_another(pos: int, index: nat)
    requires
        on_ring(pos),
        index < RING_BITS,
    ensures
        on_ring(spec_finger_start(pos, index)),
        spec_finger_start(pos, index) != pos,
{
    vstd::arithmetic::power2::lemma2_to64();
}

/// In a settled ring the node that a lookup of a finger's start finds is
/// the node that the finger has to point to: mending a finger with what
/// the lookup found makes the finger point to the successor of its start.
pub proof fn lemma_lookup_mends_finger(nodes: Seq<ChordService>, at: int, index: nat, hops: nat)
    requires
        settled(nodes),
        0 <= at < nodes.len(),
        index < RING_BITS,
        hops >= 255,
    ensures
        spec_lookup(nodes, at, spec_finger_start(nodes[at].pos as int, index), hops) is Some,
        is_successor_of(
            node_positions(nodes),
            spec_finger_start(nodes[at].pos as int, index),
            address_pos(
                spec_lookup(
                    nodes,
                    at,
                    spec_finger_start(nodes[at].pos as int, index),
                    hops,
                )->Some_0,
            ),
        ),
{
    lemma_finger_start_is_another(nodes[at].pos as int, index);
    lemma_lookup_finds_successor(
        nodes,
        at,
        spec_finger_start(nodes[at].pos as int, index),
        hops,
    );
}

/// Two addresses of nodes that stand at one position are one address.
proof fn lemma_one_address_at_a_position(
    nodes: Seq<ChordService>,
    first: Seq<char>,
    second: Seq<char>,
)
    requires
        settled(nodes),
        is_node_address(nodes, first),
        is_node_address(nodes, second),
        address_pos(first) == address_pos(second),
    ensures
        first == second,
{
    let i = choose|i: int| 0 <= i < nodes.len() && (#[trigger] nodes[i]).address@ == first;
    let j = choose|j: int| 0 <= j < nodes.len() && (#[trigger] nodes[j]).address@ == second;
    assert(node_in_order(nodes, i));
    assert(node_in_order(nodes, j));
    lemma_node_stands_at_its_address(nodes, i);
    lemma_node_stands_at_its_address(nodes, j);
    if i < j {
        assert(nodes[i].pos != nodes[j].pos);
    } else if j < i {
        assert(nodes[j].pos != nodes[i].pos);
    }
}

/// Where no node stands directly behind a position, the successor of that
/// position is also the successor of the position behind it.
proof fn lemma_skip_empty_position(own: int, successor: int, other: int)
    requires
        on_ring(own),
        on_ring(successor),
        on_ring(other),
        successor != advance(own, 1),
        clockwise(advance(own, 1), successor) <= clockwise(advance(own, 1), other),
    ensures
        clockwise(advance(own, 2), successor) <= clockwise(advance(own, 2), other),
{
    lemma_clockwise_steps(advance(own, 1), successor);
    lemma_clockwise_steps(advance(own, 1), other);
    lemma_clockwise_steps(advance(own, 2), successor);
    lemma_clockwise_steps(advance(own, 2), other);
}

/// The successor of a node whose routing state is in order is the
/// successor of the start of its first finger, and of the start of its
/// second finger too unless it stands directly behind the node.
proof fn lemma_successor_of_first_starts(nodes: Seq<ChordService>, at: int, index: nat)
    requires
        0 <= at < nodes.len(),
        node_in_order(nodes, at),
        index <= 1,
        index == 1 ==> address_pos(nodes[at].successor()) != advance(nodes[at].pos as int, 1),
    ensures
        is_node_address(nodes, nodes[at].successor()),
        is_successor_of(
            node_positions(nodes),
            spec_finger_start(nodes[at].pos as int, index),
            address_pos(nodes[at].successor()),
        ),
{
    reveal(node_in_order);
    vstd::arithmetic::power2::lemma2_to64();
    let own = nodes[at].pos as int;
    let positions = node_positions(nodes);
    let successor = address_pos(nodes[at].successor());
    if index == 1 {
        assert forall|i: int| 0 <= i < positions.len() implies clockwise(
            advance(own, 2),
            successor,
        ) <= clockwise(advance(own, 2), #[trigger] positions[i] as int) by {
            lemma_skip_empty_position(own, successor, positions[i] as int);
        }
    }
}

/// In a settled ring the lookups by which the first two fingers of a node
/// are mended find the node's immediate successor, the second one unless
/// the successor stands directly behind the node.
pub proof fn lemma_first_fingers_find_successor(
    nodes: Seq<ChordService>,
    at: int,
    index: nat,
    hops: nat,
)
    requires
        settled(nodes),
        0 <= at < nodes.len(),
        index <= 1,
        hops >= 255,
        index == 1 ==> address_pos(nodes[at].successor()) != advance(nodes[at].pos as int, 1),
    ensures
        spec_lookup(nodes, at, spec_finger_start(nodes[at].pos as int, index), hops) == Some(
            nodes[at].successor(),
        ),
{
    let start = spec_finger_start(nodes[at].pos as int, index);
    lemma_lookup_mends_finger(nodes, at, index, hops);
    let found = spec_lookup(nodes, at, start, hops)->Some_0;
    lemma_finger_start_is_another(nodes[at].pos as int, index);
    lemma_lookup_finds_successor(nodes, at, start, hops);
    assert(node_in_order(nodes, at));
    lemma_successor_of_first_starts(nodes, at, index);
    lemma_successor_unique(
        node_positions(nodes),
        start,
        address_pos(found),
        address_pos(nodes[at].successor()),
    );
    lemma_one_address_at_a_position(nodes, found, nodes[at].successor());
}

/// A node whose routing state is in order stays so when another node of
/// the ring changes, as long as that node keeps its address and position.
proof fn lemma_node_stays_in_order(
    nodes: Seq<ChordService>,
    changed: int,
    after: ChordService,
    at: int,
)
    requires
        0 <= changed < nodes.len(),
        0 <= at < nodes.len(),
        at != changed,
        after.address == nodes[changed].address,
        after.pos == nodes[changed].pos,
        node_in_order(nodes, at),
    ensures
        node_in_order(nodes.update(changed, after), at),
{
    reveal(node_in_order);
    let updated = nodes.update(changed, after);
    assert(node_positions(updated) =~= node_positions(nodes));
    assert forall|address: Seq<char>| is_node_address(nodes, address) implies is_node_address(
        updated,
        address,
    ) by {
        let j = choose|j: int| 0 <= j < nodes.len() && (#[trigger] nodes[j]).address@ == address;
        assert(updated[j].address@ == address);
    }
    assert(updated[at] == nodes[at]);
}

/// A node whose routing state is in order stays so when one of its
/// fingers is mended with the address of a node, which for the first two
/// fingers is the node's immediate successor.
proof fn lemma_mended_node_is_in_order(
    nodes: Seq<ChordService>,
    at: int,
    after: ChordService,
    index: int,
    found: Seq<char>,
)
    requires
        0 <= at < nodes.len(),
        0 <= index < RING_BITS,
        node_in_order(nodes, at),
        after.wf(),
        is_mended(nodes[at], after, index, found),
        is_node_address(nodes, found),
        index <= 1 ==> found == nodes[at].successor(),
    ensures
        node_in_order(nodes.update(at, after), at),
{
    reveal(node_in_order);
    let updated = nodes.update(at, after);
    assert(node_positions(updated) =~= node_positions(nodes));
    assert forall|address: Seq<char>| is_node_address(nodes, address) implies is_node_address(
        updated,
        address,
    ) by {
        let j = choose|j: int| 0 <= j < nodes.len() && (#[trigger] nodes[j]).address@ == address;
        assert(updated[j].address@ == address);
    }
    assert(updated[at] == after);
    assert(after.successor() == nodes[at].successor());
    assert forall|f: int|
        0 <= f < after.finger_table@.len() && (#[trigger] after.finger_table@[f]).is_set()
            implies is_node_address(updated, after.finger_table@[f].address) by {
        if f != index {
            assert(nodes[at].finger_table@[f].is_set());
        }
    }
}

/// Mending a finger keeps a settled ring settled, and makes the finger
/// point to the successor of its start. The finger is mended with what the
/// lookup of its start finds; the second finger of a node is left out
/// where the node's successor stands directly behind the node.
pub proof fn lemma_mending_keeps_ring_settled(
    nodes: Seq<ChordService>,
    at: int,
    index: nat,
    hops: nat,
    after: ChordService,
)
    requires
        settled(nodes),
        0 <= at < nodes.len(),
        index < RING_BITS,
        hops >= 255,
        spec_lookup(nodes, at, spec_finger_start(nodes[at].pos as int, index), hops) is Some,
        after.wf(),
        is_mended(
            nodes[at],
            after,
            index as int,
            spec_lookup(nodes, at, spec_finger_start(nodes[at].pos as int, index), hops)->Some_0,
        ),
        index == 1 ==> address_pos(nodes[at].successor()) != advance(nodes[at].pos as int, 1),
    ensures
        settled(nodes.update(at, after)),
        is_successor_of(
            node_positions(nodes.update(at, after)),
            after.finger_table@[index as int].key as int,
            address_pos(after.finger_table@[index as int].address),
        ),
{
    let updated = nodes.update(at, after);
    let start = spec_finger_start(nodes[at].pos as int, index);
    let found = spec_lookup(nodes, at, start, hops)->Some_0;
    lemma_lookup_mends_finger(nodes, at, index, hops);
    lemma_finger_start_is_another(nodes[at].pos as int, index);
    lemma_lookup_finds_successor(nodes, at, start, hops);
    if index <= 1 {
        lemma_first_fingers_find_successor(nodes, at, index, hops);
    }
    assert(node_in_order(nodes, at));
    lemma_mended_node_is_in_order(nodes, at, after, index as int, found);
    assert forall|i: int| 0 <= i < updated.len() implies #[trigger] node_in_order(updated, i) by {
        if i != at {
            assert(node_in_order(nodes, i));
            lemma_node_stays_in_order(nodes, at, after, i);
        }
    }
    assert(distinct_positions(updated)) by {
        assert forall|i: int, j: int| 0 <= i < j < updated.len() implies (#[trigger] updated[i]).pos
            != (#[trigger] updated[j]).pos by {
            assert(nodes[i].pos != nodes[j].pos);
        }
    }
    assert(node_positions(updated) =~= node_positions(nodes));
    lemma_node_stands_at_its_address(nodes, at);
    assert(nodes[at].finger_table.starts_at(nodes[at].pos as int));
    assert(nodes[at].finger_table@[index as int].key as int == start);
}

/// Whether the node `at` has the node before it for predecessor.
#[verifier::opaque]
pub open spec fn knows_predecessor(nodes: Seq<ChordService>, at: int) -> bool {
    &&& nodes[at].predecessor() is Some
    &&& is_predecessor_of(
        node_positions(nodes),
        nodes[at].pos as int,
        address_pos(nodes[at].predecessor()->Some_0.address),
    )
}

/// Whether every one of `nodes` has the node before it for predecessor.
pub open spec fn predecessors_settled(nodes: Seq<ChordService>) -> bool {
    forall|i: int| 0 <= i < nodes.len() ==> #[trigger] knows_predecessor(nodes, i)
}

/// A node that has the node before it for predecessor owns a position
/// exactly when it is the successor of that position.
proof fn lemma_node_owns_what_it_succeeds(nodes: Seq<ChordService>, at: int, key: int)
    requires
        0 <= at < nodes.len(),
        knows_predecessor(nodes, at),
        on_ring(key),
    ensures
        nodes[at].owns_pos(key) == is_successor_of(node_positions(nodes), key, nodes[at].pos as int),
{
    reveal(knows_predecessor);
    lemma_owner_is_successor(
        node_positions(nodes),
        key,
        nodes[at].pos as int,
        address_pos(nodes[at].predecessor()->Some_0.address),
    );
}

/// Of two nodes at different positions at most one is the successor of a
/// position.
proof fn lemma_one_successor_among(nodes: Seq<ChordService>, first: int, second: int, key: int)
    requires
        distinct_positions(nodes),
        0 <= first < nodes.len(),
        0 <= second < nodes.len(),
        first != second,
        on_ring(key),
        is_successor_of(node_positions(nodes), key, nodes[first].pos as int),
    ensures
        !is_successor_of(node_positions(nodes), key, nodes[second].pos as int),
{
    if is_successor_of(node_positions(nodes), key, nodes[second].pos as int) {
        lemma_successor_unique(
            node_positions(nodes),
            key,
            nodes[first].pos as int,
            nodes[second].pos as int,
        );
        if first < second {
            assert(nodes[first].pos != nodes[second].pos);
        } else {
            assert(nodes[second].pos != nodes[first].pos);
        }
    }
}

/// In a settled ring whose nodes know their predecessors, a lookup ends at
/// the owner of its key: the node it names owns the key, by the arc from
/// its predecessor to itself, and no other node does. This holds from
/// whatever node the lookup starts, unless the key is the position of that
/// very node.
pub proof fn lemma_lookup_finds_owner(nodes: Seq<ChordService>, at: int, key: int, hops: nat)
    requires
        settled(nodes),
        predecessors_settled(nodes),
        0 <= at < nodes.len(),
        on_ring(key),
        key != nodes[at].pos,
        hops >= clockwise(nodes[at].pos as int, key),
    ensures
        spec_lookup(nodes, at, key, hops) is Some,
        exists|j: int|
            {
                &&& 0 <= j < nodes.len()
                &&& (#[trigger] nodes[j]).address@ == spec_lookup(nodes, at, key, hops)->Some_0
                &&& nodes[j].owns_pos(key)
                &&& forall|k: int|
                    0 <= k < nodes.len() && k != j ==> !(#[trigger] nodes[k]).owns_pos(key)
            },
{
    lemma_lookup_finds_successor(nodes, at, key, hops);
    let found = spec_lookup(nodes, at, key, hops)->Some_0;
    let j = choose|j: int| 0 <= j < nodes.len() && (#[trigger] nodes[j]).address@ == found;
    assert(node_in_order(nodes, j));
    lemma_node_stands_at_its_address(nodes, j);
    assert(knows_predecessor(nodes, j));
    lemma_node_owns_what_it_succeeds(nodes, j, key);
    assert forall|k: int| 0 <= k < nodes.len() && k != j implies !(#[trigger] nodes[k]).owns_pos(
        key,
    ) by {
        assert(knows_predecessor(nodes, k));
        lemma_node_owns_what_it_succeeds(nodes, k, key);
        lemma_one_successor_among(nodes, j, k, key);
    }
}

/// The node before a node is the one whose successor the node is.
proof fn lemma_predecessor_of_successor(own: int, successor: int, before: int)
    requires
        on_ring(own),
        on_ring(successor),
        on_ring(before),
        own != successor,
        before != successor,
        clockwise(advance(own, 1), successor) <= clockwise(advance(own, 1), before),
        clockwise(before, successor) <= clockwise(own, successor),
    ensures
        before == own,
{
    lemma_clockwise_steps(advance(own, 1), successor);
    lemma_clockwise_steps(advance(own, 1), before);
    lemma_clockwise_steps(before, successor);
    lemma_clockwise_steps(own, successor);
}

/// In a settled ring the predecessor that a node's successor knows stands
/// where the node stands.
proof fn lemma_successor_knows_node(nodes: Seq<ChordService>, at: int, next: int)
    requires
        nodes.len() >= 2,
        distinct_positions(nodes),
        0 <= at < nodes.len(),
        0 <= next < nodes.len(),
        node_in_order(nodes, at),
        node_in_order(nodes, next),
        knows_predecessor(nodes, next),
        nodes[next].address@ == nodes[at].successor(),
    ensures
        nodes[next].predecessor() is Some,
        address_pos(nodes[next].predecessor()->Some_0.address) == nodes[at].pos,
        nodes[next].pos as int == address_pos(nodes[at].successor()),
        nodes[next].pos != nodes[at].pos,
{
    reveal(node_in_order);
    reveal(knows_predecessor);
    let positions = node_positions(nodes);
    let own = nodes[at].pos as int;
    let successor = nodes[next].pos as int;
    let before = address_pos(nodes[next].predecessor()->Some_0.address);
    let other = lemma_another_node(nodes, at);
    assert(clockwise(advance(own, 1), successor) <= clockwise(
        advance(own, 1),
        positions[other] as int,
    ));
    lemma_next_is_another(own, successor, nodes[other].pos as int);
    let b = choose|b: int| 0 <= b < positions.len() && #[trigger] positions[b] as int == before;
    assert(clockwise(advance(own, 1), successor) <= clockwise(
        advance(own, 1),
        positions[b] as int,
    ));
    assert(positions[at] as int == own);
    assert(clockwise(before, successor) <= clockwise(positions[at] as int, successor));
    lemma_predecessor_of_successor(own, successor, before);
}

/// A node does not take for successor a node that stands where it stands
/// itself, and is not taken for predecessor by a node whose predecessor
/// stands there already.
proof fn lemma_same_position_is_quiet(own: int, successor: int)
    requires
        on_ring(own),
        on_ring(successor),
        own != successor,
    ensures
        !between(own, advance(own, 1), successor, false, true),
{
}

/// A settled ring whose nodes know their predecessors stays as it is when
/// a node stabilizes: the node does not take the predecessor that its
/// successor reports for a new successor, and the successor, when
/// notified, does not take the node for a new predecessor.
pub proof fn lemma_settled_ring_is_quiet(nodes: Seq<ChordService>, at: int, next: int)
    requires
        settled(nodes),
        predecessors_settled(nodes),
        0 <= at < nodes.len(),
        0 <= next < nodes.len(),
        nodes[next].address@ == nodes[at].successor(),
    ensures
        nodes[next].predecessor() is Some,
        !spec_adopts(
            nodes[at].pos as int,
            nodes[at].successor(),
            Some(nodes[next].predecessor()->Some_0.address),
        ),
        !notify_accepts(nodes[next].predecessor(), nodes[next].pos as int, nodes[at].address@),
{
    assert(node_in_order(nodes, at));
    assert(node_in_order(nodes, next));
    assert(knows_predecessor(nodes, next));
    lemma_successor_knows_node(nodes, at, next);
    lemma_node_stands_at_its_address(nodes, at);
    lemma_same_position_is_quiet(nodes[at].pos as int, nodes[next].pos as int);
}

} // verus!
