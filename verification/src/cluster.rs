//! The ring as a whole: which node is responsible for which position, and
//! the validation of the routing state of a set of nodes.

use crate::chord::NodeSummary;
use crate::crypto::{address_pos, hash_address};
use crate::ring::{advance, between, clockwise, lemma_clockwise_steps, on_ring, HashPos};
use crate::types::Address;
use vstd::prelude::*;

verus! {

/// Whether a node stands at `p`.
pub open spec fn is_member(nodes: Seq<HashPos>, p: int) -> bool {
    exists|i: int| 0 <= i < nodes.len() && #[trigger] nodes[i] as int == p
}

/// Whether `node` is the successor of `key` among `nodes`: the node that
/// walking clockwise from `key` meets first.
pub open spec fn is_successor_of(nodes: Seq<HashPos>, key: int, node: int) -> bool {
    &&& is_member(nodes, node)
    &&& forall|i: int|
        0 <= i < nodes.len() ==> clockwise(key, node) <= clockwise(key, #[trigger] nodes[i] as int)
}

/// Whether `before` is the node that walking counterclockwise from the
/// position `node` meets first, a node at that very position left aside.
pub open spec fn is_nearest_before(nodes: Seq<HashPos>, node: int, before: int) -> bool {
    &&& is_member(nodes, before)
    &&& before != node
    &&& forall|i: int|
        0 <= i < nodes.len() && #[trigger] nodes[i] as int != node ==> clockwise(before, node)
            <= clockwise(nodes[i] as int, node)
}

/// Whether `before` is the predecessor of `node` among `nodes`: the other
/// node that walking counterclockwise from `node` meets first.
pub open spec fn is_predecessor_of(nodes: Seq<HashPos>, node: int, before: int) -> bool {
    &&& is_member(nodes, node)
    &&& is_nearest_before(nodes, node, before)
}

/// The positions at which the nodes of `summaries` stand.
pub open spec fn positions(summaries: Seq<NodeSummary>) -> Seq<HashPos> {
    Seq::new(summaries.len(), |i: int| summaries[i].pos)
}

/// Whether every finger of every node of `summaries` points to the node
/// that is responsible for the start of the finger.
pub open spec fn fingers_point_to_owners(summaries: Seq<NodeSummary>) -> bool {
    forall|i: int, j: int|
        0 <= i < summaries.len() && 0 <= j < summaries[i].finger_entries@.len()
            ==> is_successor_of(
            positions(summaries),
            (#[trigger] summaries[i].finger_entries@[j]).key as int,
            address_pos(summaries[i].finger_entries@[j].address@),
        )
}

/// The node that is responsible for `key`: the nearest node at or behind
/// `key`, which is the lowest node if none stands at or above it.
pub fn get_responsible_node_for_key(key: HashPos, other_nodes: &Vec<HashPos>) -> (node: HashPos)
    requires
        other_nodes@.len() > 0,
    ensures
        is_successor_of(other_nodes@, key as int, node as int),
{
    let mut lowest: HashPos = other_nodes[0];
    let mut above: Option<HashPos> = None;
    let mut i: usize = 0;
    while i < other_nodes.len()
        invariant
            i <= other_nodes@.len(),
            other_nodes@.len() > 0,
            is_member(other_nodes@, lowest as int),
            forall|j: int| 0 <= j < i ==> lowest <= #[trigger] other_nodes@[j],
            match above {
                Some(a) => {
                    &&& is_member(other_nodes@, a as int)
                    &&& key <= a
                    &&& forall|j: int|
                        0 <= j < i && key <= #[trigger] other_nodes@[j] ==> a <= other_nodes@[j]
                },
                None => forall|j: int| 0 <= j < i ==> #[trigger] other_nodes@[j] < key,
            },
        decreases other_nodes@.len() - i,
    {
        let node: HashPos = other_nodes[i];
        if node < lowest {
            lowest = node;
        }
        if key <= node {
            above = match above {
                Some(a) => if node < a {
                    Some(node)
                } else {
                    Some(a)
                },
                None => Some(node),
            };
        }
        i = i + 1;
    }
    match above {
        Some(a) => a,
        None => lowest,
    }
}

/// The address of the node that stands at `key`.
pub fn get_node_address_for_key(key: &HashPos, node_summaries: &Vec<NodeSummary>) -> (address:
    Address)
    requires
        is_member(positions(node_summaries@), *key as int),
    ensures
        exists|i: int|
            {
                &&& 0 <= i < node_summaries@.len()
                &&& (#[trigger] node_summaries@[i]).pos == *key
                &&& address@ == node_summaries@[i].url@
                &&& forall|j: int| 0 <= j < i ==> (#[trigger] node_summaries@[j]).pos != *key
            },
{
    let mut i: usize = 0;
    while i < node_summaries.len()
        invariant
            i <= node_summaries@.len(),
            is_member(positions(node_summaries@), *key as int),
            forall|j: int| 0 <= j < i ==> (#[trigger] node_summaries@[j]).pos != *key,
        decreases node_summaries@.len() - i,
    {
        if node_summaries[i].pos == *key {
            return node_summaries[i].url.clone();
        }
        i = i + 1;
    }
    proof {
        let w = choose|w: int|
            0 <= w < positions(node_summaries@).len() && #[trigger] positions(
                node_summaries@,
            )[w] as int == *key as int;
        assert(node_summaries@[w].pos == *key);
    }
    String::new()
}

/// Whether the routing state of a set of nodes is in order: every finger
/// of every node points to the node that is responsible for its start.
pub fn validate_fingers(node_summaries: &Vec<NodeSummary>) -> (valid: bool)
    ensures
        valid == fingers_point_to_owners(node_summaries@),
{
    let node_ids = node_ids(node_summaries);
    let mut i: usize = 0;
    while i < node_summaries.len()
        invariant
            i <= node_summaries@.len(),
            node_ids@ == positions(node_summaries@),
            forall|a: int, b: int|
                0 <= a < i && 0 <= b < node_summaries@[a].finger_entries@.len()
                    ==> is_successor_of(
                    node_ids@,
                    (#[trigger] node_summaries@[a].finger_entries@[b]).key as int,
                    address_pos(node_summaries@[a].finger_entries@[b].address@),
                ),
        decreases node_summaries@.len() - i,
    {
        let fingers = &node_summaries[i].finger_entries;
        let mut j: usize = 0;
        while j < fingers.len()
            invariant
                j <= fingers@.len(),
                i < node_summaries@.len(),
                *fingers == node_summaries@[i as int].finger_entries,
                node_ids@ == positions(node_summaries@),
                node_ids@.len() > 0,
                forall|b: int|
                    0 <= b < j ==> is_successor_of(
                        node_ids@,
                        (#[trigger] fingers@[b]).key as int,
                        address_pos(fingers@[b].address@),
                    ),
            decreases fingers@.len() - j,
        {
            let pointed_to: HashPos = hash_address(&fingers[j].address);
            let responsible: HashPos = get_responsible_node_for_key(fingers[j].key, &node_ids);
            if pointed_to != responsible {
                proof {
                    if is_successor_of(
                        node_ids@,
                        fingers@[j as int].key as int,
                        pointed_to as int,
                    ) {
                        lemma_successor_unique(
                            node_ids@,
                            fingers@[j as int].key as int,
                            pointed_to as int,
                            responsible as int,
                        );
                    }
                    assert(!is_successor_of(
                        positions(node_summaries@),
                        node_summaries@[i as int].finger_entries@[j as int].key as int,
                        address_pos(node_summaries@[i as int].finger_entries@[j as int].address@),
                    ));
                }
                return false;
            }
            j = j + 1;
        }
        i = i + 1;
    }
    true
}

/// Whether `before` is what a node at `node` should have for predecessor:
/// the node before it, or itself where it is alone.
pub open spec fn is_expected_predecessor(nodes: Seq<HashPos>, node: int, before: int) -> bool {
    if exists|i: int| 0 <= i < nodes.len() && #[trigger] nodes[i] as int != node {
        is_nearest_before(nodes, node, before)
    } else {
        before == node
    }
}

/// Whether every node of `summaries` has the node before it for
/// predecessor, named at its position.
pub open spec fn predecessors_are_right(summaries: Seq<NodeSummary>) -> bool {
    forall|i: int|
        0 <= i < summaries.len() ==> {
            &&& (#[trigger] summaries[i]).predecessor is Some
            &&& is_expected_predecessor(
                positions(summaries),
                summaries[i].pos as int,
                summaries[i].predecessor->Some_0.key as int,
            )
        }
}

/// The successor of `key` among `nodes`.
pub open spec fn spec_successor(nodes: Seq<HashPos>, key: int) -> int {
    choose|node: int| #[trigger] is_successor_of(nodes, key, node)
}

/// The position of the node that stands `count` nodes behind `pos`.
pub open spec fn nth_next(nodes: Seq<HashPos>, pos: int, count: nat) -> int
    decreases count,
{
    if count == 0 {
        pos
    } else {
        spec_successor(nodes, advance(nth_next(nodes, pos, (count - 1) as nat), 1))
    }
}

/// The address of the first node of `summaries` that stands at `pos`.
pub open spec fn url_at(summaries: Seq<NodeSummary>, pos: int) -> Seq<char> {
    summaries[choose|i: int|
        {
            &&& 0 <= i < summaries.len()
            &&& (#[trigger] summaries[i]).pos as int == pos
            &&& forall|j: int| 0 <= j < i ==> (#[trigger] summaries[j]).pos as int != pos
        }].url@
}

/// Whether the successor list of every node of `summaries` names the
/// nodes behind it, in the order of the ring.
pub open spec fn successor_lists_are_right(summaries: Seq<NodeSummary>) -> bool {
    forall|i: int, j: int|
        0 <= i < summaries.len() && 0 <= j < summaries[i].successor_list.successors@.len() ==> (
        #[trigger] summaries[i].successor_list.successors@[j])@ == url_at(
            summaries,
            nth_next(positions(summaries), summaries[i].pos as int, (j + 1) as nat),
        )
}

/// The positions at which the nodes of `node_summaries` stand.
fn node_ids(node_summaries: &Vec<NodeSummary>) -> (ids: Vec<HashPos>)
    ensures
        ids@ == positions(node_summaries@),
{
    let mut ids: Vec<HashPos> = Vec::new();
    let mut n: usize = 0;
    while n < node_summaries.len()
        invariant
            n <= node_summaries@.len(),
            ids@.len() == n,
            forall|j: int| 0 <= j < n ==> #[trigger] ids@[j] == node_summaries@[j].pos,
        decreases node_summaries@.len() - n,
    {
        ids.push(node_summaries[n].pos);
        n = n + 1;
    }
    assert(ids@ =~= positions(node_summaries@));
    ids
}

/// The node that a node at `node` should have for predecessor: the
/// nearest other node before it, or itself where it is alone.
pub fn get_preceding_node_for_key(node: HashPos, other_nodes: &Vec<HashPos>) -> (before: HashPos)
    ensures
        is_expected_predecessor(other_nodes@, node as int, before as int),
{
    let mut best: Option<HashPos> = None;
    let mut i: usize = 0;
    while i < other_nodes.len()
        invariant
            i <= other_nodes@.len(),
            match best {
                Some(b) => {
                    &&& b != node
                    &&& is_member(other_nodes@, b as int)
                    &&& forall|j: int|
                        0 <= j < i && #[trigger] other_nodes@[j] as int != node as int
                            ==> clockwise(b as int, node as int) <= clockwise(
                            other_nodes@[j] as int,
                            node as int,
                        )
                },
                None => forall|j: int| 0 <= j < i ==> #[trigger] other_nodes@[j] == node,
            },
        decreases other_nodes@.len() - i,
    {
        let other: HashPos = other_nodes[i];
        if other != node {
            let steps: HashPos = node.wrapping_sub(other);
            proof {
                lemma_clockwise_steps(other as int, node as int);
            }
            best = match best {
                Some(b) => {
                    proof {
                        lemma_clockwise_steps(b as int, node as int);
                    }
                    if steps < node.wrapping_sub(b) {
                        Some(other)
                    } else {
                        Some(b)
                    }
                },
                None => Some(other),
            };
        }
        i = i + 1;
    }
    match best {
        Some(b) => {
            proof {
                let w = choose|w: int|
                    0 <= w < other_nodes@.len() && #[trigger] other_nodes@[w] as int == b as int;
                assert(other_nodes@[w] as int != node as int);
            }
            b
        },
        None => node,
    }
}

/// Whether every node has the node before it for predecessor.
pub fn validate_predecessors(node_summaries: &Vec<NodeSummary>) -> (valid: bool)
    ensures
        valid == predecessors_are_right(node_summaries@),
{
    let ids = node_ids(node_summaries);
    let mut i: usize = 0;
    while i < node_summaries.len()
        invariant
            i <= node_summaries@.len(),
            ids@ == positions(node_summaries@),
            forall|a: int|
                0 <= a < i ==> {
                    &&& (#[trigger] node_summaries@[a]).predecessor is Some
                    &&& is_expected_predecessor(
                        ids@,
                        node_summaries@[a].pos as int,
                        node_summaries@[a].predecessor->Some_0.key as int,
                    )
                },
        decreases node_summaries@.len() - i,
    {
        let expected: HashPos = get_preceding_node_for_key(node_summaries[i].pos, &ids);
        match &node_summaries[i].predecessor {
            Some(before) => {
                if before.key != expected {
                    proof {
                        if is_expected_predecessor(
                            ids@,
                            node_summaries@[i as int].pos as int,
                            before.key as int,
                        ) {
                            lemma_expected_predecessor_unique(
                                ids@,
                                node_summaries@[i as int].pos as int,
                                expected as int,
                                before.key as int,
                            );
                        }
                        assert(!is_expected_predecessor(
                            positions(node_summaries@),
                            node_summaries@[i as int].pos as int,
                            node_summaries@[i as int].predecessor->Some_0.key as int,
                        ));
                    }
                    return false;
                }
            },
            None => {
                assert(node_summaries@[i as int].predecessor is None);
                return false;
            },
        }
        i = i + 1;
    }
    true
}

/// Whether the successor list of every node names the nodes behind it, in
/// the order of the ring.
pub fn validate_successor_lists(node_summaries: &Vec<NodeSummary>) -> (valid: bool)
    ensures
        valid == successor_lists_are_right(node_summaries@),
{
    let ids = node_ids(node_summaries);
    let mut i: usize = 0;
    while i < node_summaries.len()
        invariant
            i <= node_summaries@.len(),
            ids@ == positions(node_summaries@),
            forall|a: int, b: int|
                0 <= a < i && 0 <= b < node_summaries@[a].successor_list.successors@.len() ==> (
                #[trigger] node_summaries@[a].successor_list.successors@[b])@ == url_at(
                    node_summaries@,
                    nth_next(ids@, node_summaries@[a].pos as int, (b + 1) as nat),
                ),
        decreases node_summaries@.len() - i,
    {
        let successors = &node_summaries[i].successor_list.successors;
        let mut current: HashPos = node_summaries[i].pos;
        let mut j: usize = 0;
        while j < successors.len()
            invariant
                j <= successors@.len(),
                i < node_summaries@.len(),
                *successors == node_summaries@[i as int].successor_list.successors,
                ids@ == positions(node_summaries@),
                ids@.len() > 0,
                current as int == nth_next(ids@, node_summaries@[i as int].pos as int, j as nat),
                forall|b: int|
                    0 <= b < j ==> (#[trigger] successors@[b])@ == url_at(
                        node_summaries@,
                        nth_next(ids@, node_summaries@[i as int].pos as int, (b + 1) as nat),
                    ),
            decreases successors@.len() - j,
        {
            let next: HashPos = get_responsible_node_for_key(current.wrapping_add(1), &ids);
            proof {
                let behind = advance(current as int, 1);
                let chosen = spec_successor(ids@, behind);
                lemma_member_is_on_ring(ids@, chosen);
                lemma_successor_unique(ids@, behind, next as int, chosen);
                assert(next as int == nth_next(
                    ids@,
                    node_summaries@[i as int].pos as int,
                    (j + 1) as nat,
                ));
            }
            let expected = get_node_address_for_key(&next, node_summaries);
            proof {
                lemma_url_at(node_summaries@, next as int, expected@);
            }
            if successors[j] != expected {
                assert(successors@[j as int]@ != url_at(
                    node_summaries@,
                    nth_next(
                        positions(node_summaries@),
                        node_summaries@[i as int].pos as int,
                        (j + 1) as nat,
                    ),
                ));
                return false;
            }
            current = next;
            j = j + 1;
        }
        i = i + 1;
    }
    true
}

/// Whether the routing state of a set of nodes is in order: every node
/// has the node before it for predecessor, every finger points to the node
/// that is responsible for its start, and every successor list names the
/// nodes behind its owner.
pub fn validate_cluster(node_summaries: &Vec<NodeSummary>) -> (valid: bool)
    ensures
        valid == (predecessors_are_right(node_summaries@) && fingers_point_to_owners(
            node_summaries@,
        ) && successor_lists_are_right(node_summaries@)),
{
    let predecessors = validate_predecessors(node_summaries);
    let fingers = validate_fingers(node_summaries);
    let successor_lists = validate_successor_lists(node_summaries);
    predecessors && fingers && successor_lists
}

/// A node stands on the ring.
proof fn lemma_member_is_on_ring(nodes: Seq<HashPos>, node: int)
    requires
        is_member(nodes, node),
    ensures
        on_ring(node),
{
    let i = choose|i: int| 0 <= i < nodes.len() && #[trigger] nodes[i] as int == node;
    assert(nodes[i] as int == node);
}

/// The address that was found at a position by going through the nodes in
/// order is the address of the first node there.
proof fn lemma_url_at(summaries: Seq<NodeSummary>, pos: int, url: Seq<char>)
    requires
        exists|i: int|
            {
                &&& 0 <= i < summaries.len()
                &&& (#[trigger] summaries[i]).pos as int == pos
                &&& url == summaries[i].url@
                &&& forall|j: int| 0 <= j < i ==> (#[trigger] summaries[j]).pos as int != pos
            },
    ensures
        url == url_at(summaries, pos),
{
    let i = choose|i: int|
        {
            &&& 0 <= i < summaries.len()
            &&& (#[trigger] summaries[i]).pos as int == pos
            &&& url == summaries[i].url@
            &&& forall|j: int| 0 <= j < i ==> (#[trigger] summaries[j]).pos as int != pos
        };
    let c = choose|c: int|
        {
            &&& 0 <= c < summaries.len()
            &&& (#[trigger] summaries[c]).pos as int == pos
            &&& forall|j: int| 0 <= j < c ==> (#[trigger] summaries[j]).pos as int != pos
        };
    if c < i {
        assert(summaries[c].pos as int != pos);
    } else if i < c {
        assert(summaries[i].pos as int != pos);
    }
}

/// A node has at most one node that it should have for predecessor.
proof fn lemma_expected_predecessor_unique(nodes: Seq<HashPos>, node: int, first: int, second: int)
    requires
        on_ring(node),
        on_ring(first),
        on_ring(second),
        is_expected_predecessor(nodes, node, first),
        is_expected_predecessor(nodes, node, second),
    ensures
        first == second,
{
    if exists|i: int| 0 <= i < nodes.len() && #[trigger] nodes[i] as int != node {
        let a = choose|i: int| 0 <= i < nodes.len() && #[trigger] nodes[i] as int == first;
        let b = choose|i: int| 0 <= i < nodes.len() && #[trigger] nodes[i] as int == second;
        assert(clockwise(first, node) <= clockwise(nodes[b] as int, node));
        assert(clockwise(second, node) <= clockwise(nodes[a] as int, node));
        lemma_clockwise_steps(first, node);
        lemma_clockwise_steps(second, node);
    }
}

/// A position has at most one successor among the nodes.
pub proof fn lemma_successor_unique(nodes: Seq<HashPos>, key: int, first: int, second: int)
    requires
        on_ring(key),
        on_ring(first),
        on_ring(second),
        is_successor_of(nodes, key, first),
        is_successor_of(nodes, key, second),
    ensures
        first == second,
{
    let i = choose|i: int| 0 <= i < nodes.len() && #[trigger] nodes[i] as int == first;
    let j = choose|j: int| 0 <= j < nodes.len() && #[trigger] nodes[j] as int == second;
    assert(clockwise(key, second) <= clockwise(key, nodes[i] as int));
    assert(clockwise(key, first) <= clockwise(key, nodes[j] as int));
}

/// Among the first `count` nodes one is nearest to `key` clockwise.
proof fn lemma_nearest_among(nodes: Seq<HashPos>, key: int, count: int) -> (best: int)
    requires
        0 < count <= nodes.len(),
    ensures
        0 <= best < count,
        forall|i: int|
            0 <= i < count ==> clockwise(key, nodes[best] as int) <= clockwise(
                key,
                #[trigger] nodes[i] as int,
            ),
    decreases count,
{
    if count == 1 {
        0
    } else {
        let before = lemma_nearest_among(nodes, key, count - 1);
        if clockwise(key, nodes[count - 1] as int) < clockwise(key, nodes[before] as int) {
            count - 1
        } else {
            before
        }
    }
}

/// Every position has a successor where there is a node at all.
pub proof fn lemma_successor_exists(nodes: Seq<HashPos>, key: int)
    requires
        nodes.len() > 0,
    ensures
        exists|node: int| is_successor_of(nodes, key, node),
{
    let best = lemma_nearest_among(nodes, key, nodes.len() as int);
    assert(is_successor_of(nodes, key, nodes[best] as int));
}

/// A node that owns a position is at least as near to it as any other
/// node that is no nearer to the owner than the owner's predecessor.
proof fn lemma_owner_is_nearest(key: int, before: int, node: int, other: int)
    requires
        on_ring(key),
        on_ring(before),
        on_ring(node),
        on_ring(other),
        before != node,
        other != node,
        between(key, before, node, true, false),
        clockwise(before, node) <= clockwise(other, node),
    ensures
        clockwise(key, node) <= clockwise(key, other),
{
    lemma_clockwise_steps(before, node);
    lemma_clockwise_steps(other, node);
    lemma_clockwise_steps(key, node);
    lemma_clockwise_steps(key, other);
}

/// The predecessor of a node is nearer to a position that the node does
/// not own than the node is.
proof fn lemma_predecessor_is_nearer(key: int, before: int, node: int)
    requires
        on_ring(key),
        on_ring(before),
        on_ring(node),
        before != node,
        !between(key, before, node, true, false),
    ensures
        clockwise(key, before) < clockwise(key, node),
{
    lemma_clockwise_steps(key, before);
    lemma_clockwise_steps(key, node);
}

/// A node owns a position, by the arc from its predecessor to itself,
/// exactly when it is the successor of that position.
pub proof fn lemma_owner_is_successor(nodes: Seq<HashPos>, key: int, node: int, before: int)
    requires
        on_ring(key),
        is_predecessor_of(nodes, node, before),
    ensures
        between(key, before, node, true, false) == is_successor_of(nodes, key, node),
{
    let b = choose|i: int| 0 <= i < nodes.len() && #[trigger] nodes[i] as int == before;
    if between(key, before, node, true, false) {
        assert forall|i: int| 0 <= i < nodes.len() implies clockwise(key, node) <= clockwise(
            key,
            #[trigger] nodes[i] as int,
        ) by {
            if nodes[i] as int != node {
                lemma_owner_is_nearest(key, before, node, nodes[i] as int);
            }
        }
    } else {
        lemma_predecessor_is_nearer(key, before, node);
        assert(clockwise(key, nodes[b] as int) < clockwise(key, node));
    }
}

/// Among the first `count` nodes one that stands elsewhere than `node` is
/// nearest to it, walking counterclockwise.
proof fn lemma_nearest_before(nodes: Seq<HashPos>, node: int, count: int) -> (best: int)
    requires
        0 < count <= nodes.len(),
        exists|i: int| 0 <= i < count && #[trigger] nodes[i] as int != node,
    ensures
        0 <= best < count,
        nodes[best] as int != node,
        forall|i: int|
            0 <= i < count && #[trigger] nodes[i] as int != node ==> clockwise(
                nodes[best] as int,
                node,
            ) <= clockwise(nodes[i] as int, node),
    decreases count,
{
    let last = count - 1;
    if exists|i: int| 0 <= i < last && #[trigger] nodes[i] as int != node {
        let before = lemma_nearest_before(nodes, node, last);
        if nodes[last] as int != node && clockwise(nodes[last] as int, node) < clockwise(
            nodes[before] as int,
            node,
        ) {
            last
        } else {
            before
        }
    } else {
        let w = choose|i: int| 0 <= i < count && #[trigger] nodes[i] as int != node;
        assert(w == last);
        last
    }
}

/// On a ring of two nodes or more, every position has an owner: a node
/// that has it on the arc from its predecessor to itself.
pub proof fn lemma_owner_exists(nodes: Seq<HashPos>, key: int)
    requires
        on_ring(key),
        exists|i: int, j: int|
            0 <= i < nodes.len() && 0 <= j < nodes.len() && #[trigger] nodes[i] != #[trigger] nodes[j],
    ensures
        exists|node: int, before: int|
            #[trigger] is_predecessor_of(nodes, node, before) && between(
                key,
                before,
                node,
                true,
                false,
            ),
{
    let (i, j) = choose|i: int, j: int|
        0 <= i < nodes.len() && 0 <= j < nodes.len() && #[trigger] nodes[i] != #[trigger] nodes[j];
    let nearest = lemma_nearest_among(nodes, key, nodes.len() as int);
    let node = nodes[nearest] as int;
    assert(is_successor_of(nodes, key, node));
    assert(exists|w: int| 0 <= w < nodes.len() && #[trigger] nodes[w] as int != node) by {
        if nodes[i] as int != node {
            assert(nodes[i] as int != node);
        } else {
            assert(nodes[j] as int != node);
        }
    }
    let b = lemma_nearest_before(nodes, node, nodes.len() as int);
    let before = nodes[b] as int;
    assert(is_predecessor_of(nodes, node, before));
    lemma_owner_is_successor(nodes, key, node, before);
}

/// On a ring of two nodes or more, every position is owned by exactly one
/// node: the arcs that lead from each node's predecessor to the node part
/// the ring among the nodes.
pub proof fn lemma_one_owner(
    nodes: Seq<HashPos>,
    key: int,
    first: int,
    first_before: int,
    second: int,
    second_before: int,
)
    requires
        on_ring(key),
        is_predecessor_of(nodes, first, first_before),
        is_predecessor_of(nodes, second, second_before),
        between(key, first_before, first, true, false),
        between(key, second_before, second, true, false),
    ensures
        first == second,
        first_before == second_before,
{
    lemma_owner_is_successor(nodes, key, first, first_before);
    lemma_owner_is_successor(nodes, key, second, second_before);
    let i = choose|i: int| 0 <= i < nodes.len() && #[trigger] nodes[i] as int == first;
    let j = choose|i: int| 0 <= i < nodes.len() && #[trigger] nodes[i] as int == second;
    lemma_successor_unique(nodes, key, first, second);
    let a = choose|i: int| 0 <= i < nodes.len() && #[trigger] nodes[i] as int == first_before;
    let b = choose|i: int| 0 <= i < nodes.len() && #[trigger] nodes[i] as int == second_before;
    assert(clockwise(first_before, first) <= clockwise(nodes[b] as int, first));
    assert(clockwise(second_before, second) <= clockwise(nodes[a] as int, second));
}

} // verus!
