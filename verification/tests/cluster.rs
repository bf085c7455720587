use chord::chord::{
    fallback_step, process_node_join, ChordService, FallbackStep, LookupStep, NodeSummary,
    RequestError,
};
use chord::cluster::{
    get_node_address_for_key, get_preceding_node_for_key, get_responsible_node_for_key,
    validate_cluster, validate_fingers, validate_predecessors, validate_successor_lists,
};
use chord::crypto::{hash_address, hash_key};
use chord::finger_table::FingerEntry;
use chord::successor_list::SuccessorList;

/// Nodes that call one another within one process.
struct Net {
    nodes: Vec<ChordService>,
    alive: Vec<bool>,
}

/// Addresses on successive ports from 5601 on, as many as `count`, at
/// positions that are neither equal nor next to one another.
fn net_addresses(count: usize) -> Vec<String> {
    let mut addresses: Vec<String> = Vec::new();
    let mut port = 5601;
    while addresses.len() < count {
        let address = format!("127.0.0.1:{}", port);
        let pos = hash_address(&address);
        let apart = addresses.iter().all(|other| {
            let other_pos = hash_address(other);
            pos.wrapping_sub(other_pos) > 1 && other_pos.wrapping_sub(pos) > 1
        });
        if apart {
            addresses.push(address);
        }
        port += 1;
    }
    addresses
}

/// A key whose position is `pos`.
fn net_key_at(pos: u8) -> [u8; 32] {
    for i in 0..=u16::MAX {
        let mut key = [0xa5u8; 32];
        key[0] = (i / 256) as u8;
        key[1] = (i % 256) as u8;
        if hash_key(&key) == pos {
            return key;
        }
    }
    panic!("no key at {}", pos);
}

impl Net {
    fn new() -> Net {
        Net { nodes: Vec::new(), alive: Vec::new() }
    }

    fn index_of(&self, address: &str) -> Option<usize> {
        self.nodes.iter().position(|node| node.address == address)
    }

    fn reachable(&self, address: &str) -> Option<usize> {
        self.index_of(address).filter(|i| self.alive[*i])
    }

    /// The lookup of `key` that starts at node `at`.
    fn lookup(&self, at: usize, key: u8) -> Option<String> {
        let mut at = at;
        for _ in 0..64 {
            match self.nodes[at].find_successor(key) {
                LookupStep::Found(address) => return Some(address),
                LookupStep::Forward(next) => match self.reachable(&next.address) {
                    Some(i) if i != at => at = i,
                    Some(_) => return None,
                    None => {
                        let mut attempts = 0;
                        loop {
                            match fallback_step(&self.nodes[at].predecessor_option, attempts) {
                                FallbackStep::AskPredecessor(address) => {
                                    at = self.reachable(&address)?;
                                    break;
                                }
                                FallbackStep::Retry(next_attempts) => attempts = next_attempts,
                                FallbackStep::Unavailable => return None,
                            }
                        }
                    }
                },
            }
        }
        None
    }

    fn join(&mut self, address: &str, via: Option<usize>) -> usize {
        let address = address.to_string();
        let joined = via.map(|peer| {
            let successor = self.lookup(peer, hash_address(&address)).expect("join lookup");
            let reply = self.nodes[self.reachable(&successor).unwrap()].get_successor_list();
            (successor, reply)
        });
        self.nodes.push(process_node_join(&address, joined));
        self.alive.push(true);
        self.nodes.len() - 1
    }

    fn stabilize(&mut self, i: usize) {
        let alive = self.alive.clone();
        let nodes = &self.nodes;
        let live = nodes[i].successor_list.first_live(|address: &String| {
            nodes.iter().position(|node| &node.address == address).map_or(false, |j| alive[j])
        });
        let Some(current) = live else { return };
        let reported = self.nodes[self.index_of(&current).unwrap()].get_predecessor();
        let target = self.nodes[i].stabilize(&current, &reported);
        let Some(t) = self.reachable(&target) else { return };
        let own = self.nodes[i].address.clone();
        let pairs = self.nodes[t].notify(&own);
        self.nodes[i].handoff(&pairs);
    }

    fn fix_fingers(&mut self, i: usize) {
        let (index, start) = self.nodes[i].next_finger();
        if let Some(found) = self.lookup(i, start) {
            self.nodes[i].fix_fingers(index, &found);
        }
    }

    fn check_predecessor(&mut self, i: usize) {
        if let Some(predecessor) = self.nodes[i].get_predecessor() {
            if self.reachable(&predecessor).is_none() {
                self.nodes[i].unset_predecessor();
            }
        }
    }

    fn check_successor_list(&mut self, i: usize) {
        let list = self.nodes[i].get_successor_list();
        let reply = list
            .successors
            .iter()
            .find_map(|address| self.reachable(address))
            .map(|j| self.nodes[j].get_successor_list());
        self.nodes[i].check_successor_list(reply);
    }

    /// One round of every periodic task on every live node.
    fn round(&mut self) {
        for i in 0..self.nodes.len() {
            if !self.alive[i] {
                continue;
            }
            self.check_predecessor(i);
            self.check_successor_list(i);
            self.stabilize(i);
            for _ in 0..8 {
                self.fix_fingers(i);
            }
        }
    }

    fn rounds(&mut self, count: usize) {
        for _ in 0..count {
            self.round();
        }
    }

    /// The live nodes in the order of the ring.
    fn ring(&self) -> Vec<usize> {
        let mut ring: Vec<usize> = (0..self.nodes.len()).filter(|i| self.alive[*i]).collect();
        ring.sort_by_key(|i| self.nodes[*i].pos);
        ring
    }

    fn summaries(&self) -> Vec<NodeSummary> {
        self.ring().iter().map(|i| self.nodes[*i].get_node_summary()).collect()
    }

    /// Whether every live node has its neighbours on the ring for
    /// predecessor and successor.
    fn assert_converged(&self) {
        let ring = self.ring();
        for (at, i) in ring.iter().enumerate() {
            let node = &self.nodes[*i];
            let next = &self.nodes[ring[(at + 1) % ring.len()]];
            let previous = &self.nodes[ring[(at + ring.len() - 1) % ring.len()]];
            assert_eq!(node.successor_list.successors[0], next.address, "successor of {}", node.address);
            assert_eq!(node.finger_table.fingers[0].address, next.address, "finger 0 of {}", node.address);
            assert_eq!(
                node.predecessor_option.as_ref().map(|p| p.address.clone()),
                Some(previous.address.clone()),
                "predecessor of {}",
                node.address
            );
        }
    }

    /// The node that owns `key` by the arcs of the live nodes.
    fn owner_of(&self, key: u8) -> usize {
        let ring = self.ring();
        let positions: Vec<u8> = ring.iter().map(|i| self.nodes[*i].pos).collect();
        let responsible = get_responsible_node_for_key(key, &positions);
        ring[positions.iter().position(|p| *p == responsible).unwrap()]
    }

    fn put(&mut self, entry: usize, key: &[u8; 32], value: &[u8]) -> Result<(), RequestError> {
        let owner = self.lookup(entry, hash_key(key)).expect("put lookup");
        let i = self.reachable(&owner).expect("owner alive");
        self.nodes[i].put(key, &value.to_vec(), 0, 1)
    }

    fn get(&self, entry: usize, key: &[u8; 32]) -> Result<Option<Vec<u8>>, RequestError> {
        let owner = self.lookup(entry, hash_key(key)).expect("get lookup");
        self.nodes[self.reachable(&owner).expect("owner alive")].get(key)
    }
}

/// A ring of `count` nodes that joined one after the other, each through
/// the node before it, and stabilized.
fn net_of(count: usize) -> Net {
    let mut net = Net::new();
    for (i, address) in net_addresses(count).iter().enumerate() {
        let via = if i == 0 { None } else { Some(i - 1) };
        net.join(address, via);
        net.rounds(3);
    }
    net.rounds(3);
    net
}

#[test]
fn two_node_join() {
    let addresses = net_addresses(2);
    let mut net = Net::new();
    let a = net.join(&addresses[0], None);
    let b = net.join(&addresses[1], Some(a));
    assert_eq!(net.nodes[b].successor_list.successors[0], addresses[0]);
    assert_eq!(net.nodes[b].finger_table.fingers[0].address, addresses[0]);
    net.rounds(5);
    let summary_a = net.nodes[a].get_node_summary();
    let summary_b = net.nodes[b].get_node_summary();
    assert_eq!(summary_a.predecessor.unwrap().address, addresses[1]);
    assert_eq!(summary_b.predecessor.unwrap().address, addresses[0]);
    assert_eq!(summary_a.successor_list.successors[0], addresses[1]);
    assert_eq!(summary_b.successor_list.successors[0], addresses[0]);
}

#[test]
fn routing_correctness_of_eight_nodes() {
    let net = net_of(8);
    net.assert_converged();
    let summaries = net.summaries();
    assert!(validate_fingers(&summaries));
    assert!(validate_predecessors(&summaries));
    assert!(validate_successor_lists(&summaries));
    assert!(validate_cluster(&summaries));
    let positions: Vec<u8> = summaries.iter().map(|s| s.pos).collect();
    for summary in &summaries {
        assert_eq!(summary.finger_entries.len(), 8);
        for finger in &summary.finger_entries {
            let owner = get_responsible_node_for_key(finger.key, &positions);
            assert_eq!(hash_address(&finger.address), owner);
            assert_eq!(finger.address, get_node_address_for_key(&owner, &summaries));
        }
    }
    // The successor lists name the next nodes of the ring, in order.
    for (at, summary) in summaries.iter().enumerate() {
        assert_eq!(summary.successor_list.successors.len(), 3);
        for (j, successor) in summary.successor_list.successors.iter().enumerate() {
            assert_eq!(*successor, summaries[(at + j + 1) % summaries.len()].url);
        }
    }
}

#[test]
fn validate_fingers_sees_a_wrong_finger() {
    let mut net = net_of(4);
    assert!(validate_fingers(&net.summaries()));
    let own = net.nodes[0].address.clone();
    net.nodes[0].finger_table.set_finger(3, own);
    assert!(!validate_fingers(&net.summaries()));
}

#[test]
fn lookup_from_any_node_finds_the_owner() {
    let net = net_of(8);
    for entry in 0..8 {
        for key in 0..=255u8 {
            if key == net.nodes[entry].pos {
                continue;
            }
            let owner = net.owner_of(key);
            assert_eq!(net.lookup(entry, key), Some(net.nodes[owner].address.clone()));
        }
    }
}

#[test]
fn lookup_of_the_own_position_makes_no_progress() {
    let net = net_of(3);
    for entry in 0..3 {
        assert_eq!(net.lookup(entry, net.nodes[entry].pos), None);
        match net.nodes[entry].find_successor(net.nodes[entry].pos) {
            LookupStep::Forward(next) => assert_eq!(next.address, net.nodes[entry].address),
            LookupStep::Found(_) => panic!("the successor does not own the node's position"),
        }
    }
}

#[test]
fn put_then_get_from_any_node() {
    let mut net = net_of(5);
    let mut keys = Vec::new();
    for pos in (0..=255u8).step_by(7) {
        if net.nodes.iter().any(|node| node.pos == pos) {
            continue;
        }
        let key = net_key_at(pos);
        let entry = pos as usize % 5;
        assert_eq!(net.put(entry, &key, &[pos, 1, 2]), Ok(()));
        keys.push((pos, key));
    }
    for (pos, key) in &keys {
        for entry in 0..5 {
            assert_eq!(net.get(entry, key), Ok(Some(vec![*pos, 1, 2])));
        }
        // Exactly one node holds the pair: its owner.
        let owner = net.owner_of(*pos);
        for i in 0..5 {
            let held = net.nodes[i].get_kv_store_data().iter().any(|(k, _)| k == key);
            assert_eq!(held, i == owner);
        }
    }
}

#[test]
fn a_join_takes_over_the_pairs_of_its_arc() {
    let addresses = net_addresses(3);
    let mut net = Net::new();
    net.join(&addresses[0], None);
    net.join(&addresses[1], Some(0));
    net.rounds(4);
    let mut keys = Vec::new();
    for pos in (1..=255u8).step_by(5) {
        if addresses.iter().any(|address| hash_address(address) == pos) {
            continue;
        }
        let key = net_key_at(pos);
        assert_eq!(net.put(0, &key, &[pos]), Ok(()));
        keys.push((pos, key));
    }
    net.join(&addresses[2], Some(1));
    net.rounds(4);
    net.assert_converged();
    let mut moved = 0;
    for (pos, key) in &keys {
        let owner = net.owner_of(*pos);
        for i in 0..3 {
            let held = net.nodes[i].get_kv_store_data().iter().any(|(k, _)| k == key);
            assert_eq!(held, i == owner, "pair at {} on node {}", pos, i);
        }
        if owner == 2 {
            moved += 1;
        }
        assert_eq!(net.get(1, key), Ok(Some(vec![*pos])));
    }
    assert!(moved > 0);
}

#[test]
fn failover() {
    let mut net = net_of(4);
    net.assert_converged();
    let ring = net.ring();
    let killed = ring[1];
    let before = ring[0];
    let after = ring[2];
    let probe = net.nodes[killed].pos;
    assert_eq!(net.owner_of(probe), killed);
    net.alive[killed] = false;
    net.rounds(4);
    net.assert_converged();
    assert_eq!(net.nodes[before].successor_list.successors[0], net.nodes[after].address);
    assert_eq!(
        net.nodes[after].predecessor_option.as_ref().unwrap().address,
        net.nodes[before].address
    );
    for entry in net.ring() {
        assert_eq!(net.lookup(entry, probe), Some(net.nodes[after].address.clone()));
        for finger in &net.nodes[entry].finger_table.fingers {
            assert_ne!(finger.address, net.nodes[killed].address);
        }
    }
    assert!(validate_cluster(&net.summaries()));
    let key = net_key_at(probe);
    assert_eq!(net.get(before, &key), Ok(None));
    assert_eq!(net.put(before, &key, b"again"), Ok(()));
    assert_eq!(net.get(after, &key), Ok(Some(b"again".to_vec())));
}

#[test]
fn graceful_shutdown_handoff() {
    let mut net = net_of(3);
    net.assert_converged();
    let ring = net.ring();
    let (a, b, c) = (ring[0], ring[1], ring[2]);
    // Keys whose positions all fall on the arc of B.
    let mut keys = Vec::new();
    let mut pos = net.nodes[a].pos.wrapping_add(1);
    while pos != net.nodes[b].pos.wrapping_add(1) {
        let key = net_key_at(pos);
        assert_eq!(net.put(c, &key, &[pos, 9]), Ok(()));
        keys.push((pos, key));
        pos = pos.wrapping_add(1);
    }
    assert_eq!(net.nodes[b].get_kv_store_size(), keys.len());
    assert_eq!(net.nodes[c].get_kv_store_size(), 0);
    // B shuts down: it hands its pairs to its first live successor.
    let alive = net.alive.clone();
    let addresses: Vec<String> = net.nodes.iter().map(|node| node.address.clone()).collect();
    let (target, pairs) = net.nodes[b]
        .shutdown_handoff(|address: &String| {
            addresses.iter().position(|other| other == address).map_or(false, |i| alive[i])
        })
        .expect("a live successor");
    assert_eq!(target, net.nodes[c].address);
    assert_eq!(pairs.len(), keys.len());
    net.nodes[c].handoff(&pairs);
    net.alive[b] = false;
    net.rounds(4);
    net.assert_converged();
    for (pos, key) in &keys {
        assert_eq!(net.get(c, key), Ok(Some(vec![*pos, 9])));
        assert_eq!(net.get(a, key), Ok(Some(vec![*pos, 9])));
    }
}

#[test]
fn shutdown_without_a_live_successor_hands_nothing_over() {
    let mut net = net_of(2);
    let key = net_key_at(net.nodes[0].pos);
    net.put(1, &key, b"lost").unwrap();
    assert!(net.nodes[0].shutdown_handoff(|_: &String| false).is_none());
}

#[test]
fn responsible_node_is_the_next_at_or_behind_the_key() {
    let nodes = vec![200u8, 5, 90];
    assert_eq!(get_responsible_node_for_key(250, &nodes), 5);
    assert_eq!(get_responsible_node_for_key(100, &nodes), 200);
    assert_eq!(get_responsible_node_for_key(5, &nodes), 5);
    assert_eq!(get_responsible_node_for_key(6, &nodes), 90);
    assert_eq!(get_responsible_node_for_key(90, &nodes), 90);
    assert_eq!(get_responsible_node_for_key(200, &nodes), 200);
    assert_eq!(get_responsible_node_for_key(201, &nodes), 5);
    assert_eq!(get_responsible_node_for_key(0, &nodes), 5);
    assert_eq!(get_responsible_node_for_key(255, &nodes), 5);
    assert_eq!(get_responsible_node_for_key(17, &vec![33]), 33);
    assert_eq!(get_responsible_node_for_key(34, &vec![33]), 33);
    assert_eq!(get_responsible_node_for_key(7, &vec![9, 9, 3, 9]), 9);
}

#[test]
fn responsible_node_owns_the_key_by_its_arc() {
    // Two nodes at 5 and 200: the owner by the arc test is the node that
    // is responsible.
    let nodes = vec![5u8, 200];
    for key in 0..=255u8 {
        let responsible = get_responsible_node_for_key(key, &nodes);
        let predecessor = if responsible == 5 { 200 } else { 5 };
        assert!(chord::ring::is_between(key, predecessor, responsible, true, false));
    }
}

#[test]
fn node_address_for_key_finds_the_node() {
    let summary = |pos: u8, url: &str| NodeSummary {
        url: url.to_string(),
        pos,
        predecessor: None::<FingerEntry>,
        finger_entries: Vec::new(),
        successor_list: SuccessorList { own_address: url.to_string(), successors: vec![] },
    };
    let summaries = vec![summary(5, "a"), summary(200, "b"), summary(90, "c")];
    assert_eq!(get_node_address_for_key(&200, &summaries), "b");
    assert_eq!(get_node_address_for_key(&5, &summaries), "a");
    assert_eq!(get_node_address_for_key(&90, &summaries), "c");
}

#[test]
fn preceding_node_is_the_nearest_other_node_before() {
    let nodes = vec![200u8, 5, 90];
    assert_eq!(get_preceding_node_for_key(5, &nodes), 200);
    assert_eq!(get_preceding_node_for_key(90, &nodes), 5);
    assert_eq!(get_preceding_node_for_key(200, &nodes), 90);
    assert_eq!(get_preceding_node_for_key(0, &nodes), 200);
    assert_eq!(get_preceding_node_for_key(6, &nodes), 5);
    assert_eq!(get_preceding_node_for_key(255, &nodes), 200);
    assert_eq!(get_preceding_node_for_key(33, &vec![33]), 33);
    assert_eq!(get_preceding_node_for_key(33, &vec![33, 33]), 33);
    assert_eq!(get_preceding_node_for_key(34, &vec![33]), 33);
    assert_eq!(get_preceding_node_for_key(7, &Vec::new()), 7);
}

#[test]
fn validate_sees_a_wrong_predecessor() {
    let mut net = net_of(4);
    assert!(validate_predecessors(&net.summaries()));
    let ring = net.ring();
    let wrong = net.nodes[ring[2]].address.clone();
    net.nodes[ring[0]].predecessor_option = Some(FingerEntry::for_node(&wrong));
    assert!(!validate_predecessors(&net.summaries()));
    assert!(!validate_cluster(&net.summaries()));
    assert!(validate_fingers(&net.summaries()));
    net.nodes[ring[0]].predecessor_option = None;
    assert!(!validate_predecessors(&net.summaries()));
}

#[test]
fn validate_sees_a_wrong_successor_list() {
    let mut net = net_of(4);
    assert!(validate_successor_lists(&net.summaries()));
    let ring = net.ring();
    net.nodes[ring[1]].successor_list.successors.swap(1, 2);
    assert!(!validate_successor_lists(&net.summaries()));
    assert!(!validate_cluster(&net.summaries()));
    assert!(validate_predecessors(&net.summaries()));
}

#[test]
fn a_node_alone_is_a_valid_cluster_once_it_knows_itself() {
    let mut net = Net::new();
    net.join(&net_addresses(1)[0], None);
    // Before the first round the node has no predecessor.
    assert!(!validate_predecessors(&net.summaries()));
    assert!(validate_fingers(&net.summaries()));
    assert!(validate_successor_lists(&net.summaries()));
    net.rounds(2);
    assert!(validate_cluster(&net.summaries()));
    assert_eq!(net.nodes[0].get_predecessor(), Some(net.nodes[0].address.clone()));
}
