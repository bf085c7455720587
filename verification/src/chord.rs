//! The node: its state, and what it decides when a peer or a timer calls.
//!
//! The decisions come in two forms. The free functions work on one piece of
//! the state each, so that a program which guards the pieces with locks of
//! their own never holds two at a time. [`ChordService`] bundles the pieces
//! for a single owner and states what holds of the node as a whole.

use crate::crypto::{address_pos, hash_address, hash_key, key_pos};
use crate::finger_table::{
    spec_closest_preceding, FingerEntry, FingerEntryView, FingerTable,
};
use crate::kv_store::{
    clone_value, distinct_keys, ingest, off_arc_part, on_arc_part, pair_views, pairs_map,
    HashMapStore, KVStore, StoreView,
};
use crate::ring::{
    advance, between, finger_start, is_between, spec_finger_start, successor_pos, HashPos,
    RING_BITS,
};
use crate::successor_list::{SuccessorList, SuccessorListView};
use crate::types::{Address, Key, Value};
use vstd::prelude::*;

verus! {

/// How often a lookup that lost its next hop asks for the predecessor
/// before it gives up.
pub const MAX_LOOKUP_RETRIES: u64 = 20;

/// Why a node refuses a request.
#[derive(Clone, Copy, Debug, PartialEq, Eq, Structural)]
pub enum RequestError {
    /// The key does not lie on the arc that the node owns.
    OutOfRange,
}

/// What a node answers to a lookup.
#[derive(Debug)]
pub enum LookupStep {
    /// The successor of the key.
    Found(Address),
    /// A node nearer to the key, which is to be asked next.
    Forward(FingerEntry),
}

/// What a lookup does when the node it was passed on to cannot be reached.
#[derive(Debug)]
pub enum FallbackStep {
    /// Ask the predecessor, at this address, and return what it answers.
    AskPredecessor(Address),
    /// There is no predecessor yet: look again, having tried this often.
    Retry(u64),
    /// Give up: the lookup fails as unavailable.
    Unavailable,
}

/// The closed arc of positions whose pairs a node gives up.
#[derive(Clone, Copy, Debug, PartialEq, Eq, Structural)]
pub struct HandoffRange {
    pub lower: HashPos,
    pub upper: HashPos,
}

/// What `entry` holds, if there is one.
pub open spec fn entry_view(entry: Option<FingerEntry>) -> Option<FingerEntryView> {
    match entry {
        Some(e) => Some(e@),
        None => None,
    }
}

/// The entry that names the node listening on `address`.
pub open spec fn node_entry(address: Seq<char>) -> FingerEntryView {
    FingerEntryView { key: address_pos(address) as HashPos, address }
}

/// Whether the node at `own_pos` with this predecessor owns the position
/// `key`: the arc from the predecessor, left out, to the node itself. A node
/// without a predecessor owns the whole ring.
pub open spec fn spec_owns(predecessor: Option<FingerEntryView>, own_pos: int, key: int) -> bool {
    match predecessor {
        Some(p) => between(key, address_pos(p.address), own_pos, true, false),
        None => true,
    }
}

/// Whether the immediate successor of the node at `own_pos` is the
/// successor of `key`.
pub open spec fn spec_successor_covers(own_pos: int, successor: Seq<char>, key: int) -> bool {
    between(key, advance(own_pos, 1), address_pos(successor), false, false)
}

/// Whether the node at `own_pos` takes `caller` for its predecessor.
pub open spec fn notify_accepts(
    predecessor: Option<FingerEntryView>,
    own_pos: int,
    caller: Seq<char>,
) -> bool {
    match predecessor {
        Some(p) => between(
            address_pos(caller),
            advance(address_pos(p.address), 1),
            own_pos,
            false,
            true,
        ),
        None => true,
    }
}

/// The arc whose pairs go to `caller` once it is taken for predecessor.
pub open spec fn notify_range(
    predecessor: Option<FingerEntryView>,
    own_pos: int,
    caller: Seq<char>,
) -> HandoffRange {
    match predecessor {
        Some(p) => HandoffRange {
            lower: address_pos(p.address) as HashPos,
            upper: address_pos(caller) as HashPos,
        },
        None => HandoffRange {
            lower: advance(own_pos, 1) as HashPos,
            upper: address_pos(caller) as HashPos,
        },
    }
}

/// Whether a node that sees `reported` as the predecessor of its successor
/// takes it for its new successor.
pub open spec fn spec_adopts(own_pos: int, successor: Seq<char>, reported: Option<Seq<char>>) -> bool {
    match reported {
        Some(x) => x.len() > 0 && between(
            address_pos(x),
            advance(own_pos, 1),
            address_pos(successor),
            false,
            true,
        ),
        None => false,
    }
}

/// Whether `reply` is what a node with this predecessor and this store
/// answers to a get of `key`: the value under the key, or that there is
/// none, where it owns the key, and a refusal where it does not.
pub open spec fn get_allows(
    predecessor: Option<FingerEntryView>,
    own_pos: int,
    store: StoreView,
    key: Seq<u8>,
    reply: Result<Option<Value>, RequestError>,
) -> bool {
    match reply {
        Ok(Some(value)) => spec_owns(predecessor, own_pos, key_pos(key)) && store.contains_key(
            key,
        ) && value@ == store[key],
        Ok(None) => spec_owns(predecessor, own_pos, key_pos(key)) && !store.contains_key(key),
        Err(e) => !spec_owns(predecessor, own_pos, key_pos(key)) && e == RequestError::OutOfRange,
    }
}

/// Whether `reply` and the store `after` are what a put of `value` under
/// `key` leaves of the store `before`: the pair is stored where the node
/// owns the key, and nothing changes where it does not.
pub open spec fn put_allows(
    predecessor: Option<FingerEntryView>,
    own_pos: int,
    before: StoreView,
    after: StoreView,
    key: Seq<u8>,
    value: Seq<u8>,
    reply: Result<(), RequestError>,
) -> bool {
    match reply {
        Ok(_) => spec_owns(predecessor, own_pos, key_pos(key)) && after == before.insert(
            key,
            value,
        ),
        Err(e) => !spec_owns(predecessor, own_pos, key_pos(key)) && e == RequestError::OutOfRange
            && after == before,
    }
}

/// Whether `after` is the node `before` once its finger `index` was mended
/// with `found`: the finger points to `found`, the cursor stands at the
/// finger, and where the finger is finger 1 the successor list names
/// `found` first. Nothing else has changed.
pub open spec fn is_mended(
    before: ChordService,
    after: ChordService,
    index: int,
    found: Seq<char>,
) -> bool {
    &&& after.fix_finger_index == index
    &&& after.finger_table@ == before.finger_table@.update(
        index,
        FingerEntryView { key: before.finger_table@[index].key, address: found },
    )
    &&& after.successor_list@.own_address == before.successor_list@.own_address
    &&& after.successor_list@.successors == (if index == 1 {
        before.successor_list@.successors.update(0, found)
    } else {
        before.successor_list@.successors
    })
    &&& after.address == before.address
    &&& after.pos == before.pos
    &&& after.predecessor_option == before.predecessor_option
    &&& after.kv_store == before.kv_store
}

/// The finger that is mended after the finger `cursor`.
pub open spec fn spec_next_finger_index(cursor: int) -> int {
    (cursor + 1) % (RING_BITS as int)
}

/// Whether the node at `own_pos` with this predecessor owns `key`.
pub fn owns(predecessor: &Option<FingerEntry>, own_pos: HashPos, key: &Key) -> (owned: bool)
    ensures
        owned == spec_owns(entry_view(*predecessor), own_pos as int, key_pos(key@)),
{
    match predecessor {
        Some(p) => {
            let lower: HashPos = hash_address(&p.address);
            is_between(hash_key(key), lower, own_pos, true, false)
        },
        None => true,
    }
}

/// Whether the immediate successor of the node at `own_pos` is the
/// successor of `key`.
pub fn successor_covers(own_pos: HashPos, successor: &Address, key: HashPos) -> (covered: bool)
    ensures
        covered == spec_successor_covers(own_pos as int, successor@, key as int),
{
    let successor_position: HashPos = hash_address(successor);
    is_between(key, successor_pos(own_pos), successor_position, false, false)
}

/// One step of a lookup at the node `own`: the immediate successor where
/// it is the successor of `key`, else the peer to pass the lookup on to.
pub fn lookup_step(own: &FingerEntry, successor: &Address, fingers: &FingerTable, key: HashPos) -> (step:
    LookupStep)
    ensures
        match step {
            LookupStep::Found(address) => spec_successor_covers(
                own.key as int,
                successor@,
                key as int,
            ) && address@ == successor@,
            LookupStep::Forward(next) => !spec_successor_covers(
                own.key as int,
                successor@,
                key as int,
            ) && next@ == spec_closest_preceding(fingers@, own@, key as int),
        },
{
    if successor_covers(own.key, successor, key) {
        LookupStep::Found(successor.clone())
    } else {
        LookupStep::Forward(fingers.closest_preceding_finger(own, key))
    }
}

/// What a lookup does after the node it was passed on to could not be
/// reached, having looked for a predecessor `attempts` times before.
pub fn fallback_step(predecessor: &Option<FingerEntry>, attempts: u64) -> (step: FallbackStep)
    ensures
        match step {
            FallbackStep::AskPredecessor(address) => predecessor is Some && address@
                == predecessor->Some_0.address@,
            FallbackStep::Retry(next) => predecessor is None && attempts <= MAX_LOOKUP_RETRIES
                && next == attempts + 1,
            FallbackStep::Unavailable => predecessor is None && attempts > MAX_LOOKUP_RETRIES,
        },
{
    match predecessor {
        Some(p) => FallbackStep::AskPredecessor(p.address.clone()),
        None => {
            if attempts > MAX_LOOKUP_RETRIES {
                FallbackStep::Unavailable
            } else {
                FallbackStep::Retry(attempts + 1)
            }
        },
    }
}

/// Handles the call by which `caller` says that it may be the predecessor
/// of the node at `own_pos`. Where the node takes it, the result is the arc
/// whose pairs the node owes to the caller.
pub fn notify_predecessor(
    predecessor: &mut Option<FingerEntry>,
    own_pos: HashPos,
    caller: &Address,
) -> (range: Option<HandoffRange>)
    ensures
        notify_accepts(entry_view(*old(predecessor)), own_pos as int, caller@) ==> {
            &&& entry_view(*final(predecessor)) == Some(node_entry(caller@))
            &&& range == Some(notify_range(entry_view(*old(predecessor)), own_pos as int, caller@))
        },
        !notify_accepts(entry_view(*old(predecessor)), own_pos as int, caller@) ==> {
            &&& *final(predecessor) == *old(predecessor)
            &&& range is None
        },
{
    let caller_pos: HashPos = hash_address(caller);
    let lower: HashPos = match predecessor {
        Some(p) => {
            let previous: HashPos = hash_address(&p.address);
            if !is_between(caller_pos, successor_pos(previous), own_pos, false, true) {
                return None;
            }
            previous
        },
        None => successor_pos(own_pos),
    };
    *predecessor = Some(FingerEntry { key: caller_pos, address: caller.clone() });
    Some(HandoffRange { lower, upper: caller_pos })
}

/// Whether the node at `own_pos`, whose successor reports `reported` as its
/// predecessor, takes that node for its new successor.
pub fn should_adopt_successor(
    own_pos: HashPos,
    successor: &Address,
    reported: &Option<Address>,
) -> (adopt: bool)
    ensures
        adopt == spec_adopts(
            own_pos as int,
            successor@,
            match *reported {
                Some(x) => Some(x@),
                None => None,
            },
        ),
{
    match reported {
        Some(x) => {
            if x.as_str().is_empty() {
                false
            } else {
                let reported_pos: HashPos = hash_address(x);
                let successor_position: HashPos = hash_address(successor);
                is_between(reported_pos, successor_pos(own_pos), successor_position, false, true)
            }
        },
        None => false,
    }
}

/// Executes a get on the node at `own_pos` with this predecessor and this
/// store: the value under `key`, or that there is none, where the node
/// owns the key, and a refusal where it does not.
pub fn local_get(
    store: &HashMapStore,
    predecessor: &Option<FingerEntry>,
    own_pos: HashPos,
    key: &Key,
) -> (reply: Result<Option<Value>, RequestError>)
    requires
        store.wf(),
    ensures
        get_allows(entry_view(*predecessor), own_pos as int, store.contents(), key@, reply),
{
    if !owns(predecessor, own_pos, key) {
        return Err(RequestError::OutOfRange);
    }
    match store.get(key) {
        Some(value) => Ok(Some(clone_value(value))),
        None => Ok(None),
    }
}

/// Executes a put on the node at `own_pos` with this predecessor and this
/// store: `value` is stored under `key` where the node owns the key, and
/// nothing changes where it does not. The time to live and the number of
/// replicas are carried by the request and not acted on.
pub fn local_put(
    store: &mut HashMapStore,
    predecessor: &Option<FingerEntry>,
    own_pos: HashPos,
    key: &Key,
    value: &Value,
    ttl: u64,
    replication: u32,
) -> (reply: Result<(), RequestError>)
    requires
        old(store).wf(),
    ensures
        final(store).wf(),
        put_allows(
            entry_view(*predecessor),
            own_pos as int,
            old(store).contents(),
            final(store).contents(),
            key@,
            value@,
            reply,
        ),
{
    if !owns(predecessor, own_pos, key) {
        return Err(RequestError::OutOfRange);
    }
    store.put(key, value);
    Ok(())
}

/// Whether mending the finger `index` also renews the immediate successor
/// in the successor list.
pub fn renews_successor(index: usize) -> (renews: bool)
    ensures
        renews == (index == 1),
{
    index == 1
}

/// The pairs of `store` that the node at `own_pos` with this predecessor
/// owns: those on the arc from the predecessor to the node, or all of them
/// where it has no predecessor.
pub fn owned_pairs(store: &HashMapStore, predecessor: &Option<FingerEntry>, own_pos: HashPos) -> (pairs:
    Vec<(Key, Value)>)
    requires
        store.wf(),
    ensures
        distinct_keys(pair_views(pairs@)),
        pairs_map(pair_views(pairs@)) == store.contents().restrict(
            Set::new(
                |key: Seq<u8>| spec_owns(entry_view(*predecessor), own_pos as int, key_pos(key)),
            ),
        ),
{
    let pairs = match predecessor {
        Some(p) => {
            let lower: HashPos = hash_address(&p.address);
            store.iter(lower, own_pos, true, false)
        },
        None => store.iter(successor_pos(own_pos), own_pos, false, false),
    };
    assert(pairs_map(pair_views(pairs@)) =~= store.contents().restrict(
        Set::new(|key: Seq<u8>| spec_owns(entry_view(*predecessor), own_pos as int, key_pos(key))),
    ));
    pairs
}

/// The finger that is mended after the finger `cursor`.
pub fn next_finger_index(cursor: usize) -> (index: usize)
    ensures
        index == spec_next_finger_index(cursor as int),
        index < RING_BITS,
{
    (cursor % RING_BITS + 1) % RING_BITS
}

/// The state of a node.
#[derive(Debug)]
pub struct ChordService {
    pub address: Address,
    pub pos: HashPos,
    pub finger_table: FingerTable,
    pub predecessor_option: Option<FingerEntry>,
    pub kv_store: HashMapStore,
    pub fix_finger_index: usize,
    pub successor_list: SuccessorList,
}

/// What a node reports of itself.
#[derive(Debug)]
pub struct NodeSummary {
    pub url: Address,
    pub pos: HashPos,
    pub predecessor: Option<FingerEntry>,
    pub finger_entries: Vec<FingerEntry>,
    pub successor_list: SuccessorList,
}

impl ChordService {
    /// Whether the pieces of the state fit together: the node stands at the
    /// position of its address, its fingers start where they should, its
    /// predecessor is named at its own position, and its successor list is
    /// its own and names a successor.
    pub open spec fn wf(&self) -> bool {
        &&& self.pos as int == address_pos(self.address@)
        &&& self.finger_table.starts_at(self.pos as int)
        &&& self.predecessor_option is Some ==> self.predecessor_option->Some_0@.names_node()
        &&& self.kv_store.wf()
        &&& self.fix_finger_index < RING_BITS
        &&& self.successor_list.wf()
        &&& self.successor_list@.own_address == self.address@
    }

    /// The entry that names this node.
    pub open spec fn own_entry(&self) -> FingerEntryView {
        FingerEntryView { key: self.pos, address: self.address@ }
    }

    /// The predecessor, if the node knows one.
    pub open spec fn predecessor(&self) -> Option<FingerEntryView> {
        entry_view(self.predecessor_option)
    }

    /// The address of the immediate successor.
    pub open spec fn successor(&self) -> Seq<char> {
        self.successor_list@.successors[0]
    }

    /// Whether the successor list and the finger table name the same
    /// immediate successor.
    pub open spec fn successor_agrees(&self) -> bool {
        self.successor() == self.finger_table@[0].address
    }

    /// Whether the node owns the position `key`.
    pub open spec fn owns_pos(&self, key: int) -> bool {
        spec_owns(self.predecessor(), self.pos as int, key)
    }

    /// What the node stores.
    pub open spec fn store(&self) -> StoreView {
        self.kv_store.contents()
    }

    /// The node that is made of these pieces, which have to fit together:
    /// the fingers start at the position of `url`, the predecessor is named
    /// at its own position, and the successor list is that of `url`.
    pub fn new(
        url: &Address,
        finger_table: FingerTable,
        predecessor_option: Option<FingerEntry>,
        kv_store: HashMapStore,
        successor_list: SuccessorList,
    ) -> (node: ChordService)
        requires
            finger_table.starts_at(address_pos(url@)),
            predecessor_option is Some ==> predecessor_option->Some_0@.names_node(),
            kv_store.wf(),
            successor_list.wf(),
            successor_list@.own_address == url@,
        ensures
            node.wf(),
            node.address@ == url@,
            node.finger_table == finger_table,
            node.predecessor_option == predecessor_option,
            node.kv_store == kv_store,
            node.fix_finger_index == 0,
            node.successor_list == successor_list,
    {
        ChordService {
            address: url.clone(),
            pos: hash_address(url),
            finger_table,
            predecessor_option,
            kv_store,
            fix_finger_index: 0,
            successor_list,
        }
    }

    /// The address of the immediate successor.
    pub fn get_successor_address(&self) -> (address: Address)
        requires
            self.wf(),
        ensures
            address@ == self.successor(),
    {
        self.successor_list.first().clone()
    }

    /// Makes `new_successor_address` the immediate successor, in the
    /// successor list and in the finger table.
    pub fn set_successor(&mut self, new_successor_address: &Address)
        requires
            old(self).wf(),
        ensures
            final(self).wf(),
            final(self).successor_agrees(),
            final(self).successor_list@.successors == old(self).successor_list@.successors.update(
                0,
                new_successor_address@,
            ),
            final(self).finger_table@ == old(self).finger_table@.update(
                0,
                FingerEntryView {
                    key: old(self).finger_table@[0].key,
                    address: new_successor_address@,
                },
            ),
            final(self).address == old(self).address,
            final(self).pos == old(self).pos,
            final(self).predecessor_option == old(self).predecessor_option,
            final(self).kv_store == old(self).kv_store,
            final(self).fix_finger_index == old(self).fix_finger_index,
    {
        self.successor_list.set_first(new_successor_address);
        self.finger_table.set_finger(0, new_successor_address.clone());
    }

    /// The address of the predecessor, if the node knows one.
    pub fn get_predecessor(&self) -> (address: Option<Address>)
        ensures
            match address {
                Some(a) => self.predecessor() is Some && a@ == self.predecessor()->Some_0.address,
                None => self.predecessor() is None,
            },
    {
        match &self.predecessor_option {
            Some(p) => Some(p.address.clone()),
            None => None,
        }
    }

    /// The successor list.
    pub fn get_successor_list(&self) -> (list: SuccessorList)
        ensures
            list@ == self.successor_list@,
    {
        self.successor_list.clone()
    }

    /// The peer to pass a lookup of `key` on to: the last finger whose peer
    /// lies strictly between this node and `key`, or this node itself.
    pub fn find_closest_preceding_finger(&self, key: HashPos) -> (closest: FingerEntry)
        ensures
            closest@ == spec_closest_preceding(self.finger_table@, self.own_entry(), key as int),
            closest@ == self.own_entry() || closest@.precedes(self.pos as int, key as int),
    {
        let own = FingerEntry { key: self.pos, address: self.address.clone() };
        self.finger_table.closest_preceding_finger(&own, key)
    }

    /// One step of the lookup of `key`: the immediate successor where it is
    /// the successor of `key`, else the peer that is to be asked next.
    pub fn find_successor(&self, key: HashPos) -> (step: LookupStep)
        requires
            self.wf(),
        ensures
            match step {
                LookupStep::Found(address) => spec_successor_covers(
                    self.pos as int,
                    self.successor(),
                    key as int,
                ) && address@ == self.successor(),
                LookupStep::Forward(next) => !spec_successor_covers(
                    self.pos as int,
                    self.successor(),
                    key as int,
                ) && next@ == spec_closest_preceding(
                    self.finger_table@,
                    self.own_entry(),
                    key as int,
                ),
            },
    {
        let own = FingerEntry { key: self.pos, address: self.address.clone() };
        lookup_step(&own, self.successor_list.first(), &self.finger_table, key)
    }

    /// Handles the call by which `caller` says that it may be the
    /// predecessor of this node. Where the node takes it, the pairs on the
    /// arc that the node owes to the caller leave the store and are
    /// returned; else nothing changes and nothing is returned.
    pub fn notify(&mut self, caller: &Address) -> (pairs: Vec<(Key, Value)>)
        requires
            old(self).wf(),
        ensures
            final(self).wf(),
            final(self).address == old(self).address,
            final(self).pos == old(self).pos,
            final(self).finger_table == old(self).finger_table,
            final(self).fix_finger_index == old(self).fix_finger_index,
            final(self).successor_list == old(self).successor_list,
            distinct_keys(pair_views(pairs@)),
            notify_accepts(old(self).predecessor(), old(self).pos as int, caller@) ==> {
                let range = notify_range(old(self).predecessor(), old(self).pos as int, caller@);
                &&& final(self).predecessor() == Some(node_entry(caller@))
                &&& pairs_map(pair_views(pairs@)) == on_arc_part(
                    old(self).store(),
                    range.lower as int,
                    range.upper as int,
                    false,
                    false,
                )
                &&& final(self).store() == off_arc_part(
                    old(self).store(),
                    range.lower as int,
                    range.upper as int,
                    false,
                    false,
                )
            },
            !notify_accepts(old(self).predecessor(), old(self).pos as int, caller@) ==> {
                &&& final(self).predecessor_option == old(self).predecessor_option
                &&& final(self).store() == old(self).store()
                &&& pairs@.len() == 0
            },
    {
        match notify_predecessor(&mut self.predecessor_option, self.pos, caller) {
            Some(range) => self.kv_store.take_range(range.lower, range.upper),
            None => Vec::new(),
        }
    }

    /// Takes in the pairs that another node handed over.
    pub fn handoff(&mut self, pairs: &Vec<(Key, Value)>)
        requires
            old(self).wf(),
        ensures
            final(self).wf(),
            final(self).store() == ingest(old(self).store(), pair_views(pairs@)),
            final(self).address == old(self).address,
            final(self).pos == old(self).pos,
            final(self).finger_table == old(self).finger_table,
            final(self).predecessor_option == old(self).predecessor_option,
            final(self).fix_finger_index == old(self).fix_finger_index,
            final(self).successor_list == old(self).successor_list,
    {
        self.kv_store.insert_all(pairs);
    }

    /// The value stored under `key`. The node answers only for keys that it
    /// owns.
    pub fn get(&self, key: &Key) -> (reply: Result<Option<Value>, RequestError>)
        requires
            self.wf(),
        ensures
            get_allows(self.predecessor(), self.pos as int, self.store(), key@, reply),
    {
        local_get(&self.kv_store, &self.predecessor_option, self.pos, key)
    }

    /// Stores `value` under `key`. The node takes only keys that it owns.
    /// The time to live and the number of replicas are carried by the
    /// request and not acted on.
    pub fn put(&mut self, key: &Key, value: &Value, ttl: u64, replication: u32) -> (reply: Result<
        (),
        RequestError,
    >)
        requires
            old(self).wf(),
        ensures
            final(self).wf(),
            final(self).address == old(self).address,
            final(self).pos == old(self).pos,
            final(self).finger_table == old(self).finger_table,
            final(self).predecessor_option == old(self).predecessor_option,
            final(self).fix_finger_index == old(self).fix_finger_index,
            final(self).successor_list == old(self).successor_list,
            put_allows(
                old(self).predecessor(),
                old(self).pos as int,
                old(self).store(),
                final(self).store(),
                key@,
                value@,
                reply,
            ),
    {
        local_put(
            &mut self.kv_store,
            &self.predecessor_option,
            self.pos,
            key,
            value,
            ttl,
            replication,
        )
    }

    /// The first half of mending a finger: which finger is next, and the
    /// position whose successor belongs into it.
    pub fn next_finger(&self) -> (next: (usize, HashPos))
        requires
            self.wf(),
        ensures
            next.0 == spec_next_finger_index(self.fix_finger_index as int),
            next.0 < RING_BITS,
            next.1 as int == spec_finger_start(self.pos as int, next.0 as nat),
            next.1 == self.finger_table@[next.0 as int].key,
    {
        let index: usize = next_finger_index(self.fix_finger_index);
        (index, finger_start(self.pos, index))
    }

    /// The second half of mending a finger: `found`, the successor of the
    /// start of finger `index`, is written into that finger, and the cursor
    /// moves there. Mending finger 1 also renews the immediate successor in
    /// the successor list.
    pub fn fix_fingers(&mut self, index: usize, found: &Address)
        requires
            old(self).wf(),
            index < RING_BITS,
        ensures
            final(self).wf(),
            is_mended(*old(self), *final(self), index as int, found@),
            old(self).successor_agrees() && (index <= 1 ==> found@ == old(self).successor())
                ==> final(self).successor_agrees(),
    {
        if renews_successor(index) {
            self.successor_list.set_first(found);
        }
        self.fix_finger_index = index;
        self.finger_table.set_finger(index, found.clone());
    }

    /// The decision of a stabilize round. `current_successor` is the first
    /// successor that could be reached, `reported` the predecessor that it
    /// reports. Where that node lies between this node and the successor, it
    /// becomes the immediate successor. The result is the immediate
    /// successor after the round, which is to be notified.
    pub fn stabilize(&mut self, current_successor: &Address, reported: &Option<Address>) -> (target:
        Address)
        requires
            old(self).wf(),
        ensures
            final(self).wf(),
            target@ == final(self).successor(),
            final(self).address == old(self).address,
            final(self).pos == old(self).pos,
            final(self).predecessor_option == old(self).predecessor_option,
            final(self).kv_store == old(self).kv_store,
            final(self).fix_finger_index == old(self).fix_finger_index,
            spec_adopts(
                old(self).pos as int,
                current_successor@,
                match *reported {
                    Some(x) => Some(x@),
                    None => None,
                },
            ) ==> {
                &&& final(self).successor() == reported->Some_0@
                &&& final(self).successor_agrees()
                &&& final(self).successor_list@.successors == old(
                    self,
                ).successor_list@.successors.update(0, reported->Some_0@)
                &&& final(self).finger_table@ == old(self).finger_table@.update(
                    0,
                    FingerEntryView {
                        key: old(self).finger_table@[0].key,
                        address: reported->Some_0@,
                    },
                )
            },
            !spec_adopts(
                old(self).pos as int,
                current_successor@,
                match *reported {
                    Some(x) => Some(x@),
                    None => None,
                },
            ) ==> {
                &&& final(self).successor_list == old(self).successor_list
                &&& final(self).finger_table == old(self).finger_table
            },
    {
        if should_adopt_successor(self.pos, current_successor, reported) {
            match reported {
                Some(x) => {
                    self.set_successor(x);
                },
                None => {},
            }
        }
        self.get_successor_address()
    }

    /// Forgets the predecessor, which was found dead.
    pub fn unset_predecessor(&mut self)
        requires
            old(self).wf(),
        ensures
            final(self).wf(),
            final(self).predecessor_option is None,
            final(self).address == old(self).address,
            final(self).pos == old(self).pos,
            final(self).finger_table == old(self).finger_table,
            final(self).kv_store == old(self).kv_store,
            final(self).fix_finger_index == old(self).fix_finger_index,
            final(self).successor_list == old(self).successor_list,
    {
        self.predecessor_option = None;
    }

    /// Renews the successor list after each successor was asked for its
    /// own list, in order. `reply` is the first list that came back; where
    /// none came, the list falls back to the node itself.
    pub fn check_successor_list(&mut self, reply: Option<SuccessorList>)
        requires
            old(self).wf(),
        ensures
            final(self).wf(),
            final(self).successor_list@.successors == (match reply {
                Some(other) => other@.shifted(),
                None => seq![old(self).address@],
            }),
            old(self).successor_agrees() && reply is Some && reply->Some_0@.own_address == old(
                self,
            ).successor() ==> final(self).successor_agrees(),
            final(self).address == old(self).address,
            final(self).pos == old(self).pos,
            final(self).finger_table == old(self).finger_table,
            final(self).predecessor_option == old(self).predecessor_option,
            final(self).kv_store == old(self).kv_store,
            final(self).fix_finger_index == old(self).fix_finger_index,
    {
        match reply {
            Some(other) => self.successor_list.update_with_other_succ_list(other),
            None => self.successor_list.reset_to_self(),
        }
    }

    /// The pairs that the node owns: those on the arc from its predecessor
    /// to itself, or all of them where it has no predecessor.
    pub fn owned_pairs(&self) -> (pairs: Vec<(Key, Value)>)
        requires
            self.wf(),
        ensures
            distinct_keys(pair_views(pairs@)),
            pairs_map(pair_views(pairs@)) == self.store().restrict(
                Set::new(|key: Seq<u8>| self.owns_pos(key_pos(key))),
            ),
    {
        let pairs = owned_pairs(&self.kv_store, &self.predecessor_option, self.pos);
        assert(pairs_map(pair_views(pairs@)) =~= self.store().restrict(
            Set::new(|key: Seq<u8>| self.owns_pos(key_pos(key))),
        ));
        pairs
    }

    /// What a node does when it shuts down: it picks the first successor
    /// that `probe` finds alive and hands it the pairs that it owns. Where
    /// no successor is alive there is nobody to take them.
    pub fn shutdown_handoff<F: Fn(&Address) -> bool>(&self, probe: F) -> (handoff: Option<
        (Address, Vec<(Key, Value)>),
    >)
        requires
            self.wf(),
            forall|address: &Address| #[trigger] probe.requires((address,)),
        ensures
            match handoff {
                Some((target, pairs)) => {
                    &&& exists|i: int|
                        {
                            &&& 0 <= i < self.successor_list.successors@.len()
                            &&& target@ == (#[trigger] self.successor_list.successors@[i])@
                            &&& probe.ensures((&self.successor_list.successors@[i],), true)
                            &&& forall|j: int|
                                0 <= j < i ==> probe.ensures(
                                    (&#[trigger] self.successor_list.successors@[j],),
                                    false,
                                )
                        }
                    &&& distinct_keys(pair_views(pairs@))
                    &&& pairs_map(pair_views(pairs@)) == self.store().restrict(
                        Set::new(|key: Seq<u8>| self.owns_pos(key_pos(key))),
                    )
                },
                None => forall|j: int|
                    0 <= j < self.successor_list.successors@.len() ==> probe.ensures(
                        (&#[trigger] self.successor_list.successors@[j],),
                        false,
                    ),
            },
    {
        match self.successor_list.first_live(probe) {
            Some(target) => Some((target, self.owned_pairs())),
            None => None,
        }
    }

    /// What the node reports of itself.
    pub fn get_node_summary(&self) -> (summary: NodeSummary)
        ensures
            summary.url@ == self.address@,
            summary.pos == self.pos,
            entry_view(summary.predecessor) == self.predecessor(),
            summary.finger_entries@.len() == self.finger_table@.len(),
            forall|i: int|
                0 <= i < self.finger_table@.len() ==> (#[trigger] summary.finger_entries@[i])@
                    == self.finger_table@[i],
            summary.successor_list@ == self.successor_list@,
    {
        let mut finger_entries: Vec<FingerEntry> = Vec::new();
        let mut i: usize = 0;
        while i < self.finger_table.fingers.len()
            invariant
                i <= self.finger_table.fingers@.len(),
                finger_entries@.len() == i,
                forall|j: int|
                    0 <= j < i ==> (#[trigger] finger_entries@[j])@
                        == self.finger_table.fingers@[j]@,
            decreases self.finger_table.fingers@.len() - i,
        {
            finger_entries.push(self.finger_table.fingers[i].clone());
            i = i + 1;
        }
        NodeSummary {
            url: self.address.clone(),
            pos: self.pos,
            predecessor: match &self.predecessor_option {
                Some(p) => Some(p.clone()),
                None => None,
            },
            finger_entries,
            successor_list: self.successor_list.clone(),
        }
    }

    /// The number of pairs in the store.
    pub fn get_kv_store_size(&self) -> (count: usize)
        requires
            self.wf(),
        ensures
            self.store().dom().finite(),
            count == self.store().len(),
    {
        self.kv_store.size()
    }

    /// Every pair in the store, each once.
    pub fn get_kv_store_data(&self) -> (pairs: Vec<(Key, Value)>)
        requires
            self.wf(),
        ensures
            distinct_keys(pair_views(pairs@)),
            pairs_map(pair_views(pairs@)) == self.store(),
    {
        let pairs = self.kv_store.iter(successor_pos(self.pos), self.pos, false, false);
        assert(on_arc_part(
            self.store(),
            advance(self.pos as int, 1),
            self.pos as int,
            false,
            false,
        ) =~= self.store());
        pairs
    }
}

/// The state with which a node starts. A node that knows no peer starts a
/// ring of its own: it is its own successor, and every finger points to it.
/// A node that joins was told its successor by the peer it asked, and that
/// successor's list: its own list is the successor followed by the
/// successor's successors, and only its first finger is set. Either way it
/// has no predecessor yet and stores nothing.
pub fn process_node_join(own_address: &Address, joined: Option<(Address, SuccessorList)>) -> (node:
    ChordService)
    ensures
        node.wf(),
        node.address@ == own_address@,
        node.predecessor_option is None,
        node.store() == Map::<Seq<u8>, Seq<u8>>::empty(),
        node.fix_finger_index == 0,
        node.successor_agrees(),
        match joined {
            Some((successor, reply)) => {
                &&& node.successor_list@.successors == (SuccessorListView {
                    own_address: successor@,
                    successors: reply@.successors,
                }).shifted()
                &&& node.finger_table@[0].address == successor@
                &&& forall|i: int|
                    1 <= i < RING_BITS ==> !(#[trigger] node.finger_table@[i]).is_set()
            },
            None => {
                &&& node.successor_list@.successors == seq![own_address@]
                &&& forall|i: int|
                    0 <= i < RING_BITS ==> (#[trigger] node.finger_table@[i]).address
                        == own_address@
            },
        },
{
    let pos: HashPos = hash_address(own_address);
    let mut finger_table = FingerTable::new(&pos);
    let successor_list = match joined {
        Some((successor, reply)) => {
            let mut list = SuccessorList::new(own_address, &successor);
            list.update_with_other_succ_list(
                SuccessorList { own_address: successor.clone(), successors: reply.successors },
            );
            finger_table.set_finger(0, successor);
            list
        },
        None => {
            finger_table.set_all_fingers(own_address);
            SuccessorList::new(own_address, own_address)
        },
    };
    ChordService::new(own_address, finger_table, None, HashMapStore::new(), successor_list)
}

} // verus!
