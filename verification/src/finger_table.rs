//! The finger table: the routing shortcuts of a node.

use crate::crypto::{address_pos, hash_address};
use crate::ring::{
    between, finger_start, is_between, spec_finger_start, HashPos, HashRingKey, RING_BITS,
};
use crate::types::Address;
use vstd::prelude::*;

verus! {

/// A peer together with a position: the start of a finger, or the position
/// of the peer itself where the entry names a node.
#[derive(Debug, Default)]
pub struct FingerEntry {
    pub key: HashPos,
    pub address: Address,
}

/// What a [`FingerEntry`] holds.
pub struct FingerEntryView {
    pub key: HashPos,
    pub address: Seq<char>,
}

impl View for FingerEntry {
    type V = FingerEntryView;

    open spec fn view(&self) -> FingerEntryView {
        FingerEntryView { key: self.key, address: self.address@ }
    }
}

impl Clone for FingerEntry {
    fn clone(&self) -> (copy: Self)
        ensures
            copy@ == self@,
    {
        FingerEntry { key: self.key, address: self.address.clone() }
    }
}

impl FingerEntry {
    /// An entry for `key` that points to `address`.
    pub fn new(key: &HashPos, address: &Address) -> (entry: Self)
        ensures
            entry@ == (FingerEntryView { key: *key, address: address@ }),
    {
        FingerEntry { key: *key, address: address.clone() }
    }

    /// The entry of the node that listens on `address`, at its own position.
    pub fn for_node(address: &Address) -> (entry: Self)
        ensures
            entry.key as int == address_pos(address@),
            entry.address@ == address@,
            entry@.names_node(),
    {
        FingerEntry { key: hash_address(address), address: address.clone() }
    }

    /// The position of the entry.
    pub fn get_key(&self) -> (key: &HashPos)
        ensures
            *key == self.key,
    {
        &self.key
    }

    /// The address the entry points to.
    pub fn get_address(&self) -> (address: &Address)
        ensures
            *address == self.address,
    {
        &self.address
    }

    /// The address the entry points to, for writing.
    pub fn get_address_mut(&mut self) -> (address: &mut Address)
        ensures
            *address == old(self).address,
            *final(self) == (FingerEntry { key: old(self).key, address: *final(address) }),
    {
        &mut self.address
    }

    /// Whether the entry points to a peer.
    pub fn is_set(&self) -> (set: bool)
        ensures
            set == self@.is_set(),
    {
        !self.address.as_str().is_empty()
    }
}

impl FingerEntryView {
    /// Whether the entry points to a peer.
    pub open spec fn is_set(self) -> bool {
        self.address.len() > 0
    }

    /// Whether the entry stands at the position of the peer it points to.
    pub open spec fn names_node(self) -> bool {
        self.key as int == address_pos(self.address)
    }

    /// Whether the peer of this entry lies strictly between the node at
    /// `own_pos` and `key`, so that a lookup of `key` may be passed on to it.
    pub open spec fn precedes(self, own_pos: int, key: int) -> bool {
        self.is_set() && between(address_pos(self.address), own_pos, key, true, true)
    }

    /// The entry that names the peer this entry points to.
    pub open spec fn referral(self) -> FingerEntryView {
        FingerEntryView { key: address_pos(self.address) as HashPos, address: self.address }
    }
}

/// The routing table of a node: one entry for each bit of the ring's width.
#[derive(Clone, Debug)]
pub struct FingerTable {
    pub fingers: Vec<FingerEntry>,
}

impl View for FingerTable {
    type V = Seq<FingerEntryView>;

    open spec fn view(&self) -> Seq<FingerEntryView> {
        Seq::new(self.fingers@.len(), |i: int| self.fingers@[i]@)
    }
}

/// Whether entry `i` of `fingers` is the last one that precedes `key`.
pub open spec fn is_closest_preceding(
    fingers: Seq<FingerEntryView>,
    own_pos: int,
    key: int,
    i: int,
) -> bool {
    &&& 0 <= i < fingers.len()
    &&& fingers[i].precedes(own_pos, key)
    &&& forall|j: int| i < j < fingers.len() ==> !(#[trigger] fingers[j]).precedes(own_pos, key)
}

/// Whether no entry of `fingers` precedes `key`.
pub open spec fn none_precedes(fingers: Seq<FingerEntryView>, own_pos: int, key: int) -> bool {
    forall|j: int| 0 <= j < fingers.len() ==> !(#[trigger] fingers[j]).precedes(own_pos, key)
}

/// The peer to pass a lookup of `key` on to: the last entry of `fingers`
/// that precedes `key`, named at its own position, or `own` where no entry
/// precedes `key`.
pub open spec fn spec_closest_preceding(
    fingers: Seq<FingerEntryView>,
    own: FingerEntryView,
    key: int,
) -> FingerEntryView {
    if none_precedes(fingers, own.key as int, key) {
        own
    } else {
        fingers[choose|i: int| is_closest_preceding(fingers, own.key as int, key, i)].referral()
    }
}

/// At most one entry is the last that precedes a key.
pub proof fn lemma_closest_preceding_unique(
    fingers: Seq<FingerEntryView>,
    own_pos: int,
    key: int,
    i: int,
    j: int,
)
    requires
        is_closest_preceding(fingers, own_pos, key, i),
        is_closest_preceding(fingers, own_pos, key, j),
    ensures
        i == j,
{
}

/// Where an entry below `bound` precedes a key and none from `bound` on
/// does, one entry is the last that precedes it.
proof fn lemma_last_preceding_below(
    fingers: Seq<FingerEntryView>,
    own_pos: int,
    key: int,
    bound: int,
)
    requires
        0 <= bound <= fingers.len(),
        forall|j: int| bound <= j < fingers.len() ==> !(#[trigger] fingers[j]).precedes(own_pos, key),
        exists|j: int| 0 <= j < bound && (#[trigger] fingers[j]).precedes(own_pos, key),
    ensures
        exists|i: int| is_closest_preceding(fingers, own_pos, key, i),
    decreases bound,
{
    if fingers[bound - 1].precedes(own_pos, key) {
        assert(is_closest_preceding(fingers, own_pos, key, bound - 1));
    } else {
        let j = choose|j: int| 0 <= j < bound && (#[trigger] fingers[j]).precedes(own_pos, key);
        assert(j < bound - 1);
        lemma_last_preceding_below(fingers, own_pos, key, bound - 1);
    }
}

/// Where some entry precedes a key, one entry is the last that does.
pub proof fn lemma_closest_preceding_exists(fingers: Seq<FingerEntryView>, own_pos: int, key: int)
    requires
        !none_precedes(fingers, own_pos, key),
    ensures
        exists|i: int| is_closest_preceding(fingers, own_pos, key, i),
{
    let j = choose|j: int| 0 <= j < fingers.len() && (#[trigger] fingers[j]).precedes(own_pos, key);
    assert(fingers[j].precedes(own_pos, key));
    lemma_last_preceding_below(fingers, own_pos, key, fingers.len() as int);
}

impl FingerTable {
    /// Whether the table has one entry for each bit of the ring's width.
    pub open spec fn wf(&self) -> bool {
        self.fingers@.len() == RING_BITS
    }

    /// Whether the entries stand at the finger starts of the node at `pos`.
    pub open spec fn starts_at(&self, pos: int) -> bool {
        &&& self.wf()
        &&& forall|i: int|
            0 <= i < RING_BITS ==> (#[trigger] self@[i]).key as int == spec_finger_start(
                pos,
                i as nat,
            )
    }

    /// Whether no entry points to a peer.
    pub open spec fn all_unset(&self) -> bool {
        forall|i: int| 0 <= i < self@.len() ==> !(#[trigger] self@[i]).is_set()
    }

    /// The table of the node at `key`: every start computed, no address set.
    pub fn new(key: &HashPos) -> (table: FingerTable)
        ensures
            table.starts_at(*key as int),
            table.all_unset(),
    {
        let mut fingers: Vec<FingerEntry> = Vec::new();
        let count: usize = HashPos::finger_count();
        let mut i: usize = 0;
        while i < count
            invariant
                i <= count == RING_BITS,
                fingers@.len() == i,
                forall|j: int|
                    0 <= j < i ==> (#[trigger] fingers@[j]).key as int == spec_finger_start(
                        *key as int,
                        j as nat,
                    ),
                forall|j: int| 0 <= j < i ==> (#[trigger] fingers@[j]).address@.len() == 0,
            decreases RING_BITS - i,
        {
            fingers.push(FingerEntry { key: finger_start(*key, i), address: String::new() });
            i = i + 1;
        }
        FingerTable { fingers }
    }

    /// Points entry `index` to `address`.
    pub fn set_finger(&mut self, index: usize, address: Address)
        requires
            index < old(self).fingers@.len(),
        ensures
            final(self)@ == old(self)@.update(
                index as int,
                FingerEntryView { key: old(self)@[index as int].key, address: address@ },
            ),
            forall|pos: int| old(self).starts_at(pos) ==> final(self).starts_at(pos),
    {
        let key: HashPos = self.fingers[index].key;
        self.fingers.set(index, FingerEntry { key, address });
        assert(self@ =~= old(self)@.update(
            index as int,
            FingerEntryView { key: old(self)@[index as int].key, address: address@ },
        ));
        assert forall|pos: int| old(self).starts_at(pos) implies self.starts_at(pos) by {
            assert forall|i: int| 0 <= i < RING_BITS implies (#[trigger] self@[i]).key as int
                == spec_finger_start(pos, i as nat) by {
                assert(self@[i].key == old(self)@[i].key);
            }
        }
    }

    /// Points every entry to `address`.
    pub fn set_all_fingers(&mut self, address: &Address)
        ensures
            final(self)@.len() == old(self)@.len(),
            forall|i: int|
                0 <= i < old(self)@.len() ==> #[trigger] final(self)@[i] == (FingerEntryView {
                    key: old(self)@[i].key,
                    address: address@,
                }),
            forall|pos: int| old(self).starts_at(pos) ==> final(self).starts_at(pos),
    {
        let mut i: usize = 0;
        while i < self.fingers.len()
            invariant
                i <= self.fingers@.len(),
                self.fingers@.len() == old(self).fingers@.len(),
                forall|j: int|
                    0 <= j < i ==> (#[trigger] self.fingers@[j])@ == (FingerEntryView {
                        key: old(self).fingers@[j].key,
                        address: address@,
                    }),
                forall|j: int|
                    i <= j < self.fingers@.len() ==> #[trigger] self.fingers@[j] == old(
                        self,
                    ).fingers@[j],
            decreases self.fingers@.len() - i,
        {
            let key: HashPos = self.fingers[i].key;
            self.fingers.set(i, FingerEntry { key, address: address.clone() });
            i = i + 1;
        }
        assert forall|pos: int| old(self).starts_at(pos) implies self.starts_at(pos) by {
            assert forall|i: int| 0 <= i < RING_BITS implies (#[trigger] self@[i]).key as int
                == spec_finger_start(pos, i as nat) by {
                assert(self@[i].key == old(self)@[i].key);
            }
        }
    }

    /// The address entry `index` points to.
    pub fn finger_address(&self, index: usize) -> (address: &Address)
        requires
            index < self.fingers@.len(),
        ensures
            address@ == self@[index as int].address,
    {
        &self.fingers[index].address
    }

    /// The peer to pass a lookup of `key` on to: the last entry whose peer
    /// lies strictly between this node and `key`, unset entries being passed
    /// over, named at its own position. Where there is none, it is `own`,
    /// the entry of this node.
    pub fn closest_preceding_finger(&self, own: &FingerEntry, key: HashPos) -> (closest:
        FingerEntry)
        ensures
            closest@ == spec_closest_preceding(self@, own@, key as int),
            none_precedes(self@, own.key as int, key as int) ==> closest@ == own@,
            forall|i: int|
                is_closest_preceding(self@, own.key as int, key as int, i) ==> closest@
                    == self@[i].referral(),
            closest@ == own@ || closest@.precedes(own.key as int, key as int),
            closest@ == own@ || closest@.names_node(),
    {
        let mut i: usize = self.fingers.len();
        while i > 0
            invariant
                i <= self.fingers@.len(),
                forall|j: int|
                    i <= j < self.fingers@.len() ==> !(#[trigger] self.fingers@[j])@.precedes(
                        own.key as int,
                        key as int,
                    ),
            decreases i,
        {
            i = i - 1;
            let finger = &self.fingers[i];
            if finger.is_set() {
                let node_pos: HashPos = hash_address(&finger.address);
                if is_between(node_pos, own.key, key, true, true) {
                    proof {
                        assert(is_closest_preceding(self@, own.key as int, key as int, i as int));
                        assert(!none_precedes(self@, own.key as int, key as int));
                        let c = choose|c: int|
                            is_closest_preceding(self@, own.key as int, key as int, c);
                        lemma_closest_preceding_unique(
                            self@,
                            own.key as int,
                            key as int,
                            c,
                            i as int,
                        );
                    }
                    return FingerEntry { key: node_pos, address: finger.address.clone() };
                }
            }
        }
        own.clone()
    }
}

} // verus!
