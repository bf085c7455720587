//! The successor list: the next few nodes on the ring, kept so that the
//! node survives the loss of its immediate successor.

use crate::types::Address;
use vstd::prelude::*;

verus! {

/// The number of successors a node keeps.
pub const SUCCESSOR_LIST_SIZE: usize = 3;

/// The successors of a node, nearest first, with the node's own address.
#[derive(Debug, Default)]
pub struct SuccessorList {
    pub own_address: Address,
    pub successors: Vec<Address>,
}

/// What a [`SuccessorList`] holds.
pub struct SuccessorListView {
    pub own_address: Seq<char>,
    pub successors: Seq<Seq<char>>,
}

/// The addresses of `list`, each as the text it holds.
pub open spec fn address_views(list: Seq<Address>) -> Seq<Seq<char>> {
    Seq::new(list.len(), |i: int| list[i]@)
}

impl View for SuccessorList {
    type V = SuccessorListView;

    open spec fn view(&self) -> SuccessorListView {
        SuccessorListView {
            own_address: self.own_address@,
            successors: address_views(self.successors@),
        }
    }
}

impl SuccessorListView {
    /// The list a node passes to the node before it: the owner first, then
    /// the owner's successors, cut to the length a list may have.
    pub open spec fn shifted(self) -> Seq<Seq<char>> {
        let all = seq![self.own_address] + self.successors;
        if all.len() <= SUCCESSOR_LIST_SIZE {
            all
        } else {
            all.take(SUCCESSOR_LIST_SIZE as int)
        }
    }
}

/// A copy of `list`.
fn clone_addresses(list: &Vec<Address>) -> (copy: Vec<Address>)
    ensures
        address_views(copy@) == address_views(list@),
{
    let mut copy: Vec<Address> = Vec::new();
    let mut i: usize = 0;
    while i < list.len()
        invariant
            i <= list@.len(),
            copy@.len() == i,
            forall|j: int| 0 <= j < i ==> (#[trigger] copy@[j])@ == list@[j]@,
        decreases list@.len() - i,
    {
        copy.push(list[i].clone());
        i = i + 1;
    }
    assert(address_views(copy@) =~= address_views(list@));
    copy
}

impl Clone for SuccessorList {
    fn clone(&self) -> (copy: Self)
        ensures
            copy@ == self@,
    {
        SuccessorList {
            own_address: self.own_address.clone(),
            successors: clone_addresses(&self.successors),
        }
    }
}

impl SuccessorList {
    /// Whether the list names at least one successor and no more than it
    /// may keep.
    pub open spec fn wf(&self) -> bool {
        1 <= self.successors@.len() <= SUCCESSOR_LIST_SIZE
    }

    /// The list of the node at `own_address` whose only known successor is
    /// `direct_successor`.
    pub fn new(own_address: &Address, direct_successor: &Address) -> (list: Self)
        ensures
            list@ == (SuccessorListView {
                own_address: own_address@,
                successors: seq![direct_successor@],
            }),
            list.wf(),
    {
        let mut successors: Vec<Address> = Vec::new();
        successors.push(direct_successor.clone());
        let list = SuccessorList { own_address: own_address.clone(), successors };
        assert(list@.successors =~= seq![direct_successor@]);
        list
    }

    /// Rewrites the list from the one that a successor reported: that
    /// successor comes first, its own successors follow, and what exceeds
    /// the length of a list is dropped.
    pub fn update_with_other_succ_list(&mut self, other_list: SuccessorList)
        ensures
            final(self)@.own_address == old(self)@.own_address,
            final(self)@.successors == other_list@.shifted(),
            final(self).wf(),
    {
        let mut successors: Vec<Address> = Vec::new();
        successors.push(other_list.own_address.clone());
        let ghost all = seq![other_list@.own_address] + other_list@.successors;
        let mut i: usize = 0;
        while i < other_list.successors.len() && successors.len() < SUCCESSOR_LIST_SIZE
            invariant
                i <= other_list.successors@.len(),
                successors@.len() == i + 1,
                successors@.len() <= SUCCESSOR_LIST_SIZE,
                all == seq![other_list@.own_address] + other_list@.successors,
                forall|j: int| 0 <= j <= i ==> (#[trigger] successors@[j])@ == all[j],
            decreases other_list.successors@.len() - i,
        {
            successors.push(other_list.successors[i].clone());
            i = i + 1;
        }
        self.successors = successors;
        assert(self@.successors =~= other_list@.shifted());
    }

    /// The immediate successor.
    pub fn first(&self) -> (address: &Address)
        requires
            self.successors@.len() > 0,
        ensures
            address@ == self@.successors[0],
    {
        &self.successors[0]
    }

    /// Replaces the immediate successor.
    pub fn set_first(&mut self, address: &Address)
        requires
            old(self).successors@.len() > 0,
        ensures
            final(self)@ == (SuccessorListView {
                own_address: old(self)@.own_address,
                successors: old(self)@.successors.update(0, address@),
            }),
            final(self).wf() == old(self).wf(),
    {
        self.successors.set(0, address.clone());
        assert(self@.successors =~= old(self)@.successors.update(0, address@));
    }

    /// Falls back to a list that names only the node itself.
    pub fn reset_to_self(&mut self)
        ensures
            final(self)@ == (SuccessorListView {
                own_address: old(self)@.own_address,
                successors: seq![old(self)@.own_address],
            }),
            final(self).wf(),
    {
        let mut successors: Vec<Address> = Vec::new();
        successors.push(self.own_address.clone());
        self.successors = successors;
        assert(self@.successors =~= seq![old(self)@.own_address]);
    }

    /// The first successor that `probe` finds alive, if there is one. The
    /// successors are probed in order, and none after the one returned.
    pub fn first_live<F: Fn(&Address) -> bool>(&self, probe: F) -> (live: Option<Address>)
        requires
            forall|address: &Address| #[trigger] probe.requires((address,)),
        ensures
            match live {
                Some(address) => exists|i: int|
                    {
                        &&& 0 <= i < self.successors@.len()
                        &&& address@ == (#[trigger] self.successors@[i])@
                        &&& probe.ensures((&self.successors@[i],), true)
                        &&& forall|j: int|
                            0 <= j < i ==> probe.ensures((&#[trigger] self.successors@[j],), false)
                    },
                None => forall|j: int|
                    0 <= j < self.successors@.len() ==> probe.ensures(
                        (&#[trigger] self.successors@[j],),
                        false,
                    ),
            },
    {
        let mut i: usize = 0;
        while i < self.successors.len()
            invariant
                i <= self.successors@.len(),
                forall|address: &Address| #[trigger] probe.requires((address,)),
                forall|j: int|
                    0 <= j < i ==> probe.ensures((&#[trigger] self.successors@[j],), false),
            decreases self.successors@.len() - i,
        {
            if probe(&self.successors[i]) {
                return Some(self.successors[i].clone());
            }
            i = i + 1;
        }
        None
    }
}

} // verus!
