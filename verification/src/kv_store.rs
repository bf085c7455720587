//! The local store of a node: a map from keys to values that can list and
//! give up the pairs whose keys fall on an arc of the ring.

use crate::crypto::{hash_key, key_pos};
use crate::ring::{between, is_between, HashPos};
use crate::types::{Key, Value};
use vstd::prelude::*;

verus! {

/// A stored pair, as the bytes it holds.
pub type PairView = (Seq<u8>, Seq<u8>);

/// What a store holds.
pub type StoreView = Map<Seq<u8>, Seq<u8>>;

/// The pairs of `pairs`, each as the bytes it holds.
pub open spec fn pair_views(pairs: Seq<(Key, Value)>) -> Seq<PairView> {
    Seq::new(pairs.len(), |i: int| (pairs[i].0@, pairs[i].1@))
}

/// Whether some pair of `pairs` has the key `key`.
pub open spec fn has_key(pairs: Seq<PairView>, key: Seq<u8>) -> bool {
    exists|i: int| 0 <= i < pairs.len() && (#[trigger] pairs[i]).0 == key
}

/// Whether no key occurs twice in `pairs`.
pub open spec fn distinct_keys(pairs: Seq<PairView>) -> bool {
    forall|i: int, j: int|
        0 <= i < j < pairs.len() ==> (#[trigger] pairs[i]).0 != (#[trigger] pairs[j]).0
}

/// The map that `pairs` spell out, where no key occurs twice.
pub open spec fn pairs_map(pairs: Seq<PairView>) -> StoreView {
    Map::new(
        |key: Seq<u8>| has_key(pairs, key),
        |key: Seq<u8>|
            pairs[choose|i: int| 0 <= i < pairs.len() && (#[trigger] pairs[i]).0 == key].1,
    )
}

/// The store `store` after the pairs of `pairs` were put into it one after
/// the other, so that of two pairs with one key the later one stays.
pub open spec fn ingest(store: StoreView, pairs: Seq<PairView>) -> StoreView
    decreases pairs.len(),
{
    if pairs.len() == 0 {
        store
    } else {
        ingest(store, pairs.drop_last()).insert(pairs.last().0, pairs.last().1)
    }
}

/// Whether the position of `key` lies on the arc from `lower` to `upper`.
pub open spec fn key_on_arc(
    key: Seq<u8>,
    lower: int,
    upper: int,
    left_open: bool,
    right_open: bool,
) -> bool {
    between(key_pos(key), lower, upper, left_open, right_open)
}

/// The part of `store` whose keys lie on the arc from `lower` to `upper`.
pub open spec fn on_arc_part(
    store: StoreView,
    lower: int,
    upper: int,
    left_open: bool,
    right_open: bool,
) -> StoreView {
    store.restrict(Set::new(|key: Seq<u8>| key_on_arc(key, lower, upper, left_open, right_open)))
}

/// The part of `store` whose keys lie off the arc from `lower` to `upper`.
pub open spec fn off_arc_part(
    store: StoreView,
    lower: int,
    upper: int,
    left_open: bool,
    right_open: bool,
) -> StoreView {
    store.restrict(Set::new(|key: Seq<u8>| !key_on_arc(key, lower, upper, left_open, right_open)))
}

/// A key-value store that a node can keep its pairs in.
pub trait KVStore {
    /// What the store holds.
    spec fn contents(&self) -> StoreView;

    /// Whether the store is in order.
    spec fn wf(&self) -> bool;

    /// The value stored under `key`, if there is one.
    fn get(&self, key: &Key) -> (value: Option<&Value>)
        requires
            self.wf(),
        ensures
            match value {
                Some(v) => self.contents().contains_key(key@) && v@ == self.contents()[key@],
                None => !self.contents().contains_key(key@),
            },
    ;

    /// Stores `value` under `key` and says whether the key was there before.
    fn put(&mut self, key: &Key, value: &Value) -> (existed: bool)
        requires
            old(self).wf(),
        ensures
            final(self).wf(),
            final(self).contents() == old(self).contents().insert(key@, value@),
            existed == old(self).contents().contains_key(key@),
    ;

    /// Removes `key` and says whether it was there.
    fn delete(&mut self, key: &Key) -> (existed: bool)
        requires
            old(self).wf(),
        ensures
            final(self).wf(),
            final(self).contents() == old(self).contents().remove(key@),
            existed == old(self).contents().contains_key(key@),
    ;

    /// The pairs whose keys lie on the arc from `lower` to `upper`, each
    /// once.
    fn iter(&self, lower: HashPos, upper: HashPos, left_open: bool, right_open: bool) -> (pairs:
        Vec<(Key, Value)>)
        requires
            self.wf(),
        ensures
            distinct_keys(pair_views(pairs@)),
            pairs_map(pair_views(pairs@)) == on_arc_part(
                self.contents(),
                lower as int,
                upper as int,
                left_open,
                right_open,
            ),
    ;

    /// The number of pairs in the store.
    fn size(&self) -> (count: usize)
        requires
            self.wf(),
        ensures
            self.contents().dom().finite(),
            count == self.contents().len(),
    ;
}

/// Whether two keys are the same.
pub fn keys_equal(a: &Key, b: &Key) -> (same: bool)
    ensures
        same == (a@ == b@),
{
    let mut i: usize = 0;
    while i < 32
        invariant
            i <= 32,
            forall|j: int| 0 <= j < i ==> a@[j] == b@[j],
        decreases 32 - i,
    {
        if a[i] != b[i] {
            return false;
        }
        i = i + 1;
    }
    assert(a@ =~= b@);
    true
}

/// A copy of `value`.
pub fn clone_value(value: &Value) -> (copy: Value)
    ensures
        copy@ == value@,
{
    let copy = value.clone();
    assert(copy@ =~= value@);
    copy
}

/// In a sequence without a repeated key, each pair is what the map holds
/// for its key.
pub proof fn lemma_pairs_map_index(pairs: Seq<PairView>, i: int)
    requires
        distinct_keys(pairs),
        0 <= i < pairs.len(),
    ensures
        pairs_map(pairs).contains_key(pairs[i].0),
        pairs_map(pairs)[pairs[i].0] == pairs[i].1,
{
    let key = pairs[i].0;
    assert(has_key(pairs, key));
    let c = choose|c: int| 0 <= c < pairs.len() && (#[trigger] pairs[c]).0 == key;
    assert(c == i) by {
        if c < i {
            assert(pairs[c].0 != pairs[i].0);
        } else if i < c {
            assert(pairs[i].0 != pairs[c].0);
        }
    }
}

/// A sequence without a repeated key spells out a finite map with one
/// entry for each of its pairs.
pub proof fn lemma_pairs_map_len(pairs: Seq<PairView>)
    requires
        distinct_keys(pairs),
    ensures
        pairs_map(pairs).dom().finite(),
        pairs_map(pairs).len() == pairs.len(),
    decreases pairs.len(),
{
    if pairs.len() == 0 {
        assert(pairs_map(pairs).dom() =~= Set::<Seq<u8>>::empty());
    } else {
        let front = pairs.drop_last();
        let last = pairs.last();
        assert(distinct_keys(front)) by {
            assert forall|i: int, j: int| 0 <= i < j < front.len() implies (#[trigger] front[i]).0
                != (#[trigger] front[j]).0 by {
                assert(pairs[i].0 != pairs[j].0);
            }
        }
        lemma_pairs_map_len(front);
        assert(!pairs_map(front).dom().contains(last.0)) by {
            if has_key(front, last.0) {
                let c = choose|c: int| 0 <= c < front.len() && (#[trigger] front[c]).0 == last.0;
                assert(pairs[c].0 != pairs[pairs.len() - 1].0);
            }
        }
        assert(pairs_map(pairs).dom() =~= pairs_map(front).dom().insert(last.0)) by {
            assert forall|key: Seq<u8>| has_key(pairs, key) <==> (has_key(front, key) || key
                == last.0) by {
                if has_key(pairs, key) {
                    let c = choose|c: int| 0 <= c < pairs.len() && (#[trigger] pairs[c]).0 == key;
                    if c < front.len() {
                        assert(front[c].0 == key);
                    }
                }
                if has_key(front, key) {
                    let c = choose|c: int| 0 <= c < front.len() && (#[trigger] front[c]).0 == key;
                    assert(pairs[c].0 == key);
                }
                if key == last.0 {
                    assert(pairs[pairs.len() - 1].0 == key);
                }
            }
        }
    }
}

/// The test that keeps the pairs whose keys lie on the arc from `lower` to
/// `upper`, or, where `on_arc` is false, those whose keys lie off it.
pub open spec fn arc_test(
    lower: int,
    upper: int,
    left_open: bool,
    right_open: bool,
    on_arc: bool,
) -> spec_fn(PairView) -> bool {
    |pair: PairView| key_on_arc(pair.0, lower, upper, left_open, right_open) == on_arc
}

/// The pairs that a test keeps are pairs of the sequence it was put to, and
/// all of those that pass it; no key is repeated among them if none was
/// before.
pub proof fn lemma_filter_pairs(pairs: Seq<PairView>, test: spec_fn(PairView) -> bool)
    requires
        distinct_keys(pairs),
    ensures
        distinct_keys(pairs.filter(test)),
        forall|pair: PairView| #[trigger]
            pairs.filter(test).contains(pair) <==> pairs.contains(pair) && test(pair),
    decreases pairs.len(),
{
    reveal(Seq::filter);
    let kept = pairs.filter(test);
    if pairs.len() == 0 {
    } else {
        let front = pairs.drop_last();
        let last = pairs.last();
        assert(distinct_keys(front)) by {
            assert forall|i: int, j: int| 0 <= i < j < front.len() implies (#[trigger] front[i]).0
                != (#[trigger] front[j]).0 by {
                assert(pairs[i].0 != pairs[j].0);
            }
        }
        lemma_filter_pairs(front, test);
        let sub = front.filter(test);
        assert forall|pair: PairView| #[trigger]
            kept.contains(pair) <==> pairs.contains(pair) && test(pair) by {
            if kept.contains(pair) {
                let j = choose|j: int| 0 <= j < kept.len() && kept[j] == pair;
                if j < sub.len() {
                    assert(sub.contains(pair));
                    let k = choose|k: int| 0 <= k < front.len() && front[k] == pair;
                    assert(pairs[k] == pair);
                } else {
                    assert(pairs[pairs.len() - 1] == pair);
                }
            }
            if pairs.contains(pair) && test(pair) {
                let k = choose|k: int| 0 <= k < pairs.len() && pairs[k] == pair;
                if k < front.len() {
                    assert(front[k] == pair);
                    assert(sub.contains(pair));
                    let j = choose|j: int| 0 <= j < sub.len() && sub[j] == pair;
                    assert(kept[j] == pair);
                } else {
                    assert(kept[kept.len() - 1] == pair);
                }
            }
        }
        assert forall|a: int, b: int| 0 <= a < b < kept.len() implies (#[trigger] kept[a]).0 != (
        #[trigger] kept[b]).0 by {
            if b < sub.len() {
                assert(sub[a].0 != sub[b].0);
            } else {
                assert(sub.contains(sub[a]));
                let k = choose|k: int| 0 <= k < front.len() && front[k] == sub[a];
                assert(pairs[k].0 != pairs[pairs.len() - 1].0);
            }
        }
    }
}

/// Filtering the pairs of a store by the arc their keys lie on leaves the
/// part of the store on that arc, or off it.
pub proof fn lemma_filter_by_arc(
    pairs: Seq<PairView>,
    lower: int,
    upper: int,
    left_open: bool,
    right_open: bool,
    on_arc: bool,
)
    requires
        distinct_keys(pairs),
    ensures
        distinct_keys(pairs.filter(arc_test(lower, upper, left_open, right_open, on_arc))),
        pairs_map(pairs.filter(arc_test(lower, upper, left_open, right_open, on_arc))) == (
        if on_arc {
            on_arc_part(pairs_map(pairs), lower, upper, left_open, right_open)
        } else {
            off_arc_part(pairs_map(pairs), lower, upper, left_open, right_open)
        }),
{
    let test = arc_test(lower, upper, left_open, right_open, on_arc);
    let kept = pairs.filter(test);
    let part = if on_arc {
        on_arc_part(pairs_map(pairs), lower, upper, left_open, right_open)
    } else {
        off_arc_part(pairs_map(pairs), lower, upper, left_open, right_open)
    };
    lemma_filter_pairs(pairs, test);
    assert forall|key: Seq<u8>| #[trigger] pairs_map(kept).contains_key(key) <==> part.contains_key(
        key,
    ) by {
        if has_key(kept, key) {
            let j = choose|j: int| 0 <= j < kept.len() && (#[trigger] kept[j]).0 == key;
            assert(kept.contains(kept[j]));
            let k = choose|k: int| 0 <= k < pairs.len() && pairs[k] == kept[j];
            assert(pairs[k].0 == key);
        }
        if part.contains_key(key) {
            let k = choose|k: int| 0 <= k < pairs.len() && (#[trigger] pairs[k]).0 == key;
            assert(pairs.contains(pairs[k]));
            assert(kept.contains(pairs[k]));
            let j = choose|j: int| 0 <= j < kept.len() && kept[j] == pairs[k];
            assert(kept[j].0 == key);
        }
    }
    assert forall|key: Seq<u8>| #[trigger] pairs_map(kept).contains_key(key) implies pairs_map(
        kept,
    )[key] == part[key] by {
        let j = choose|j: int| 0 <= j < kept.len() && (#[trigger] kept[j]).0 == key;
        assert(kept.contains(kept[j]));
        let k = choose|k: int| 0 <= k < pairs.len() && pairs[k] == kept[j];
        lemma_pairs_map_index(kept, j);
        lemma_pairs_map_index(pairs, k);
    }
    assert(pairs_map(kept) =~= part);
}

/// A store that keeps its pairs in memory.
#[derive(Debug, Default)]
pub struct HashMapStore {
    entries: Vec<(Key, Value)>,
}

impl HashMapStore {
    /// The pairs of the store, in the order it keeps them.
    pub closed spec fn pairs(&self) -> Seq<PairView> {
        pair_views(self.entries@)
    }

    /// An empty store.
    pub fn new() -> (store: Self)
        ensures
            store.wf(),
            store.contents() == Map::<Seq<u8>, Seq<u8>>::empty(),
    {
        let store = HashMapStore { entries: Vec::new() };
        assert(store.contents() =~= Map::<Seq<u8>, Seq<u8>>::empty());
        store
    }

    /// The place of `key` among the entries, if it is there.
    fn find(&self, key: &Key) -> (place: Option<usize>)
        requires
            self.wf(),
        ensures
            match place {
                Some(i) => i < self.entries@.len() && self.pairs()[i as int].0 == key@,
                None => !has_key(self.pairs(), key@),
            },
    {
        let mut i: usize = 0;
        while i < self.entries.len()
            invariant
                i <= self.entries@.len(),
                forall|j: int| 0 <= j < i ==> (#[trigger] self.pairs()[j]).0 != key@,
            decreases self.entries@.len() - i,
        {
            if keys_equal(&self.entries[i].0, key) {
                return Some(i);
            }
            i = i + 1;
        }
        None
    }

    /// Puts each pair of `pairs` into the store, in order.
    pub fn insert_all(&mut self, pairs: &Vec<(Key, Value)>)
        requires
            old(self).wf(),
        ensures
            final(self).wf(),
            final(self).contents() == ingest(old(self).contents(), pair_views(pairs@)),
    {
        let mut i: usize = 0;
        while i < pairs.len()
            invariant
                i <= pairs@.len(),
                self.wf(),
                self.contents() == ingest(old(self).contents(), pair_views(pairs@).take(i as int)),
            decreases pairs@.len() - i,
        {
            let ghost before = pair_views(pairs@).take(i as int);
            let ghost after = pair_views(pairs@).take(i + 1);
            assert(after.drop_last() =~= before);
            assert(after.last() == (pairs@[i as int].0@, pairs@[i as int].1@));
            self.put(&pairs[i].0, &pairs[i].1);
            i = i + 1;
        }
        assert(pair_views(pairs@).take(pairs@.len() as int) =~= pair_views(pairs@));
    }

    /// The pairs whose keys lie on the arc from `lower` to `upper`, or,
    /// where `on_arc` is false, those whose keys lie off it.
    fn select(
        &self,
        lower: HashPos,
        upper: HashPos,
        left_open: bool,
        right_open: bool,
        on_arc: bool,
    ) -> (chosen: Vec<(Key, Value)>)
        ensures
            pair_views(chosen@) == self.pairs().filter(
                arc_test(lower as int, upper as int, left_open, right_open, on_arc),
            ),
    {
        let ghost test = arc_test(lower as int, upper as int, left_open, right_open, on_arc);
        let mut chosen: Vec<(Key, Value)> = Vec::new();
        let mut i: usize = 0;
        proof {
            reveal(Seq::filter);
        }
        assert(self.pairs().take(0).filter(test) =~= Seq::<PairView>::empty());
        assert(pair_views(chosen@) =~= Seq::<PairView>::empty());
        while i < self.entries.len()
            invariant
                i <= self.entries@.len(),
                test == arc_test(lower as int, upper as int, left_open, right_open, on_arc),
                pair_views(chosen@) == self.pairs().take(i as int).filter(test),
            decreases self.entries@.len() - i,
        {
            proof {
                reveal(Seq::filter);
            }
            let ghost before = self.pairs().take(i as int);
            let ghost after = self.pairs().take(i + 1);
            assert(after.drop_last() =~= before);
            assert(after.last() == self.pairs()[i as int]);
            let ghost shown = pair_views(chosen@);
            let pos: HashPos = hash_key(&self.entries[i].0);
            if is_between(pos, lower, upper, left_open, right_open) == on_arc {
                chosen.push((self.entries[i].0, clone_value(&self.entries[i].1)));
                assert(pair_views(chosen@) =~= shown.push(self.pairs()[i as int]));
            }
            i = i + 1;
        }
        assert(self.pairs().take(self.entries@.len() as int) =~= self.pairs());
        chosen
    }

    /// Takes out of the store the pairs whose keys lie on the closed arc
    /// from `lower` to `upper`, and returns them, each once.
    pub fn take_range(&mut self, lower: HashPos, upper: HashPos) -> (pairs: Vec<(Key, Value)>)
        requires
            old(self).wf(),
        ensures
            final(self).wf(),
            distinct_keys(pair_views(pairs@)),
            pairs_map(pair_views(pairs@)) == on_arc_part(
                old(self).contents(),
                lower as int,
                upper as int,
                false,
                false,
            ),
            final(self).contents() == off_arc_part(
                old(self).contents(),
                lower as int,
                upper as int,
                false,
                false,
            ),
    {
        let pairs = self.select(lower, upper, false, false, true);
        let kept = self.select(lower, upper, false, false, false);
        proof {
            lemma_filter_by_arc(self.pairs(), lower as int, upper as int, false, false, true);
            lemma_filter_by_arc(self.pairs(), lower as int, upper as int, false, false, false);
        }
        self.entries = kept;
        pairs
    }
}

impl KVStore for HashMapStore {
    closed spec fn contents(&self) -> StoreView {
        pairs_map(self.pairs())
    }

    closed spec fn wf(&self) -> bool {
        distinct_keys(self.pairs())
    }

    fn get(&self, key: &Key) -> (value: Option<&Value>) {
        match self.find(key) {
            Some(i) => {
                proof {
                    lemma_pairs_map_index(self.pairs(), i as int);
                }
                Some(&self.entries[i].1)
            },
            None => None,
        }
    }

    fn put(&mut self, key: &Key, value: &Value) -> (existed: bool) {
        let ghost before = self.pairs();
        match self.find(key) {
            Some(i) => {
                self.entries.set(i, (*key, clone_value(value)));
                proof {
                    let after = self.pairs();
                    assert(after =~= before.update(i as int, (key@, value@)));
                    assert(distinct_keys(after)) by {
                        assert forall|a: int, b: int| 0 <= a < b < after.len() implies (
                        #[trigger] after[a]).0 != (#[trigger] after[b]).0 by {
                            assert(before[a].0 != before[b].0);
                        }
                    }
                    assert(has_key(before, key@));
                    assert(pairs_map(after) =~= pairs_map(before).insert(key@, value@)) by {
                        assert forall|k: Seq<u8>| has_key(after, k) <==> (has_key(before, k) || k
                            == key@) by {
                            if has_key(after, k) {
                                let c = choose|c: int|
                                    0 <= c < after.len() && (#[trigger] after[c]).0 == k;
                                assert(before[c].0 == k);
                            }
                            if has_key(before, k) {
                                let c = choose|c: int|
                                    0 <= c < before.len() && (#[trigger] before[c]).0 == k;
                                assert(after[c].0 == k);
                            }
                        }
                        assert forall|k: Seq<u8>| has_key(after, k) implies pairs_map(after)[k] == (
                        if k == key@ {
                            value@
                        } else {
                            pairs_map(before)[k]
                        }) by {
                            let c = choose|c: int|
                                0 <= c < after.len() && (#[trigger] after[c]).0 == k;
                            lemma_pairs_map_index(after, c);
                            lemma_pairs_map_index(before, c);
                        }
                    }
                }
                true
            },
            None => {
                self.entries.push((*key, clone_value(value)));
                proof {
                    let after = self.pairs();
                    assert(after =~= before.push((key@, value@)));
                    assert(distinct_keys(after)) by {
                        assert forall|a: int, b: int| 0 <= a < b < after.len() implies (
                        #[trigger] after[a]).0 != (#[trigger] after[b]).0 by {
                            if b < before.len() {
                                assert(before[a].0 != before[b].0);
                            } else {
                                assert(before[a].0 != key@);
                            }
                        }
                    }
                    assert(pairs_map(after) =~= pairs_map(before).insert(key@, value@)) by {
                        assert forall|k: Seq<u8>| has_key(after, k) <==> (has_key(before, k) || k
                            == key@) by {
                            if has_key(after, k) {
                                let c = choose|c: int|
                                    0 <= c < after.len() && (#[trigger] after[c]).0 == k;
                                if c < before.len() {
                                    assert(before[c].0 == k);
                                }
                            }
                            if has_key(before, k) {
                                let c = choose|c: int|
                                    0 <= c < before.len() && (#[trigger] before[c]).0 == k;
                                assert(after[c].0 == k);
                            }
                            if k == key@ {
                                assert(after[after.len() - 1].0 == k);
                            }
                        }
                        assert forall|k: Seq<u8>| has_key(after, k) implies pairs_map(after)[k] == (
                        if k == key@ {
                            value@
                        } else {
                            pairs_map(before)[k]
                        }) by {
                            let c = choose|c: int|
                                0 <= c < after.len() && (#[trigger] after[c]).0 == k;
                            lemma_pairs_map_index(after, c);
                            if c < before.len() {
                                lemma_pairs_map_index(before, c);
                            }
                        }
                    }
                }
                false
            },
        }
    }

    fn delete(&mut self, key: &Key) -> (existed: bool) {
        let ghost before = self.pairs();
        match self.find(key) {
            Some(i) => {
                self.entries.remove(i);
                proof {
                    let after = self.pairs();
                    assert(after =~= before.remove(i as int));
                    assert(distinct_keys(after)) by {
                        assert forall|a: int, b: int| 0 <= a < b < after.len() implies (
                        #[trigger] after[a]).0 != (#[trigger] after[b]).0 by {
                            let a0 = if a < i { a } else { a + 1 };
                            let b0 = if b < i { b } else { b + 1 };
                            assert(before[a0].0 != before[b0].0);
                        }
                    }
                    assert(has_key(before, key@));
                    assert(pairs_map(after) =~= pairs_map(before).remove(key@)) by {
                        assert forall|k: Seq<u8>| has_key(after, k) <==> (has_key(before, k) && k
                            != key@) by {
                            if has_key(after, k) {
                                let c = choose|c: int|
                                    0 <= c < after.len() && (#[trigger] after[c]).0 == k;
                                let c0 = if c < i { c } else { c + 1 };
                                assert(before[c0].0 == k);
                                if c0 < i {
                                    assert(before[c0].0 != before[i as int].0);
                                } else {
                                    assert(before[i as int].0 != before[c0].0);
                                }
                            }
                            if has_key(before, k) && k != key@ {
                                let c = choose|c: int|
                                    0 <= c < before.len() && (#[trigger] before[c]).0 == k;
                                let c1 = if c < i { c } else { c - 1 };
                                assert(after[c1].0 == k);
                            }
                        }
                        assert forall|k: Seq<u8>| has_key(after, k) implies pairs_map(after)[k]
                            == pairs_map(before)[k] by {
                            let c = choose|c: int|
                                0 <= c < after.len() && (#[trigger] after[c]).0 == k;
                            let c0 = if c < i { c } else { c + 1 };
                            lemma_pairs_map_index(after, c);
                            lemma_pairs_map_index(before, c0);
                        }
                    }
                }
                true
            },
            None => {
                assert(pairs_map(before) =~= pairs_map(before).remove(key@));
                false
            },
        }
    }

    fn iter(&self, lower: HashPos, upper: HashPos, left_open: bool, right_open: bool) -> (pairs:
        Vec<(Key, Value)>) {
        proof {
            lemma_filter_by_arc(
                self.pairs(),
                lower as int,
                upper as int,
                left_open,
                right_open,
                true,
            );
        }
        self.select(lower, upper, left_open, right_open, true)
    }

    fn size(&self) -> (count: usize) {
        proof {
            lemma_pairs_map_len(self.pairs());
        }
        self.entries.len()
    }
}

} // verus!
