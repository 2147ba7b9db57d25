use vstd::prelude::*;

use bevy::platform::collections::HashMap;
use bevy::platform::hash::FixedHasher;

use crate::track::EntityId;

verus! {

#[verifier::external_type_specification]
#[verifier::external_body]
#[verifier::reject_recursive_types(K)]
#[verifier::reject_recursive_types(V)]
#[verifier::reject_recursive_types(S)]
pub struct ExHashMap<K, V, S>(HashMap<K, V, S>);

#[verifier::external_type_specification]
#[verifier::external_body]
pub struct ExFixedHasher(FixedHasher);

/// A landmark on a track, with the key that orders it along the track
/// (landmarks further from the track's end `A` have greater keys).
pub type Placed = (EntityId, i64);

/// The landmarks that a map holds for each track.
pub uninterp spec fn placed_by_track(map: HashMap<EntityId, Vec<Placed>>) -> Map<
    EntityId,
    Seq<Placed>,
>;

/// `HashMap::new`: a map with no entries.
#[verifier::external_body]
fn map_new() -> (r: HashMap<EntityId, Vec<Placed>>)
    ensures
        placed_by_track(r).dom().is_empty(),
{
    HashMap::new()
}

/// `HashMap::get`: the list held for `track`, if any, copied out.
#[verifier::external_body]
fn map_get(map: &HashMap<EntityId, Vec<Placed>>, track: EntityId) -> (r: Option<Vec<Placed>>)
    ensures
        r is Some <==> placed_by_track(*map).dom().contains(track),
        r matches Some(list) ==> list@ == placed_by_track(*map)[track],
{
    map.get(&track).cloned()
}

/// `HashMap::insert`: the map holds `list` for `track` afterwards, and
/// nothing else changes.
#[verifier::external_body]
fn map_insert(map: &mut HashMap<EntityId, Vec<Placed>>, track: EntityId, list: Vec<Placed>)
    ensures
        placed_by_track(*final(map)) == placed_by_track(*old(map)).insert(track, list@),
{
    map.insert(track, list);
}

/// `HashMap::keys`: the tracks that the map holds a list for, each once, in
/// an order that the source does not fix.
#[verifier::external_body]
fn map_tracks(map: &HashMap<EntityId, Vec<Placed>>) -> (r: Vec<EntityId>)
    ensures
        r@.to_set() == placed_by_track(*map).dom(),
        r@.no_duplicates(),
{
    map.keys().copied().collect()
}

/// The landmarks placed on `track`, none if the track has no list.
pub open spec fn placed_on(lists: Map<EntityId, Seq<Placed>>, track: EntityId) -> Seq<Placed> {
    if lists.dom().contains(track) {
        lists[track]
    } else {
        Seq::empty()
    }
}

/// The landmarks of a list, in its order.
pub open spec fn landmark_ids(list: Seq<Placed>) -> Seq<EntityId> {
    list.map_values(|p: Placed| p.0)
}

/// A list ordered by key.
pub open spec fn sorted_by_key(list: Seq<Placed>) -> bool {
    forall|i: int, j: int| 0 <= i < j < list.len() ==> (#[trigger] list[i]).1 <= (#[trigger] list[j]).1
}

/// The entries of `list` with the key `key`, in order.
pub open spec fn with_key(list: Seq<Placed>, key: i64) -> Seq<Placed> {
    list.filter(|p: Placed| p.1 == key)
}

/// `sorted` orders `list` by key, keeping entries of equal keys in the
/// order they had.
pub open spec fn stably_sorted(sorted: Seq<Placed>, list: Seq<Placed>) -> bool {
    &&& sorted_by_key(sorted)
    &&& forall|key: i64| #[trigger] with_key(sorted, key) == with_key(list, key)
}

proof fn lemma_with_key_push(list: Seq<Placed>, x: Placed, key: i64)
    ensures
        with_key(list.push(x), key) == if x.1 == key {
            with_key(list, key).push(x)
        } else {
            with_key(list, key)
        },
{
    reveal(Seq::filter);
    assert(list.push(x).drop_last() == list);
}

proof fn lemma_with_key_none(list: Seq<Placed>, key: i64)
    requires
        forall|i: int| 0 <= i < list.len() ==> (#[trigger] list[i]).1 != key,
    ensures
        with_key(list, key) == Seq::<Placed>::empty(),
    decreases list.len(),
{
    if list.len() == 0 {
        reveal(Seq::filter);
    } else {
        let rest = list.drop_last();
        assert forall|i: int| 0 <= i < rest.len() implies (#[trigger] rest[i]).1 != key by {
            assert(rest[i] == list[i]);
        }
        lemma_with_key_none(rest, key);
        assert(list == rest.push(list.last()));
        lemma_with_key_push(rest, list.last(), key);
    }
}

proof fn lemma_with_key_insert(list: Seq<Placed>, p: int, x: Placed, key: i64)
    requires
        0 <= p <= list.len(),
        sorted_by_key(list),
        forall|i: int| 0 <= i < p ==> (#[trigger] list[i]).1 <= x.1,
        forall|i: int| p <= i < list.len() ==> (#[trigger] list[i]).1 > x.1,
    ensures
        with_key(list.insert(p, x), key) == if x.1 == key {
            with_key(list, key).push(x)
        } else {
            with_key(list, key)
        },
{
    let pred = |q: Placed| q.1 == key;
    let front = list.take(p);
    let back = list.skip(p);
    assert(list == front + back);
    assert(list.insert(p, x) == front.push(x) + back);
    Seq::filter_distributes_over_add(front.push(x), back, pred);
    Seq::filter_distributes_over_add(front, back, pred);
    lemma_with_key_push(front, x, key);
    if x.1 == key {
        assert forall|i: int| 0 <= i < back.len() implies (#[trigger] back[i]).1 != key by {
            assert(back[i] == list[p + i]);
        }
        lemma_with_key_none(back, key);
        assert(with_key(front.push(x), key) + with_key(back, key) == with_key(front.push(x), key));
        assert(with_key(front, key) + with_key(back, key) == with_key(front, key));
    }
}

/// Orders a list of landmarks by key, keeping landmarks of equal keys in
/// the order they had.
fn sort_placed(list: &Vec<Placed>) -> (r: Vec<Placed>)
    ensures
        stably_sorted(r@, list@),
{
    let mut sorted: Vec<Placed> = Vec::new();
    let n = list.len();
    let mut i: usize = 0;
    while i < n
        invariant
            n == list@.len(),
            0 <= i <= n,
            sorted_by_key(sorted@),
            forall|key: i64| #[trigger] with_key(sorted@, key) == with_key(list@.take(i as int), key),
        decreases n - i,
    {
        let x = list[i];
        let mut p: usize = 0;
        while p < sorted.len() && sorted[p].1 <= x.1
            invariant
                0 <= p <= sorted@.len(),
                forall|k: int| 0 <= k < p ==> (#[trigger] sorted@[k]).1 <= x.1,
            decreases sorted@.len() - p,
        {
            p = p + 1;
        }
        proof {
            assert forall|k: int| p <= k < sorted@.len() implies (#[trigger] sorted@[k]).1 > x.1 by {
                assert(sorted@[p as int].1 > x.1);
                assert(sorted@[p as int].1 <= sorted@[k].1 || k == p);
            }
            assert forall|key: i64|
                #[trigger] with_key(sorted@.insert(p as int, x), key) == with_key(
                    list@.take(i + 1),
                    key,
                ) by {
                lemma_with_key_insert(sorted@, p as int, x, key);
                assert(list@.take(i + 1) == list@.take(i as int).push(x));
                lemma_with_key_push(list@.take(i as int), x, key);
            }
        }
        sorted.insert(p, x);
        i = i + 1;
    }
    proof {
        assert(list@.take(n as int) == list@);
    }
    sorted
}

/// The landmarks of each track, ordered along it.
pub struct LandmarkStore {
    tracks: HashMap<EntityId, Vec<Placed>>,
}

impl LandmarkStore {
    /// The landmarks held for each track.
    pub closed spec fn lists(self) -> Map<EntityId, Seq<Placed>> {
        placed_by_track(self.tracks)
    }

    pub fn new() -> (r: Self)
        ensures
            r.lists().dom().is_empty(),
    {
        LandmarkStore { tracks: map_new() }
    }

    /// The landmarks on `track`, in the order of the list held for it; none
    /// if it has no list.
    pub fn landmarks_on(&self, track: &EntityId) -> (r: Vec<EntityId>)
        ensures
            r@ == landmark_ids(placed_on(self.lists(), *track)),
    {
        let mut r: Vec<EntityId> = Vec::new();
        match map_get(&self.tracks, *track) {
            Some(list) => {
                let n = list.len();
                let mut i: usize = 0;
                while i < n
                    invariant
                        n == list@.len(),
                        list@ == placed_on(self.lists(), *track),
                        0 <= i <= n,
                        r@ == landmark_ids(list@.take(i as int)),
                    decreases n - i,
                {
                    r.push(list[i].0);
                    proof {
                        assert(landmark_ids(list@.take(i + 1)) == landmark_ids(list@.take(i as int)).push(list@[i as int].0));
                    }
                    i = i + 1;
                }
                proof {
                    assert(list@.take(n as int) == list@);
                }
                r
            },
            None => {
                proof {
                    assert(landmark_ids(placed_on(self.lists(), *track)) =~= Seq::<EntityId>::empty());
                }
                r
            },
        }
    }

    /// Adds `landmark`, ordered by `key`, at the end of the list of `track`.
    pub fn index(&mut self, track: EntityId, landmark: EntityId, key: i64)
        ensures
            final(self).lists() == old(self).lists().insert(
                track,
                placed_on(old(self).lists(), track).push((landmark, key)),
            ),
    {
        let mut list = match map_get(&self.tracks, track) {
            Some(l) => l,
            None => Vec::new(),
        };
        list.push((landmark, key));
        map_insert(&mut self.tracks, track, list);
    }

    /// Orders the list of every track by key, landmarks of equal keys
    /// keeping their order.
    pub fn sort(&mut self)
        ensures
            final(self).lists().dom() == old(self).lists().dom(),
            forall|track: EntityId|
                #[trigger] final(self).lists().dom().contains(track) ==> stably_sorted(
                    final(self).lists()[track],
                    old(self).lists()[track],
                ),
    {
        let tracks = map_tracks(&self.tracks);
        let ghost start = self.lists();
        let n = tracks.len();
        let mut i: usize = 0;
        while i < n
            invariant
                n == tracks@.len(),
                0 <= i <= n,
                tracks@.to_set() == start.dom(),
                tracks@.no_duplicates(),
                self.lists().dom() == start.dom(),
                forall|track: EntityId|
                    #[trigger] start.dom().contains(track) ==> {
                        if tracks@.take(i as int).contains(track) {
                            stably_sorted(self.lists()[track], start[track])
                        } else {
                            self.lists()[track] == start[track]
                        }
                    },
            decreases n - i,
        {
            let track = tracks[i];
            proof {
                assert(tracks@.to_set().contains(track));
            }
            let list = match map_get(&self.tracks, track) {
                Some(l) => l,
                None => Vec::new(),
            };
            let sorted = sort_placed(&list);
            map_insert(&mut self.tracks, track, sorted);
            proof {
                assert forall|t: EntityId| #[trigger] start.dom().contains(t) implies {
                    if tracks@.take(i + 1).contains(t) {
                        stably_sorted(self.lists()[t], start[t])
                    } else {
                        self.lists()[t] == start[t]
                    }
                } by {
                    if t == track {
                        assert(tracks@.take(i + 1)[i as int] == t);
                        assert(!tracks@.take(i as int).contains(t)) by {
                            if tracks@.take(i as int).contains(t) {
                                let prev = tracks@.take(i as int);
                                let k = choose|k: int| 0 <= k < prev.len() && prev[k] == t;
                                assert(tracks@[k] == tracks@[i as int]);
                            }
                        }
                    } else {
                        let next = tracks@.take(i + 1);
                        let prev = tracks@.take(i as int);
                        assert(next.contains(t) == prev.contains(t)) by {
                            if next.contains(t) {
                                let k = choose|k: int| 0 <= k < next.len() && next[k] == t;
                                assert(k != i);
                                assert(prev[k] == t);
                            }
                            if prev.contains(t) {
                                let k = choose|k: int| 0 <= k < prev.len() && prev[k] == t;
                                assert(next[k] == t);
                            }
                        }
                    }
                }
            }
            i = i + 1;
        }
        proof {
            assert(tracks@.take(n as int) == tracks@);
            assert forall|track: EntityId|
                #[trigger] self.lists().dom().contains(track) implies stably_sorted(
                self.lists()[track],
                start[track],
            ) by {
                assert(tracks@.to_set().contains(track));
            }
        }
    }
}

/// A sorted list holds the landmarks of the list it was sorted from, each
/// as often: sorting loses or adds none.
pub proof fn lemma_sort_keeps_landmarks(sorted: Seq<Placed>, list: Seq<Placed>)
    requires
        stably_sorted(sorted, list),
    ensures
        sorted.to_multiset() =~= list.to_multiset(),
{
    assert forall|x: Placed| sorted.to_multiset().count(x) == list.to_multiset().count(x) by {
        lemma_count_by_key(sorted, x);
        lemma_count_by_key(list, x);
        assert(with_key(sorted, x.1) == with_key(list, x.1));
    }
}

proof fn lemma_count_by_key(list: Seq<Placed>, x: Placed)
    ensures
        list.to_multiset().count(x) == with_key(list, x.1).to_multiset().count(x),
    decreases list.len(),
{
    broadcast use vstd::seq_lib::group_to_multiset_ensures;

    if list.len() > 0 {
        let rest = list.drop_last();
        lemma_count_by_key(rest, x);
        assert(list == rest.push(list.last()));
        lemma_with_key_push(rest, list.last(), x.1);
    } else {
        assert(with_key(list, x.1) == list) by {
            reveal(Seq::filter);
        }
    }
}

/// A landmark indexed on a track is listed on it after the landmarks
/// listed there before; the lists of other tracks do not change.
pub proof fn lemma_index_then_list(
    lists: Map<EntityId, Seq<Placed>>,
    track: EntityId,
    landmark: EntityId,
    key: i64,
    other: EntityId,
)
    ensures
        ({
            let after = lists.insert(track, placed_on(lists, track).push((landmark, key)));
            &&& landmark_ids(placed_on(after, track)) == landmark_ids(placed_on(lists, track)).push(
                landmark,
            )
            &&& other != track ==> placed_on(after, other) == placed_on(lists, other)
        }),
{
    let before = placed_on(lists, track);
    assert(landmark_ids(before.push((landmark, key))) =~= landmark_ids(before).push(landmark));
}

} // verus!
