use vstd::prelude::*;

use crate::landmark::store::{LandmarkStore, landmark_ids, placed_on};
use crate::loc::{
    Crossing, Dir, LocError, TrackNetwork, entries_map, facing_node, find_entry, lookup,
};
use crate::track::EntityId;

verus! {

/// A distance along a track, as a key that orders distances as their values
/// do (equal values, equal keys); `None` for a distance that is not a
/// number, which is no nearer or further than any other.
pub type Measure = Option<i64>;

/// `a` is no further along the track than `b`.
pub open spec fn at_most(a: Measure, b: Measure) -> bool {
    a matches Some(x) && b matches Some(y) && x <= y
}

fn le(a: Measure, b: Measure) -> (r: bool)
    ensures
        r == at_most(a, b),
{
    match (a, b) {
        (Some(x), Some(y)) => x <= y,
        _ => false,
    }
}

/// Where a landmark stands and which way it faces.
#[derive(Debug, Clone, Copy, PartialEq, Eq)]
pub struct Sighting {
    pub distance: Measure,
    pub facing: Dir,
}

/// A place on the track: a segment, a distance along it and a facing.
#[derive(Debug, Clone, Copy, PartialEq, Eq)]
pub struct Place {
    pub track: EntityId,
    pub distance: Measure,
    pub facing: Dir,
}

/// Why a scan gave no list of passed landmarks.
#[derive(Debug, Clone, Copy, PartialEq, Eq)]
pub enum ScanFault {
    /// Moving on along the track failed.
    Stuck(LocError),
    /// A landmark, segment, switch or length that the scan reads is
    /// missing.
    Broken,
    /// The scan did not reach the end's segment within the hops allowed.
    Endless,
}

/// The landmarks of `list`, in order, that lie from `low` to `high` (both
/// included), each with whether it faces `facing`; `None` if a landmark of
/// `list` has no sighting.
pub open spec fn select(
    list: Seq<EntityId>,
    sightings: Map<EntityId, Sighting>,
    low: Measure,
    high: Measure,
    facing: Dir,
) -> Option<Seq<(EntityId, bool)>>
    decreases list.len(),
{
    if list.len() == 0 {
        Some(Seq::empty())
    } else {
        match select(list.drop_last(), sightings, low, high, facing) {
            None => None,
            Some(front) => {
                let landmark = list.last();
                if !sightings.dom().contains(landmark) {
                    None
                } else {
                    let s = sightings[landmark];
                    if at_most(low, s.distance) && at_most(s.distance, high) {
                        Some(front.push((landmark, s.facing == facing)))
                    } else {
                        Some(front)
                    }
                }
            },
        }
    }
}

/// The landmarks passed on the segment of `pos`, from `pos` towards the
/// end it faces, up to `end` if `end` is on the same segment: facing `A`,
/// the landmarks from `end` (or the start of the segment, at `origin`) up
/// to `pos`, nearest first; facing `B`, those from `pos` up to `end` (or
/// `far`), nearest first. A landmark is passed forwards when it faces the
/// way of the movement.
pub open spec fn passed_here(
    lists: Map<EntityId, Seq<(EntityId, i64)>>,
    sightings: Map<EntityId, Sighting>,
    origin: Measure,
    far: Measure,
    pos: Place,
    end: Place,
) -> Option<Seq<(EntityId, bool)>> {
    let same = pos.track == end.track;
    let list = landmark_ids(placed_on(lists, pos.track));
    match pos.facing {
        Dir::FacingA => select(
            list.reverse(),
            sightings,
            if same {
                end.distance
            } else {
                origin
            },
            pos.distance,
            Dir::FacingA,
        ),
        Dir::FacingB => select(
            list,
            sightings,
            pos.distance,
            if same {
                end.distance
            } else {
                far
            },
            Dir::FacingB,
        ),
    }
}

/// `passed` followed by the outcome `rest`.
pub open spec fn then(passed: Seq<(EntityId, bool)>, rest: Result<Seq<(EntityId, bool)>, ScanFault>) -> Result<Seq<(EntityId, bool)>, ScanFault> {
    match rest {
        Ok(r) => Ok(passed + r),
        Err(f) => Err(f),
    }
}

/// The landmarks passed on the way from `pos` to `end`, segment after
/// segment, in the order in which they are passed; at most `hops` times
/// from one segment onto the next.
pub open spec fn spec_scan(
    network: TrackNetwork,
    lists: Map<EntityId, Seq<(EntityId, i64)>>,
    sightings: Map<EntityId, Sighting>,
    lengths: Map<EntityId, Measure>,
    origin: Measure,
    far: Measure,
    pos: Place,
    end: Place,
    hops: nat,
) -> Result<Seq<(EntityId, bool)>, ScanFault>
    decreases hops,
{
    match passed_here(lists, sightings, origin, far, pos, end) {
        None => Err(ScanFault::Broken),
        Some(here) => {
            if pos.track == end.track {
                Ok(here)
            } else if hops == 0 {
                Err(ScanFault::Endless)
            } else {
                match lookup(network.segments_view(), pos.track) {
                    None => Err(ScanFault::Broken),
                    Some(segment) => match network.spec_cross(
                        pos.track,
                        facing_node(segment, pos.facing),
                        pos.facing,
                    ) {
                        Err(LocError::NoNeighborSegment) => Err(
                            ScanFault::Stuck(LocError::NoNeighborSegment),
                        ),
                        Err(_) => Err(ScanFault::Broken),
                        Ok(c) => {
                            let distance = if c.enters_at_a {
                                Some(origin)
                            } else {
                                lookup(lengths, c.track)
                            };
                            match distance {
                                None => Err(ScanFault::Broken),
                                Some(d) => then(
                                    here,
                                    spec_scan(
                                        network,
                                        lists,
                                        sightings,
                                        lengths,
                                        origin,
                                        far,
                                        Place { track: c.track, distance: d, facing: c.facing },
                                        end,
                                        (hops - 1) as nat,
                                    ),
                                ),
                            }
                        },
                    },
                }
            }
        },
    }
}

/// A scan that does not run out of hops gives the same outcome with any
/// larger allowance of hops: the allowance only cuts off a scan that would
/// otherwise go on.
pub proof fn lemma_scan_more_hops(
    network: TrackNetwork,
    lists: Map<EntityId, Seq<(EntityId, i64)>>,
    sightings: Map<EntityId, Sighting>,
    lengths: Map<EntityId, Measure>,
    origin: Measure,
    far: Measure,
    pos: Place,
    end: Place,
    hops: nat,
    more: nat,
)
    requires
        hops <= more,
        spec_scan(network, lists, sightings, lengths, origin, far, pos, end, hops) != Err::<
            Seq<(EntityId, bool)>,
            ScanFault,
        >(ScanFault::Endless),
    ensures
        spec_scan(network, lists, sightings, lengths, origin, far, pos, end, more) == spec_scan(
            network,
            lists,
            sightings,
            lengths,
            origin,
            far,
            pos,
            end,
            hops,
        ),
    decreases hops,
{
    if hops > 0 && pos.track != end.track {
        match passed_here(lists, sightings, origin, far, pos, end) {
            None => {},
            Some(here) => match lookup(network.segments_view(), pos.track) {
                None => {},
                Some(segment) => match network.spec_cross(
                    pos.track,
                    facing_node(segment, pos.facing),
                    pos.facing,
                ) {
                    Err(_) => {},
                    Ok(c) => {
                        let distance = if c.enters_at_a {
                            Some(origin)
                        } else {
                            lookup(lengths, c.track)
                        };
                        match distance {
                            None => {},
                            Some(d) => {
                                let next = Place { track: c.track, distance: d, facing: c.facing };
                                let rest = spec_scan(
                                    network,
                                    lists,
                                    sightings,
                                    lengths,
                                    origin,
                                    far,
                                    next,
                                    end,
                                    (hops - 1) as nat,
                                );
                                assert(rest != Err::<Seq<(EntityId, bool)>, ScanFault>(
                                    ScanFault::Endless,
                                ));
                                lemma_scan_more_hops(
                                    network,
                                    lists,
                                    sightings,
                                    lengths,
                                    origin,
                                    far,
                                    next,
                                    end,
                                    (hops - 1) as nat,
                                    (more - 1) as nat,
                                );
                            },
                        }
                    },
                },
            },
        }
    }
}

/// What a selection holds: every landmark of the list whose sighting lies
/// from `low` to `high` is in it, with whether it faces `facing`, and
/// everything in it is such a landmark of the list.
pub proof fn lemma_select_members(
    list: Seq<EntityId>,
    sightings: Map<EntityId, Sighting>,
    low: Measure,
    high: Measure,
    facing: Dir,
)
    requires
        select(list, sightings, low, high, facing) is Some,
    ensures
        forall|i: int|
            0 <= i < list.len() ==> sightings.dom().contains(#[trigger] list[i]),
        forall|i: int|
            0 <= i < list.len() && at_most(low, sightings[#[trigger] list[i]].distance) && at_most(
                sightings[list[i]].distance,
                high,
            ) ==> select(list, sightings, low, high, facing)->Some_0.contains(
                (list[i], sightings[list[i]].facing == facing),
            ),
        forall|k: int|
            0 <= k < select(list, sightings, low, high, facing)->Some_0.len() ==> {
                let p = #[trigger] select(list, sightings, low, high, facing)->Some_0[k];
                &&& list.contains(p.0)
                &&& sightings.dom().contains(p.0)
                &&& at_most(low, sightings[p.0].distance)
                &&& at_most(sightings[p.0].distance, high)
                &&& p.1 == (sightings[p.0].facing == facing)
            },
    decreases list.len(),
{
    if list.len() > 0 {
        let rest = list.drop_last();
        let last = list.last();
        lemma_select_members(rest, sightings, low, high, facing);
        let front = select(rest, sightings, low, high, facing)->Some_0;
        let r = select(list, sightings, low, high, facing)->Some_0;
        assert forall|i: int| 0 <= i < list.len() implies sightings.dom().contains(
            #[trigger] list[i],
        ) by {
            if i < rest.len() {
                assert(rest[i] == list[i]);
            }
        }
        assert forall|i: int|
            0 <= i < list.len() && at_most(low, sightings[#[trigger] list[i]].distance) && at_most(
                sightings[list[i]].distance,
                high,
            ) implies r.contains((list[i], sightings[list[i]].facing == facing)) by {
            if i < rest.len() {
                assert(rest[i] == list[i]);
                let k = choose|k: int|
                    0 <= k < front.len() && front[k] == (rest[i], sightings[rest[i]].facing == facing);
                assert(r[k] == front[k]);
            } else {
                assert(r[r.len() - 1] == (last, sightings[last].facing == facing));
            }
        }
        assert forall|k: int| 0 <= k < r.len() implies {
            let p = #[trigger] r[k];
            &&& list.contains(p.0)
            &&& sightings.dom().contains(p.0)
            &&& at_most(low, sightings[p.0].distance)
            &&& at_most(sightings[p.0].distance, high)
            &&& p.1 == (sightings[p.0].facing == facing)
        } by {
            if k < front.len() {
                assert(r[k] == front[k]);
                let p = front[k];
                let j = choose|j: int| 0 <= j < rest.len() && rest[j] == p.0;
                assert(list[j] == p.0);
            } else {
                assert(list[list.len() - 1] == last);
            }
        }
    }
}

/// A scan that crosses from its segment onto the segment of its end, entering
/// it at its end `A` and facing `B`, goes on from the start of that segment
/// (`origin`): after the landmarks passed on the first segment it lists those
/// of the next one from its start up to the end place.
pub proof fn lemma_scan_enters_at_start(
    network: TrackNetwork,
    lists: Map<EntityId, Seq<(EntityId, i64)>>,
    sightings: Map<EntityId, Sighting>,
    lengths: Map<EntityId, Measure>,
    origin: Measure,
    far: Measure,
    pos: Place,
    end: Place,
    hops: nat,
    c: Crossing,
)
    requires
        hops > 0,
        pos.track != end.track,
        passed_here(lists, sightings, origin, far, pos, end) is Some,
        network.segments_view().dom().contains(pos.track),
        network.spec_cross(
            pos.track,
            facing_node(network.segments_view()[pos.track], pos.facing),
            pos.facing,
        ) == Ok::<Crossing, LocError>(c),
        c.track == end.track,
        c.enters_at_a,
        c.facing == Dir::FacingB,
        select(landmark_ids(placed_on(lists, end.track)), sightings, origin, end.distance, Dir::FacingB)
            is Some,
    ensures
        spec_scan(network, lists, sightings, lengths, origin, far, pos, end, hops) == Ok::<
            Seq<(EntityId, bool)>,
            ScanFault,
        >(
            passed_here(lists, sightings, origin, far, pos, end)->Some_0 + select(
                landmark_ids(placed_on(lists, end.track)),
                sightings,
                origin,
                end.distance,
                Dir::FacingB,
            )->Some_0,
        ),
{
    let next = Place { track: c.track, distance: origin, facing: c.facing };
    assert(lookup(network.segments_view(), pos.track) == Some(network.segments_view()[pos.track]));
    assert(spec_scan(network, lists, sightings, lengths, origin, far, next, end, (hops - 1) as nat)
        == Ok::<Seq<(EntityId, bool)>, ScanFault>(
        passed_here(lists, sightings, origin, far, next, end)->Some_0,
    ));
}

/// A scan that crosses from its segment onto the segment of its end, entering
/// it at its end `B` and facing `A`, goes on from the far end of that
/// segment, at its length: after the landmarks passed on the first segment it
/// lists those of the next one from its far end back down to the end place,
/// nearest first.
pub proof fn lemma_scan_enters_at_far_end(
    network: TrackNetwork,
    lists: Map<EntityId, Seq<(EntityId, i64)>>,
    sightings: Map<EntityId, Sighting>,
    lengths: Map<EntityId, Measure>,
    origin: Measure,
    far: Measure,
    pos: Place,
    end: Place,
    hops: nat,
    c: Crossing,
)
    requires
        hops > 0,
        pos.track != end.track,
        passed_here(lists, sightings, origin, far, pos, end) is Some,
        network.segments_view().dom().contains(pos.track),
        network.spec_cross(
            pos.track,
            facing_node(network.segments_view()[pos.track], pos.facing),
            pos.facing,
        ) == Ok::<Crossing, LocError>(c),
        c.track == end.track,
        !c.enters_at_a,
        c.facing == Dir::FacingA,
        lengths.dom().contains(end.track),
        select(
            landmark_ids(placed_on(lists, end.track)).reverse(),
            sightings,
            end.distance,
            lengths[end.track],
            Dir::FacingA,
        ) is Some,
    ensures
        spec_scan(network, lists, sightings, lengths, origin, far, pos, end, hops) == Ok::<
            Seq<(EntityId, bool)>,
            ScanFault,
        >(
            passed_here(lists, sightings, origin, far, pos, end)->Some_0 + select(
                landmark_ids(placed_on(lists, end.track)).reverse(),
                sightings,
                end.distance,
                lengths[end.track],
                Dir::FacingA,
            )->Some_0,
        ),
{
    let next = Place { track: c.track, distance: lengths[end.track], facing: c.facing };
    assert(lookup(network.segments_view(), pos.track) == Some(network.segments_view()[pos.track]));
    assert(lookup(lengths, c.track) == Some(lengths[end.track]));
    assert(spec_scan(network, lists, sightings, lengths, origin, far, next, end, (hops - 1) as nat)
        == Ok::<Seq<(EntityId, bool)>, ScanFault>(
        passed_here(lists, sightings, origin, far, next, end)->Some_0,
    ));
}

/// A scan that starts on the segment of its end takes no hop: facing `B` it
/// lists the segment's landmarks from the start place up to the end place in
/// their order along the segment; facing `A` those from the end place up to
/// the start place, nearest to the start first.
pub proof fn lemma_scan_within_segment(
    network: TrackNetwork,
    lists: Map<EntityId, Seq<(EntityId, i64)>>,
    sightings: Map<EntityId, Sighting>,
    lengths: Map<EntityId, Measure>,
    origin: Measure,
    far: Measure,
    pos: Place,
    end: Place,
    hops: nat,
)
    requires
        pos.track == end.track,
    ensures
        pos.facing == Dir::FacingB ==> spec_scan(
            network,
            lists,
            sightings,
            lengths,
            origin,
            far,
            pos,
            end,
            hops,
        ) == match select(
            landmark_ids(placed_on(lists, pos.track)),
            sightings,
            pos.distance,
            end.distance,
            Dir::FacingB,
        ) {
            Some(r) => Ok::<Seq<(EntityId, bool)>, ScanFault>(r),
            None => Err(ScanFault::Broken),
        },
        pos.facing == Dir::FacingA ==> spec_scan(
            network,
            lists,
            sightings,
            lengths,
            origin,
            far,
            pos,
            end,
            hops,
        ) == match select(
            landmark_ids(placed_on(lists, pos.track)).reverse(),
            sightings,
            end.distance,
            pos.distance,
            Dir::FacingA,
        ) {
            Some(r) => Ok::<Seq<(EntityId, bool)>, ScanFault>(r),
            None => Err(ScanFault::Broken),
        },
{
}

/// Picks the landmarks of `list` between `low` and `high`, in the order of
/// `list`, or of `list` reversed where `reversed`.
fn select_exec(
    list: &Vec<EntityId>,
    reversed: bool,
    sightings: &Vec<(EntityId, Sighting)>,
    low: Measure,
    high: Measure,
    facing: Dir,
) -> (r: Option<Vec<(EntityId, bool)>>)
    ensures
        match r {
            Some(v) => select(
                if reversed {
                    list@.reverse()
                } else {
                    list@
                },
                entries_map(sightings@),
                low,
                high,
                facing,
            ) == Some(v@),
            None => select(
                if reversed {
                    list@.reverse()
                } else {
                    list@
                },
                entries_map(sightings@),
                low,
                high,
                facing,
            ) is None,
        },
{
    let ghost order = if reversed {
        list@.reverse()
    } else {
        list@
    };
    let ghost smap = entries_map(sightings@);
    let n = list.len();
    let mut out: Vec<(EntityId, bool)> = Vec::new();
    let mut j: usize = 0;
    while j < n
        invariant
            n == list@.len(),
            order.len() == n,
            order == (if reversed {
                list@.reverse()
            } else {
                list@
            }),
            smap == entries_map(sightings@),
            0 <= j <= n,
            select(order.take(j as int), smap, low, high, facing) == Some(out@),
        decreases n - j,
    {
        let landmark = if reversed {
            list[n - 1 - j]
        } else {
            list[j]
        };
        proof {
            assert(order[j as int] == landmark);
            assert(order.take(j + 1).drop_last() == order.take(j as int));
            assert(order.take(j + 1).last() == landmark);
        }
        match find_entry(sightings, landmark) {
            None => {
                proof {
                    lemma_select_none_extends(order, smap, low, high, facing, (j + 1) as nat);
                }
                return None;
            },
            Some(s) => {
                if le(low, s.distance) && le(s.distance, high) {
                    out.push((landmark, s.facing == facing));
                }
            },
        }
        j = j + 1;
    }
    proof {
        assert(order.take(n as int) == order);
    }
    Some(out)
}

proof fn lemma_select_none_extends(
    order: Seq<EntityId>,
    sightings: Map<EntityId, Sighting>,
    low: Measure,
    high: Measure,
    facing: Dir,
    k: nat,
)
    requires
        k <= order.len(),
        select(order.take(k as int), sightings, low, high, facing) is None,
    ensures
        select(order, sightings, low, high, facing) is None,
    decreases order.len() - k,
{
    if k < order.len() {
        assert(order.take((k + 1) as int).drop_last() == order.take(k as int));
        lemma_select_none_extends(order, sightings, low, high, facing, k + 1);
    } else {
        assert(order.take(k as int) == order);
    }
}

/// The landmarks passed on the way from `a` to `b`: on each segment, those
/// between the place reached and the end of the segment (or `b`), in the
/// order in which they are passed. `store` holds the landmarks of each
/// segment ordered along it, `sightings` where each landmark stands,
/// `lengths` the length of each segment, `origin` and `far` the start of a
/// segment and the greatest distance. The scan moves from segment to segment
/// at most `max_hops` times.
pub fn scan(
    network: &TrackNetwork,
    store: &LandmarkStore,
    sightings: &Vec<(EntityId, Sighting)>,
    lengths: &Vec<(EntityId, Measure)>,
    origin: Measure,
    far: Measure,
    a: Place,
    b: Place,
    max_hops: usize,
) -> (r: Result<Vec<(EntityId, bool)>, ScanFault>)
    ensures
        match r {
            Ok(v) => spec_scan(
                *network,
                store.lists(),
                entries_map(sightings@),
                entries_map(lengths@),
                origin,
                far,
                a,
                b,
                max_hops as nat,
            ) == Ok::<Seq<(EntityId, bool)>, ScanFault>(v@),
            Err(f) => spec_scan(
                *network,
                store.lists(),
                entries_map(sightings@),
                entries_map(lengths@),
                origin,
                far,
                a,
                b,
                max_hops as nat,
            ) == Err::<Seq<(EntityId, bool)>, ScanFault>(f),
        },
{
    let ghost lists = store.lists();
    let ghost smap = entries_map(sightings@);
    let ghost lmap = entries_map(lengths@);
    let ghost whole = spec_scan(*network, lists, smap, lmap, origin, far, a, b, max_hops as nat);
    let mut pos = a;
    let mut hops = max_hops;
    let mut passed: Vec<(EntityId, bool)> = Vec::new();
    loop
        invariant
            lists == store.lists(),
            smap == entries_map(sightings@),
            lmap == entries_map(lengths@),
            whole == spec_scan(*network, lists, smap, lmap, origin, far, a, b, max_hops as nat),
            whole == then(passed@, spec_scan(*network, lists, smap, lmap, origin, far, pos, b, hops as nat)),
        decreases hops,
    {
        let same = pos.track == b.track;
        let ids = store.landmarks_on(&pos.track);
        let here = match pos.facing {
            Dir::FacingA => select_exec(
                &ids,
                true,
                sightings,
                if same {
                    b.distance
                } else {
                    origin
                },
                pos.distance,
                Dir::FacingA,
            ),
            Dir::FacingB => select_exec(
                &ids,
                false,
                sightings,
                pos.distance,
                if same {
                    b.distance
                } else {
                    far
                },
                Dir::FacingB,
            ),
        };
        let here = match here {
            None => return Err(ScanFault::Broken),
            Some(h) => h,
        };
        let ghost before = passed@;
        let mut k: usize = 0;
        while k < here.len()
            invariant
                0 <= k <= here@.len(),
                passed@ == before + here@.take(k as int),
            decreases here@.len() - k,
        {
            passed.push(here[k]);
            proof {
                assert(here@.take(k + 1) == here@.take(k as int).push(here@[k as int]));
            }
            k = k + 1;
        }
        proof {
            assert(here@.take(here@.len() as int) == here@);
            assert(passed@ == before + here@);
        }
        if same {
            proof {
                assert(before + here@ == passed@);
            }
            return Ok(passed);
        }
        if hops == 0 {
            return Err(ScanFault::Endless);
        }
        let segment = match network.segment(pos.track) {
            None => return Err(ScanFault::Broken),
            Some(s) => s,
        };
        let node = match pos.facing {
            Dir::FacingA => segment.nodes.0,
            Dir::FacingB => segment.nodes.1,
        };
        let crossing = match network.cross(pos.track, node, pos.facing) {
            Err(LocError::NoNeighborSegment) => {
                return Err(ScanFault::Stuck(LocError::NoNeighborSegment));
            },
            Err(_) => return Err(ScanFault::Broken),
            Ok(c) => c,
        };
        let distance = if crossing.enters_at_a {
            Some(origin)
        } else {
            find_entry(lengths, crossing.track)
        };
        let distance = match distance {
            None => return Err(ScanFault::Broken),
            Some(d) => d,
        };
        proof {
            let next = Place { track: crossing.track, distance, facing: crossing.facing };
            let rest = spec_scan(*network, lists, smap, lmap, origin, far, next, b, (hops - 1) as nat);
            assert(spec_scan(*network, lists, smap, lmap, origin, far, pos, b, hops as nat) == then(here@, rest));
            assert(then(before, then(here@, rest)) == then(before + here@, rest)) by {
                match rest {
                    Ok(r) => {
                        assert(before + (here@ + r) == (before + here@) + r);
                    },
                    Err(_) => {},
                }
            }
        }
        pos = Place { track: crossing.track, distance, facing: crossing.facing };
        hops = hops - 1;
    }
}

} // verus!
