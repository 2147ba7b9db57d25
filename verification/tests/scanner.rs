use railway::landmark::scanner::{scan, Place, ScanFault, Sighting};
use railway::landmark::store::LandmarkStore;
use railway::loc::{Dir, LocError, TrackNetwork};
use railway::switch::TrackSwitch;
use railway::track::TrackSegment;

fn line() -> TrackNetwork {
    // nodes 1 - 2 - 3 ; segment 10 from 1 to 2, segment 11 from 3 to 2
    let mut n = TrackNetwork::new();
    n.insert_segment(10, TrackSegment { nodes: (1, 2) });
    n.insert_segment(11, TrackSegment { nodes: (3, 2) });
    n.insert_switch(1, TrackSwitch::Terminus(10));
    n.insert_switch(2, TrackSwitch::Track(10, 11));
    n.insert_switch(3, TrackSwitch::Terminus(11));
    n
}

fn landmarks() -> (LandmarkStore, Vec<(u64, Sighting)>) {
    let placed = [
        (10, 101, 8, Dir::FacingA),
        (10, 100, 2, Dir::FacingB),
        (11, 110, 3, Dir::FacingA),
        (11, 111, 9, Dir::FacingB),
    ];
    let mut store = LandmarkStore::new();
    let mut sightings = Vec::new();
    for (track, landmark, distance, facing) in placed {
        store.index(track, landmark, distance);
        sightings.push((landmark, Sighting { distance: Some(distance), facing }));
    }
    store.sort();
    (store, sightings)
}

fn lengths() -> Vec<(u64, Option<i64>)> {
    vec![(10, Some(10)), (11, Some(12))]
}

fn at(track: u64, distance: i64, facing: Dir) -> Place {
    Place { track, distance: Some(distance), facing }
}

#[test]
fn scan_across_two_segments() {
    let (store, sightings) = landmarks();
    let r = scan(
        &line(),
        &store,
        &sightings,
        &lengths(),
        Some(0),
        Some(i64::MAX),
        at(10, 1, Dir::FacingB),
        at(11, 5, Dir::FacingA),
        5,
    );
    assert_eq!(r, Ok(vec![(100, true), (101, false), (111, false)]));
}

#[test]
fn scan_on_one_segment_backwards() {
    let (store, sightings) = landmarks();
    let r = scan(
        &line(),
        &store,
        &sightings,
        &lengths(),
        Some(0),
        Some(i64::MAX),
        at(10, 9, Dir::FacingA),
        at(10, 1, Dir::FacingA),
        0,
    );
    assert_eq!(r, Ok(vec![(101, true), (100, false)]));
}

#[test]
fn scan_bounds_are_inclusive() {
    let (store, sightings) = landmarks();
    let r = scan(
        &line(),
        &store,
        &sightings,
        &lengths(),
        Some(0),
        Some(i64::MAX),
        at(10, 2, Dir::FacingB),
        at(10, 8, Dir::FacingB),
        0,
    );
    assert_eq!(r, Ok(vec![(100, true), (101, false)]));
}

#[test]
fn scan_skips_a_distance_that_is_no_number() {
    let (store, mut sightings) = landmarks();
    sightings[0].1.distance = None;
    let r = scan(
        &line(),
        &store,
        &sightings,
        &lengths(),
        Some(0),
        Some(i64::MAX),
        at(10, 0, Dir::FacingB),
        at(10, 10, Dir::FacingB),
        0,
    );
    assert_eq!(r, Ok(vec![(100, true)]));
}

#[test]
fn scan_stuck_at_a_terminus() {
    let (store, sightings) = landmarks();
    let r = scan(
        &line(),
        &store,
        &sightings,
        &lengths(),
        Some(0),
        Some(i64::MAX),
        at(10, 5, Dir::FacingA),
        at(11, 5, Dir::FacingA),
        5,
    );
    assert_eq!(r, Err(ScanFault::Stuck(LocError::NoNeighborSegment)));
}

#[test]
fn scan_out_of_hops() {
    let (store, sightings) = landmarks();
    let r = scan(
        &line(),
        &store,
        &sightings,
        &lengths(),
        Some(0),
        Some(i64::MAX),
        at(10, 1, Dir::FacingB),
        at(11, 5, Dir::FacingA),
        0,
    );
    assert_eq!(r, Err(ScanFault::Endless));
}

#[test]
fn scan_with_missing_pieces() {
    let (store, mut sightings) = landmarks();
    let r = scan(
        &line(),
        &store,
        &sightings,
        &vec![(10, Some(10))],
        Some(0),
        Some(i64::MAX),
        at(10, 1, Dir::FacingB),
        at(11, 5, Dir::FacingA),
        5,
    );
    assert_eq!(r, Err(ScanFault::Broken));
    sightings.pop();
    let r = scan(
        &line(),
        &store,
        &sightings,
        &lengths(),
        Some(0),
        Some(i64::MAX),
        at(11, 1, Dir::FacingB),
        at(11, 5, Dir::FacingB),
        0,
    );
    assert_eq!(r, Err(ScanFault::Broken));
}

#[test]
fn scan_outcome_keeps_with_more_hops() {
    let (store, sightings) = landmarks();
    let run = |hops: usize| {
        scan(
            &line(),
            &store,
            &sightings,
            &lengths(),
            Some(0),
            Some(i64::MAX),
            at(10, 1, Dir::FacingB),
            at(11, 5, Dir::FacingA),
            hops,
        )
    };
    assert_eq!(run(1), Ok(vec![(100, true), (101, false), (111, false)]));
    assert_eq!(run(1), run(100));
}
