use railway::loc::{select_direction, Crossing, Dir, LocError, TrackNetwork};
use railway::switch::TrackSwitch;
use railway::track::TrackSegment;

fn line() -> TrackNetwork {
    // nodes 1 - 2 - 3 ; segment 10 from 1 to 2, segment 11 from 3 to 2
    let mut n = TrackNetwork::new();
    n.insert_segment(10, TrackSegment { nodes: (1, 2) });
    n.insert_segment(11, TrackSegment { nodes: (3, 2) });
    n.insert_switch(1, TrackSwitch::Terminus(10));
    n.insert_switch(2, TrackSwitch::Track(10, 11));
    n.insert_switch(3, TrackSwitch::Terminus(11));
    n
}

#[test]
fn flip_twice_is_identity() {
    assert_eq!(Dir::FacingA.flip(), Dir::FacingB);
    assert_eq!(Dir::FacingB.flip(), Dir::FacingA);
    assert_eq!(Dir::FacingA.flip().flip(), Dir::FacingA);
    assert_eq!(Dir::default(), Dir::FacingB);
}

#[test]
fn select_direction_flips_on_end_to_end_joints() {
    let a = TrackSegment { nodes: (1, 2) };
    let b_same = TrackSegment { nodes: (3, 2) };
    let b_onward = TrackSegment { nodes: (2, 3) };
    assert_eq!(select_direction(Dir::FacingB, &a, &b_same), Dir::FacingA);
    assert_eq!(select_direction(Dir::FacingB, &a, &b_onward), Dir::FacingB);
    let back = select_direction(select_direction(Dir::FacingB, &a, &b_same), &b_same, &a);
    assert_eq!(back, Dir::FacingB);
}

#[test]
fn segment_read_after_write() {
    let mut n = TrackNetwork::new();
    assert_eq!(n.segment(10), None);
    n.insert_segment(10, TrackSegment { nodes: (1, 2) });
    assert_eq!(n.segment(10), Some(TrackSegment { nodes: (1, 2) }));
    n.insert_segment(10, TrackSegment { nodes: (5, 6) });
    assert_eq!(n.segment(10), Some(TrackSegment { nodes: (5, 6) }));
    assert_eq!(n.switch_at(1), None);
}

#[test]
fn cross_onto_next_segment() {
    let n = line();
    let c = n.cross(10, 2, Dir::FacingB).unwrap();
    assert_eq!(c, Crossing { track: 11, facing: Dir::FacingA, enters_at_a: false });
}

#[test]
fn cross_back_returns() {
    let n = line();
    let c = n.cross(10, 2, Dir::FacingB).unwrap();
    let back = n.cross(c.track, 2, c.facing).unwrap();
    assert_eq!(back, Crossing { track: 10, facing: Dir::FacingB, enters_at_a: false });
}

#[test]
fn cross_errors() {
    let n = line();
    assert_eq!(n.cross(99, 2, Dir::FacingB), Err(LocError::BrokenSegmentReference(99)));
    assert_eq!(n.cross(10, 42, Dir::FacingB), Err(LocError::BrokenNodeReference(42)));
    assert_eq!(n.cross(10, 1, Dir::FacingA), Err(LocError::NoNeighborSegment));
    let mut m = TrackNetwork::new();
    m.insert_segment(10, TrackSegment { nodes: (1, 2) });
    m.insert_switch(2, TrackSwitch::Track(10, 77));
    assert_eq!(m.cross(10, 2, Dir::FacingB), Err(LocError::BrokenSegmentReference(77)));
}

#[test]
fn next_track_follows_the_facing() {
    let n = line();
    assert_eq!(
        n.next_track(10, Dir::FacingB),
        Ok(Crossing { track: 11, facing: Dir::FacingA, enters_at_a: false })
    );
    assert_eq!(n.next_track(10, Dir::FacingA), Err(LocError::NoNeighborSegment));
    assert_eq!(
        n.next_track(11, Dir::FacingB),
        Ok(Crossing { track: 10, facing: Dir::FacingA, enters_at_a: false })
    );
}

#[test]
fn next_track_through_switch() {
    let mut n = TrackNetwork::new();
    n.insert_segment(10, TrackSegment { nodes: (1, 2) });
    n.insert_segment(11, TrackSegment { nodes: (2, 3) });
    n.insert_segment(12, TrackSegment { nodes: (2, 4) });
    n.insert_switch(2, TrackSwitch::Switch { control: 1, inlet: 10, outlet: [11, 12] });
    assert_eq!(
        n.next_track(10, Dir::FacingB),
        Ok(Crossing { track: 12, facing: Dir::FacingB, enters_at_a: true })
    );
    assert_eq!(
        n.next_track(11, Dir::FacingA),
        Ok(Crossing { track: 10, facing: Dir::FacingA, enters_at_a: false })
    );
}
