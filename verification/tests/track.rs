use railway::track::{compute_node_neighbors, TrackNode, TrackSegment};

#[test]
fn opposite_crosses_the_segment() {
    let s = TrackSegment { nodes: (1, 2) };
    assert_eq!(s.opposite(1), Some(2));
    assert_eq!(s.opposite(2), Some(1));
    assert_eq!(s.opposite(3), None);
    assert_eq!(s.opposite(s.opposite(1).unwrap()), Some(1));
}

#[test]
fn neighbors_are_the_segments_ending_at_each_node() {
    let mut nodes = vec![(1, TrackNode::new()), (2, TrackNode::new()), (3, TrackNode::new())];
    let segments = vec![
        (10, TrackSegment { nodes: (1, 2) }),
        (11, TrackSegment { nodes: (2, 3) }),
        (12, TrackSegment { nodes: (3, 1) }),
    ];
    compute_node_neighbors(&mut nodes, &segments);
    assert_eq!(nodes[0], (1, TrackNode { neighbors: vec![10, 12] }));
    assert_eq!(nodes[1], (2, TrackNode { neighbors: vec![10, 11] }));
    assert_eq!(nodes[2], (3, TrackNode { neighbors: vec![11, 12] }));
}

#[test]
fn neighbors_are_appended_to_existing_ones() {
    let mut nodes = vec![(1, TrackNode { neighbors: vec![99] }), (2, TrackNode::new())];
    let segments = vec![(10, TrackSegment { nodes: (1, 2) })];
    compute_node_neighbors(&mut nodes, &segments);
    assert_eq!(nodes[0].1.neighbors, vec![99, 10]);
    assert_eq!(nodes[1].1.neighbors, vec![10]);
}
