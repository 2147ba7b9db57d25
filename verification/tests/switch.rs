use railway::switch::{split_ends, switch_for_node, TrackSwitch};

#[test]
fn next_segment_follows_joint_both_ways() {
    let joint = TrackSwitch::Track(10, 20);
    assert_eq!(joint.next_segment(10), Some(20));
    assert_eq!(joint.next_segment(20), Some(10));
    assert_eq!(joint.next_segment(30), None);
}

#[test]
fn next_segment_stops_at_terminus_and_disconnected() {
    assert_eq!(TrackSwitch::Terminus(5).next_segment(5), None);
    assert_eq!(TrackSwitch::Disconnected.next_segment(5), None);
    assert_eq!(TrackSwitch::default(), TrackSwitch::Disconnected);
}

#[test]
fn switch_routes_inlet_to_selected_outlet() {
    let s = TrackSwitch::Switch { control: 1, inlet: 1, outlet: [2, 3] };
    assert_eq!(s.next_segment(1), Some(3));
    assert_eq!(s.next_segment(2), Some(1));
    assert_eq!(s.next_segment(3), Some(1));
}

#[test]
fn turnout_routes_inlet_to_selected_outlet() {
    let s = TrackSwitch::ThreewayTurnout { control: 2, inlet: 1, outlet: [2, 3, 4] };
    assert_eq!(s.next_segment(1), Some(4));
    assert_eq!(s.next_segment(4), Some(1));
}

#[test]
fn bump_cycles_switch_with_period_two() {
    let start = TrackSwitch::Switch { control: 0, inlet: 1, outlet: [2, 3] };
    let mut s = start;
    assert_eq!(s.bump(), Some(1));
    assert_eq!(s.next_segment(1), Some(3));
    assert_eq!(s.bump(), Some(0));
    assert_eq!(s, start);
}

#[test]
fn bump_cycles_turnout_with_period_three() {
    let start = TrackSwitch::ThreewayTurnout { control: 0, inlet: 1, outlet: [2, 3, 4] };
    let mut s = start;
    assert_eq!(s.bump(), Some(1));
    assert_eq!(s.bump(), Some(2));
    assert_eq!(s.bump(), Some(0));
    assert_eq!(s, start);
}

#[test]
fn bump_leaves_plain_nodes_alone() {
    let mut s = TrackSwitch::Track(1, 2);
    assert_eq!(s.bump(), None);
    assert_eq!(s, TrackSwitch::Track(1, 2));
    let mut t = TrackSwitch::Terminus(1);
    assert_eq!(t.bump(), None);
    assert_eq!(t, TrackSwitch::Terminus(1));
}

#[test]
fn split_ends_single_first_segment_is_inlet() {
    // segment 7 alone on its side, 8 and 9 on the other
    let (inlet, outlet) = split_ends(&vec![7, 8, 9], &vec![true, false, false]);
    assert_eq!(inlet, 7);
    assert_eq!(outlet, vec![8, 9]);
}

#[test]
fn split_ends_single_other_segment_is_inlet() {
    let (inlet, outlet) = split_ends(&vec![7, 8, 9], &vec![true, true, false]);
    assert_eq!(inlet, 9);
    assert_eq!(outlet, vec![7, 8]);
}

#[test]
fn switch_for_node_by_number_of_segments() {
    assert_eq!(switch_for_node(&vec![], &vec![]), None);
    assert_eq!(switch_for_node(&vec![4], &vec![true]), Some(TrackSwitch::Terminus(4)));
    assert_eq!(switch_for_node(&vec![4, 5], &vec![true, false]), Some(TrackSwitch::Track(4, 5)));
    assert_eq!(
        switch_for_node(&vec![4, 5, 6], &vec![true, true, false]),
        Some(TrackSwitch::Switch { control: 0, inlet: 6, outlet: [4, 5] })
    );
    assert_eq!(
        switch_for_node(&vec![4, 5, 6, 7], &vec![true, false, false, false]),
        Some(TrackSwitch::ThreewayTurnout { control: 0, inlet: 4, outlet: [5, 6, 7] })
    );
}

#[test]
fn built_switch_stays_on_node() {
    let neighbors = vec![4, 5, 6];
    let s = switch_for_node(&neighbors, &vec![true, false, true]).unwrap();
    for from in &neighbors {
        let next = s.next_segment(*from).unwrap();
        assert!(neighbors.contains(&next));
    }
}

#[test]
fn split_keeps_every_segment_once() {
    let neighbors = vec![4, 5, 6, 7];
    let (inlet, outlet) = split_ends(&neighbors, &vec![true, false, true, true]);
    assert_eq!(inlet, 5);
    let mut all = vec![inlet];
    all.extend(outlet);
    all.sort();
    assert_eq!(all, neighbors);
}

#[test]
fn switch_with_stray_control_still_leads_back_to_its_inlet() {
    let s = TrackSwitch::Switch { control: 7, inlet: 1, outlet: [2, 3] };
    assert_eq!(s.next_segment(2), Some(1));
    assert_eq!(s.next_segment(3), Some(1));
    let t = TrackSwitch::ThreewayTurnout { control: 9, inlet: 1, outlet: [2, 3, 4] };
    assert_eq!(t.next_segment(4), Some(1));
}
