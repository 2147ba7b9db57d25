use railway::signal::control::SignalControl;
use railway::signal::Aspect;
use railway::zone::block::{zone_updated as block_zone_updated, Block};
use railway::zone::builder::{fetch_switches, zone_layout, ZoneLayout};
use railway::zone::junction::{signal_aspects, switch_updated, zone_updated, Junction};
use railway::zone::{axle_crossed, AxleCounter, Zone, ZoneStatus, ZoneUpdate};

#[test]
fn first_axle_in_occupies_last_axle_out_clears() {
    let mut z = Zone::new();
    assert_eq!(z.status(), ZoneStatus::Clear);
    assert_eq!(z.crossed(true), Some(ZoneStatus::Occupied));
    assert_eq!(z.crossed(true), None);
    assert_eq!(z.count, 2);
    assert_eq!(z.status(), ZoneStatus::Occupied);
    assert_eq!(z.crossed(false), None);
    assert_eq!(z.crossed(false), Some(ZoneStatus::Clear));
    assert_eq!(z.count, 0);
    assert_eq!(z.status(), ZoneStatus::Clear);
}

#[test]
fn leaving_empty_zone_changes_nothing() {
    let mut z = Zone { count: 0 };
    assert_eq!(z.crossed(false), None);
    assert_eq!(z.count, 0);
}

#[test]
fn in_then_out_restores_count() {
    let mut z = Zone { count: 5 };
    z.crossed(true);
    z.crossed(false);
    assert_eq!(z, Zone { count: 5 });
}

#[test]
fn axle_crossed_reports_zone_of_counter() {
    let counter = AxleCounter { zone: 77 };
    let mut z = Zone::new();
    assert_eq!(
        axle_crossed(&counter, &mut z, true),
        Some(ZoneUpdate { zone: 77, status: ZoneStatus::Occupied })
    );
    assert_eq!(axle_crossed(&counter, &mut z, true), None);
    assert_eq!(axle_crossed(&counter, &mut z, false), None);
    assert_eq!(
        axle_crossed(&counter, &mut z, false),
        Some(ZoneUpdate { zone: 77, status: ZoneStatus::Clear })
    );
}

#[test]
fn block_signal_follows_status() {
    let b = Block { entry_signal: 9 };
    assert_eq!(block_zone_updated(&b, ZoneStatus::Clear), SignalControl { signal: 9, aspect: Aspect::Green });
    assert_eq!(block_zone_updated(&b, ZoneStatus::Occupied), SignalControl { signal: 9, aspect: Aspect::Red });
}

#[test]
fn merge_aspects() {
    let signals = [1, 2];
    assert_eq!(
        signal_aspects(ZoneStatus::Occupied, 0, &signals),
        vec![
            SignalControl { signal: 1, aspect: Aspect::Red },
            SignalControl { signal: 2, aspect: Aspect::Red }
        ]
    );
    assert_eq!(
        signal_aspects(ZoneStatus::Clear, 0, &signals),
        vec![
            SignalControl { signal: 1, aspect: Aspect::Green },
            SignalControl { signal: 2, aspect: Aspect::Red }
        ]
    );
    assert_eq!(
        signal_aspects(ZoneStatus::Clear, 1, &signals),
        vec![
            SignalControl { signal: 1, aspect: Aspect::Red },
            SignalControl { signal: 2, aspect: Aspect::Green }
        ]
    );
}

#[test]
fn junction_zone_updated() {
    let split = Junction::Split1_2 { signal: 4 };
    assert_eq!(zone_updated(&split, ZoneStatus::Occupied), vec![SignalControl { signal: 4, aspect: Aspect::Red }]);
    let merge = Junction::Merge2_1 { signals: [5, 6], control: 1 };
    assert_eq!(
        zone_updated(&merge, ZoneStatus::Clear),
        vec![
            SignalControl { signal: 5, aspect: Aspect::Red },
            SignalControl { signal: 6, aspect: Aspect::Green }
        ]
    );
}

#[test]
fn junction_switch_updated() {
    let mut merge = Junction::Merge2_1 { signals: [5, 6], control: 1 };
    let zone = Zone { count: 0 };
    let controls = switch_updated(&mut merge, &zone, 0);
    assert_eq!(merge, Junction::Merge2_1 { signals: [5, 6], control: 0 });
    assert_eq!(
        controls,
        vec![
            SignalControl { signal: 5, aspect: Aspect::Green },
            SignalControl { signal: 6, aspect: Aspect::Red }
        ]
    );
    let busy = Zone { count: 3 };
    let controls = switch_updated(&mut merge, &busy, 1);
    assert_eq!(controls[0].aspect, Aspect::Red);
    assert_eq!(controls[1].aspect, Aspect::Red);
    let mut split = Junction::Split1_2 { signal: 4 };
    assert!(switch_updated(&mut split, &zone, 1).is_empty());
    assert_eq!(split, Junction::Split1_2 { signal: 4 });
}

#[test]
fn layout_by_entries_and_exits() {
    assert_eq!(zone_layout(&vec![3], 1, &vec![]), ZoneLayout::Block(Block { entry_signal: 3 }));
    assert_eq!(
        zone_layout(&vec![3], 2, &vec![8]),
        ZoneLayout::Junction { junction: Junction::Split1_2 { signal: 3 }, switch: 8 }
    );
    assert_eq!(
        zone_layout(&vec![3, 4], 1, &vec![8, 9]),
        ZoneLayout::Junction { junction: Junction::Merge2_1 { signals: [3, 4], control: 0 }, switch: 8 }
    );
}

#[test]
fn fetch_switches_by_position() {
    let nodes = vec![100, 101, 102, 103];
    assert_eq!(fetch_switches(&nodes, &vec![2, 0, 2]), vec![102, 100, 102]);
    assert_eq!(fetch_switches(&nodes, &vec![]), Vec::<u64>::new());
}
