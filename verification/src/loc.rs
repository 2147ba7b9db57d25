use vstd::prelude::*;

use crate::switch::TrackSwitch;
use crate::track::{EntityId, TrackSegment};

verus! {

/// The end of a track segment that a location faces: the node `A`
/// (`nodes.0`) or the node `B` (`nodes.1`).
#[derive(Debug, Clone, Copy, PartialEq, Eq, Structural)]
pub enum Dir {
    FacingA,
    FacingB,
}

impl Default for Dir {
    fn default() -> (r: Self)
        ensures
            r == Dir::FacingB,
    {
        Dir::FacingB
    }
}

impl Dir {
    /// The opposite facing.
    pub open spec fn flipped(self) -> Dir {
        match self {
            Dir::FacingA => Dir::FacingB,
            Dir::FacingB => Dir::FacingA,
        }
    }

    pub fn flip(self) -> (r: Self)
        ensures
            r == self.flipped(),
            r != self,
    {
        match self {
            Dir::FacingA => Dir::FacingB,
            Dir::FacingB => Dir::FacingA,
        }
    }
}

/// Turning around twice faces the way one started.
pub proof fn lemma_flip_involutive(d: Dir)
    ensures
        d.flipped().flipped() == d,
        d.flipped() != d,
{
}

/// The node that a location on `segment` with facing `facing` faces.
pub open spec fn facing_node(segment: TrackSegment, facing: Dir) -> EntityId {
    match facing {
        Dir::FacingA => segment.nodes.0,
        Dir::FacingB => segment.nodes.1,
    }
}

/// The facing kept when moving from `current` onto `next`: it turns around
/// where the two segments meet end `A` to end `A` or end `B` to end `B`.
pub open spec fn spec_select_direction(dir: Dir, current: TrackSegment, next: TrackSegment) -> Dir {
    if current.nodes.0 == next.nodes.0 || current.nodes.1 == next.nodes.1 {
        dir.flipped()
    } else {
        dir
    }
}

pub fn select_direction(dir: Dir, current_track: &TrackSegment, next_track: &TrackSegment) -> (r:
    Dir)
    ensures
        r == spec_select_direction(dir, *current_track, *next_track),
{
    if current_track.nodes.0 == next_track.nodes.0 {
        dir.flip()
    } else if current_track.nodes.1 == next_track.nodes.1 {
        dir.flip()
    } else {
        dir
    }
}

/// A location that crosses the node it faces goes on facing away from that
/// node: on the next segment it faces the segment's other end. In
/// particular, where the two segments meet end `A` to end `A` (or end `B` to
/// end `B`) the facing turns around.
pub proof fn lemma_select_direction_faces_away(
    dir: Dir,
    current: TrackSegment,
    next: TrackSegment,
    node: EntityId,
)
    requires
        current.nodes.0 != current.nodes.1,
        next.nodes.0 != next.nodes.1,
        facing_node(current, dir) == node,
        next.touches(node),
    ensures
        facing_node(next, spec_select_direction(dir, current, next)) != node,
        next.spec_opposite(node) == Some(facing_node(next, spec_select_direction(dir, current, next))),
        current.nodes.0 == next.nodes.0 ==> spec_select_direction(dir, current, next) != dir,
        current.nodes.1 == next.nodes.1 ==> spec_select_direction(dir, current, next) != dir,
{
}

/// Moving from one segment onto another and back restores the facing.
pub proof fn lemma_select_direction_reverses(dir: Dir, current: TrackSegment, next: TrackSegment)
    ensures
        spec_select_direction(spec_select_direction(dir, current, next), next, current) == dir,
{
}

/// Why a location could not be moved along the track.
#[derive(Debug, Clone, Copy, PartialEq, Eq)]
pub enum LocError {
    BrokenSegmentReference(EntityId),
    BrokenNodeReference(EntityId),
    NoNeighborSegment,
}

/// Where a location lands after it has passed a node: the segment, its
/// facing there, and whether it entered that segment at its end `A`.
#[derive(Debug, Clone, Copy, PartialEq, Eq)]
pub struct Crossing {
    pub track: EntityId,
    pub facing: Dir,
    pub enters_at_a: bool,
}

/// The value that `key` has in `m`, if any.
pub open spec fn lookup<K, V>(m: Map<K, V>, key: K) -> Option<V> {
    if m.dom().contains(key) {
        Some(m[key])
    } else {
        None
    }
}

/// The map that a list of entries describes, a later entry overriding an
/// earlier one of the same key.
pub open spec fn entries_map<V>(entries: Seq<(EntityId, V)>) -> Map<EntityId, V>
    decreases entries.len(),
{
    if entries.len() == 0 {
        Map::empty()
    } else {
        entries_map(entries.drop_last()).insert(entries.last().0, entries.last().1)
    }
}

/// Looks `key` up among `entries`, the last entry of that key winning.
pub(crate) fn find_entry<V: Copy>(entries: &Vec<(EntityId, V)>, key: EntityId) -> (r: Option<V>)
    ensures
        r == lookup(entries_map(entries@), key),
{
    let mut i = entries.len();
    proof {
        assert(entries@.take(i as int) == entries@);
    }
    while i > 0
        invariant
            0 <= i <= entries@.len(),
            lookup(entries_map(entries@), key) == lookup(entries_map(entries@.take(i as int)), key),
        decreases i,
    {
        proof {
            assert(entries@.take(i as int).drop_last() == entries@.take(i - 1));
        }
        if entries[i - 1].0 == key {
            return Some(entries[i - 1].1);
        }
        i = i - 1;
    }
    None
}

/// The segments and switches of the track, by entity, as the logic that
/// moves along the track reads them.
pub struct TrackNetwork {
    segments: Vec<(EntityId, TrackSegment)>,
    switches: Vec<(EntityId, TrackSwitch)>,
}

impl TrackNetwork {
    #[verifier::type_invariant]
    spec fn switches_wf(self) -> bool {
        forall|i: int| 0 <= i < self.switches@.len() ==> (#[trigger] self.switches@[i]).1.wf()
    }

    /// The segments of the track.
    pub closed spec fn segments_view(self) -> Map<EntityId, TrackSegment> {
        entries_map(self.segments@)
    }

    /// The switches at the nodes of the track.
    pub closed spec fn switches_view(self) -> Map<EntityId, TrackSwitch> {
        entries_map(self.switches@)
    }

    proof fn lemma_entries_wf(entries: Seq<(EntityId, TrackSwitch)>, node: EntityId)
        requires
            forall|i: int| 0 <= i < entries.len() ==> (#[trigger] entries[i]).1.wf(),
            entries_map(entries).dom().contains(node),
        ensures
            entries_map(entries)[node].wf(),
        decreases entries.len(),
    {
        if entries.len() > 0 && entries.last().0 != node {
            assert forall|i: int| 0 <= i < entries.drop_last().len() implies (
            #[trigger] entries.drop_last()[i]).1.wf() by {
                assert(entries.drop_last()[i] == entries[i]);
            }
            Self::lemma_entries_wf(entries.drop_last(), node);
        }
        if entries.len() > 0 && entries.last().0 == node {
            assert(entries[entries.len() - 1].1.wf());
        }
    }

    pub fn new() -> (r: Self)
        ensures
            r.segments_view() == Map::<EntityId, TrackSegment>::empty(),
            r.switches_view() == Map::<EntityId, TrackSwitch>::empty(),
    {
        TrackNetwork { segments: Vec::new(), switches: Vec::new() }
    }

    pub fn insert_segment(&mut self, id: EntityId, segment: TrackSegment)
        ensures
            final(self).segments_view() == old(self).segments_view().insert(id, segment),
            final(self).switches_view() == old(self).switches_view(),
    {
        proof {
            use_type_invariant(&*self);
        }
        let mut entries = Vec::new();
        std::mem::swap(&mut entries, &mut self.segments);
        entries.push((id, segment));
        proof {
            assert(entries@.drop_last() == old(self).segments@);
        }
        self.segments = entries;
    }

    pub fn insert_switch(&mut self, id: EntityId, switch: TrackSwitch)
        requires
            switch.wf(),
        ensures
            final(self).switches_view() == old(self).switches_view().insert(id, switch),
            final(self).segments_view() == old(self).segments_view(),
    {
        proof {
            use_type_invariant(&*self);
        }
        let mut entries = Vec::new();
        std::mem::swap(&mut entries, &mut self.switches);
        entries.push((id, switch));
        proof {
            assert(entries@.drop_last() == old(self).switches@);
        }
        self.switches = entries;
    }

    pub fn segment(&self, id: EntityId) -> (r: Option<TrackSegment>)
        ensures
            r == lookup(self.segments_view(), id),
    {
        find_entry(&self.segments, id)
    }

    pub fn switch_at(&self, node: EntityId) -> (r: Option<TrackSwitch>)
        ensures
            r == lookup(self.switches_view(), node),
            r matches Some(s) ==> s.wf(),
    {
        let r = find_entry(&self.switches, node);
        proof {
            use_type_invariant(self);
            if r is Some {
                Self::lemma_entries_wf(self.switches@, node);
            }
        }
        r
    }

    /// Where a location on `track` lands once it has run past the node
    /// `exit_node` with facing `facing`.
    pub open spec fn spec_cross(self, track: EntityId, exit_node: EntityId, facing: Dir) -> Result<
        Crossing,
        LocError,
    > {
        let segments = self.segments_view();
        let switches = self.switches_view();
        if !segments.dom().contains(track) {
            Err(LocError::BrokenSegmentReference(track))
        } else if !switches.dom().contains(exit_node) {
            Err(LocError::BrokenNodeReference(exit_node))
        } else {
            match switches[exit_node].spec_next_segment(track) {
                None => Err(LocError::NoNeighborSegment),
                Some(next) => {
                    if !segments.dom().contains(next) {
                        Err(LocError::BrokenSegmentReference(next))
                    } else {
                        Ok(
                            Crossing {
                                track: next,
                                facing: spec_select_direction(
                                    facing,
                                    segments[track],
                                    segments[next],
                                ),
                                enters_at_a: segments[next].nodes.0 == exit_node,
                            },
                        )
                    }
                },
            }
        }
    }

    /// Takes a location on `track` with facing `facing` across the node
    /// `exit_node` that it has run past, onto the segment that the node's
    /// switch leads to.
    pub fn cross(&self, track: EntityId, exit_node: EntityId, facing: Dir) -> (r: Result<
        Crossing,
        LocError,
    >)
        ensures
            r == self.spec_cross(track, exit_node, facing),
    {
        let current_track = match self.segment(track) {
            Some(s) => s,
            None => return Err(LocError::BrokenSegmentReference(track)),
        };
        let switch = match self.switch_at(exit_node) {
            Some(s) => s,
            None => return Err(LocError::BrokenNodeReference(exit_node)),
        };
        let e_next = match switch.next_segment(track) {
            Some(segment) => segment,
            None => return Err(LocError::NoNeighborSegment),
        };
        let next_track = match self.segment(e_next) {
            Some(s) => s,
            None => return Err(LocError::BrokenSegmentReference(e_next)),
        };
        Ok(
            Crossing {
                track: e_next,
                facing: select_direction(facing, &current_track, &next_track),
                enters_at_a: next_track.nodes.0 == exit_node,
            },
        )
    }

    /// The segment of `track` is known, so is the switch at the node it
    /// faces, and so is the segment that this switch leads to, if any.
    pub open spec fn can_step(self, track: EntityId, facing: Dir) -> bool {
        let segments = self.segments_view();
        let switches = self.switches_view();
        &&& segments.dom().contains(track)
        &&& switches.dom().contains(facing_node(segments[track], facing))
        &&& switches[facing_node(segments[track], facing)].spec_next_segment(track) matches Some(
            next,
        ) ==> segments.dom().contains(next)
    }

    /// Moves a location on `track` with facing `facing` onto the segment
    /// beyond the node that it faces.
    pub fn next_track(&self, track: EntityId, facing: Dir) -> (r: Result<Crossing, LocError>)
        requires
            self.can_step(track, facing),
        ensures
            r == self.spec_cross(track, facing_node(self.segments_view()[track], facing), facing),
            r is Err ==> r == Err::<Crossing, LocError>(LocError::NoNeighborSegment),
    {
        let current_track = self.segment(track).unwrap();
        let e_switch = match facing {
            Dir::FacingA => current_track.nodes.0,
            Dir::FacingB => current_track.nodes.1,
        };
        let switch = self.switch_at(e_switch).unwrap();
        let e_next = match switch.next_segment(track) {
            Some(s) => s,
            None => return Err(LocError::NoNeighborSegment),
        };
        let next_track = self.segment(e_next).unwrap();
        Ok(
            Crossing {
                track: e_next,
                facing: select_direction(facing, &current_track, &next_track),
                enters_at_a: next_track.nodes.0 == e_switch,
            },
        )
    }
}

/// A crossing that the switch leads back on returns to the segment one
/// came from, with the facing one had, entering it at the end of the node.
pub proof fn lemma_cross_back(
    network: TrackNetwork,
    track: EntityId,
    exit_node: EntityId,
    facing: Dir,
)
    requires
        network.spec_cross(track, exit_node, facing) is Ok,
        network.switches_view()[exit_node].spec_next_segment(
            network.spec_cross(track, exit_node, facing)->Ok_0.track,
        ) == Some(track),
    ensures
        ({
            let c = network.spec_cross(track, exit_node, facing)->Ok_0;
            network.spec_cross(c.track, exit_node, c.facing) == Ok::<Crossing, LocError>(
                Crossing {
                    track,
                    facing,
                    enters_at_a: network.segments_view()[track].nodes.0 == exit_node,
                },
            )
        }),
{
    let c = network.spec_cross(track, exit_node, facing)->Ok_0;
    lemma_select_direction_reverses(
        facing,
        network.segments_view()[track],
        network.segments_view()[c.track],
    );
}

/// A segment written into the network is read back as written.
pub proof fn lemma_segment_read_after_write(
    before: TrackNetwork,
    after: TrackNetwork,
    id: EntityId,
    segment: TrackSegment,
    other: EntityId,
)
    requires
        after.segments_view() == before.segments_view().insert(id, segment),
    ensures
        lookup(after.segments_view(), id) == Some(segment),
        other != id ==> lookup(after.segments_view(), other) == lookup(
            before.segments_view(),
            other,
        ),
{
}

} // verus!
