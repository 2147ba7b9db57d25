use vstd::prelude::*;

verus! {

/// An entity of the simulation (a node, a segment, a signal, a train, ...),
/// by the bits that identify it in the world.
pub type EntityId = u64;

/// The topology of a track segment: the node at its end `A` and the node at
/// its end `B`.
#[derive(Debug, Clone, Copy, PartialEq, Eq)]
pub struct TrackSegment {
    pub nodes: (EntityId, EntityId),
}

impl TrackSegment {
    /// Whether `node` is one of the two ends of the segment.
    pub open spec fn touches(self, node: EntityId) -> bool {
        self.nodes.0 == node || self.nodes.1 == node
    }

    /// The end that lies across the segment from `from`, if `from` is one of
    /// its ends (end `A` is looked at first).
    pub open spec fn spec_opposite(self, from: EntityId) -> Option<EntityId> {
        if self.nodes.0 == from {
            Some(self.nodes.1)
        } else if self.nodes.1 == from {
            Some(self.nodes.0)
        } else {
            None
        }
    }

    pub fn opposite(&self, from: EntityId) -> (r: Option<EntityId>)
        ensures
            r == self.spec_opposite(from),
            r is Some <==> self.touches(from),
    {
        if self.nodes.0 == from {
            Some(self.nodes.1)
        } else if self.nodes.1 == from {
            Some(self.nodes.0)
        } else {
            None
        }
    }
}

/// Going across a segment and back lands on the node one started from.
pub proof fn lemma_opposite_involutive(segment: TrackSegment, from: EntityId)
    requires
        segment.touches(from),
    ensures
        segment.spec_opposite(from) is Some,
        segment.spec_opposite(segment.spec_opposite(from)->0) == Some(from),
{
}

/// A node of the track, with the segments that end at it.
#[derive(Debug, Clone, PartialEq, Eq)]
pub struct TrackNode {
    pub neighbors: Vec<EntityId>,
}

impl TrackNode {
    pub fn new() -> (r: Self)
        ensures
            r.neighbors@ == Seq::<EntityId>::empty(),
    {
        TrackNode { neighbors: Vec::new() }
    }
}

/// The segments among `segments` that end at `node`, in their order.
pub open spec fn segments_at(node: EntityId, segments: Seq<(EntityId, TrackSegment)>) -> Seq<
    EntityId,
>
    decreases segments.len(),
{
    if segments.len() == 0 {
        Seq::empty()
    } else {
        let rest = segments_at(node, segments.drop_last());
        if segments.last().1.touches(node) {
            rest.push(segments.last().0)
        } else {
            rest
        }
    }
}

/// A segment is listed at a node exactly when it ends there: every segment
/// is a neighbor of both of its ends and of no other node.
pub proof fn lemma_segments_at_membership(
    node: EntityId,
    segments: Seq<(EntityId, TrackSegment)>,
    id: EntityId,
)
    ensures
        segments_at(node, segments).contains(id) <==> exists|j: int|
            0 <= j < segments.len() && (#[trigger] segments[j]).0 == id && segments[j].1.touches(node),
    decreases segments.len(),
{
    if segments.len() > 0 {
        let rest = segments.drop_last();
        lemma_segments_at_membership(node, rest, id);
        let last = segments.len() - 1;
        if segments_at(node, segments).contains(id) {
            if segments[last].1.touches(node) && segments[last].0 == id {
                assert(segments[last].0 == id && segments[last].1.touches(node));
            } else {
                if segments[last].1.touches(node) {
                    let k = choose|k: int|
                        0 <= k < segments_at(node, segments).len() && segments_at(node, segments)[k] == id;
                    assert(segments_at(node, segments) == segments_at(node, rest).push(segments[last].0));
                    assert(k < segments_at(node, rest).len());
                    assert(segments_at(node, rest)[k] == id);
                    assert(segments_at(node, rest).contains(id));
                }
                let j = choose|j: int|
                    0 <= j < rest.len() && (#[trigger] rest[j]).0 == id && rest[j].1.touches(node);
                assert(segments[j] == rest[j]);
            }
        }
        if exists|j: int|
            0 <= j < segments.len() && (#[trigger] segments[j]).0 == id && segments[j].1.touches(node) {
            let j = choose|j: int|
                0 <= j < segments.len() && (#[trigger] segments[j]).0 == id && segments[j].1.touches(node);
            if j == last {
                assert(segments_at(node, segments) == segments_at(node, rest).push(id));
                assert(segments_at(node, segments)[segments_at(node, rest).len() as int] == id);
            } else {
                assert(rest[j] == segments[j]);
                let r = segments_at(node, rest);
                assert(r.contains(id));
                let k = choose|k: int| 0 <= k < r.len() && r[k] == id;
                if segments[last].1.touches(node) {
                    assert(segments_at(node, segments) == r.push(segments[last].0));
                    assert(segments_at(node, segments)[k] == id);
                }
            }
        }
    }
}

/// Every segment has two distinct ends, and both are among `nodes`.
pub open spec fn segments_well_placed(
    nodes: Seq<(EntityId, TrackNode)>,
    segments: Seq<(EntityId, TrackSegment)>,
) -> bool {
    forall|j: int|
        0 <= j < segments.len() ==> {
            &&& (#[trigger] segments[j]).1.nodes.0 != segments[j].1.nodes.1
            &&& exists|i: int| 0 <= i < nodes.len() && nodes[i].0 == segments[j].1.nodes.0
            &&& exists|i: int| 0 <= i < nodes.len() && nodes[i].0 == segments[j].1.nodes.1
        }
}

/// Appends to each node the segments that end at it, in the order of
/// `segments`.
#[verifier::loop_isolation(false)]
pub fn compute_node_neighbors(
    nodes: &mut Vec<(EntityId, TrackNode)>,
    segments: &Vec<(EntityId, TrackSegment)>,
)
    requires
        segments_well_placed(old(nodes)@, segments@),
    ensures
        final(nodes)@.len() == old(nodes)@.len(),
        forall|i: int|
            0 <= i < final(nodes)@.len() ==> {
                &&& (#[trigger] final(nodes)@[i]).0 == old(nodes)@[i].0
                &&& final(nodes)@[i].1.neighbors@ == old(nodes)@[i].1.neighbors@ + segments_at(
                    old(nodes)@[i].0,
                    segments@,
                )
            },
{
    let n = nodes.len();
    let ghost start = nodes@;
    let mut i: usize = 0;
    while i < n
        invariant
            n == nodes@.len(),
            start.len() == n,
            0 <= i <= n,
            forall|k: int|
                0 <= k < n ==> (#[trigger] nodes@[k]).0 == start[k].0,
            forall|k: int|
                0 <= k < i ==> (#[trigger] nodes@[k]).1.neighbors@ == start[k].1.neighbors@
                    + segments_at(start[k].0, segments@),
            forall|k: int|
                i <= k < n ==> (#[trigger] nodes@[k]).1.neighbors@ == start[k].1.neighbors@,
        decreases n - i,
    {
        let id = nodes[i].0;
        let mut neighbors: Vec<EntityId> = Vec::new();
        let m = nodes[i].1.neighbors.len();
        let mut k: usize = 0;
        while k < m
            invariant
                m == nodes@[i as int].1.neighbors@.len(),
                0 <= k <= m,
                neighbors@ == nodes@[i as int].1.neighbors@.take(k as int),
            decreases m - k,
        {
            neighbors.push(nodes[i].1.neighbors[k]);
            proof {
                assert(nodes@[i as int].1.neighbors@.take(k + 1) == nodes@[i as int].1.neighbors@.take(
                    k as int,
                ).push(nodes@[i as int].1.neighbors@[k as int]));
            }
            k = k + 1;
        }
        proof {
            assert(nodes@[i as int].1.neighbors@.take(m as int) == nodes@[i as int].1.neighbors@);
        }
        let s = segments.len();
        let mut j: usize = 0;
        while j < s
            invariant
                s == segments@.len(),
                0 <= j <= s,
                id == start[i as int].0,
                neighbors@ == start[i as int].1.neighbors@ + segments_at(id, segments@.take(j as int)),
            decreases s - j,
        {
            let (e_segment, segment) = segments[j];
            proof {
                assert(segments@.take(j + 1).drop_last() == segments@.take(j as int));
            }
            if segment.nodes.0 == id || segment.nodes.1 == id {
                neighbors.push(e_segment);
            }
            j = j + 1;
        }
        proof {
            assert(segments@.take(s as int) == segments@);
        }
        nodes.set(i, (id, TrackNode { neighbors }));
        i = i + 1;
    }
}

} // verus!
