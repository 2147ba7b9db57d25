use vstd::prelude::*;

use crate::track::EntityId;

verus! {

broadcast use vstd::seq_lib::group_to_multiset_ensures;

/// What a train finds at a node: nothing, the end of the line, a plain
/// joint of two segments, or a switch whose `control` selects the outlet
/// that the inlet leads to.
#[allow(inconsistent_fields)]
#[derive(Debug, Clone, Copy, PartialEq, Eq)]
pub enum TrackSwitch {
    Disconnected,
    Terminus(EntityId),
    Track(EntityId, EntityId),
    Switch { control: usize, inlet: EntityId, outlet: [EntityId; 2] },
    ThreewayTurnout { control: usize, inlet: EntityId, outlet: [EntityId; 3] },
}

impl Default for TrackSwitch {
    fn default() -> (r: Self)
        ensures
            r == TrackSwitch::Disconnected,
    {
        TrackSwitch::Disconnected
    }
}

impl TrackSwitch {
    /// The control of a switch selects one of its outlets.
    pub open spec fn wf(self) -> bool {
        match self {
            TrackSwitch::Switch { control, .. } => control < 2,
            TrackSwitch::ThreewayTurnout { control, .. } => control < 3,
            _ => true,
        }
    }

    /// The segment that a train coming from `current` continues on.
    pub open spec fn spec_next_segment(self, current: EntityId) -> Option<EntityId> {
        match self {
            TrackSwitch::Disconnected => None,
            TrackSwitch::Terminus(_) => None,
            TrackSwitch::Track(a, b) => {
                if a == current {
                    Some(b)
                } else if b == current {
                    Some(a)
                } else {
                    None
                }
            },
            TrackSwitch::Switch { control, inlet, outlet } => {
                if inlet == current {
                    Some(outlet@[control as int])
                } else {
                    Some(inlet)
                }
            },
            TrackSwitch::ThreewayTurnout { control, inlet, outlet } => {
                if inlet == current {
                    Some(outlet@[control as int])
                } else {
                    Some(inlet)
                }
            },
        }
    }

    /// The switch can be passed coming from `current`: a train that comes
    /// in from the inlet finds its control on one of the outlets.
    pub open spec fn passable_from(self, current: EntityId) -> bool {
        match self {
            TrackSwitch::Switch { control, inlet, .. } => inlet == current ==> control < 2,
            TrackSwitch::ThreewayTurnout { control, inlet, .. } => inlet == current ==> control < 3,
            _ => true,
        }
    }

    pub fn next_segment(&self, current: EntityId) -> (r: Option<EntityId>)
        requires
            self.passable_from(current),
        ensures
            r == self.spec_next_segment(current),
    {
        match *self {
            TrackSwitch::Disconnected => None,
            TrackSwitch::Terminus(_) => None,
            TrackSwitch::Track(a, b) => {
                if a == current {
                    Some(b)
                } else if b == current {
                    Some(a)
                } else {
                    None
                }
            },
            TrackSwitch::Switch { control, inlet, outlet } => {
                if inlet == current {
                    Some(outlet[control])
                } else {
                    Some(inlet)
                }
            },
            TrackSwitch::ThreewayTurnout { control, inlet, outlet } => {
                if inlet == current {
                    Some(outlet[control])
                } else {
                    Some(inlet)
                }
            },
        }
    }

    /// The switch after its control has moved on to the next outlet.
    pub open spec fn bumped(self) -> TrackSwitch {
        match self {
            TrackSwitch::Switch { control, inlet, outlet } => TrackSwitch::Switch {
                control: ((control + 1) % 2) as usize,
                inlet,
                outlet,
            },
            TrackSwitch::ThreewayTurnout { control, inlet, outlet } => TrackSwitch::ThreewayTurnout {
                control: ((control + 1) % 3) as usize,
                inlet,
                outlet,
            },
            _ => self,
        }
    }

    /// Moves the control of a switch or turnout to its next outlet; returns
    /// the new control, or `None` where the node has no control.
    pub fn bump(&mut self) -> (r: Option<usize>)
        requires
            match *old(self) {
                TrackSwitch::Switch { control, .. } => control < usize::MAX,
                TrackSwitch::ThreewayTurnout { control, .. } => control < usize::MAX,
                _ => true,
            },
        ensures
            *final(self) == old(self).bumped(),
            final(self).wf(),
            r == match *final(self) {
                TrackSwitch::Switch { control, .. } => Some(control),
                TrackSwitch::ThreewayTurnout { control, .. } => Some(control),
                _ => None::<usize>,
            },
    {
        match *self {
            TrackSwitch::Switch { control, inlet, outlet } => {
                let c = (control + 1) % 2;
                *self = TrackSwitch::Switch { control: c, inlet, outlet };
                Some(c)
            },
            TrackSwitch::ThreewayTurnout { control, inlet, outlet } => {
                let c = (control + 1) % 3;
                *self = TrackSwitch::ThreewayTurnout { control: c, inlet, outlet };
                Some(c)
            },
            _ => None,
        }
    }
}

/// A two-way switch is back where it started after two bumps, and after one
/// bump its inlet leads to the other outlet.
pub proof fn lemma_switch_bump_period(s: TrackSwitch)
    requires
        s is Switch,
        s.wf(),
    ensures
        s.bumped().bumped() == s,
        s.bumped().spec_next_segment(s->Switch_inlet) == Some(
            s->Switch_outlet@[1 - s->Switch_control],
        ),
{
}

/// A three-way turnout is back where it started after three bumps.
pub proof fn lemma_turnout_bump_period(s: TrackSwitch)
    requires
        s is ThreewayTurnout,
        s.wf(),
    ensures
        s.bumped().bumped().bumped() == s,
{
}

/// Bumping a switch moves the route from its inlet to its other outlet, and
/// over a cycle of bumps the inlet leads to each of its two outlets.
pub proof fn lemma_switch_bump_routes(s: TrackSwitch)
    requires
        s is Switch,
        s.wf(),
    ensures
        s.bumped().spec_next_segment(s->Switch_inlet) == Some(
            s->Switch_outlet@[(s->Switch_control + 1) % 2],
        ),
        forall|i: int|
            0 <= i < 2 ==> s.spec_next_segment(s->Switch_inlet) == Some(
                #[trigger] s->Switch_outlet@[i],
            ) || s.bumped().spec_next_segment(s->Switch_inlet) == Some(s->Switch_outlet@[i]),
{
}

/// Bumping a three-way turnout moves the route from its inlet to its next
/// outlet, and over a cycle of bumps the inlet leads to each of its three
/// outlets in turn; a bump changes the route wherever the outlets differ.
pub proof fn lemma_turnout_bump_routes(s: TrackSwitch)
    requires
        s is ThreewayTurnout,
        s.wf(),
    ensures
        s.bumped().spec_next_segment(s->ThreewayTurnout_inlet) == Some(
            s->ThreewayTurnout_outlet@[(s->ThreewayTurnout_control + 1) % 3],
        ),
        forall|i: int|
            0 <= i < 3 ==> s.spec_next_segment(s->ThreewayTurnout_inlet) == Some(
                #[trigger] s->ThreewayTurnout_outlet@[i],
            ) || s.bumped().spec_next_segment(s->ThreewayTurnout_inlet) == Some(
                s->ThreewayTurnout_outlet@[i],
            ) || s.bumped().bumped().spec_next_segment(s->ThreewayTurnout_inlet) == Some(
                s->ThreewayTurnout_outlet@[i],
            ),
        s->ThreewayTurnout_outlet@.no_duplicates() ==> s.bumped().spec_next_segment(
            s->ThreewayTurnout_inlet,
        ) != s.spec_next_segment(s->ThreewayTurnout_inlet),
{
    let o = s->ThreewayTurnout_outlet@;
    if o.no_duplicates() {
        let c = s->ThreewayTurnout_control as int;
        assert(o[c] != o[(c + 1) % 3]);
    }
}

/// A plain joint of two distinct segments leads from each to the other.
pub proof fn lemma_track_joint_symmetric(a: EntityId, b: EntityId)
    requires
        a != b,
    ensures
        TrackSwitch::Track(a, b).spec_next_segment(a) == Some(b),
        TrackSwitch::Track(a, b).spec_next_segment(b) == Some(a),
{
}

/// The segments among the first `n` neighbors that point the same way as
/// the first one (the first one included), in order.
pub open spec fn aligned_group(neighbors: Seq<EntityId>, aligned: Seq<bool>, n: nat) -> Seq<
    EntityId,
>
    decreases n,
{
    if n == 0 {
        Seq::empty()
    } else {
        let g = aligned_group(neighbors, aligned, (n - 1) as nat);
        if n == 1 || aligned[n - 1] {
            g.push(neighbors[n - 1])
        } else {
            g
        }
    }
}

/// The segments among the first `n` neighbors that point away from the
/// first one, in order.
pub open spec fn opposed_group(neighbors: Seq<EntityId>, aligned: Seq<bool>, n: nat) -> Seq<
    EntityId,
>
    decreases n,
{
    if n == 0 {
        Seq::empty()
    } else {
        let g = opposed_group(neighbors, aligned, (n - 1) as nat);
        if n > 1 && !aligned[n - 1] {
            g.push(neighbors[n - 1])
        } else {
            g
        }
    }
}

/// The two groups of a node's segments: those on the side of its first
/// segment, and those on the other side.
pub open spec fn groups(neighbors: Seq<EntityId>, aligned: Seq<bool>) -> (Seq<EntityId>, Seq<
    EntityId,
>) {
    (
        aligned_group(neighbors, aligned, neighbors.len()),
        opposed_group(neighbors, aligned, neighbors.len()),
    )
}

/// The inlet is the lone segment of the group that has one; where the
/// first group does not, it is the first of the other group.
pub open spec fn split_inlet(neighbors: Seq<EntityId>, aligned: Seq<bool>) -> EntityId {
    let (g0, g1) = groups(neighbors, aligned);
    if g0.len() == 1 {
        g0[0]
    } else {
        g1[0]
    }
}

/// The outlets are the other group.
pub open spec fn split_outlet(neighbors: Seq<EntityId>, aligned: Seq<bool>) -> Seq<EntityId> {
    let (g0, g1) = groups(neighbors, aligned);
    if g0.len() == 1 {
        g1
    } else {
        g0
    }
}

/// Splitting is defined: the first group is a single segment, or the
/// second group is not empty.
pub open spec fn can_split(neighbors: Seq<EntityId>, aligned: Seq<bool>) -> bool {
    let (g0, g1) = groups(neighbors, aligned);
    g0.len() == 1 || g1.len() > 0
}

/// Splits the segments at a node into its inlet and its outlets.
/// `aligned[i]` says whether segment `i` leaves the node within a quarter
/// turn of the first segment (`aligned[0]` is not read).
pub fn split_ends(neighbors: &Vec<EntityId>, aligned: &Vec<bool>) -> (r: (EntityId, Vec<EntityId>))
    requires
        neighbors@.len() == aligned@.len(),
        neighbors@.len() > 0,
        can_split(neighbors@, aligned@),
    ensures
        r.0 == split_inlet(neighbors@, aligned@),
        r.1@ == split_outlet(neighbors@, aligned@),
{
    let n = neighbors.len();
    let mut g0: Vec<EntityId> = Vec::new();
    let mut g1: Vec<EntityId> = Vec::new();
    let mut i: usize = 0;
    while i < n
        invariant
            n == neighbors@.len(),
            n == aligned@.len(),
            0 <= i <= n,
            g0@ == aligned_group(neighbors@, aligned@, i as nat),
            g1@ == opposed_group(neighbors@, aligned@, i as nat),
        decreases n - i,
    {
        let e_neighbor = neighbors[i];
        if i == 0 || aligned[i] {
            g0.push(e_neighbor);
        } else {
            g1.push(e_neighbor);
        }
        i = i + 1;
    }
    if g0.len() == 1 {
        (g0[0], g1)
    } else {
        (g1[0], g0)
    }
}

proof fn lemma_groups_partition(neighbors: Seq<EntityId>, aligned: Seq<bool>, n: nat)
    requires
        n <= neighbors.len(),
        n <= aligned.len(),
    ensures
        (aligned_group(neighbors, aligned, n) + opposed_group(neighbors, aligned, n)).to_multiset()
            =~= neighbors.take(n as int).to_multiset(),
        aligned_group(neighbors, aligned, n).len() + opposed_group(neighbors, aligned, n).len() == n,
        n > 0 ==> aligned_group(neighbors, aligned, n).len() > 0,
        n > 0 ==> aligned_group(neighbors, aligned, n)[0] == neighbors[0],
    decreases n,
{
    if n > 0 {
        let m = (n - 1) as nat;
        lemma_groups_partition(neighbors, aligned, m);
        let g0 = aligned_group(neighbors, aligned, m);
        let g1 = opposed_group(neighbors, aligned, m);
        let x = neighbors[m as int];
        assert(neighbors.take(n as int) == neighbors.take(m as int).push(x));
        vstd::seq_lib::lemma_multiset_commutative(g0, g1);
        vstd::seq_lib::lemma_multiset_commutative(g0.push(x), g1);
        vstd::seq_lib::lemma_multiset_commutative(g0, g1.push(x));
    }
}

/// The inlet and the outlets of a split are the node's segments, each as
/// often as it occurs there, where one of the two groups is a single segment.
pub proof fn lemma_split_keeps_segments(neighbors: Seq<EntityId>, aligned: Seq<bool>)
    requires
        neighbors.len() == aligned.len(),
        neighbors.len() > 0,
        groups(neighbors, aligned).0.len() == 1 || groups(neighbors, aligned).1.len() == 1,
    ensures
        (seq![split_inlet(neighbors, aligned)] + split_outlet(neighbors, aligned)).to_multiset()
            =~= neighbors.to_multiset(),
{
    let n = neighbors.len();
    lemma_groups_partition(neighbors, aligned, n);
    assert(neighbors.take(n as int) == neighbors);
    let (g0, g1) = groups(neighbors, aligned);
    if g0.len() == 1 {
        assert(seq![g0[0]] == g0);
    } else {
        assert(seq![g1[0]] == g1);
        vstd::seq_lib::lemma_multiset_commutative(g0, g1);
        vstd::seq_lib::lemma_multiset_commutative(g1, g0);
    }
}

/// Whether `s` is the switch that a node with these segments gets: a
/// terminus for one segment, a joint for two, a switch for three and a
/// three-way turnout for four, the switches set to their first outlet.
pub open spec fn is_switch_for(s: TrackSwitch, neighbors: Seq<EntityId>, aligned: Seq<bool>) -> bool {
    match s {
        TrackSwitch::Disconnected => false,
        TrackSwitch::Terminus(t) => neighbors.len() == 1 && t == neighbors[0],
        TrackSwitch::Track(a, b) => neighbors.len() == 2 && a == neighbors[0] && b == neighbors[1],
        TrackSwitch::Switch { control, inlet, outlet } => {
            &&& neighbors.len() == 3
            &&& control == 0
            &&& inlet == split_inlet(neighbors, aligned)
            &&& outlet@ == split_outlet(neighbors, aligned)
        },
        TrackSwitch::ThreewayTurnout { control, inlet, outlet } => {
            &&& neighbors.len() == 4
            &&& control == 0
            &&& inlet == split_inlet(neighbors, aligned)
            &&& outlet@ == split_outlet(neighbors, aligned)
        },
    }
}

/// Whether a node with these segments gets a switch without fault: it has
/// at most four segments, and where it has three or four, one side holds a
/// single segment.
pub open spec fn switch_buildable(neighbors: Seq<EntityId>, aligned: Seq<bool>) -> bool {
    let (g0, g1) = groups(neighbors, aligned);
    &&& neighbors.len() == aligned.len()
    &&& neighbors.len() <= 4
    &&& neighbors.len() >= 3 ==> (g0.len() == 1 || g1.len() == 1)
}

/// The switch that a node with these segments gets: none for a node
/// without segments, a terminus for one, a joint for two, a switch for
/// three and a three-way turnout for four, the switches set to their first
/// outlet.
pub fn switch_for_node(neighbors: &Vec<EntityId>, aligned: &Vec<bool>) -> (r: Option<TrackSwitch>)
    requires
        switch_buildable(neighbors@, aligned@),
    ensures
        r is Some <==> neighbors@.len() > 0,
        r matches Some(s) ==> s.wf() && is_switch_for(s, neighbors@, aligned@),
{
    let n = neighbors.len();
    if n == 0 {
        None
    } else if n == 1 {
        Some(TrackSwitch::Terminus(neighbors[0]))
    } else if n == 2 {
        Some(TrackSwitch::Track(neighbors[0], neighbors[1]))
    } else {
        proof {
            lemma_groups_partition(neighbors@, aligned@, n as nat);
        }
        let (inlet, outlet) = split_ends(neighbors, aligned);
        proof {
            let (g0, g1) = groups(neighbors@, aligned@);
            assert(neighbors@.take(n as int) == neighbors@);
            assert((g0 + g1).len() == n);
        }
        if n == 3 {
            let arr: [EntityId; 2] = [outlet[0], outlet[1]];
            assert(arr@ =~= outlet@);
            Some(TrackSwitch::Switch { control: 0, inlet, outlet: arr })
        } else {
            let arr: [EntityId; 3] = [outlet[0], outlet[1], outlet[2]];
            assert(arr@ =~= outlet@);
            Some(TrackSwitch::ThreewayTurnout { control: 0, inlet, outlet: arr })
        }
    }
}

/// A switch built for a node leads, from each of the node's segments, to
/// another of the node's segments (or to none, at a terminus).
pub proof fn lemma_built_switch_stays_on_node(
    neighbors: Seq<EntityId>,
    aligned: Seq<bool>,
    s: TrackSwitch,
    from: EntityId,
)
    requires
        switch_buildable(neighbors, aligned),
        neighbors.len() >= 2,
        neighbors.contains(from),
        is_switch_for(s, neighbors, aligned),
    ensures
        s.spec_next_segment(from) matches Some(next) && neighbors.contains(next),
{
    if neighbors.len() == 2 {
        assert(neighbors.contains(neighbors[0]));
        assert(neighbors.contains(neighbors[1]));
    } else {
        lemma_split_keeps_segments(neighbors, aligned);
        let inlet = split_inlet(neighbors, aligned);
        let outlet = split_outlet(neighbors, aligned);
        let whole = seq![inlet] + outlet;
        lemma_groups_partition(neighbors, aligned, neighbors.len());
        assert(neighbors.take(neighbors.len() as int) == neighbors);
        let (g0, g1) = groups(neighbors, aligned);
        assert((g0 + g1).len() == neighbors.len());
        assert(outlet.len() > 0);
        assert(whole[0] == inlet);
        assert(whole[1] == outlet[0]);
        assert(whole.contains(inlet));
        assert(whole.contains(outlet[0]));
        assert(whole.to_multiset().count(inlet) > 0);
        assert(whole.to_multiset().count(outlet[0]) > 0);
    }
}

} // verus!
