# railway

The rules of a small railway simulation, verified with Verus, and the bevy
program that runs them.

- `src/` is the verified library. Entities are named by their bits
  (`EntityId`).
  - `track`: segment ends, and the segments listed at each node.
  - `switch`: what a train finds at a node (terminus, joint, switch,
    three-way turnout), how a node's segments are split into inlet and
    outlets, and how a switch's control moves.
  - `loc`: facings, and the track network through which locations move
    from segment to segment.
  - `landmark`: the landmarks of each track, ordered along it.
  - `zone`: axle-counted zones, the blocks and junctions they guard, and how
    a zone gets its layout.
  - `signal`: aspects, trains held at red signals, block occupancy.
  - `train`: how a signalled train's speed changes.
  - `control`: what a click does.
- `tests/` runs the library on concrete values.
- `app/` is the bevy program: the world, its geometry (distances, angles and
  positions are floating point and stay there), drawing and input.
