//! Block positions, the six faces of a block and the four horizontal directions.
use vstd::prelude::*;

verus! {

/// The largest absolute coordinate a position of a world may have: the range of `i32`
/// less a margin of 64 blocks, room for the few steps the passes take around a
/// position (a rail chain walks at most 8 rails, a wire search reaches 16 wires) without
/// leaving `i32`.
pub open spec fn world_limit() -> int {
    i32::MAX - 64
}

/// A block position in a world.
#[derive(Clone, Copy, Debug, PartialEq, Eq, Structural, Hash)]
pub struct BlockPos {
    pub x: i32,
    pub y: i32,
    pub z: i32,
}

/// One of the six faces of a block.
#[derive(Clone, Copy, Debug, PartialEq, Eq, Structural, Hash)]
pub enum BlockFace {
    Bottom,
    Top,
    North,
    South,
    West,
    East,
}

/// One of the four horizontal directions. North is towards negative `z`, east towards
/// positive `x`.
#[derive(Clone, Copy, Debug, PartialEq, Eq, Structural, Hash)]
pub enum BlockDirection {
    North,
    South,
    East,
    West,
}

/// The coordinate change of a step through `face`.
pub open spec fn face_delta(face: BlockFace) -> (int, int, int) {
    match face {
        BlockFace::Bottom => (0, -1, 0),
        BlockFace::Top => (0, 1, 0),
        BlockFace::North => (0, 0, -1),
        BlockFace::South => (0, 0, 1),
        BlockFace::West => (-1, 0, 0),
        BlockFace::East => (1, 0, 0),
    }
}

/// The six faces in the order in which the passes visit the neighbors of a block.
pub open spec fn all_faces() -> Seq<BlockFace> {
    seq![
        BlockFace::Top,
        BlockFace::Bottom,
        BlockFace::North,
        BlockFace::South,
        BlockFace::East,
        BlockFace::West,
    ]
}

impl BlockPos {
    pub fn new(x: i32, y: i32, z: i32) -> (p: BlockPos)
        ensures
            p == (BlockPos { x, y, z }),
    {
        BlockPos { x, y, z }
    }

    /// The position lies within the range that worlds may hold.
    pub open spec fn in_world(self) -> bool {
        &&& -world_limit() <= self.x <= world_limit()
        &&& -world_limit() <= self.y <= world_limit()
        &&& -world_limit() <= self.z <= world_limit()
    }

    /// The position `self` is at most `d` steps away from `other` along each axis.
    pub open spec fn near(self, other: BlockPos, d: int) -> bool {
        &&& -d <= self.x - other.x <= d
        &&& -d <= self.y - other.y <= d
        &&& -d <= self.z - other.z <= d
    }

    /// A step from this position through `face` stays inside `i32`.
    pub open spec fn can_offset(self) -> bool {
        &&& i32::MIN < self.x < i32::MAX
        &&& i32::MIN < self.y < i32::MAX
        &&& i32::MIN < self.z < i32::MAX
    }

    pub open spec fn spec_offset(self, face: BlockFace) -> BlockPos {
        let (dx, dy, dz) = face_delta(face);
        BlockPos { x: (self.x + dx) as i32, y: (self.y + dy) as i32, z: (self.z + dz) as i32 }
    }

    /// The neighboring position through `face`.
    #[verifier::when_used_as_spec(spec_offset)]
    pub fn offset(self, face: BlockFace) -> (p: BlockPos)
        requires
            self.can_offset(),
        ensures
            p == self.spec_offset(face),
    {
        match face {
            BlockFace::Bottom => BlockPos { x: self.x, y: self.y - 1, z: self.z },
            BlockFace::Top => BlockPos { x: self.x, y: self.y + 1, z: self.z },
            BlockFace::North => BlockPos { x: self.x, y: self.y, z: self.z - 1 },
            BlockFace::South => BlockPos { x: self.x, y: self.y, z: self.z + 1 },
            BlockFace::West => BlockPos { x: self.x - 1, y: self.y, z: self.z },
            BlockFace::East => BlockPos { x: self.x + 1, y: self.y, z: self.z },
        }
    }

    /// The key under which hash collections of the library store the position.
    pub open spec fn spec_key(self) -> (i32, i32, i32) {
        (self.x, self.y, self.z)
    }

    #[verifier::when_used_as_spec(spec_key)]
    pub fn key(self) -> (k: (i32, i32, i32))
        ensures
            k == self.spec_key(),
    {
        (self.x, self.y, self.z)
    }

}

/// Keys tell positions apart.
pub proof fn lemma_key_injective(p: BlockPos, q: BlockPos)
    ensures
        p.spec_key() == q.spec_key() <==> p == q,
{
}

/// A step through a face moves to the adjacent position: one axis changes by one.
pub proof fn lemma_offset_near(p: BlockPos, face: BlockFace)
    requires
        p.can_offset(),
    ensures
        p.spec_offset(face).near(p, 1),
        p.spec_offset(face) != p,
{
}

/// Stepping through a face and back through the opposite face returns to the start.
pub proof fn lemma_offset_opposite(p: BlockPos, face: BlockFace)
    requires
        p.can_offset(),
        p.spec_offset(face).can_offset(),
    ensures
        p.spec_offset(face).spec_offset(face.spec_opposite()) == p,
{
}

impl BlockFace {
    pub open spec fn spec_opposite(self) -> BlockFace {
        match self {
            BlockFace::Bottom => BlockFace::Top,
            BlockFace::Top => BlockFace::Bottom,
            BlockFace::North => BlockFace::South,
            BlockFace::South => BlockFace::North,
            BlockFace::West => BlockFace::East,
            BlockFace::East => BlockFace::West,
        }
    }

    /// The face on the other side of the block.
    #[verifier::when_used_as_spec(spec_opposite)]
    pub fn opposite(self) -> (f: BlockFace)
        ensures
            f == self.spec_opposite(),
    {
        match self {
            BlockFace::Bottom => BlockFace::Top,
            BlockFace::Top => BlockFace::Bottom,
            BlockFace::North => BlockFace::South,
            BlockFace::South => BlockFace::North,
            BlockFace::West => BlockFace::East,
            BlockFace::East => BlockFace::West,
        }
    }

    pub open spec fn spec_is_horizontal(self) -> bool {
        !(self is Top || self is Bottom)
    }

    /// The face is one of the four side faces.
    #[verifier::when_used_as_spec(spec_is_horizontal)]
    pub fn is_horizontal(self) -> (b: bool)
        ensures
            b == self.spec_is_horizontal(),
    {
        !matches!(self, BlockFace::Top | BlockFace::Bottom)
    }

    pub open spec fn spec_unwrap_direction(self) -> BlockDirection
        recommends
            self.spec_is_horizontal(),
    {
        match self {
            BlockFace::North => BlockDirection::North,
            BlockFace::South => BlockDirection::South,
            BlockFace::East => BlockDirection::East,
            _ => BlockDirection::West,
        }
    }

    /// The horizontal direction of a side face.
    #[verifier::when_used_as_spec(spec_unwrap_direction)]
    pub fn unwrap_direction(self) -> (d: BlockDirection)
        requires
            self.spec_is_horizontal(),
        ensures
            d == self.spec_unwrap_direction(),
            d.spec_block_face() == self,
    {
        match self {
            BlockFace::North => BlockDirection::North,
            BlockFace::South => BlockDirection::South,
            BlockFace::East => BlockDirection::East,
            _ => BlockDirection::West,
        }
    }

    /// The six faces, in the order the passes visit them.
    pub fn values() -> (v: [BlockFace; 6])
        ensures
            v@ == all_faces(),
    {
        let v = [
            BlockFace::Top,
            BlockFace::Bottom,
            BlockFace::North,
            BlockFace::South,
            BlockFace::East,
            BlockFace::West,
        ];
        assert(v@ =~= all_faces());
        v
    }

}

/// Every face occurs in the list of all faces.
pub proof fn lemma_all_faces_complete(face: BlockFace)
    ensures
        all_faces().contains(face),
{
    match face {
        BlockFace::Top => assert(all_faces()[0] == face),
        BlockFace::Bottom => assert(all_faces()[1] == face),
        BlockFace::North => assert(all_faces()[2] == face),
        BlockFace::South => assert(all_faces()[3] == face),
        BlockFace::East => assert(all_faces()[4] == face),
        BlockFace::West => assert(all_faces()[5] == face),
    }
}

impl BlockDirection {
    pub open spec fn spec_block_face(self) -> BlockFace {
        match self {
            BlockDirection::North => BlockFace::North,
            BlockDirection::South => BlockFace::South,
            BlockDirection::East => BlockFace::East,
            BlockDirection::West => BlockFace::West,
        }
    }

    /// The side face that looks in this direction.
    #[verifier::when_used_as_spec(spec_block_face)]
    pub fn block_face(self) -> (f: BlockFace)
        ensures
            f == self.spec_block_face(),
    {
        match self {
            BlockDirection::North => BlockFace::North,
            BlockDirection::South => BlockFace::South,
            BlockDirection::East => BlockFace::East,
            BlockDirection::West => BlockFace::West,
        }
    }

    pub open spec fn spec_opposite(self) -> BlockDirection {
        match self {
            BlockDirection::North => BlockDirection::South,
            BlockDirection::South => BlockDirection::North,
            BlockDirection::East => BlockDirection::West,
            BlockDirection::West => BlockDirection::East,
        }
    }

    /// The direction pointing the other way.
    #[verifier::when_used_as_spec(spec_opposite)]
    pub fn opposite(self) -> (d: BlockDirection)
        ensures
            d == self.spec_opposite(),
    {
        match self {
            BlockDirection::North => BlockDirection::South,
            BlockDirection::South => BlockDirection::North,
            BlockDirection::East => BlockDirection::West,
            BlockDirection::West => BlockDirection::East,
        }
    }

    pub open spec fn spec_rotate(self) -> BlockDirection {
        match self {
            BlockDirection::North => BlockDirection::East,
            BlockDirection::East => BlockDirection::South,
            BlockDirection::South => BlockDirection::West,
            BlockDirection::West => BlockDirection::North,
        }
    }

    /// The direction a quarter turn clockwise (seen from above).
    #[verifier::when_used_as_spec(spec_rotate)]
    pub fn rotate(self) -> (d: BlockDirection)
        ensures
            d == self.spec_rotate(),
    {
        match self {
            BlockDirection::North => BlockDirection::East,
            BlockDirection::East => BlockDirection::South,
            BlockDirection::South => BlockDirection::West,
            BlockDirection::West => BlockDirection::North,
        }
    }

    pub open spec fn spec_rotate_ccw(self) -> BlockDirection {
        match self {
            BlockDirection::North => BlockDirection::West,
            BlockDirection::West => BlockDirection::South,
            BlockDirection::South => BlockDirection::East,
            BlockDirection::East => BlockDirection::North,
        }
    }

    /// The direction a quarter turn counter-clockwise (seen from above).
    #[verifier::when_used_as_spec(spec_rotate_ccw)]
    pub fn rotate_ccw(self) -> (d: BlockDirection)
        ensures
            d == self.spec_rotate_ccw(),
    {
        match self {
            BlockDirection::North => BlockDirection::West,
            BlockDirection::West => BlockDirection::South,
            BlockDirection::South => BlockDirection::East,
            BlockDirection::East => BlockDirection::North,
        }
    }

    /// The direction a sign with the given rotation (sixteenths of a turn, starting
    /// south) faces, where that rotation is one of the four horizontal directions.
    pub fn from_rotation(rotation: u32) -> (d: Option<BlockDirection>)
        ensures
            d == match rotation {
                0 => Some(BlockDirection::South),
                4 => Some(BlockDirection::West),
                8 => Some(BlockDirection::North),
                12 => Some(BlockDirection::East),
                _ => None::<BlockDirection>,
            },
    {
        match rotation {
            0 => Some(BlockDirection::South),
            4 => Some(BlockDirection::West),
            8 => Some(BlockDirection::North),
            12 => Some(BlockDirection::East),
            _ => None,
        }
    }

}

/// Turning clockwise and counter-clockwise undo each other, and four quarter turns,
/// like two half turns, come back to the start.
pub proof fn lemma_direction_turns(d: BlockDirection)
    ensures
        d.spec_rotate().spec_rotate_ccw() == d,
        d.spec_rotate_ccw().spec_rotate() == d,
        d.spec_rotate().spec_rotate() == d.spec_opposite(),
        d.spec_opposite().spec_opposite() == d,
        d.spec_opposite().spec_block_face() == d.spec_block_face().spec_opposite(),
        d.spec_block_face().spec_is_horizontal(),
        d.spec_block_face().spec_unwrap_direction() == d,
{
}

/// The opposite face of the opposite face is the face itself.
pub proof fn lemma_face_opposite_involutive(f: BlockFace)
    ensures
        f.spec_opposite().spec_opposite() == f,
        f.spec_opposite() != f,
        f.spec_is_horizontal() == f.spec_opposite().spec_is_horizontal(),
{
}

} // verus!
