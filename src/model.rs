//! The decoded assembly and its mathematical model.
//!
//! Floating-point fields are held as their IEEE-754 bit patterns: `u64` for a
//! double, `u32` for a single. The decoder never interprets them, and a consumer
//! turns them into numbers with `f64::from_bits` / `f32::from_bits`.

use vstd::prelude::*;

verus! {

/// Why a buffer could not be decoded.
#[derive(Debug, Clone, Copy, PartialEq, Eq, Structural)]
pub enum MrrError {
    /// The buffer does not start with the format signature.
    FormatSignatureMismatch,
    /// A read needed more bytes than remain.
    UnexpectedEof,
    /// A sequence length times its element width does not fit in 64 bits.
    LengthOverflow,
    /// A part name is not valid UTF-8.
    InvalidUtf8,
    /// A joint-type discriminant other than 0, 1 or 2.
    UnknownJointType,
}

impl MrrError {
    /// What a user is told when an import fails with this error.
    pub fn message(&self) -> (r: &'static str)
        ensures
            *self == MrrError::FormatSignatureMismatch ==> r@ == "not a valid assembly file"@,
            *self == MrrError::UnexpectedEof ==> r@ == "corrupt or incomplete file"@,
            *self == MrrError::LengthOverflow ==> r@ == "corrupt file"@,
            *self == MrrError::InvalidUtf8 ==> r@ == "corrupt file"@,
            *self == MrrError::UnknownJointType ==> r@ == "unsupported or corrupt file"@,
    {
        match self {
            MrrError::FormatSignatureMismatch => "not a valid assembly file",
            MrrError::UnexpectedEof => "corrupt or incomplete file",
            MrrError::LengthOverflow => "corrupt file",
            MrrError::InvalidUtf8 => "corrupt file",
            MrrError::UnknownJointType => "unsupported or corrupt file",
        }
    }
}

/// The kind of a joint, stored as a 4-byte discriminant: 0, 1 or 2.
#[derive(Debug, Clone, Copy, PartialEq, Eq, Structural)]
pub enum JointType {
    Rigid,
    Revolute,
    Slider,
}

/// A position vector; each coordinate is the bit pattern of an `f64`.
#[derive(Debug, Clone, Copy, PartialEq, Eq, Structural)]
pub struct Position {
    pub x: u64,
    pub y: u64,
    pub z: u64,
}

/// An orientation quaternion (x, y, z, w); each component is the bit pattern
/// of an `f64`.
#[derive(Debug, Clone, Copy, PartialEq, Eq, Structural)]
pub struct Orientation {
    pub x: u64,
    pub y: u64,
    pub z: u64,
    pub w: u64,
}

/// A position and an orientation.
#[derive(Debug, Clone, Copy, PartialEq, Eq, Structural)]
pub struct Pose(pub Position, pub Orientation);

/// A kinematic connector: its kind and its pose. A joint is referred to by its
/// index in [`Assembly::joints`].
#[derive(Debug, Clone, Copy, PartialEq, Eq, Structural)]
pub struct Joint(pub JointType, pub Pose);

/// One triangle mesh. Vertex, normal and UV coordinates are bit patterns of
/// `f32` values, in file order.
#[derive(Debug, Clone, PartialEq)]
pub struct Body {
    pub triangle_count: i32,
    pub verticies: Vec<u32>,
    pub indicies: Vec<i32>,
    pub normals: Vec<u32>,
    pub uvs: Vec<u32>,
}

/// A named rigid sub-assembly with its pose, its references and its meshes.
#[derive(Debug, Clone, PartialEq)]
pub struct Part {
    pub name: String,
    pub pose: Pose,
    pub joint_references: Vec<u32>,
    pub rigid_group_references: Vec<u32>,
    pub bodies: Vec<Body>,
}

/// The root of a decoded file.
#[derive(Debug, Clone, PartialEq)]
pub struct Assembly {
    pub joints: Vec<Joint>,
    pub parts: Vec<Part>,
}

/// What a [`Body`] holds, as sequences.
pub struct BodyView {
    pub triangle_count: i32,
    pub verticies: Seq<u32>,
    pub indicies: Seq<i32>,
    pub normals: Seq<u32>,
    pub uvs: Seq<u32>,
}

/// What a [`Part`] holds, as sequences.
pub struct PartView {
    pub name: Seq<char>,
    pub pose: Pose,
    pub joint_references: Seq<u32>,
    pub rigid_group_references: Seq<u32>,
    pub bodies: Seq<BodyView>,
}

/// What an [`Assembly`] holds, as sequences.
pub struct AssemblyView {
    pub joints: Seq<Joint>,
    pub parts: Seq<PartView>,
}

/// The views of `bodies`, in order.
pub open spec fn body_views(bodies: Seq<Body>) -> Seq<BodyView> {
    bodies.map_values(|b: Body| b@)
}

/// The views of `parts`, in order.
pub open spec fn part_views(parts: Seq<Part>) -> Seq<PartView> {
    parts.map_values(|p: Part| p@)
}

impl View for Body {
    type V = BodyView;

    open spec fn view(&self) -> BodyView {
        BodyView {
            triangle_count: self.triangle_count,
            verticies: self.verticies@,
            indicies: self.indicies@,
            normals: self.normals@,
            uvs: self.uvs@,
        }
    }
}

impl View for Part {
    type V = PartView;

    open spec fn view(&self) -> PartView {
        PartView {
            name: self.name@,
            pose: self.pose,
            joint_references: self.joint_references@,
            rigid_group_references: self.rigid_group_references@,
            bodies: body_views(self.bodies@),
        }
    }
}

impl View for Assembly {
    type V = AssemblyView;

    open spec fn view(&self) -> AssemblyView {
        AssemblyView { joints: self.joints@, parts: part_views(self.parts@) }
    }
}

/// The number of bodies over all of `parts`.
pub open spec fn total_bodies(parts: Seq<PartView>) -> nat
    decreases parts.len(),
{
    if parts.len() == 0 {
        0
    } else {
        total_bodies(parts.drop_last()) + parts.last().bodies.len()
    }
}

impl Assembly {
    /// The number of bodies over all parts.
    pub fn body_count(&self) -> (r: usize)
        requires
            total_bodies(self@.parts) <= usize::MAX,
        ensures
            r == total_bodies(self@.parts),
    {
        let mut total: usize = 0;
        let mut i: usize = 0;
        while i < self.parts.len()
            invariant
                i <= self.parts.len(),
                total == total_bodies(self@.parts.take(i as int)),
                total_bodies(self@.parts) <= usize::MAX,
            decreases self.parts.len() - i,
        {
            proof {
                let ps = self@.parts;
                assert(ps.take(i + 1).drop_last() =~= ps.take(i as int));
                lemma_total_bodies_prefix(ps, i + 1);
            }
            total = total + self.parts[i].bodies.len();
            i = i + 1;
        }
        proof {
            assert(self@.parts.take(i as int) =~= self@.parts);
        }
        total
    }
}

/// A prefix never holds more bodies than the whole.
proof fn lemma_total_bodies_prefix(parts: Seq<PartView>, n: int)
    requires
        0 <= n <= parts.len(),
    ensures
        total_bodies(parts.take(n)) <= total_bodies(parts),
    decreases parts.len(),
{
    if n < parts.len() {
        assert(parts.drop_last().take(n) =~= parts.take(n));
        lemma_total_bodies_prefix(parts.drop_last(), n);
    } else {
        assert(parts.take(n) =~= parts);
    }
}

} // verus!
