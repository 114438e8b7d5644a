//! The MRR file format, stated as a parser over byte sequences.
//!
//! Every reader takes the whole buffer `s` and an offset `pos`, and gives
//! either the value found there with the offset just past it, or the error that
//! stops the decode. The executable decoder is proved to agree with these
//! readers call for call.

use vstd::prelude::*;
use vstd::utf8::{decode_utf8, valid_utf8};
use crate::model::{
    AssemblyView, BodyView, Joint, JointType, MrrError, Orientation, PartView, Pose, Position,
};

verus! {

/// What a reader gives: a value and the offset just past it, or an error.
pub type Read<T> = Result<(T, int), MrrError>;

/// The length in bytes of the format signature.
pub const SIGNATURE_LEN: usize = 34;

/// The length in bytes of a packed pose: seven little-endian `f64`.
pub const POSE_LEN: usize = 56;

/// The ASCII text "MRR (MechSim Robot Representation)" that opens every file.
pub open spec fn signature() -> Seq<u8> {
    seq![
        77u8, 82, 82, 32, 40, 77, 101, 99, 104, 83, 105, 109, 32, 82, 111, 98, 111, 116, 32, 82,
        101, 112, 114, 101, 115, 101, 110, 116, 97, 116, 105, 111, 110, 41,
    ]
}

/// Whether `s` opens with the signature. A buffer shorter than the signature
/// does not.
pub open spec fn has_signature(s: Seq<u8>) -> bool {
    s.len() >= SIGNATURE_LEN && s.subrange(0, SIGNATURE_LEN as int) == signature()
}

/// Whether the `n` bytes from `pos` on lie inside `s`.
pub open spec fn fits(s: Seq<u8>, pos: int, n: int) -> bool {
    0 <= pos && pos + n <= s.len()
}

/// The little-endian value of the four bytes at `p`.
pub open spec fn le4_at(s: Seq<u8>, p: int) -> int {
    s[p] as int + s[p + 1] as int * 0x100 + s[p + 2] as int * 0x1_0000 + s[p + 3] as int
        * 0x100_0000
}

/// The little-endian value of the eight bytes at `p`.
pub open spec fn le8_at(s: Seq<u8>, p: int) -> int {
    le4_at(s, p) + le4_at(s, p + 4) * 0x1_0000_0000
}

/// A 4-byte little-endian unsigned integer.
pub open spec fn u32_at(s: Seq<u8>, pos: int) -> Read<u32> {
    if fits(s, pos, 4) {
        Ok((le4_at(s, pos) as u32, pos + 4))
    } else {
        Err(MrrError::UnexpectedEof)
    }
}

/// A 4-byte little-endian two's-complement integer.
pub open spec fn i32_at(s: Seq<u8>, pos: int) -> Read<i32> {
    if fits(s, pos, 4) {
        Ok(((le4_at(s, pos) as u32) as i32, pos + 4))
    } else {
        Err(MrrError::UnexpectedEof)
    }
}

/// An 8-byte little-endian length.
pub open spec fn length_at(s: Seq<u8>, pos: int) -> Read<u64> {
    if fits(s, pos, 8) {
        Ok((le8_at(s, pos) as u64, pos + 8))
    } else {
        Err(MrrError::UnexpectedEof)
    }
}

/// The joint kind that a discriminant stands for.
pub open spec fn joint_type_of(d: u32) -> Option<JointType> {
    if d == 0 {
        Some(JointType::Rigid)
    } else if d == 1 {
        Some(JointType::Revolute)
    } else if d == 2 {
        Some(JointType::Slider)
    } else {
        None
    }
}

/// A joint-type discriminant.
pub open spec fn joint_type_at(s: Seq<u8>, pos: int) -> Read<JointType> {
    match u32_at(s, pos) {
        Err(e) => Err(e),
        Ok((d, p)) => match joint_type_of(d) {
            Some(t) => Ok((t, p)),
            None => Err(MrrError::UnknownJointType),
        },
    }
}

/// A packed pose: position x, y, z, then quaternion x, y, z, w, each eight
/// bytes, with no padding.
pub open spec fn pose_at(s: Seq<u8>, pos: int) -> Read<Pose> {
    if fits(s, pos, POSE_LEN as int) {
        let position = Position {
            x: le8_at(s, pos) as u64,
            y: le8_at(s, pos + 8) as u64,
            z: le8_at(s, pos + 16) as u64,
        };
        let orientation = Orientation {
            x: le8_at(s, pos + 24) as u64,
            y: le8_at(s, pos + 32) as u64,
            z: le8_at(s, pos + 40) as u64,
            w: le8_at(s, pos + 48) as u64,
        };
        Ok((Pose(position, orientation), pos + POSE_LEN))
    } else {
        Err(MrrError::UnexpectedEof)
    }
}

/// A joint: its discriminant, then its pose.
pub open spec fn joint_at(s: Seq<u8>, pos: int) -> Read<Joint> {
    match joint_type_at(s, pos) {
        Err(e) => Err(e),
        Ok((t, p)) => match pose_at(s, p) {
            Err(e) => Err(e),
            Ok((pose, q)) => Ok((Joint(t, pose), q)),
        },
    }
}

/// A length-prefixed run of elements `width` bytes wide: its element count.
/// The elements start eight bytes after `pos`.
pub open spec fn run_at(s: Seq<u8>, pos: int, width: int) -> Read<nat> {
    match length_at(s, pos) {
        Err(e) => Err(e),
        Ok((n, p)) => if n * width > u64::MAX {
            Err(MrrError::LengthOverflow)
        } else if !fits(s, p, n * width) {
            Err(MrrError::UnexpectedEof)
        } else {
            Ok((n as nat, p + n * width))
        },
    }
}

/// The `n` unsigned 4-byte integers that start at `start`.
pub open spec fn u32s_from(s: Seq<u8>, start: int, n: nat) -> Seq<u32> {
    Seq::new(n, |i: int| le4_at(s, start + 4 * i) as u32)
}

/// The `n` signed 4-byte integers that start at `start`.
pub open spec fn i32s_from(s: Seq<u8>, start: int, n: nat) -> Seq<i32> {
    Seq::new(n, |i: int| (le4_at(s, start + 4 * i) as u32) as i32)
}

/// A length-prefixed byte string.
pub open spec fn bytes_at(s: Seq<u8>, pos: int) -> Read<Seq<u8>> {
    match run_at(s, pos, 1) {
        Err(e) => Err(e),
        Ok((n, e)) => Ok((s.subrange(pos + 8, e), e)),
    }
}

/// A length-prefixed run of unsigned 4-byte integers (also used for the bit
/// patterns of 4-byte floats).
pub open spec fn u32_run_at(s: Seq<u8>, pos: int) -> Read<Seq<u32>> {
    match run_at(s, pos, 4) {
        Err(e) => Err(e),
        Ok((n, e)) => Ok((u32s_from(s, pos + 8, n), e)),
    }
}

/// A length-prefixed run of signed 4-byte integers.
pub open spec fn i32_run_at(s: Seq<u8>, pos: int) -> Read<Seq<i32>> {
    match run_at(s, pos, 4) {
        Err(e) => Err(e),
        Ok((n, e)) => Ok((i32s_from(s, pos + 8, n), e)),
    }
}

/// A part name: a length-prefixed byte string that must be valid UTF-8.
pub open spec fn name_at(s: Seq<u8>, pos: int) -> Read<Seq<char>> {
    match bytes_at(s, pos) {
        Err(e) => Err(e),
        Ok((b, p)) => if valid_utf8(b) {
            Ok((decode_utf8(b), p))
        } else {
            Err(MrrError::InvalidUtf8)
        },
    }
}

/// A body: triangle count, vertices, indices, normals, UVs.
pub open spec fn body_at(s: Seq<u8>, pos: int) -> Read<BodyView> {
    match i32_at(s, pos) {
        Err(e) => Err(e),
        Ok((triangle_count, p1)) => match u32_run_at(s, p1) {
            Err(e) => Err(e),
            Ok((verticies, p2)) => match i32_run_at(s, p2) {
                Err(e) => Err(e),
                Ok((indicies, p3)) => match u32_run_at(s, p3) {
                    Err(e) => Err(e),
                    Ok((normals, p4)) => match u32_run_at(s, p4) {
                        Err(e) => Err(e),
                        Ok((uvs, p5)) => Ok(
                            (BodyView { triangle_count, verticies, indicies, normals, uvs }, p5),
                        ),
                    },
                },
            },
        },
    }
}

/// `n` items read one after another from `pos`, the first error stopping the
/// run.
pub open spec fn repeat<T>(item: spec_fn(int) -> Read<T>, pos: int, n: nat) -> Read<Seq<T>>
    decreases n,
{
    if n == 0 {
        Ok((Seq::empty(), pos))
    } else {
        match repeat(item, pos, (n - 1) as nat) {
            Err(e) => Err(e),
            Ok((xs, p)) => match item(p) {
                Err(e) => Err(e),
                Ok((x, q)) => Ok((xs.push(x), q)),
            },
        }
    }
}

/// Once a run has failed, running it for more items gives the same error.
pub proof fn lemma_repeat_stops<T>(item: spec_fn(int) -> Read<T>, pos: int, i: nat, n: nat)
    requires
        i <= n,
        repeat(item, pos, i) is Err,
    ensures
        repeat(item, pos, n) == repeat(item, pos, i),
    decreases n - i,
{
    if i < n {
        lemma_repeat_stops(item, pos, i, (n - 1) as nat);
    }
}

/// The joint reader on `s`.
pub open spec fn joint_item(s: Seq<u8>) -> spec_fn(int) -> Read<Joint> {
    |q: int| joint_at(s, q)
}

/// The body reader on `s`.
pub open spec fn body_item(s: Seq<u8>) -> spec_fn(int) -> Read<BodyView> {
    |q: int| body_at(s, q)
}

/// The part reader on `s`.
pub open spec fn part_item(s: Seq<u8>) -> spec_fn(int) -> Read<PartView> {
    |q: int| part_at(s, q)
}

/// A part: name, pose, joint references, rigid-group references, then a
/// counted list of bodies.
#[verifier::opaque]
pub open spec fn part_at(s: Seq<u8>, pos: int) -> Read<PartView> {
    match name_at(s, pos) {
        Err(e) => Err(e),
        Ok((name, p1)) => match pose_at(s, p1) {
            Err(e) => Err(e),
            Ok((pose, p2)) => match u32_run_at(s, p2) {
                Err(e) => Err(e),
                Ok((joint_references, p3)) => match u32_run_at(s, p3) {
                    Err(e) => Err(e),
                    Ok((rigid_group_references, p4)) => match length_at(s, p4) {
                        Err(e) => Err(e),
                        Ok((n, p5)) => match repeat(body_item(s), p5, n as nat) {
                            Err(e) => Err(e),
                            Ok((bodies, p6)) => Ok(
                                (
                                    PartView {
                                        name,
                                        pose,
                                        joint_references,
                                        rigid_group_references,
                                        bodies,
                                    },
                                    p6,
                                ),
                            ),
                        },
                    },
                },
            },
        },
    }
}

/// A whole file: signature, counted joints, counted parts. Bytes after the
/// last part are not read.
pub open spec fn assembly_at(s: Seq<u8>) -> Read<AssemblyView> {
    if !has_signature(s) {
        Err(MrrError::FormatSignatureMismatch)
    } else {
        match length_at(s, SIGNATURE_LEN as int) {
            Err(e) => Err(e),
            Ok((nj, p1)) => match repeat(joint_item(s), p1, nj as nat) {
                Err(e) => Err(e),
                Ok((joints, p2)) => match length_at(s, p2) {
                    Err(e) => Err(e),
                    Ok((np, p3)) => match repeat(part_item(s), p3, np as nat) {
                        Err(e) => Err(e),
                        Ok((parts, p4)) => Ok((AssemblyView { joints, parts }, p4)),
                    },
                },
            },
        }
    }
}

/// What decoding `s` gives.
pub open spec fn decoded(s: Seq<u8>) -> Result<AssemblyView, MrrError> {
    match assembly_at(s) {
        Err(e) => Err(e),
        Ok((a, _)) => Ok(a),
    }
}

} // verus!
