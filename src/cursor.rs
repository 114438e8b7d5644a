//! The byte cursor and the readers built on it.
//!
//! [`MrrDeserializer`] owns the buffer and a forward-only offset. `take` is the
//! one place where a read is checked against the end of the buffer; every
//! other reader gets its bytes through it. Each reader is proved to do what the
//! reader of the same name in `grammar` says.

use vstd::prelude::*;
use vstd::utf8::{decode_utf8, valid_utf8};
use crate::grammar::{
    bytes_at, fits, has_signature, i32_at, i32_run_at, i32s_from, joint_type_at, le4_at, le8_at,
    length_at, name_at, pose_at, run_at, signature, u32_at, u32_run_at, u32s_from, Read, POSE_LEN,
    SIGNATURE_LEN,
};
use crate::model::{JointType, MrrError, Orientation, Pose, Position};

verus! {

/// `r` is what the reader `expected` gives, and `end` is the offset it leaves
/// the cursor at when it succeeds.
pub open spec fn agrees<T>(expected: Read<T>, r: Result<T, MrrError>, end: int) -> bool {
    match expected {
        Ok((v, p)) => r == Ok::<T, MrrError>(v) && end == p,
        Err(e) => r == Err::<T, MrrError>(e),
    }
}

/// A result with its success value replaced by that value's view.
pub open spec fn view_of<T: View>(r: Result<T, MrrError>) -> Result<T::V, MrrError> {
    match r {
        Ok(v) => Ok(v@),
        Err(e) => Err(e),
    }
}

/// Relies on std's `String::from_utf8`: it succeeds exactly when the bytes are
/// valid UTF-8, and the string it returns holds the characters they encode.
#[verifier::external_body]
fn string_from_utf8(bytes: Vec<u8>) -> (r: Option<String>)
    ensures
        r is Some <==> valid_utf8(bytes@),
        r matches Some(s) ==> s@ == decode_utf8(bytes@),
{
    match String::from_utf8(bytes) {
        Ok(s) => Some(s),
        Err(_) => None,
    }
}

/// The format signature, as bytes.
fn signature_bytes() -> (r: Vec<u8>)
    ensures
        r@ == signature(),
{
    let r = vec![
        77u8, 82, 82, 32, 40, 77, 101, 99, 104, 83, 105, 109, 32, 82, 111, 98, 111, 116, 32, 82,
        101, 112, 114, 101, 115, 101, 110, 116, 97, 116, 105, 111, 110, 41,
    ];
    assert(r@ =~= signature());
    r
}

/// A decoding session: the input buffer and the offset of the next unread byte.
pub struct MrrDeserializer {
    input: Vec<u8>,
    position: usize,
}

impl MrrDeserializer {
    /// The bytes being decoded.
    pub closed spec fn input_view(&self) -> Seq<u8> {
        self.input@
    }

    /// The offset of the next unread byte.
    pub closed spec fn offset(&self) -> int {
        self.position as int
    }

    /// The offset lies within the buffer, whose length is a `usize`.
    pub open spec fn wf(&self) -> bool {
        &&& 0 <= self.offset() <= self.input_view().len()
        &&& self.input_view().len() <= usize::MAX
    }

    /// `next` is a well-formed state over the same bytes, at the same offset or
    /// further on.
    pub open spec fn moves_to(&self, next: Self) -> bool {
        &&& next.wf()
        &&& next.input_view() == self.input_view()
        &&& self.offset() <= next.offset()
    }

    /// A session at the start of `input`.
    pub fn new(input: Vec<u8>) -> (r: Self)
        ensures
            r.wf(),
            r.input_view() == input@,
            r.offset() == 0,
    {
        let len = input.len();
        assert(input@.len() == len);
        MrrDeserializer { input, position: 0 }
    }

    /// The offset of the next unread byte.
    pub fn position(&self) -> (r: usize)
        ensures
            r == self.offset(),
    {
        self.position
    }

    /// Checks that the buffer opens with the format signature and moves past
    /// it. On a mismatch, a buffer shorter than the signature included, fails
    /// with `FormatSignatureMismatch` and consumes nothing.
    pub fn check_signature(&mut self) -> (r: Result<(), MrrError>)
        requires
            old(self).wf(),
            old(self).offset() == 0,
        ensures
            old(self).moves_to(*final(self)),
            has_signature(old(self).input_view()) ==> r is Ok && final(self).offset()
                == SIGNATURE_LEN,
            !has_signature(old(self).input_view()) ==> r == Err::<(), MrrError>(
                MrrError::FormatSignatureMismatch,
            ) && final(self).offset() == old(self).offset(),
    {
        if self.input.len() < SIGNATURE_LEN {
            return Err(MrrError::FormatSignatureMismatch);
        }
        let expected = signature_bytes();
        let mut i: usize = 0;
        while i < SIGNATURE_LEN
            invariant
                self.wf(),
                self.offset() == 0,
                self.input_view().len() >= SIGNATURE_LEN,
                expected@ == signature(),
                i <= SIGNATURE_LEN,
                forall|k: int| 0 <= k < i ==> self.input_view()[k] == signature()[k],
            decreases SIGNATURE_LEN - i,
        {
            if self.input[i] != expected[i] {
                proof {
                    assert(self.input_view().subrange(0, SIGNATURE_LEN as int)[i as int]
                        != signature()[i as int]);
                }
                return Err(MrrError::FormatSignatureMismatch);
            }
            i = i + 1;
        }
        assert(self.input_view().subrange(0, SIGNATURE_LEN as int) =~= signature());
        self.position = SIGNATURE_LEN;
        Ok(())
    }

    /// Takes the next `n` bytes: returns the offset of the first of them and
    /// moves past them. Fails with `UnexpectedEof`, moving nothing, when fewer
    /// than `n` remain.
    pub fn take(&mut self, n: u64) -> (r: Result<usize, MrrError>)
        requires
            old(self).wf(),
        ensures
            old(self).moves_to(*final(self)),
            fits(old(self).input_view(), old(self).offset(), n as int) ==> r == Ok::<
                usize,
                MrrError,
            >(old(self).offset() as usize) && final(self).offset() == old(self).offset() + n,
            !fits(old(self).input_view(), old(self).offset(), n as int) ==> r == Err::<
                usize,
                MrrError,
            >(MrrError::UnexpectedEof) && final(self).offset() == old(self).offset(),
    {
        let remaining = self.input.len() - self.position;
        if n > remaining as u64 {
            Err(MrrError::UnexpectedEof)
        } else {
            let start = self.position;
            self.position = self.position + n as usize;
            Ok(start)
        }
    }

    /// The little-endian value of the four bytes at `at`.
    fn le4(&self, at: usize) -> (r: u32)
        requires
            self.wf(),
            fits(self.input_view(), at as int, 4),
        ensures
            r == le4_at(self.input_view(), at as int),
    {
        let b0 = self.input[at] as u32;
        let b1 = self.input[at + 1] as u32;
        let b2 = self.input[at + 2] as u32;
        let b3 = self.input[at + 3] as u32;
        b0 + b1 * 0x100 + b2 * 0x1_0000 + b3 * 0x100_0000
    }

    /// The little-endian value of the eight bytes at `at`.
    fn le8(&self, at: usize) -> (r: u64)
        requires
            self.wf(),
            fits(self.input_view(), at as int, 8),
        ensures
            r == le8_at(self.input_view(), at as int),
    {
        let lo = self.le4(at) as u64;
        let hi = self.le4(at + 4) as u64;
        lo + hi * 0x1_0000_0000
    }

    /// Reads a 4-byte little-endian unsigned integer.
    pub fn read_u32(&mut self) -> (r: Result<u32, MrrError>)
        requires
            old(self).wf(),
        ensures
            old(self).moves_to(*final(self)),
            agrees(u32_at(old(self).input_view(), old(self).offset()), r, final(self).offset()),
    {
        let at = self.take(4)?;
        Ok(self.le4(at))
    }

    /// Reads a 4-byte little-endian two's-complement integer.
    pub fn read_i32(&mut self) -> (r: Result<i32, MrrError>)
        requires
            old(self).wf(),
        ensures
            old(self).moves_to(*final(self)),
            agrees(i32_at(old(self).input_view(), old(self).offset()), r, final(self).offset()),
    {
        let at = self.take(4)?;
        Ok(#[verifier::truncate] (self.le4(at) as i32))
    }

    /// Reads an 8-byte little-endian length.
    pub fn read_length(&mut self) -> (r: Result<u64, MrrError>)
        requires
            old(self).wf(),
        ensures
            old(self).moves_to(*final(self)),
            agrees(length_at(old(self).input_view(), old(self).offset()), r, final(self).offset()),
    {
        let at = self.take(8)?;
        Ok(self.le8(at))
    }

    /// Reads a joint-type discriminant; fails with `UnknownJointType` on a value
    /// other than 0, 1 or 2.
    pub fn read_joint_type(&mut self) -> (r: Result<JointType, MrrError>)
        requires
            old(self).wf(),
        ensures
            old(self).moves_to(*final(self)),
            agrees(
                joint_type_at(old(self).input_view(), old(self).offset()),
                r,
                final(self).offset(),
            ),
    {
        let d = self.read_u32()?;
        if d == 0 {
            Ok(JointType::Rigid)
        } else if d == 1 {
            Ok(JointType::Revolute)
        } else if d == 2 {
            Ok(JointType::Slider)
        } else {
            Err(MrrError::UnknownJointType)
        }
    }

    /// Reads a packed pose, field by field.
    pub fn read_pose(&mut self) -> (r: Result<Pose, MrrError>)
        requires
            old(self).wf(),
        ensures
            old(self).moves_to(*final(self)),
            agrees(pose_at(old(self).input_view(), old(self).offset()), r, final(self).offset()),
    {
        let at = self.take(POSE_LEN as u64)?;
        let position = Position { x: self.le8(at), y: self.le8(at + 8), z: self.le8(at + 16) };
        let orientation = Orientation {
            x: self.le8(at + 24),
            y: self.le8(at + 32),
            z: self.le8(at + 40),
            w: self.le8(at + 48),
        };
        Ok(Pose(position, orientation))
    }

    /// Reads the length of a run of `width`-byte elements and takes the run:
    /// returns the element count and the offset of the first element. The byte
    /// span is computed with an overflow check.
    fn read_run(&mut self, width: u64) -> (r: Result<(u64, usize), MrrError>)
        requires
            old(self).wf(),
        ensures
            old(self).moves_to(*final(self)),
            match run_at(old(self).input_view(), old(self).offset(), width as int) {
                Ok((n, e)) => {
                    &&& r == Ok::<(u64, usize), MrrError>(
                        (n as u64, (old(self).offset() + 8) as usize),
                    )
                    &&& final(self).offset() == e
                },
                Err(e) => r == Err::<(u64, usize), MrrError>(e),
            },
    {
        let n = self.read_length()?;
        match n.checked_mul(width) {
            None => Err(MrrError::LengthOverflow),
            Some(span) => {
                let start = self.take(span)?;
                Ok((n, start))
            },
        }
    }

    /// Reads a length-prefixed byte string.
    pub fn read_bytes(&mut self) -> (r: Result<Vec<u8>, MrrError>)
        requires
            old(self).wf(),
        ensures
            old(self).moves_to(*final(self)),
            agrees(
                bytes_at(old(self).input_view(), old(self).offset()),
                view_of(r),
                final(self).offset(),
            ),
    {
        let (n, start) = self.read_run(1)?;
        let n = n as usize;
        let mut out: Vec<u8> = Vec::new();
        let mut i: usize = 0;
        while i < n
            invariant
                self.wf(),
                i <= n,
                start + n <= self.input_view().len(),
                out@ == self.input_view().subrange(start as int, start + i),
            decreases n - i,
        {
            out.push(self.input[start + i]);
            proof {
                assert(out@ =~= self.input_view().subrange(start as int, start + i + 1));
            }
            i = i + 1;
        }
        Ok(out)
    }

    /// Reads a length-prefixed run of unsigned 4-byte integers. The same
    /// reader gives the bit patterns of a run of 4-byte floats.
    pub fn read_u32_seq(&mut self) -> (r: Result<Vec<u32>, MrrError>)
        requires
            old(self).wf(),
        ensures
            old(self).moves_to(*final(self)),
            agrees(
                u32_run_at(old(self).input_view(), old(self).offset()),
                view_of(r),
                final(self).offset(),
            ),
    {
        let (n, start) = self.read_run(4)?;
        let n = n as usize;
        let mut out: Vec<u32> = Vec::new();
        let mut i: usize = 0;
        while i < n
            invariant
                self.wf(),
                i <= n,
                start + 4 * n <= self.input_view().len(),
                out@ == u32s_from(self.input_view(), start as int, i as nat),
            decreases n - i,
        {
            out.push(self.le4(start + 4 * i));
            proof {
                assert(out@ =~= u32s_from(self.input_view(), start as int, (i + 1) as nat));
            }
            i = i + 1;
        }
        Ok(out)
    }

    /// Reads a length-prefixed run of signed 4-byte integers.
    pub fn read_i32_seq(&mut self) -> (r: Result<Vec<i32>, MrrError>)
        requires
            old(self).wf(),
        ensures
            old(self).moves_to(*final(self)),
            agrees(
                i32_run_at(old(self).input_view(), old(self).offset()),
                view_of(r),
                final(self).offset(),
            ),
    {
        let (n, start) = self.read_run(4)?;
        let n = n as usize;
        let mut out: Vec<i32> = Vec::new();
        let mut i: usize = 0;
        while i < n
            invariant
                self.wf(),
                i <= n,
                start + 4 * n <= self.input_view().len(),
                out@ == i32s_from(self.input_view(), start as int, i as nat),
            decreases n - i,
        {
            out.push(#[verifier::truncate] (self.le4(start + 4 * i) as i32));
            proof {
                assert(out@ =~= i32s_from(self.input_view(), start as int, (i + 1) as nat));
            }
            i = i + 1;
        }
        Ok(out)
    }

    /// Reads a part name: a length-prefixed byte string, which must be valid
    /// UTF-8 (else `InvalidUtf8`).
    pub fn read_name(&mut self) -> (r: Result<String, MrrError>)
        requires
            old(self).wf(),
        ensures
            old(self).moves_to(*final(self)),
            agrees(
                name_at(old(self).input_view(), old(self).offset()),
                view_of(r),
                final(self).offset(),
            ),
    {
        let bytes = self.read_bytes()?;
        match string_from_utf8(bytes) {
            Some(s) => Ok(s),
            None => Err(MrrError::InvalidUtf8),
        }
    }
}

} // verus!
