//! General properties of the format, proved over the readers of `grammar`.
//!
//! The decoder is proved to agree with those readers, so each property holds
//! of `decode` as well.

use vstd::prelude::*;
use vstd::utf8::{length_of_first_scalar, pop_first_scalar, valid_utf8};
use crate::grammar::{
    assembly_at, body_at, body_item, bytes_at, decoded, fits, has_signature, i32_at, i32_run_at,
    i32s_from, joint_at, joint_item, joint_type_at, le4_at, le8_at, length_at, name_at, part_at,
    part_item, pose_at, repeat, run_at, signature, u32_at, u32_run_at, u32s_from, Read,
    SIGNATURE_LEN,
};
use crate::model::{AssemblyView, MrrError};

verus! {

/// How a reader fares on `s` cut to its first `m` bytes (`cut`), given how it
/// fares on `s` itself (`full`), both from offset `q`: a read that ends by `m`
/// gives the same result, one that starts by `m` and ends after it runs out of
/// bytes. A read never ends before it starts.
pub open spec fn survives_cut<T>(full: Read<T>, cut: Read<T>, q: int, m: int) -> bool {
    match full {
        Ok((_, e)) => {
            &&& q <= e
            &&& e <= m ==> cut == full
            &&& q <= m < e ==> cut == Err::<(T, int), MrrError>(MrrError::UnexpectedEof)
        },
        Err(_) => true,
    }
}

proof fn lemma_le4_cut(s: Seq<u8>, m: int, p: int)
    requires
        0 <= p,
        p + 4 <= m <= s.len(),
    ensures
        le4_at(s.take(m), p) == le4_at(s, p),
{
}

proof fn lemma_le8_cut(s: Seq<u8>, m: int, p: int)
    requires
        0 <= p,
        p + 8 <= m <= s.len(),
    ensures
        le8_at(s.take(m), p) == le8_at(s, p),
{
    lemma_le4_cut(s, m, p);
    lemma_le4_cut(s, m, p + 4);
}

proof fn lemma_u32_cut(s: Seq<u8>, m: int, q: int)
    requires
        0 <= q,
        0 <= m <= s.len(),
    ensures
        survives_cut(u32_at(s, q), u32_at(s.take(m), q), q, m),
{
    if q + 4 <= m {
        lemma_le4_cut(s, m, q);
    }
}

proof fn lemma_i32_cut(s: Seq<u8>, m: int, q: int)
    requires
        0 <= q,
        0 <= m <= s.len(),
    ensures
        survives_cut(i32_at(s, q), i32_at(s.take(m), q), q, m),
{
    if q + 4 <= m {
        lemma_le4_cut(s, m, q);
    }
}

proof fn lemma_length_cut(s: Seq<u8>, m: int, q: int)
    requires
        0 <= q,
        0 <= m <= s.len(),
    ensures
        survives_cut(length_at(s, q), length_at(s.take(m), q), q, m),
{
    if q + 8 <= m {
        lemma_le8_cut(s, m, q);
    }
}

proof fn lemma_pose_cut(s: Seq<u8>, m: int, q: int)
    requires
        0 <= q,
        0 <= m <= s.len(),
    ensures
        survives_cut(pose_at(s, q), pose_at(s.take(m), q), q, m),
{
    if q + 56 <= m {
        lemma_le8_cut(s, m, q);
        lemma_le8_cut(s, m, q + 8);
        lemma_le8_cut(s, m, q + 16);
        lemma_le8_cut(s, m, q + 24);
        lemma_le8_cut(s, m, q + 32);
        lemma_le8_cut(s, m, q + 40);
        lemma_le8_cut(s, m, q + 48);
    }
}

proof fn lemma_joint_cut(s: Seq<u8>, m: int, q: int)
    requires
        0 <= q,
        0 <= m <= s.len(),
    ensures
        survives_cut(joint_at(s, q), joint_at(s.take(m), q), q, m),
{
    lemma_u32_cut(s, m, q);
    if let Ok((_, p)) = joint_type_at(s, q) {
        lemma_pose_cut(s, m, p);
    }
}

proof fn lemma_run_cut(s: Seq<u8>, m: int, q: int, width: int)
    requires
        0 <= q,
        0 <= m <= s.len(),
        width >= 0,
    ensures
        survives_cut(run_at(s, q, width), run_at(s.take(m), q, width), q, m),
{
    lemma_length_cut(s, m, q);
    assert(0 <= length_at(s, q)->Ok_0.0 * width) by (nonlinear_arith)
        requires
            width >= 0,
    ;
}

proof fn lemma_bytes_cut(s: Seq<u8>, m: int, q: int)
    requires
        0 <= q,
        0 <= m <= s.len(),
    ensures
        survives_cut(bytes_at(s, q), bytes_at(s.take(m), q), q, m),
{
    lemma_run_cut(s, m, q, 1);
    if let Ok((_, e)) = run_at(s, q, 1) {
        if e <= m {
            assert(s.take(m).subrange(q + 8, e) =~= s.subrange(q + 8, e));
        }
    }
}

proof fn lemma_u32_run_cut(s: Seq<u8>, m: int, q: int)
    requires
        0 <= q,
        0 <= m <= s.len(),
    ensures
        survives_cut(u32_run_at(s, q), u32_run_at(s.take(m), q), q, m),
{
    lemma_run_cut(s, m, q, 4);
    if let Ok((n, e)) = run_at(s, q, 4) {
        if e <= m {
            assert forall|i: int| 0 <= i < n implies #[trigger] le4_at(s.take(m), q + 8 + 4 * i)
                == le4_at(s, q + 8 + 4 * i) by {
                lemma_le4_cut(s, m, q + 8 + 4 * i);
            }
            assert(u32s_from(s.take(m), q + 8, n) =~= u32s_from(s, q + 8, n));
        }
    }
}

proof fn lemma_i32_run_cut(s: Seq<u8>, m: int, q: int)
    requires
        0 <= q,
        0 <= m <= s.len(),
    ensures
        survives_cut(i32_run_at(s, q), i32_run_at(s.take(m), q), q, m),
{
    lemma_run_cut(s, m, q, 4);
    if let Ok((n, e)) = run_at(s, q, 4) {
        if e <= m {
            assert forall|i: int| 0 <= i < n implies #[trigger] le4_at(s.take(m), q + 8 + 4 * i)
                == le4_at(s, q + 8 + 4 * i) by {
                lemma_le4_cut(s, m, q + 8 + 4 * i);
            }
            assert(i32s_from(s.take(m), q + 8, n) =~= i32s_from(s, q + 8, n));
        }
    }
}

proof fn lemma_name_cut(s: Seq<u8>, m: int, q: int)
    requires
        0 <= q,
        0 <= m <= s.len(),
    ensures
        survives_cut(name_at(s, q), name_at(s.take(m), q), q, m),
{
    lemma_bytes_cut(s, m, q);
}

proof fn lemma_body_cut(s: Seq<u8>, m: int, q: int)
    requires
        0 <= q,
        0 <= m <= s.len(),
    ensures
        survives_cut(body_at(s, q), body_at(s.take(m), q), q, m),
{
    lemma_i32_cut(s, m, q);
    if let Ok((_, p1)) = i32_at(s, q) {
        lemma_u32_run_cut(s, m, p1);
        if let Ok((_, p2)) = u32_run_at(s, p1) {
            lemma_i32_run_cut(s, m, p2);
            if let Ok((_, p3)) = i32_run_at(s, p2) {
                lemma_u32_run_cut(s, m, p3);
                if let Ok((_, p4)) = u32_run_at(s, p3) {
                    lemma_u32_run_cut(s, m, p4);
                }
            }
        }
    }
}

/// A run of items survives a cut when each item does.
proof fn lemma_repeat_cut<T>(
    f: spec_fn(int) -> Read<T>,
    g: spec_fn(int) -> Read<T>,
    pos: int,
    n: nat,
    m: int,
)
    requires
        0 <= pos,
        forall|q: int| 0 <= q ==> #[trigger] survives_cut(f(q), g(q), q, m),
    ensures
        survives_cut(repeat(f, pos, n), repeat(g, pos, n), pos, m),
    decreases n,
{
    if n > 0 {
        let k = (n - 1) as nat;
        lemma_repeat_cut(f, g, pos, k, m);
        if let Ok((_, p)) = repeat(f, pos, k) {
            assert(survives_cut(f(p), g(p), p, m));
        }
    }
}

proof fn lemma_bodies_cut(s: Seq<u8>, m: int, q: int, n: nat)
    requires
        0 <= q,
        0 <= m <= s.len(),
    ensures
        survives_cut(repeat(body_item(s), q, n), repeat(body_item(s.take(m)), q, n), q, m),
{
    let t = s.take(m);
    assert forall|r: int| 0 <= r implies #[trigger] survives_cut(
        body_item(s)(r),
        body_item(t)(r),
        r,
        m,
    ) by {
        lemma_body_cut(s, m, r);
    }
    lemma_repeat_cut(body_item(s), body_item(t), q, n, m);
}

proof fn lemma_part_cut(s: Seq<u8>, m: int, q: int)
    requires
        0 <= q,
        0 <= m <= s.len(),
    ensures
        survives_cut(part_at(s, q), part_at(s.take(m), q), q, m),
{
    reveal(part_at);
    let t = s.take(m);
    lemma_name_cut(s, m, q);
    if let Ok((_, p1)) = name_at(s, q) {
        lemma_pose_cut(s, m, p1);
        if let Ok((_, p2)) = pose_at(s, p1) {
            lemma_u32_run_cut(s, m, p2);
            if let Ok((_, p3)) = u32_run_at(s, p2) {
                lemma_u32_run_cut(s, m, p3);
                if let Ok((_, p4)) = u32_run_at(s, p3) {
                    lemma_length_cut(s, m, p4);
                    if let Ok((n, p5)) = length_at(s, p4) {
                        lemma_bodies_cut(s, m, p5, n as nat);
                    }
                }
            }
        }
    }
}

proof fn lemma_joints_cut(s: Seq<u8>, m: int, q: int, n: nat)
    requires
        0 <= q,
        0 <= m <= s.len(),
    ensures
        survives_cut(repeat(joint_item(s), q, n), repeat(joint_item(s.take(m)), q, n), q, m),
{
    let t = s.take(m);
    assert forall|r: int| 0 <= r implies #[trigger] survives_cut(
        joint_item(s)(r),
        joint_item(t)(r),
        r,
        m,
    ) by {
        lemma_joint_cut(s, m, r);
    }
    lemma_repeat_cut(joint_item(s), joint_item(t), q, n, m);
}

proof fn lemma_parts_cut(s: Seq<u8>, m: int, q: int, n: nat)
    requires
        0 <= q,
        0 <= m <= s.len(),
    ensures
        survives_cut(repeat(part_item(s), q, n), repeat(part_item(s.take(m)), q, n), q, m),
{
    let t = s.take(m);
    assert forall|r: int| 0 <= r implies #[trigger] survives_cut(
        part_item(s)(r),
        part_item(t)(r),
        r,
        m,
    ) by {
        lemma_part_cut(s, m, r);
    }
    lemma_repeat_cut(part_item(s), part_item(t), q, n, m);
}

proof fn lemma_assembly_cut(s: Seq<u8>, m: int)
    requires
        SIGNATURE_LEN <= m <= s.len(),
    ensures
        survives_cut(assembly_at(s), assembly_at(s.take(m)), 0, m),
{
    let t = s.take(m);
    assert(t.subrange(0, SIGNATURE_LEN as int) =~= s.subrange(0, SIGNATURE_LEN as int));
    if has_signature(s) {
        lemma_length_cut(s, m, SIGNATURE_LEN as int);
        if let Ok((nj, p1)) = length_at(s, SIGNATURE_LEN as int) {
            lemma_joints_cut(s, m, p1, nj as nat);
            if let Ok((_, p2)) = repeat(joint_item(s), p1, nj as nat) {
                lemma_length_cut(s, m, p2);
                if let Ok((np, p3)) = length_at(s, p2) {
                    lemma_parts_cut(s, m, p3, np as nat);
                }
            }
        }
    }
}

/// Cutting a decodable buffer short, anywhere from the end of the signature
/// to just before the last byte that the decode reads, makes the decode fail
/// with `UnexpectedEof`.
pub proof fn lemma_truncation_is_eof(s: Seq<u8>, m: int)
    requires
        assembly_at(s) is Ok,
        SIGNATURE_LEN <= m < assembly_at(s)->Ok_0.1,
    ensures
        decoded(s.take(m)) == Err::<AssemblyView, MrrError>(MrrError::UnexpectedEof),
{
    assert(s.take(s.len() as int) =~= s);
    lemma_assembly_cut(s, s.len() as int);
    lemma_assembly_cut(s, m);
}

/// A buffer whose opening bytes differ from the signature somewhere, or
/// which ends before the signature does, is refused with
/// `FormatSignatureMismatch`, whatever follows.
pub proof fn lemma_signature_mismatch(s: Seq<u8>, k: int)
    requires
        0 <= k < SIGNATURE_LEN,
        k >= s.len() || s[k] != signature()[k],
    ensures
        decoded(s) == Err::<AssemblyView, MrrError>(MrrError::FormatSignatureMismatch),
{
    if s.len() >= SIGNATURE_LEN {
        assert(s.subrange(0, SIGNATURE_LEN as int)[k] != signature()[k]);
    }
}

/// Decoding depends on the bytes alone: equal buffers decode to equal
/// results.
pub proof fn lemma_decode_deterministic(a: Seq<u8>, b: Seq<u8>)
    requires
        a == b,
    ensures
        decoded(a) == decoded(b),
{
}

/// A sequence whose declared length times its element width does not fit in
/// 64 bits is refused with `LengthOverflow`; one whose bytes would run past
/// the end of the buffer with `UnexpectedEof`. A run that is read holds
/// exactly the declared number of elements, all inside the buffer.
pub proof fn lemma_length_guard(s: Seq<u8>, pos: int, width: int)
    requires
        fits(s, pos, 8),
        width > 0,
    ensures
        le8_at(s, pos) * width > u64::MAX ==> run_at(s, pos, width) == Err::<(nat, int), MrrError>(
            MrrError::LengthOverflow,
        ),
        le8_at(s, pos) * width <= u64::MAX && pos + 8 + le8_at(s, pos) * width > s.len()
            ==> run_at(s, pos, width) == Err::<(nat, int), MrrError>(MrrError::UnexpectedEof),
        run_at(s, pos, width) matches Ok((n, e)) ==> n == le8_at(s, pos) && e == pos + 8 + n * width
            && e <= s.len(),
        width == 4 ==> (u32_run_at(s, pos) matches Ok((v, _)) ==> v.len() == le8_at(s, pos)),
        width == 4 ==> (i32_run_at(s, pos) matches Ok((v, _)) ==> v.len() == le8_at(s, pos)),
        width == 1 ==> (bytes_at(s, pos) matches Ok((v, _)) ==> v.len() == le8_at(s, pos)),
{
    lemma_le8_bound(s, pos);
}

/// Eight bytes read little-endian give a value that fits in a `u64`.
proof fn lemma_le8_bound(s: Seq<u8>, p: int)
    requires
        fits(s, p, 8),
    ensures
        0 <= le8_at(s, p) <= u64::MAX,
{
}

/// The bytes 0xF8 to 0xFF occur nowhere in valid UTF-8.
proof fn lemma_valid_utf8_has_no_stray_byte(b: Seq<u8>, k: int)
    requires
        valid_utf8(b),
        0 <= k < b.len(),
    ensures
        b[k] < 0xf8,
    decreases b.len(),
{
    let w = length_of_first_scalar(b);
    if k >= w {
        let rest = pop_first_scalar(b);
        assert(rest[k - w] == b[k]);
        lemma_valid_utf8_has_no_stray_byte(rest, k - w);
    }
}

/// A part name holding a byte that never occurs in UTF-8 (0xF8 to 0xFF, a
/// lone 0xFF among them) is refused with `InvalidUtf8`.
pub proof fn lemma_name_with_stray_byte(s: Seq<u8>, pos: int, k: int)
    requires
        bytes_at(s, pos) is Ok,
        0 <= k < bytes_at(s, pos)->Ok_0.0.len(),
        bytes_at(s, pos)->Ok_0.0[k] >= 0xf8,
    ensures
        name_at(s, pos) == Err::<(Seq<char>, int), MrrError>(MrrError::InvalidUtf8),
{
    let b = bytes_at(s, pos)->Ok_0.0;
    if valid_utf8(b) {
        lemma_valid_utf8_has_no_stray_byte(b, k);
    }
}

} // verus!
