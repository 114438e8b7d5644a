use mechsim::{decode, Assembly, JointType, MrrError};

const SIGNATURE: &[u8] = b"MRR (MechSim Robot Representation)";

fn put_len(b: &mut Vec<u8>, n: u64) {
    b.extend_from_slice(&n.to_le_bytes());
}

fn put_pose(b: &mut Vec<u8>, values: [f64; 7]) {
    for v in values {
        b.extend_from_slice(&v.to_le_bytes());
    }
}

fn put_f32s(b: &mut Vec<u8>, values: &[f32]) {
    put_len(b, values.len() as u64);
    for v in values {
        b.extend_from_slice(&v.to_le_bytes());
    }
}

fn put_i32s(b: &mut Vec<u8>, values: &[i32]) {
    put_len(b, values.len() as u64);
    for v in values {
        b.extend_from_slice(&v.to_le_bytes());
    }
}

fn put_u32s(b: &mut Vec<u8>, values: &[u32]) {
    put_len(b, values.len() as u64);
    for v in values {
        b.extend_from_slice(&v.to_le_bytes());
    }
}

fn put_name(b: &mut Vec<u8>, name: &[u8]) {
    put_len(b, name.len() as u64);
    b.extend_from_slice(name);
}

const POSE_A: [f64; 7] = [1.0, 2.0, 3.0, 0.0, 0.0, 0.0, 1.0];
const POSE_B: [f64; 7] = [-4.5, 0.25, 6.0, 0.5, 0.5, 0.5, 0.5];
const POSE_C: [f64; 7] = [0.0, 0.0, 0.0, 0.0, 0.0, 0.0, 1.0];

/// Signature, two joints (Rigid, Revolute), one part with one body.
fn sample_buffer() -> Vec<u8> {
    let mut b = SIGNATURE.to_vec();
    put_len(&mut b, 2);
    b.extend_from_slice(&0u32.to_le_bytes());
    put_pose(&mut b, POSE_A);
    b.extend_from_slice(&1u32.to_le_bytes());
    put_pose(&mut b, POSE_B);
    put_len(&mut b, 1);
    put_name(&mut b, b"Bearing");
    put_pose(&mut b, POSE_C);
    put_u32s(&mut b, &[0, 1]);
    put_u32s(&mut b, &[7]);
    put_len(&mut b, 1);
    b.extend_from_slice(&1i32.to_le_bytes());
    put_f32s(&mut b, &[0.0, 0.0, 0.0, 1.0, 0.0, 0.0, 0.0, 1.0, 0.0]);
    put_i32s(&mut b, &[0, 1, 2]);
    put_f32s(&mut b, &[]);
    put_f32s(&mut b, &[]);
    b
}

fn floats(bits: &[u32]) -> Vec<f32> {
    bits.iter().map(|&x| f32::from_bits(x)).collect()
}

fn pose_values(a: &Assembly, joint: usize) -> [f64; 7] {
    let p = a.joints[joint].1;
    [p.0.x, p.0.y, p.0.z, p.1.x, p.1.y, p.1.z, p.1.w].map(f64::from_bits)
}

#[test]
fn hand_built_buffer_decodes() {
    let a = decode(sample_buffer()).unwrap();
    assert_eq!(a.joints.len(), 2);
    assert_eq!(a.joints[0].0, JointType::Rigid);
    assert_eq!(a.joints[1].0, JointType::Revolute);
    assert_eq!(pose_values(&a, 0), POSE_A);
    assert_eq!(pose_values(&a, 1), POSE_B);
    assert_eq!(a.parts.len(), 1);
    let part = &a.parts[0];
    assert_eq!(part.name, "Bearing");
    assert_eq!(part.joint_references, vec![0, 1]);
    assert_eq!(part.rigid_group_references, vec![7]);
    assert_eq!(part.bodies.len(), 1);
    let body = &part.bodies[0];
    assert_eq!(body.triangle_count, 1);
    assert_eq!(floats(&body.verticies), vec![0.0, 0.0, 0.0, 1.0, 0.0, 0.0, 0.0, 1.0, 0.0]);
    assert_eq!(body.indicies, vec![0, 1, 2]);
    assert!(body.normals.is_empty());
    assert!(body.uvs.is_empty());
}

#[test]
fn every_truncation_after_signature_is_eof() {
    let full = sample_buffer();
    for m in SIGNATURE.len()..full.len() {
        assert_eq!(decode(full[..m].to_vec()), Err(MrrError::UnexpectedEof), "cut at {}", m);
    }
}

#[test]
fn truncation_inside_signature_is_mismatch() {
    let full = sample_buffer();
    for m in 0..SIGNATURE.len() {
        assert_eq!(decode(full[..m].to_vec()), Err(MrrError::FormatSignatureMismatch));
    }
}

#[test]
fn wrong_signature_is_mismatch() {
    for k in 0..SIGNATURE.len() {
        let mut b = sample_buffer();
        b[k] ^= 0x20;
        assert_eq!(decode(b), Err(MrrError::FormatSignatureMismatch));
    }
    assert_eq!(decode(Vec::new()), Err(MrrError::FormatSignatureMismatch));
    let other = b"not an assembly file at all, honestly".to_vec();
    assert_eq!(decode(other), Err(MrrError::FormatSignatureMismatch));
}

#[test]
fn lone_ff_in_name_is_invalid_utf8() {
    let mut b = SIGNATURE.to_vec();
    put_len(&mut b, 0);
    put_len(&mut b, 1);
    put_name(&mut b, &[0xFF]);
    put_pose(&mut b, POSE_C);
    put_u32s(&mut b, &[]);
    put_u32s(&mut b, &[]);
    put_len(&mut b, 0);
    assert_eq!(decode(b), Err(MrrError::InvalidUtf8));
}

#[test]
fn invalid_name_is_reported_before_a_later_truncation() {
    let mut b = SIGNATURE.to_vec();
    put_len(&mut b, 0);
    put_len(&mut b, 1);
    put_name(&mut b, &[b'a', 0xC3]);
    assert_eq!(decode(b), Err(MrrError::InvalidUtf8));
}

#[test]
fn multibyte_name_decodes() {
    let mut b = SIGNATURE.to_vec();
    put_len(&mut b, 0);
    put_len(&mut b, 1);
    put_name(&mut b, "R\u{e4}d \u{2713}".as_bytes());
    put_pose(&mut b, POSE_C);
    put_u32s(&mut b, &[]);
    put_u32s(&mut b, &[]);
    put_len(&mut b, 0);
    let a = decode(b).unwrap();
    assert_eq!(a.parts[0].name, "R\u{e4}d \u{2713}");
    assert!(a.parts[0].bodies.is_empty());
}

#[test]
fn decoding_twice_gives_equal_assemblies() {
    let b = sample_buffer();
    let first = decode(b.clone());
    let second = decode(b);
    assert!(first.is_ok());
    assert_eq!(first, second);
}

/// The sample buffer up to the vertex run of its only body.
fn prefix_before_vertices() -> Vec<u8> {
    let mut b = SIGNATURE.to_vec();
    put_len(&mut b, 0);
    put_len(&mut b, 1);
    put_name(&mut b, b"p");
    put_pose(&mut b, POSE_C);
    put_u32s(&mut b, &[]);
    put_u32s(&mut b, &[]);
    put_len(&mut b, 1);
    b.extend_from_slice(&0i32.to_le_bytes());
    b
}

#[test]
fn overflowing_sequence_length_is_length_overflow() {
    let mut b = prefix_before_vertices();
    put_len(&mut b, u64::MAX / 4 + 1);
    b.extend_from_slice(&[0u8; 64]);
    assert_eq!(decode(b), Err(MrrError::LengthOverflow));
}

#[test]
fn largest_length_is_length_overflow() {
    let mut b = prefix_before_vertices();
    put_len(&mut b, u64::MAX);
    assert_eq!(decode(b), Err(MrrError::LengthOverflow));
}

#[test]
fn oversized_sequence_length_is_eof() {
    let mut b = prefix_before_vertices();
    put_len(&mut b, u64::MAX / 4);
    b.extend_from_slice(&[0u8; 64]);
    assert_eq!(decode(b), Err(MrrError::UnexpectedEof));
}

#[test]
fn huge_name_length_is_eof() {
    let mut b = SIGNATURE.to_vec();
    put_len(&mut b, 0);
    put_len(&mut b, 1);
    put_len(&mut b, u64::MAX);
    b.extend_from_slice(b"short");
    assert_eq!(decode(b), Err(MrrError::UnexpectedEof));
}

#[test]
fn huge_joint_count_is_eof() {
    let mut b = SIGNATURE.to_vec();
    put_len(&mut b, u64::MAX);
    b.extend_from_slice(&2u32.to_le_bytes());
    put_pose(&mut b, POSE_A);
    assert_eq!(decode(b), Err(MrrError::UnexpectedEof));
}

#[test]
fn unknown_joint_type_is_reported() {
    let mut b = SIGNATURE.to_vec();
    put_len(&mut b, 1);
    b.extend_from_slice(&3u32.to_le_bytes());
    put_pose(&mut b, POSE_A);
    put_len(&mut b, 0);
    assert_eq!(decode(b), Err(MrrError::UnknownJointType));
}

#[test]
fn slider_joint_decodes() {
    let mut b = SIGNATURE.to_vec();
    put_len(&mut b, 1);
    b.extend_from_slice(&2u32.to_le_bytes());
    put_pose(&mut b, POSE_B);
    put_len(&mut b, 0);
    let a = decode(b).unwrap();
    assert_eq!(a.joints[0].0, JointType::Slider);
    assert_eq!(pose_values(&a, 0), POSE_B);
    assert!(a.parts.is_empty());
}

#[test]
fn empty_assembly_decodes() {
    let mut b = SIGNATURE.to_vec();
    put_len(&mut b, 0);
    put_len(&mut b, 0);
    let a = decode(b).unwrap();
    assert!(a.joints.is_empty());
    assert!(a.parts.is_empty());
    assert_eq!(a.body_count(), 0);
}

#[test]
fn signature_alone_is_eof() {
    assert_eq!(decode(SIGNATURE.to_vec()), Err(MrrError::UnexpectedEof));
}

#[test]
fn trailing_bytes_are_ignored() {
    let mut b = sample_buffer();
    b.extend_from_slice(&[0xAB; 9]);
    assert_eq!(decode(b), decode(sample_buffer()));
}

#[test]
fn signed_values_decode_as_twos_complement() {
    let mut b = SIGNATURE.to_vec();
    put_len(&mut b, 0);
    put_len(&mut b, 1);
    put_name(&mut b, b"n");
    put_pose(&mut b, POSE_C);
    put_u32s(&mut b, &[u32::MAX, 0x0403_0201]);
    put_u32s(&mut b, &[]);
    put_len(&mut b, 1);
    b.extend_from_slice(&(-5i32).to_le_bytes());
    put_f32s(&mut b, &[-1.5]);
    put_i32s(&mut b, &[-1, i32::MIN, i32::MAX]);
    put_f32s(&mut b, &[0.5, -0.5, 2.0]);
    put_f32s(&mut b, &[0.25, 0.75]);
    let a = decode(b).unwrap();
    let part = &a.parts[0];
    assert_eq!(part.joint_references, vec![u32::MAX, 0x0403_0201]);
    let body = &part.bodies[0];
    assert_eq!(body.triangle_count, -5);
    assert_eq!(floats(&body.verticies), vec![-1.5]);
    assert_eq!(body.indicies, vec![-1, i32::MIN, i32::MAX]);
    assert_eq!(floats(&body.normals), vec![0.5, -0.5, 2.0]);
    assert_eq!(floats(&body.uvs), vec![0.25, 0.75]);
}

#[test]
fn body_count_sums_over_parts() {
    let mut b = SIGNATURE.to_vec();
    put_len(&mut b, 0);
    put_len(&mut b, 2);
    for bodies in [2u64, 1] {
        put_name(&mut b, b"part");
        put_pose(&mut b, POSE_C);
        put_u32s(&mut b, &[]);
        put_u32s(&mut b, &[]);
        put_len(&mut b, bodies);
        for _ in 0..bodies {
            b.extend_from_slice(&0i32.to_le_bytes());
            put_f32s(&mut b, &[]);
            put_i32s(&mut b, &[]);
            put_f32s(&mut b, &[]);
            put_f32s(&mut b, &[]);
        }
    }
    let a = decode(b).unwrap();
    assert_eq!(a.parts[0].bodies.len(), 2);
    assert_eq!(a.parts[1].bodies.len(), 1);
    assert_eq!(a.body_count(), 3);
}

#[test]
fn error_messages_for_users() {
    assert_eq!(MrrError::FormatSignatureMismatch.message(), "not a valid assembly file");
    assert_eq!(MrrError::UnexpectedEof.message(), "corrupt or incomplete file");
    assert_eq!(MrrError::LengthOverflow.message(), "corrupt file");
    assert_eq!(MrrError::InvalidUtf8.message(), "corrupt file");
    assert_eq!(MrrError::UnknownJointType.message(), "unsupported or corrupt file");
}
