use mechsim::{JointType, MrrDeserializer, MrrError};

#[test]
fn take_moves_forward_and_refuses_past_the_end() {
    let mut d = MrrDeserializer::new(vec![1, 2, 3, 4, 5]);
    assert_eq!(d.take(2), Ok(0));
    assert_eq!(d.position(), 2);
    assert_eq!(d.take(4), Err(MrrError::UnexpectedEof));
    assert_eq!(d.position(), 2);
    assert_eq!(d.take(3), Ok(2));
    assert_eq!(d.position(), 5);
    assert_eq!(d.take(0), Ok(5));
    assert_eq!(d.take(1), Err(MrrError::UnexpectedEof));
}

#[test]
fn take_of_the_largest_size_is_eof() {
    let mut d = MrrDeserializer::new(vec![0; 8]);
    assert_eq!(d.take(u64::MAX), Err(MrrError::UnexpectedEof));
    assert_eq!(d.position(), 0);
}

#[test]
fn integers_are_little_endian() {
    let bytes = vec![1, 2, 3, 4, 0xFE, 0xFF, 0xFF, 0xFF, 8, 7, 6, 5, 4, 3, 2, 1];
    let mut d = MrrDeserializer::new(bytes);
    assert_eq!(d.read_u32(), Ok(0x0403_0201));
    assert_eq!(d.read_i32(), Ok(-2));
    assert_eq!(d.read_length(), Ok(0x0102_0304_0506_0708));
    assert_eq!(d.position(), 16);
    assert_eq!(d.read_u32(), Err(MrrError::UnexpectedEof));
}

#[test]
fn short_integer_reads_are_eof() {
    let mut d = MrrDeserializer::new(vec![1, 2, 3]);
    assert_eq!(d.read_u32(), Err(MrrError::UnexpectedEof));
    assert_eq!(d.read_i32(), Err(MrrError::UnexpectedEof));
    assert_eq!(d.read_length(), Err(MrrError::UnexpectedEof));
    assert_eq!(d.position(), 0);
}

#[test]
fn joint_types_map_from_discriminants() {
    let mut bytes = Vec::new();
    for d in [0u32, 1, 2, 3] {
        bytes.extend_from_slice(&d.to_le_bytes());
    }
    let mut d = MrrDeserializer::new(bytes);
    assert_eq!(d.read_joint_type(), Ok(JointType::Rigid));
    assert_eq!(d.read_joint_type(), Ok(JointType::Revolute));
    assert_eq!(d.read_joint_type(), Ok(JointType::Slider));
    assert_eq!(d.read_joint_type(), Err(MrrError::UnknownJointType));
}

#[test]
fn pose_fields_come_in_order() {
    let values = [1.0f64, -2.0, 3.5, 0.1, 0.2, 0.3, 0.9];
    let mut bytes = Vec::new();
    for v in values {
        bytes.extend_from_slice(&v.to_le_bytes());
    }
    let mut d = MrrDeserializer::new(bytes);
    let p = d.read_pose().unwrap();
    assert_eq!(f64::from_bits(p.0.x), 1.0);
    assert_eq!(f64::from_bits(p.0.y), -2.0);
    assert_eq!(f64::from_bits(p.0.z), 3.5);
    assert_eq!(f64::from_bits(p.1.x), 0.1);
    assert_eq!(f64::from_bits(p.1.y), 0.2);
    assert_eq!(f64::from_bits(p.1.z), 0.3);
    assert_eq!(f64::from_bits(p.1.w), 0.9);
    assert_eq!(d.position(), 56);
}

#[test]
fn short_pose_is_eof() {
    let mut d = MrrDeserializer::new(vec![0; 55]);
    assert_eq!(d.read_pose(), Err(MrrError::UnexpectedEof));
}

#[test]
fn sequences_hold_the_declared_count() {
    let mut bytes = 3u64.to_le_bytes().to_vec();
    for v in [10u32, 20, 30] {
        bytes.extend_from_slice(&v.to_le_bytes());
    }
    bytes.extend_from_slice(&2u64.to_le_bytes());
    bytes.extend_from_slice(&(-7i32).to_le_bytes());
    bytes.extend_from_slice(&9i32.to_le_bytes());
    bytes.extend_from_slice(&3u64.to_le_bytes());
    bytes.extend_from_slice(b"abc");
    let mut d = MrrDeserializer::new(bytes);
    assert_eq!(d.read_u32_seq(), Ok(vec![10, 20, 30]));
    assert_eq!(d.read_i32_seq(), Ok(vec![-7, 9]));
    assert_eq!(d.read_bytes(), Ok(b"abc".to_vec()));
    assert_eq!(d.position(), 8 + 12 + 8 + 8 + 8 + 3);
}

#[test]
fn sequence_overflow_and_shortfall() {
    let mut d = MrrDeserializer::new(u64::MAX.to_le_bytes().to_vec());
    assert_eq!(d.read_u32_seq(), Err(MrrError::LengthOverflow));
    let mut d = MrrDeserializer::new(u64::MAX.to_le_bytes().to_vec());
    assert_eq!(d.read_bytes(), Err(MrrError::UnexpectedEof));
    let mut bytes = 2u64.to_le_bytes().to_vec();
    bytes.extend_from_slice(&[1, 2, 3, 4, 5, 6, 7]);
    let mut d = MrrDeserializer::new(bytes);
    assert_eq!(d.read_i32_seq(), Err(MrrError::UnexpectedEof));
}

#[test]
fn names_are_checked_as_utf8() {
    let mut bytes = 7u64.to_le_bytes().to_vec();
    bytes.extend_from_slice(b"Bearing");
    bytes.extend_from_slice(&1u64.to_le_bytes());
    bytes.push(0xFF);
    let mut d = MrrDeserializer::new(bytes);
    assert_eq!(d.read_name(), Ok("Bearing".to_string()));
    assert_eq!(d.read_name(), Err(MrrError::InvalidUtf8));
}

#[test]
fn signature_check_consumes_nothing_on_mismatch() {
    let mut d = MrrDeserializer::new(b"MRR (MechSim Robot Representation".to_vec());
    assert_eq!(d.check_signature(), Err(MrrError::FormatSignatureMismatch));
    assert_eq!(d.position(), 0);
    let mut d = MrrDeserializer::new(b"MRR (MechSim Robot Representation)\x01".to_vec());
    assert_eq!(d.check_signature(), Ok(()));
    assert_eq!(d.position(), 34);
}

#[test]
fn session_decodes_a_whole_buffer() {
    let mut bytes = b"MRR (MechSim Robot Representation)".to_vec();
    bytes.extend_from_slice(&0u64.to_le_bytes());
    bytes.extend_from_slice(&0u64.to_le_bytes());
    let mut d = MrrDeserializer::new(bytes);
    let a = d.deserialize_assembly().unwrap();
    assert!(a.joints.is_empty());
    assert!(a.parts.is_empty());
    assert_eq!(d.position(), 50);
}
