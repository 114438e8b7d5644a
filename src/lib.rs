//! Decoder for MRR, a length-prefixed binary description of a mechanical
//! assembly: a list of joints and a list of parts, each part carrying a pose,
//! references into the joint list and one or more triangle-mesh bodies.
//!
//! `grammar` states the format as a parser over byte sequences; `cursor` and
//! `decode` hold the executable decoder, proved to agree with it; `laws` proves
//! general properties of the format.

pub mod cursor;
pub mod decode;
pub mod grammar;
pub mod laws;
pub mod log;
pub mod model;

pub use cursor::MrrDeserializer;
pub use decode::decode;
pub use log::{LogMessage, LogMessageType, LogMessages};
pub use model::{Assembly, Body, Joint, JointType, MrrError, Orientation, Part, Pose, Position};
