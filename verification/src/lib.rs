//! Frame reassembly for a camera that streams JPEG images in small datagrams.
//!
//! The camera sends every image as a run of datagrams, each with a nine-byte
//! framing header. This library parses the header, assembles the fragments of
//! one image in order, validates the decoded image and publishes it in a slot
//! that readers poll. It also classifies the replies on the camera's control
//! channel and decides when a keepalive is due.

pub mod control;
pub mod decode;
pub mod header;
pub mod hex;
pub mod reassembly;
pub mod receiver;
pub mod scan;
pub mod slot;

pub use control::TcpMessage;
pub use header::UDPFrameHeader;
pub use hex::to_hex_str;
pub use decode::{decode_jpeg_frame, DecodeError, DecodedFrame};
pub use reassembly::{Error, FrameReceptionState, Progress, Reassembler};
pub use receiver::{Delivery, FrameReceiver};
pub use slot::{whole_frame, FrameReader, SharedFrameSlot};
