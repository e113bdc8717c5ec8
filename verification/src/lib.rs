//! Reassembly, cipher alignment and decoding of a length-prefixed,
//! RC4-encrypted game protocol observed on the wire.
//!
//! Payload bytes pass through four stages. The stitcher cuts them into
//! frames; the tick-frame constructor groups the frames into runs that end in
//! a tick; the decryptor keeps an RC4 cipher in step with the sender, finds
//! its position again from the predictable bytes of a tick where the stream
//! has drifted, and decrypts the runs; and the table of typed frames decodes
//! what comes out. [`packet_factory::RotmgPacketFactory`] is the four stages
//! in a row, and [`sniffer::Sniffer`] feeds it from captured Ethernet frames.

pub mod byte_buffer;
pub mod data_types;
pub mod packet_factory;
pub mod rc4;
pub mod rotmg_packet;
pub mod rotmg_packet_decryptor;
pub mod rotmg_packet_stitcher;
pub mod sniffer;
pub mod tick_frame_constructor;
pub mod varint;
