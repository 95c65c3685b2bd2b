//! A jitter buffer for real time udp/rtp streams: packets go in as the network
//! delivers them and come out in sequence order, one per playback slot.

pub mod buffer;
pub mod buffer_laws;
pub mod flush_laws;
pub mod heap;
pub mod heap_laws;
pub mod loss;
pub mod packet;
pub mod plan_laws;
pub mod sequence;
pub mod slot_laws;
pub mod state;

pub use buffer::JitterBuffer;
pub use heap::PacketHeap;
pub use loss::LossRatio;
pub use packet::{JitterPacket, Packet};
pub use sequence::SequenceNumber;
pub use state::{DelayPlan, Flush, Next};
