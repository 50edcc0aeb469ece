//! Synchronises a clipboard payload with a remote peer over a link that
//! carries only small, bounded values: an outbound pusher, an inbound
//! reassembler, and the frames the two exchange.

pub mod att;
pub mod clip;
pub mod digest;
pub mod inbound;
pub mod mime;
pub mod outbound;
pub mod transfer;
pub mod wire;

pub use clip::Clip;
pub use inbound::InSyncer;
pub use outbound::OutSyncer;
