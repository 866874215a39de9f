//! Verified core of a dual-channel differential sampler: a trimmed-mean
//! filter over fixed-size sample windows, the channel-multiplexed
//! acquisition state machine that fills those windows, and the static
//! partition of peripheral handles between the two concurrent activities.

pub mod acquisition;
pub mod filter;
pub mod resources;
