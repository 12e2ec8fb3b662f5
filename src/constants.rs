//! Tunables shared by the stack engine and its surroundings.
use vstd::prelude::*;

verus! {

/// Maximum number of packets to process per event-loop wakeup.
pub const BATCH_SIZE: usize = 64;

/// Queue depth of the packet channels between the device and the stack.
pub const CHANNEL_SIZE: usize = 8192;

/// Queue depth of each per-tunnel byte channel.
pub const TUNNEL_CHANNEL_SIZE: usize = 1024;

/// Queue depth of the control channels (tunnel requests, handshake feedback).
pub const CONTROL_CHANNEL_SIZE: usize = 128;

/// Receive buffer size of each trapped TCP socket (2 MiB).
pub const TCP_RX_BUFFER_SIZE: usize = 2097152;

/// Send buffer size of each trapped TCP socket (2 MiB).
pub const TCP_TX_BUFFER_SIZE: usize = 2097152;

/// Keep-alive interval of each trapped TCP socket, in seconds.
pub const TCP_KEEPALIVE_SECS: u64 = 60;

/// Number of TX buffers the device pool starts with.
pub const TX_POOL_CAPACITY: usize = 64;

/// Maximum number of buffers kept in the TX pool.
pub const TX_POOL_MAX_SIZE: usize = 128;

/// Minimum remaining capacity for a TX buffer to be recycled back to the pool.
pub const TX_POOL_RECYCLE_THRESHOLD: usize = 2048;

/// Size of each freshly allocated TX arena chunk.
pub const TX_ARENA_SIZE: usize = 65535;

/// Default MSS clamp value for egress path compatibility.
pub const DEFAULT_MSS_CLAMP: u16 = 1280;

/// Size of the virtio-net header prepended by a TUN device in vnet-header mode.
pub const VIRTIO_NET_HDR_SIZE: usize = 10;

} // verus!
