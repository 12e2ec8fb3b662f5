//! Prism: a userspace network stack core that traps TCP connection attempts
//! arriving on a virtual L3 interface and splices them onto remote tunnels.
//!
//! The library holds the packet-level logic (offload headers, classification,
//! SYN trapping with MSS clamping) and the decisions of the stack engine
//! (ingress routing, handshake control, tunnel bookkeeping, socket reaping).
pub mod constants;
pub mod offload;
pub mod stack;
pub mod trap;
pub mod wire;
