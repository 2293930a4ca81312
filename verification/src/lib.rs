//! User-space model of an AF_XDP datapath: the four single-producer /
//! single-consumer descriptor rings (FILL, COMPLETION, RX, TX), the
//! frame-lifecycle state machine that moves a UMEM buffer offset through
//! RX -> recycled-fill or TX -> completion -> free-list, and the fixed
//! 42-byte Ethernet/IPv4/UDP header codec.
//!
//! The rings here are plain memory owned by the socket value; the kernel's
//! side of each ring is modelled by explicit methods so that the whole
//! lifecycle can be driven and checked in one address space. The raw
//! kernel-mapped projection of the same logic lives outside the library.

pub mod headers;
pub mod laws;
pub mod ring;
pub mod umem;
pub mod xsk;
