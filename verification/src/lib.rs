//! Health checks for BitTorrent UDP trackers.
//!
//! A candidate is a tracker endpoint, written `transport://host:port`. To
//! check one, its host is resolved, and every address is probed with the UDP
//! tracker handshake: connect, then announce. The probes of a candidate add
//! up to a verdict, which is a profile with the mean round trip time or the
//! reason the candidate failed.
//!
//! The library decides; it does not touch files, names or sockets. Whoever
//! runs it reads the list, resolves the hosts, moves the datagrams that a
//! probe hands out, and tells the probe what came back.
//!
//! - [`candidates`]: the candidate format and the list of candidates.
//! - [`wire`]: the datagrams of the protocol.
//! - [`tracker_client`]: one session with one tracker address.
//! - [`probe`]: the probe of one address, step by step.
//! - [`tracker_check`]: the verdict on a candidate.
//! - [`report`]: the tally and the lists that a run writes out.

pub mod candidate_order;
pub mod candidates;
pub mod lists;
pub mod probe;
pub mod report;
pub mod text;
pub mod tracker_check;
pub mod tracker_client;
pub mod wire;
