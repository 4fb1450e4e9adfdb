//! What the control surface reports of a running interface.

use super::{Cidr, IpAddr, Key};
use vstd::prelude::*;

verus! {

/// A running interface.
#[derive(Debug, Clone, PartialEq, Eq)]
pub struct WgInterfaceInfo {
    pub private_key: Key,
    pub public_key: Option<Key>,
    pub address: Cidr,
    pub listen_port: Option<u16>,
    pub mtu: Option<u16>,
    pub dns: Option<Vec<IpAddr>>,
    pub table: Option<u32>,
    pub fwmark: Option<u32>,
}

} // verus!
