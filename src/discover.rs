//! Learning this node's externally visible address. The live probe runs
//! outside the library; a fixed stand-in is here.

use crate::wg::{IpAddr, SocketAddr};
use vstd::prelude::*;

verus! {

/// The error of a discovery that cannot fail. No value of it is ever made
/// outside this crate, and none inside.
#[derive(Debug)]
pub struct Void {
    unreachable: (),
}

/// Discovery that always reports `127.0.0.1:51039` and local port 51039.
#[derive(Debug, Default)]
pub struct FakeDiscover;

impl FakeDiscover {
    pub fn discover(&self) -> (r: Result<(SocketAddr, u16), Void>)
        ensures
            r matches Ok((a, p)) && a.ip@ == seq![127u8, 0u8, 0u8, 1u8] && a.ip is V4 && a.port
                == 51039 && p == 51039,
    {
        let a = SocketAddr { ip: IpAddr::V4([127, 0, 0, 1]), port: 51039 };
        assert(a.ip@ =~= seq![127u8, 0u8, 0u8, 1u8]);
        Ok((a, 51039))
    }
}

} // verus!
