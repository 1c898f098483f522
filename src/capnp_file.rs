use vstd::prelude::*;

use crate::result::Errno;
use crate::vfs::Fd;

verus! {

/// A capability to a remote object, as capnp hands it out.
#[verifier::external_type_specification]
#[verifier::external_body]
pub struct ExClient(capnp::capability::Client);

/// A node of the remote filesystem, reached by a walk.
pub struct FsNode {
    client: capnp::capability::Client,
}

impl FsNode {
    /// The capability behind this node.
    pub closed spec fn client(&self) -> capnp::capability::Client {
        self.client
    }

    pub fn new(client: capnp::capability::Client) -> (r: Self)
        ensures
            r.client() == client,
    {
        FsNode { client }
    }
}

/// Relies on libc::ENOSYS, the "function not implemented" error code.
#[verifier::external_body]
fn function_not_implemented() -> i32 {
    libc::ENOSYS
}

/// Byte transfer on a node is not part of the node interface reached here:
/// both directions report that the function is not implemented.
impl Fd for FsNode {
    fn read(&self, _buf: &mut [u8]) -> Result<isize, Errno> {
        Err(Errno(function_not_implemented()))
    }

    fn write(&self, _buf: &[u8]) -> Result<isize, Errno> {
        Err(Errno(function_not_implemented()))
    }
}

} // verus!
