use vstd::prelude::*;

verus! {

/// What a thread is to the event-loop bridge, fixed when the thread starts.
#[derive(Clone, Copy, Debug, PartialEq, Eq, Structural)]
pub enum ThreadRole {
    /// The one thread that runs the event loop and all remote calls.
    EventLoop,
    /// Any other thread of the process.
    Application,
}

/// Whether the thread in `role` is the event-loop thread.
pub fn in_rpc_thread(role: ThreadRole) -> (r: bool)
    ensures
        r == (role == ThreadRole::EventLoop),
{
    match role {
        ThreadRole::EventLoop => true,
        ThreadRole::Application => false,
    }
}

/// The bridge was entered from the thread that runs its event loop, which
/// is busy running that loop and so could never run the new work.
#[derive(Clone, Copy, Debug, PartialEq, Eq, Structural)]
pub struct ReentrantInject;

/// Admits work into the bridge from a thread in `role`: only application
/// threads may enter; an attempt from the event-loop thread is refused, for
/// the caller to treat as a fatal defect rather than wait forever.
pub fn enter_bridge(role: ThreadRole) -> (r: Result<(), ReentrantInject>)
    ensures
        r is Err <==> role == ThreadRole::EventLoop,
{
    if in_rpc_thread(role) {
        Err(ReentrantInject)
    } else {
        Ok(())
    }
}

/// Which filesystem serves a call that names a descriptor.
#[derive(Clone, Copy, Debug, PartialEq, Eq, Structural)]
pub enum Served {
    /// The real filesystem, directly.
    Real,
    /// The descriptor table, reached through the bridge; what it does not
    /// hold goes on to the real filesystem.
    ThroughBridge,
}

/// Where a read, write or close from a thread in `role` first goes: the
/// event-loop thread never consults the bridge, so it cannot re-enter it.
pub fn serve_descriptor_call(role: ThreadRole) -> (r: Served)
    ensures
        r == (if role == ThreadRole::EventLoop {
            Served::Real
        } else {
            Served::ThroughBridge
        }),
{
    if in_rpc_thread(role) {
        Served::Real
    } else {
        Served::ThroughBridge
    }
}

} // verus!
