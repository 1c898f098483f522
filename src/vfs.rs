use std::collections::HashMap;
use std::rc::Rc;
use vstd::prelude::*;

use crate::result::Errno;

verus! {

broadcast use vstd::std_specs::hash::group_hash_axioms;

/// A file-like object that a virtual descriptor stands for.
pub trait Fd {
    /// Reads into `buf`; the count of bytes read, or the error.
    fn read(&self, buf: &mut [u8]) -> Result<isize, Errno>;

    /// Writes from `buf`; the count of bytes written, or the error.
    fn write(&self, buf: &[u8]) -> Result<isize, Errno>;
}

/// A shared reference to a file-like object: the table holds one, and each
/// operation in flight holds another.
pub struct FdPtr<N> {
    node: Rc<N>,
}

/// Relies on Rc::clone: the new pointer refers to the same allocation.
#[verifier::external_body]
fn share_rc<N>(p: &Rc<N>) -> (r: Rc<N>)
    ensures
        r == *p,
{
    Rc::clone(p)
}

impl<N> FdPtr<N> {
    /// The object referred to.
    pub closed spec fn node(&self) -> N {
        *self.node
    }

    pub fn new(fd: N) -> (r: Self)
        ensures
            r.node() == fd,
    {
        FdPtr { node: Rc::new(fd) }
    }

    /// Another reference to the same object.
    pub fn share(&self) -> (r: Self)
        ensures
            r == *self,
    {
        FdPtr { node: share_rc(&self.node) }
    }
}

impl<N: Fd> Fd for FdPtr<N> {
    fn read(&self, buf: &mut [u8]) -> Result<isize, Errno> {
        let node: &N = &self.node;
        node.read(buf)
    }

    fn write(&self, buf: &[u8]) -> Result<isize, Errno> {
        let node: &N = &self.node;
        node.write(buf)
    }
}

/// What a lookup of `fd` in a table with contents `m` finds.
pub open spec fn lookup<N>(m: Map<i32, FdPtr<N>>, fd: i32) -> Option<FdPtr<N>> {
    if m.contains_key(fd) {
        Some(m[fd])
    } else {
        None
    }
}

/// The virtual descriptors of the process and the objects behind them.
pub struct FdTable<N> {
    fds: HashMap<i32, FdPtr<N>>,
}

impl<N> View for FdTable<N> {
    type V = Map<i32, FdPtr<N>>;

    closed spec fn view(&self) -> Map<i32, FdPtr<N>> {
        self.fds@
    }
}

impl<N> FdTable<N> {
    pub fn new() -> (r: Self)
        ensures
            r@ == Map::<i32, FdPtr<N>>::empty(),
    {
        FdTable { fds: HashMap::new() }
    }

    /// The object behind `fd`, if `fd` is virtual; none means the
    /// descriptor belongs to the real filesystem.
    pub fn get(&self, fd: i32) -> (r: Option<FdPtr<N>>)
        ensures
            r == lookup(self@, fd),
    {
        match self.fds.get(&fd) {
            Some(p) => Some(p.share()),
            None => None,
        }
    }

    /// Takes `fd` out of the table, handing back what it referred to.
    pub fn remove(&mut self, fd: i32) -> (r: Option<FdPtr<N>>)
        ensures
            r == lookup(old(self)@, fd),
            final(self)@ == old(self)@.remove(fd),
    {
        let r = self.fds.remove(&fd);
        assert(self.fds@ =~= old(self).fds@.remove(fd));
        r
    }

    /// Registers `fdp` under the descriptor that the kernel `allocated` for
    /// it, giving the descriptor and error code 0; when allocation failed the
    /// table is unchanged and the result is -1 with the allocation's error.
    pub fn add(&mut self, fdp: FdPtr<N>, allocated: Result<i32, Errno>) -> (r: (i32, i32))
        ensures
            match allocated {
                Ok(fd) => r == (fd, 0i32) && final(self)@ == old(self)@.insert(fd, fdp),
                Err(e) => r == (-1i32, e.0) && final(self)@ == old(self)@,
            },
    {
        match allocated {
            Ok(fd) => {
                self.fds.insert(fd, fdp);
                (fd, 0)
            },
            Err(e) => (-1, e.0),
        }
    }
}

/// After a virtual descriptor is closed, a lookup of it finds nothing, so
/// later calls on that number are served by the real filesystem.
pub proof fn lemma_closed_descriptor_absent<N>(before: Map<i32, FdPtr<N>>, fd: i32)
    ensures
        lookup(before.remove(fd), fd) == None::<FdPtr<N>>,
{
}

} // verus!
