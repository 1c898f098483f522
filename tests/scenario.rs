use sandstorm_preload::inject::{enter_bridge, ThreadRole};
use sandstorm_preload::path_router::{route_open, OpenRoute};
use sandstorm_preload::result::{extract, Errno};
use sandstorm_preload::vfs::{Fd, FdPtr, FdTable};
use sandstorm_preload::walk::{walk_plan, WalkStep};

struct Served(&'static [u8]);

impl Fd for Served {
    fn read(&self, buf: &mut [u8]) -> Result<isize, Errno> {
        let n = buf.len().min(self.0.len());
        buf[..n].copy_from_slice(&self.0[..n]);
        Ok(n as isize)
    }

    fn write(&self, _buf: &[u8]) -> Result<isize, Errno> {
        Err(Errno(libc::EBADF))
    }
}

#[test]
fn open_read_close_under_mount() {
    assert!(enter_bridge(ThreadRole::Application).is_ok());
    let names = match route_open(b"/sandstorm-magic/a/b", None) {
        OpenRoute::Virtual(n) => n,
        OpenRoute::PassThrough => panic!("path under the mount passed through"),
    };
    assert_eq!(names, vec![b"a".to_vec(), b"b".to_vec()]);
    assert_eq!(
        walk_plan(&names),
        vec![WalkStep::RequestRoot, WalkStep::Resolve(0), WalkStep::Resolve(1), WalkStep::AwaitLast]
    );
    let mut table = FdTable::new();
    let (fd, err) = table.add(FdPtr::new(Served(b"contents of b")), Ok(9));
    assert_eq!((fd, err), (9, 0));
    let node = table.get(fd).expect("the new descriptor is virtual");
    let mut buf = [0u8; 64];
    let (n, e) = extract(node.read(&mut buf), -1);
    assert_eq!((n, e), (13, None));
    assert_eq!(&buf[..13], b"contents of b");
    assert!(table.remove(fd).is_some());
    assert!(table.get(fd).is_none());
}

#[test]
fn write_failure_reports_node_error() {
    let p = FdPtr::new(Served(b""));
    assert_eq!(extract(p.write(b"x"), -1), (-1, Some(Errno(libc::EBADF))));
}
