use vstd::prelude::*;
use vstd::string::StringSliceAdditionalSpecFns;
use vstd::utf8::valid_utf8;

verus! {

/// The byte that separates path components (`/`).
pub const SEPARATOR: u8 = 47;

/// The directory, directly under the root, whose paths the remote filesystem
/// serves.
pub const MOUNT_DIR: &'static str = "sandstorm-magic";

/// The bytes of the mount directory's name.
pub open spec fn mount_dir() -> Seq<u8> {
    MOUNT_DIR.spec_bytes()
}

/// A component that survives normalisation: empty components (repeated or
/// trailing separators) and `.` vanish.
pub open spec fn is_kept(seg: Seq<u8>) -> bool {
    seg.len() > 0 && seg != seq![46u8]
}

/// The `..` component.
pub open spec fn is_parent(seg: Seq<u8>) -> bool {
    seg == seq![46u8, 46u8]
}

/// What a left-to-right reading of a path has seen: the components completed
/// so far and the component being read.
pub type ScanView = (Seq<Seq<u8>>, Seq<u8>);

/// Completes the component being read: kept components are appended.
pub open spec fn close_component(st: ScanView) -> Seq<Seq<u8>> {
    if is_kept(st.1) {
        st.0.push(st.1)
    } else {
        st.0
    }
}

/// Reads one byte: a separator completes the current component.
pub open spec fn scan_byte(st: ScanView, c: u8) -> ScanView {
    if c == SEPARATOR {
        (close_component(st), Seq::empty())
    } else {
        (st.0, st.1.push(c))
    }
}

/// Reads `p` after what `st` has seen.
pub open spec fn scan_from(st: ScanView, p: Seq<u8>) -> ScanView
    decreases p.len(),
{
    if p.len() == 0 {
        st
    } else {
        scan_byte(scan_from(st, p.drop_last()), p.last())
    }
}

/// The normalised components of a path, root excluded, in order: `a//b/./c/`
/// has `a`, `b` and `c`; `..` is kept as a component of its own.
pub open spec fn components(p: Seq<u8>) -> Seq<Seq<u8>> {
    close_component(scan_from((Seq::empty(), Seq::empty()), p))
}

pub open spec fn is_absolute_path(p: Seq<u8>) -> bool {
    p.len() > 0 && p[0] == SEPARATOR
}

/// The absolute form of `path`: itself if absolute, else joined onto the
/// working directory; none when that directory is unknown.
pub open spec fn absolute_path(path: Seq<u8>, cwd: Option<Seq<u8>>) -> Option<Seq<u8>> {
    if is_absolute_path(path) {
        Some(path)
    } else {
        match cwd {
            Some(c) => Some(c + seq![SEPARATOR] + path),
            None => None,
        }
    }
}

/// An absolute path lies under the mount when its first component is the
/// mount directory.
pub open spec fn under_mount(abs: Seq<u8>) -> bool {
    is_absolute_path(abs) && components(abs).len() > 0 && components(abs)[0] == mount_dir()
}

/// A component that a walk resolves: a name, not `..`, spelled in UTF-8.
pub open spec fn is_walked(seg: Seq<u8>) -> bool {
    !is_parent(seg) && valid_utf8(seg)
}

/// The components among `cs` that a walk resolves, in order.
pub open spec fn walked(cs: Seq<Seq<u8>>) -> Seq<Seq<u8>>
    decreases cs.len(),
{
    if cs.len() == 0 {
        Seq::empty()
    } else if is_walked(cs.last()) {
        walked(cs.drop_last()).push(cs.last())
    } else {
        walked(cs.drop_last())
    }
}

/// Where an `open` of `path` goes: `None` to the real filesystem, or the
/// names to walk from the remote root. Only UTF-8 paths whose absolute form
/// lies under the mount are redirected.
pub open spec fn open_route(path: Seq<u8>, cwd: Option<Seq<u8>>) -> Option<Seq<Seq<u8>>> {
    if !valid_utf8(path) {
        None
    } else {
        match absolute_path(path, cwd) {
            Some(abs) => if under_mount(abs) {
                Some(walked(components(abs).drop_first()))
            } else {
                None
            },
            None => None,
        }
    }
}

pub open spec fn opt_view(b: Option<&[u8]>) -> Option<Seq<u8>> {
    match b {
        Some(s) => Some(s@),
        None => None,
    }
}

pub open spec fn views(v: Seq<Vec<u8>>) -> Seq<Seq<u8>> {
    v.map_values(|s: Vec<u8>| s@)
}

/// How an intercepted `open` is served.
pub enum OpenRoute {
    /// By the real filesystem, untouched.
    PassThrough,
    /// By the remote filesystem, walking these names from its root.
    Virtual(Vec<Vec<u8>>),
}

pub open spec fn route_view(r: &OpenRoute) -> Option<Seq<Seq<u8>>> {
    match r {
        OpenRoute::PassThrough => None,
        OpenRoute::Virtual(names) => Some(views(names@)),
    }
}

/// Relies on std::str::from_utf8: it succeeds exactly on valid UTF-8.
#[verifier::external_body]
fn utf8_ok(b: &[u8]) -> (r: bool)
    ensures
        r == valid_utf8(b@),
{
    std::str::from_utf8(b).is_ok()
}

/// Reads a path left to right, gathering its normalised components.
struct Scanner {
    done: Vec<Vec<u8>>,
    cur: Vec<u8>,
}

impl Scanner {
    spec fn view(&self) -> ScanView {
        (views(self.done@), self.cur@)
    }

    fn new() -> (r: Scanner)
        ensures
            r.view() == (Seq::<Seq<u8>>::empty(), Seq::<u8>::empty()),
    {
        let r = Scanner { done: Vec::new(), cur: Vec::new() };
        assert(views(r.done@) =~= Seq::<Seq<u8>>::empty());
        r
    }

    fn close(&mut self)
        ensures
            views(final(self).done@) == close_component(old(self).view()),
            final(self).cur@ == Seq::<u8>::empty(),
    {
        let mut seg: Vec<u8> = Vec::new();
        core::mem::swap(&mut seg, &mut self.cur);
        if is_kept_exec(&seg) {
            let ghost before = self.done@;
            self.done.push(seg);
            assert(views(self.done@) =~= views(before).push(seg@));
        }
    }

    fn push_byte(&mut self, c: u8)
        ensures
            final(self).view() == scan_byte(old(self).view(), c),
    {
        if c == SEPARATOR {
            self.close();
        } else {
            self.cur.push(c);
        }
    }

    fn feed(&mut self, p: &[u8])
        ensures
            final(self).view() == scan_from(old(self).view(), p@),
    {
        let ghost start = self.view();
        let mut i: usize = 0;
        assert(p@.take(0) =~= Seq::<u8>::empty());
        while i < p.len()
            invariant
                i <= p@.len(),
                self.view() == scan_from(start, p@.take(i as int)),
            decreases p@.len() - i,
        {
            self.push_byte(p[i]);
            assert(p@.take(i + 1).drop_last() =~= p@.take(i as int));
            i = i + 1;
        }
        assert(p@.take(i as int) =~= p@);
    }

    fn finish(self) -> (r: Vec<Vec<u8>>)
        ensures
            views(r@) == close_component(self.view()),
    {
        let mut s = self;
        s.close();
        s.done
    }
}

fn is_kept_exec(seg: &Vec<u8>) -> (r: bool)
    ensures
        r == is_kept(seg@),
{
    if seg.len() == 0 {
        false
    } else if seg.len() == 1 && seg[0] == 46u8 {
        assert(seg@ =~= seq![46u8]);
        false
    } else {
        assert(seg@ != seq![46u8]) by {
            if seg@.len() == 1 {
                assert(seg@[0] != seq![46u8][0]);
            }
        }
        true
    }
}

fn is_parent_exec(seg: &Vec<u8>) -> (r: bool)
    ensures
        r == is_parent(seg@),
{
    if seg.len() == 2 && seg[0] == 46u8 && seg[1] == 46u8 {
        assert(seg@ =~= seq![46u8, 46u8]);
        true
    } else {
        assert(seg@ != seq![46u8, 46u8]) by {
            if seg@.len() == 2 {
                assert(seg@[0] != 46u8 || seg@[1] != 46u8);
            }
        }
        false
    }
}

fn bytes_equal(a: &[u8], b: &[u8]) -> (r: bool)
    ensures
        r == (a@ == b@),
{
    if a.len() != b.len() {
        return false;
    }
    let mut i: usize = 0;
    while i < a.len()
        invariant
            a@.len() == b@.len(),
            i <= a@.len(),
            forall|j: int| 0 <= j < i ==> a@[j] == b@[j],
        decreases a@.len() - i,
    {
        if a[i] != b[i] {
            return false;
        }
        i = i + 1;
    }
    assert(a@ =~= b@);
    true
}

/// Whether `path` is absolute, that is, starts at the root.
pub fn is_absolute(path: &[u8]) -> (r: bool)
    ensures
        r == is_absolute_path(path@),
{
    path.len() > 0 && path[0] == SEPARATOR
}

/// The normalised components of `path`, root excluded.
pub fn path_components(path: &[u8]) -> (r: Vec<Vec<u8>>)
    ensures
        views(r@) == components(path@),
{
    let mut sc = Scanner::new();
    sc.feed(path);
    sc.finish()
}

fn append(out: &mut Vec<u8>, p: &[u8])
    ensures
        final(out)@ == old(out)@ + p@,
{
    let mut i: usize = 0;
    while i < p.len()
        invariant
            i <= p@.len(),
            out@ == old(out)@ + p@.take(i as int),
        decreases p@.len() - i,
    {
        out.push(p[i]);
        assert(old(out)@ + p@.take(i + 1) =~= (old(out)@ + p@.take(i as int)).push(p@[i as int]));
        i = i + 1;
    }
    assert(p@.take(i as int) =~= p@);
}

/// The absolute form of `path`: itself when absolute, else `cwd` and `path`
/// joined by a separator; none when `path` is relative and the working
/// directory is unknown.
pub fn make_absolute(path: &[u8], cwd: Option<&[u8]>) -> (r: Option<Vec<u8>>)
    ensures
        match r {
            Some(v) => absolute_path(path@, opt_view(cwd)) == Some(v@),
            None => absolute_path(path@, opt_view(cwd)) is None,
        },
{
    let mut out: Vec<u8> = Vec::new();
    if is_absolute(path) {
        append(&mut out, path);
        assert(out@ =~= path@);
        Some(out)
    } else {
        match cwd {
            None => None,
            Some(c) => {
                append(&mut out, c);
                out.push(SEPARATOR);
                append(&mut out, path);
                assert(out@ =~= c@ + seq![SEPARATOR] + path@);
                Some(out)
            },
        }
    }
}

/// Decides where an intercepted `open` of `path` goes. `cwd` is the working
/// directory, when it could be determined; it is read only for a relative
/// `path`.
pub fn route_open(path: &[u8], cwd: Option<&[u8]>) -> (r: OpenRoute)
    ensures
        route_view(&r) == open_route(path@, opt_view(cwd)),
{
    if !utf8_ok(path) {
        return OpenRoute::PassThrough;
    }
    let abs = match make_absolute(path, cwd) {
        None => {
            return OpenRoute::PassThrough;
        },
        Some(abs) => abs,
    };
    let comps = path_components(abs.as_slice());
    if !is_absolute(abs.as_slice()) || comps.len() == 0 {
        return OpenRoute::PassThrough;
    }
    let first_is_mount = bytes_equal(comps[0].as_slice(), MOUNT_DIR.as_bytes());
    assert(views(comps@)[0] == comps@[0]@);
    if !first_is_mount {
        return OpenRoute::PassThrough;
    }
    let ghost cs = components(abs@);
    let mut names: Vec<Vec<u8>> = Vec::new();
    let mut i: usize = 1;
    assert(cs.drop_first().subrange(0, 0) =~= Seq::<Seq<u8>>::empty());
    assert(views(names@) =~= Seq::<Seq<u8>>::empty());
    while i < comps.len()
        invariant
            1 <= i <= comps@.len(),
            views(comps@) == cs,
            views(names@) == walked(cs.drop_first().subrange(0, i - 1)),
        decreases comps@.len() - i,
    {
        let seg = &comps[i];
        assert(cs[i as int] == seg@);
        let walk_it = !is_parent_exec(seg) && utf8_ok(seg.as_slice());
        let ghost before = names@;
        let ghost prefix = cs.drop_first().subrange(0, i as int);
        assert(prefix.drop_last() =~= cs.drop_first().subrange(0, i - 1));
        assert(prefix.last() == seg@);
        if walk_it {
            names.push(seg.clone());
            assert(views(names@) =~= views(before).push(seg@));
        }
        i = i + 1;
    }
    assert(cs.drop_first().subrange(0, i - 1) =~= cs.drop_first());
    OpenRoute::Virtual(names)
}

/// An `open` of a path whose absolute form lies outside the mount is left
/// entirely to the real filesystem.
pub proof fn lemma_outside_mount_passes_through(path: Seq<u8>, cwd: Option<Seq<u8>>)
    requires
        match absolute_path(path, cwd) {
            Some(abs) => !under_mount(abs),
            None => true,
        },
    ensures
        open_route(path, cwd) is None,
{
}

proof fn lemma_scan_keeps(st: ScanView, p: Seq<u8>)
    requires
        forall|k: int| 0 <= k < st.0.len() ==> is_kept(#[trigger] st.0[k]),
    ensures
        forall|k: int|
            0 <= k < scan_from(st, p).0.len() ==> is_kept(#[trigger] scan_from(st, p).0[k]),
    decreases p.len(),
{
    if p.len() > 0 {
        let prev = scan_from(st, p.drop_last());
        lemma_scan_keeps(st, p.drop_last());
        let next = scan_from(st, p);
        assert(next == scan_byte(prev, p.last()));
        assert forall|k: int| 0 <= k < next.0.len() implies is_kept(#[trigger] next.0[k]) by {
            if k < prev.0.len() {
                assert(next.0[k] == prev.0[k]);
            }
        }
    }
}

proof fn lemma_walked_are_walkable(cs: Seq<Seq<u8>>)
    requires
        forall|k: int| 0 <= k < cs.len() ==> is_kept(#[trigger] cs[k]),
    ensures
        forall|k: int|
            0 <= k < walked(cs).len() ==> is_kept(#[trigger] walked(cs)[k]) && is_walked(
                walked(cs)[k],
            ),
    decreases cs.len(),
{
    if cs.len() > 0 {
        let init = cs.drop_last();
        assert forall|k: int| 0 <= k < init.len() implies is_kept(#[trigger] init[k]) by {
            assert(init[k] == cs[k]);
        }
        lemma_walked_are_walkable(init);
        let w = walked(cs);
        let wi = walked(init);
        assert(is_kept(cs.last()));
        assert forall|k: int| 0 <= k < w.len() implies is_kept(#[trigger] w[k]) && is_walked(
            w[k],
        ) by {
            if k < wi.len() {
                assert(w[k] == wi[k]);
            }
        }
    }
}

/// A redirected `open` walks only names: every one is non-empty, neither
/// `.` nor `..`, and spelled in UTF-8.
pub proof fn lemma_walk_names_are_names(path: Seq<u8>, cwd: Option<Seq<u8>>)
    requires
        open_route(path, cwd) is Some,
    ensures
        forall|k: int|
            0 <= k < open_route(path, cwd).unwrap().len() ==> is_kept(
                #[trigger] open_route(path, cwd).unwrap()[k],
            ) && !is_parent(open_route(path, cwd).unwrap()[k]) && valid_utf8(
                open_route(path, cwd).unwrap()[k],
            ),
{
    let abs = absolute_path(path, cwd).unwrap();
    let empty: ScanView = (Seq::empty(), Seq::empty());
    lemma_scan_keeps(empty, abs);
    let cs = components(abs);
    let rest = cs.drop_first();
    assert forall|k: int| 0 <= k < rest.len() implies is_kept(#[trigger] rest[k]) by {
        assert(rest[k] == cs[k + 1]);
    }
    lemma_walked_are_walkable(rest);
}

} // verus!
