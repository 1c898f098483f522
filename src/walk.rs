use vstd::prelude::*;

verus! {

/// One step of the walk that turns a path's names into a node capability.
#[derive(Clone, Copy, Debug, PartialEq, Eq, Structural)]
pub enum WalkStep {
    /// Ask the bootstrap capability for the root directory; its promised
    /// result becomes the current node.
    RequestRoot,
    /// Ask the current node, as a directory, for its child named by the
    /// name at this index, without waiting for the current node to arrive;
    /// the promised child becomes the current node.
    Resolve(usize),
    /// Wait for the reply to the last resolve: its outcome is the walk's.
    AwaitLast,
}

/// The steps of a walk over `n` names: the root request, one pipelined
/// resolve per name in order, and a single wait at the end when anything
/// was resolved. With no names the root itself is the node, unawaited.
pub open spec fn walk_steps(n: nat) -> Seq<WalkStep> {
    seq![WalkStep::RequestRoot] + Seq::new(n, |i: int| WalkStep::Resolve(i as usize)) + if n > 0 {
        seq![WalkStep::AwaitLast]
    } else {
        Seq::<WalkStep>::empty()
    }
}

/// The "no such file or directory" error code.
pub open spec fn no_entry_code() -> i32 {
    2
}

/// Relies on libc::ENOENT, which libc defines as 2 on Linux.
#[verifier::external_body]
fn no_such_entry() -> (r: i32)
    ensures
        r == no_entry_code(),
{
    libc::ENOENT
}

/// The result of an `open` whose walk failed, remotely or in transport: -1
/// with the "no such entry" code; remote causes are not told apart.
pub fn walk_failed() -> (r: (i32, i32))
    ensures
        r == (-1i32, no_entry_code()),
{
    (-1, no_such_entry())
}

/// How many steps of `s` are remote resolve calls.
pub open spec fn resolve_count(s: Seq<WalkStep>) -> nat
    decreases s.len(),
{
    if s.len() == 0 {
        0
    } else {
        resolve_count(s.drop_last()) + if s.last() is Resolve {
            1nat
        } else {
            0nat
        }
    }
}

/// How many steps of `s` wait for a reply.
pub open spec fn await_count(s: Seq<WalkStep>) -> nat
    decreases s.len(),
{
    if s.len() == 0 {
        0
    } else {
        await_count(s.drop_last()) + if s.last() is AwaitLast {
            1nat
        } else {
            0nat
        }
    }
}

/// The steps of the walk over `names`, in the order they are issued.
pub fn walk_plan(names: &[Vec<u8>]) -> (r: Vec<WalkStep>)
    ensures
        r@ == walk_steps(names@.len()),
{
    let n = names.len();
    let mut steps: Vec<WalkStep> = Vec::new();
    steps.push(WalkStep::RequestRoot);
    let mut i: usize = 0;
    while i < n
        invariant
            n == names@.len(),
            i <= n,
            steps@ == seq![WalkStep::RequestRoot] + Seq::new(i as nat, |k: int| WalkStep::Resolve(k as usize)),
        decreases n - i,
    {
        steps.push(WalkStep::Resolve(i));
        proof {
            assert(Seq::new((i + 1) as nat, |k: int| WalkStep::Resolve(k as usize))
                =~= Seq::new(i as nat, |k: int| WalkStep::Resolve(k as usize)).push(WalkStep::Resolve(i)));
        }
        assert(steps@ =~= seq![WalkStep::RequestRoot] + Seq::new((i + 1) as nat, |k: int| WalkStep::Resolve(k as usize)));
        i = i + 1;
    }
    if n > 0 {
        steps.push(WalkStep::AwaitLast);
    }
    assert(steps@ =~= walk_steps(n as nat));
    steps
}

proof fn lemma_counts_concat(a: Seq<WalkStep>, b: Seq<WalkStep>)
    ensures
        resolve_count(a + b) == resolve_count(a) + resolve_count(b),
        await_count(a + b) == await_count(a) + await_count(b),
    decreases b.len(),
{
    if b.len() == 0 {
        assert(a + b =~= a);
    } else {
        assert((a + b).drop_last() =~= a + b.drop_last());
        lemma_counts_concat(a, b.drop_last());
    }
}

proof fn lemma_counts_resolves(n: nat)
    ensures
        resolve_count(Seq::new(n, |i: int| WalkStep::Resolve(i as usize))) == n,
        await_count(Seq::new(n, |i: int| WalkStep::Resolve(i as usize))) == 0,
    decreases n,
{
    if n > 0 {
        let m = (n - 1) as nat;
        assert(Seq::new(n, |i: int| WalkStep::Resolve(i as usize)).drop_last()
            =~= Seq::new(m, |i: int| WalkStep::Resolve(i as usize)));
        lemma_counts_resolves(m);
    }
}

/// A walk over `n` names issues exactly `n` resolve calls, and waits exactly
/// once, after the last of them, when `n` is not zero (never when it is).
pub proof fn lemma_walk_is_pipelined(n: nat)
    ensures
        resolve_count(walk_steps(n)) == n,
        await_count(walk_steps(n)) == if n > 0 {
            1nat
        } else {
            0nat
        },
        forall|i: int|
            0 <= i < walk_steps(n).len() && #[trigger] walk_steps(n)[i] is AwaitLast ==> i
                == walk_steps(n).len() - 1 && i == n + 1,
{
    let head = seq![WalkStep::RequestRoot];
    let mid = Seq::new(n, |i: int| WalkStep::Resolve(i as usize));
    let tail = if n > 0 {
        seq![WalkStep::AwaitLast]
    } else {
        Seq::<WalkStep>::empty()
    };
    lemma_counts_resolves(n);
    lemma_counts_concat(head, mid);
    lemma_counts_concat(head + mid, tail);
    assert(head.drop_last() =~= Seq::<WalkStep>::empty());
    assert(head.last() == WalkStep::RequestRoot);
    assert(resolve_count(Seq::<WalkStep>::empty()) == 0);
    assert(await_count(Seq::<WalkStep>::empty()) == 0);
    assert(resolve_count(head) == 0);
    assert(await_count(head) == 0);
    if n > 0 {
        assert(tail.drop_last() =~= Seq::<WalkStep>::empty());
        assert(tail.last() == WalkStep::AwaitLast);
    }
    assert(resolve_count(tail) == 0);
}

} // verus!
