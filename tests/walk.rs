use sandstorm_preload::inject::{enter_bridge, in_rpc_thread, serve_descriptor_call, ReentrantInject, Served, ThreadRole};
use sandstorm_preload::path_router::{route_open, OpenRoute};
use sandstorm_preload::walk::{walk_failed, walk_plan, WalkStep};

#[test]
fn walk_of_two_names_pipelines_then_awaits_once() {
    let names = vec![b"a".to_vec(), b"b".to_vec()];
    assert_eq!(
        walk_plan(&names),
        vec![WalkStep::RequestRoot, WalkStep::Resolve(0), WalkStep::Resolve(1), WalkStep::AwaitLast]
    );
}

#[test]
fn walk_of_mount_root_never_awaits() {
    assert_eq!(walk_plan(&[]), vec![WalkStep::RequestRoot]);
}

#[test]
fn walk_issues_one_resolve_per_name() {
    let names: Vec<Vec<u8>> = (0..5).map(|i| vec![b'a' + i as u8]).collect();
    let plan = walk_plan(&names);
    let resolves = plan.iter().filter(|s| matches!(s, WalkStep::Resolve(_))).count();
    let awaits: Vec<usize> = plan
        .iter()
        .enumerate()
        .filter(|(_, s)| **s == WalkStep::AwaitLast)
        .map(|(i, _)| i)
        .collect();
    assert_eq!(resolves, 5);
    assert_eq!(awaits, vec![6]);
}

#[test]
fn missing_entry_opens_as_no_such_entry() {
    let route = route_open(b"/sandstorm-magic/missing", None);
    assert!(matches!(route, OpenRoute::Virtual(ref n) if n.len() == 1));
    assert_eq!(walk_failed(), (-1, libc::ENOENT));
}

#[test]
fn bridge_refuses_event_loop_thread() {
    assert_eq!(enter_bridge(ThreadRole::EventLoop), Err(ReentrantInject));
    assert_eq!(enter_bridge(ThreadRole::Application), Ok(()));
}

#[test]
fn event_loop_thread_is_recognised() {
    assert!(in_rpc_thread(ThreadRole::EventLoop));
    assert!(!in_rpc_thread(ThreadRole::Application));
}

#[test]
fn descriptor_calls_skip_bridge_on_event_loop_thread() {
    assert_eq!(serve_descriptor_call(ThreadRole::EventLoop), Served::Real);
    assert_eq!(serve_descriptor_call(ThreadRole::Application), Served::ThroughBridge);
}
