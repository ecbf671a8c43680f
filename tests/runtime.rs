use busan::address::ActorAddress;
use busan::cell::{is_shutdown, next_ack_nonce, set_shutdown};
use busan::config::{ActorSystemConfig, ExecutorConfig, ExecutorType};
use busan::error::BusanError;
use busan::executor::CellTable;
use busan::manager::RuntimeManager;
use busan::message::{ack, PoisonPill};
use busan::uri::{Scheme, Uri};

fn names(v: &[String]) -> Vec<&str> {
    v.iter().map(|s| s.as_str()).collect()
}

fn manager_with(n: usize) -> RuntimeManager<u32> {
    let mut m = RuntimeManager::new();
    for i in 0..n {
        m.add_executor(format!("executor-{}", i));
    }
    m
}

fn root() -> Uri {
    Uri::new(Scheme::Local, &["root"])
}

#[test]
fn config_validation() {
    let ok = ExecutorConfig { num_executors: 2, executor_type: ExecutorType::Thread };
    assert!(ok.validate().is_ok());
    let bad = ActorSystemConfig {
        executor_config: ExecutorConfig { num_executors: 0, executor_type: ExecutorType::Thread },
    };
    assert_eq!(bad.validate(), Err("num_executors must be greater than 0".to_string()));
    let d = ActorSystemConfig::default();
    assert!(d.executor_config.num_executors >= 1);
    assert!(d.validate().is_ok());
}

#[test]
fn cell_state_bits() {
    let mut s: u8 = 0;
    assert!(!is_shutdown(s));
    set_shutdown(&mut s);
    assert!(is_shutdown(s));
    set_shutdown(&mut s);
    assert_eq!(s, 1);
    let mut t: u8 = 0b100;
    set_shutdown(&mut t);
    assert_eq!(t, 0b101);
}

#[test]
fn ack_nonces_count_up() {
    let mut c: u32 = 0;
    assert_eq!(next_ack_nonce(&mut c), 1);
    assert_eq!(next_ack_nonce(&mut c), 2);
    assert_eq!(c, 2);
    assert_eq!(ack(9).nonce, 9);
    let _ = PoisonPill {};
}

#[test]
fn round_robin_placement_wraps() {
    let mut m = manager_with(3);
    let mut placed = Vec::new();
    for i in 0..7u32 {
        let uri = root().new_child(&format!("w-{}", i));
        placed.push(m.assign_actor(uri, i).unwrap());
    }
    assert_eq!(
        names(&placed),
        vec![
            "executor-0", "executor-1", "executor-2", "executor-0", "executor-1", "executor-2",
            "executor-0"
        ]
    );
}

#[test]
fn assignment_without_executors_fails() {
    let mut m: RuntimeManager<u32> = RuntimeManager::new();
    match m.assign_actor(root(), 1) {
        Err(BusanError::UnassignableActor(msg)) => assert_eq!(msg, "no executors available"),
        Ok(_) => panic!("no executor can take the actor"),
    }
}

#[test]
fn resolve_hits_and_dead_letters() {
    let mut m = manager_with(2);
    m.assign_actor(root(), 11).unwrap();
    assert_eq!(m.resolve(&root()), Some(&11));
    // Two resolvers of one address see the same mailbox.
    assert_eq!(m.resolve(&root()), Some(&11));
    let ghost = root().new_child("nobody-0");
    assert_eq!(m.resolve(&ghost), None);
}

#[test]
fn duplicate_executor_names_are_kept_once() {
    let mut m: RuntimeManager<u32> = RuntimeManager::new();
    m.add_executor("e".to_string());
    m.add_executor("e".to_string());
    assert_eq!(m.executors.len(), 1);
}

#[test]
fn shutdown_fans_out_once() {
    let mut m = manager_with(2);
    assert_eq!(names(&m.shutdown_system()), vec!["executor-0", "executor-1"]);
    assert!(m.shutdown_system().is_empty());
    assert!(!m.executor_shutdown(&"executor-0".to_string()));
    assert!(!m.executor_shutdown(&"nope".to_string()));
    assert!(m.executor_shutdown(&"executor-1".to_string()));
}

#[test]
fn leaf_shutdown_completes_and_idles() {
    let mut m = manager_with(1);
    let addr = ActorAddress::<u32>::new_root("root");
    m.assign_actor(addr.uri(), 1).unwrap();
    let step = m.actor_shutdown_notice(addr, None, Vec::new());
    assert!(step.forward.is_empty());
    let c = step.completion.expect("a leaf completes at once");
    assert_eq!(c.executor, "executor-0");
    assert_eq!(c.address.uri.to_string(), "local://root");
    assert!(c.notify_parent.is_none());
    assert!(c.system_idle);
    assert_eq!(m.resolve(&root()), None);
}

#[test]
fn cascading_shutdown_waits_for_children() {
    let mut m = manager_with(2);
    let parent = ActorAddress::<u32>::new_root("root");
    let c0 = ActorAddress::new_child(&parent, "c", 0);
    let c1 = ActorAddress::new_child(&parent, "c", 1);
    m.assign_actor(parent.uri(), 1).unwrap();
    m.assign_actor(c0.uri(), 2).unwrap();
    m.assign_actor(c1.uri(), 3).unwrap();

    let step = m.actor_shutdown_notice(
        ActorAddress::new_root("root"),
        None,
        vec![ActorAddress::new_child(&parent, "c", 0), ActorAddress::new_child(&parent, "c", 1)],
    );
    assert!(step.completion.is_none());
    let fw: Vec<(String, String)> =
        step.forward.iter().map(|(u, e)| (u.to_string(), e.clone())).collect();
    assert_eq!(
        fw,
        vec![
            ("local://root/c-0".to_string(), "executor-1".to_string()),
            ("local://root/c-1".to_string(), "executor-0".to_string()),
        ]
    );

    // First child stops.
    let s0 = m.actor_shutdown_notice(ActorAddress::new_child(&parent, "c", 0), Some(ActorAddress::new_root("root")), Vec::new());
    let done0 = s0.completion.unwrap();
    assert_eq!(done0.executor, "executor-1");
    assert!(!done0.system_idle);
    let first_parent = done0.notify_parent.unwrap();
    assert!(m.child_shutdown_notice(first_parent).is_none());

    // Second child stops; the parent completes after it.
    let s1 = m.actor_shutdown_notice(ActorAddress::new_child(&parent, "c", 1), Some(ActorAddress::new_root("root")), Vec::new());
    let done1 = s1.completion.unwrap();
    assert!(!done1.system_idle);
    let fin = m.child_shutdown_notice(done1.notify_parent.unwrap()).expect("parent completes");
    assert_eq!(fin.executor, "executor-0");
    assert_eq!(fin.address.uri.to_string(), "local://root");
    assert!(fin.notify_parent.is_none());
    assert!(fin.system_idle);

    // A stray notice changes nothing.
    assert!(m.child_shutdown_notice(ActorAddress::new_root("root")).is_none());
    let again = m.actor_shutdown_notice(ActorAddress::new_root("root"), None, Vec::new());
    assert!(again.completion.is_none() && again.forward.is_empty());
}

#[test]
fn cell_table_rejects_nothing_but_reports_duplicates() {
    let mut t: CellTable<&str> = CellTable::new();
    let a = root().new_child("w-0");
    assert!(!t.contains(&a));
    t.assign(a.duplicate(), "first");
    // A second spawn of "w" with index 0 would collide: the executor sees it.
    assert!(t.contains(&root().new_child("w-0")));
    t.assign(root().new_child("w-1"), "second");
    t.assign(root(), "third");
    let i = t.index_of(&root().new_child("w-1")).unwrap();
    t.mark_shutdown(i);
    assert!(is_shutdown(t.slots[i].state));
    assert_eq!(t.sweep_order(), vec![0, 2]);
    assert_eq!(t.remove(&a), Some("first"));
    assert_eq!(t.remove(&a), None);
    assert_eq!(t.sweep_order(), vec![1]);
}
