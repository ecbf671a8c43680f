use busan::address::{spawn_child_address, ActorAddress};
use busan::envelope::{ack_for, sender_address, Envelope, SenderKind};

#[test]
fn test_address_parent_detection() {
    let root = ActorAddress::<()>::new_root("root");
    let child = ActorAddress::new_child(&root, "child", 0);

    // Assert that "root" is the parent of child
    assert_eq!(child.is_parent(&root), true);
    assert_eq!(root.is_parent(&child), false);

    // Assert that neither "root" or "child" are the parents of themselves
    assert_eq!(root.is_parent(&root), false);
    assert_eq!(child.is_parent(&child), false);
}

#[test]
fn child_segments_carry_name_and_index() {
    let root = ActorAddress::<()>::new_root("root");
    let w0 = ActorAddress::new_child(&root, "w", 0);
    let w10 = ActorAddress::new_child(&root, "w", 10);
    let big = ActorAddress::new_child(&root, "w", 1234567);
    assert_eq!(w0.uri().to_string(), "local://root/w-0");
    assert_eq!(w10.uri().to_string(), "local://root/w-10");
    assert_eq!(big.uri().to_string(), "local://root/w-1234567");
    let grand = ActorAddress::new_child(&w10, "leaf", 3);
    assert_eq!(grand.uri.to_string(), "local://root/w-10/leaf-3");
}

#[test]
fn distinct_names_or_indices_give_distinct_uris() {
    let root = ActorAddress::<()>::new_root("root");
    let a = ActorAddress::new_child(&root, "a-1", 0);
    let b = ActorAddress::new_child(&root, "a", 10);
    let c = ActorAddress::new_child(&root, "a", 1);
    assert!(!(a.uri == b.uri));
    assert!(!(b.uri == c.uri));
    assert!(!(a.uri == c.uri));
    let again = ActorAddress::new_child(&root, "a", 1);
    assert!(again.uri == c.uri);
}

#[test]
fn resolution_slot() {
    let mut a = ActorAddress::<u32>::new_root("root");
    assert!(!a.is_resolved());
    a.set_mailbox(7);
    assert!(a.is_resolved());
    assert_eq!(a.mailbox, Some(7));
}

fn kind_name<M>(k: &SenderKind<M>) -> &'static str {
    match k {
        SenderKind::Actor(_) => "actor",
        SenderKind::System => "system",
        SenderKind::Parent => "parent",
        SenderKind::SentToSelf => "self",
    }
}

#[test]
fn envelope_sender_classification() {
    let root = ActorAddress::<()>::new_root("root");
    let child = ActorAddress::new_child(&root, "c", 0);
    let sibling = ActorAddress::new_child(&root, "c", 1);

    let e = Envelope::new(None, &child, "x", None);
    assert_eq!(kind_name(&e.sender), "system");

    let e = Envelope::new(Some(ActorAddress::new_child(&root, "c", 0)), &child, "x", None);
    assert_eq!(kind_name(&e.sender), "self");

    let e = Envelope::new(Some(ActorAddress::new_root("root")), &child, "x", Some(3));
    assert_eq!(kind_name(&e.sender), "parent");
    assert_eq!(e.ack_nonce, Some(3));
    assert_eq!(e.payload, "x");

    // A child writing to its parent travels with its address.
    let e = Envelope::new(Some(ActorAddress::new_child(&root, "c", 0)), &root, "x", None);
    match &e.sender {
        SenderKind::Actor(a) => assert_eq!(a.uri.to_string(), "local://root/c-0"),
        _ => panic!("expected an actor sender"),
    }

    let e = Envelope::new(Some(sibling), &child, "x", None);
    match &e.sender {
        SenderKind::Actor(a) => assert_eq!(a.uri.to_string(), "local://root/c-1"),
        _ => panic!("expected an actor sender"),
    }
}

#[test]
fn ack_goes_to_the_sender() {
    let root = ActorAddress::<()>::new_root("root");
    let me = ActorAddress::new_child(&root, "me", 0);
    let parent = Some(ActorAddress::new_root("root"));
    let peer = ActorAddress::new_child(&root, "peer", 1);

    let e = Envelope::new(Some(peer), &me, 1u8, Some(5));
    let (to, n) = ack_for(&e, &parent, &me).unwrap();
    assert_eq!(n, 5);
    assert_eq!(to.uri.to_string(), "local://root/peer-1");

    let e = Envelope::new(Some(ActorAddress::new_root("root")), &me, 1u8, Some(6));
    let (to, n) = ack_for(&e, &parent, &me).unwrap();
    assert_eq!(n, 6);
    assert_eq!(to.uri.to_string(), "local://root");

    let e = Envelope::new(Some(ActorAddress::new_child(&root, "me", 0)), &me, 1u8, Some(7));
    let (to, n) = ack_for(&e, &parent, &me).unwrap();
    assert_eq!(n, 7);
    assert_eq!(to.uri.to_string(), "local://root/me-0");

    let e = Envelope::new(None, &me, 1u8, Some(8));
    assert!(ack_for(&e, &parent, &me).is_none());

    let e = Envelope::new(Some(ActorAddress::new_root("root")), &me, 1u8, None);
    assert!(ack_for(&e, &parent, &me).is_none());
    assert_eq!(sender_address(&e.sender, &parent, &me).unwrap().uri.to_string(), "local://root");
    assert!(sender_address(&SenderKind::Parent, &None, &me).is_none());
}

#[test]
fn spawned_children_take_successive_indices() {
    let root = ActorAddress::<()>::new_root("root");
    let mut children = Vec::new();
    let a = spawn_child_address(&root, &mut children, "w");
    let b = spawn_child_address(&root, &mut children, "w");
    let c = spawn_child_address(&root, &mut children, "x");
    assert_eq!(a.uri.to_string(), "local://root/w-0");
    assert_eq!(b.uri.to_string(), "local://root/w-1");
    assert_eq!(c.uri.to_string(), "local://root/x-2");
    let recorded: Vec<String> = children.iter().map(|a| a.uri.to_string()).collect();
    assert_eq!(recorded, vec!["local://root/w-0", "local://root/w-1", "local://root/x-2"]);
}
