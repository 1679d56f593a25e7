use qgateway::client::Client;
use qgateway::message::{DEFAULT_TTL_MS, MSG};
use qgateway::queue::Queue;
use qgateway::registry::{Membership, Registry};
use qgateway::BrokerError;

fn client(host: &str, port: u64) -> Client {
    Client::new(String::from(host), port)
}

fn name(s: &str) -> String {
    String::from(s)
}

#[test]
fn client_identity_is_host_and_port() {
    let a = client("127.0.0.1", 80);
    assert_eq!(a.host(), "127.0.0.1");
    assert_eq!(a.port(), 80);
    assert!(a.same(&client("127.0.0.1", 80)));
    assert!(!a.same(&client("127.0.0.1", 81)));
    assert!(!a.same(&client("127.0.0.2", 80)));
    assert!(a == a.duplicate());
}

#[test]
fn creator_is_publisher_and_not_subscriber() {
    let c = client("10.0.0.1", 5000);
    let q = Queue::new(name("orders"), c.clone());
    assert_eq!(q.name(), "orders");
    assert_eq!(q.publishers(), &vec![c.clone()]);
    assert!(q.subscribers().is_empty());
    assert!(q.messages().is_empty());
}

#[test]
fn second_create_conflicts_and_leaves_queue_unchanged() {
    let mut reg = Registry::new();
    let c = client("10.0.0.1", 5000);
    let d = client("10.0.0.2", 6000);
    let first = reg.new_queue(c.clone(), name("orders")).unwrap();
    assert_eq!(first.publishers(), &vec![c.clone()]);
    reg.sub(c.clone(), &name("orders")).unwrap();
    let again = reg.new_queue(d.clone(), name("orders"));
    assert_eq!(again.err(), Some(BrokerError::Conflict));
    let q = reg.lookup(&name("orders")).unwrap();
    assert_eq!(q.publishers(), &vec![c.clone()]);
    assert_eq!(q.subscribers(), &vec![c.clone()]);
    assert_eq!(reg.full_map().len(), 1);
}

#[test]
fn subscribe_twice_conflicts() {
    let c = client("10.0.0.1", 5000);
    let mut q = Queue::new(name("orders"), c.clone());
    assert_eq!(q.sub(c.clone()), Ok(vec![c.clone()]));
    assert_eq!(q.sub(c.clone()), Err(BrokerError::Conflict));
    assert_eq!(q.subscribers(), &vec![c.clone()]);
}

#[test]
fn unsubscribe_removes_only_that_client() {
    let a = client("a", 1);
    let b = client("b", 2);
    let c = client("c", 3);
    let mut q = Queue::new(name("q"), a.clone());
    q.sub(a.clone()).unwrap();
    q.sub(b.clone()).unwrap();
    q.sub(c.clone()).unwrap();
    assert_eq!(q.unsub(b.clone()), Ok(vec![a.clone(), c.clone()]));
    assert_eq!(q.unsub(b.clone()), Err(BrokerError::NotSubscribed));
    assert_eq!(q.subscribers(), &vec![a.clone(), c.clone()]);
}

#[test]
fn publisher_membership_rules() {
    let a = client("a", 1);
    let b = client("b", 2);
    let mut q = Queue::new(name("q"), a.clone());
    assert_eq!(q.add_publisher(a.clone()), Err(BrokerError::Conflict));
    assert_eq!(q.add_publisher(b.clone()), Ok(vec![a.clone(), b.clone()]));
    assert_eq!(q.remove_publisher(a.clone()), Ok(vec![b.clone()]));
    assert_eq!(q.remove_publisher(a.clone()), Err(BrokerError::NotPublisher));
    assert_eq!(q.remove_publisher(b.clone()), Ok(vec![]));
    assert!(q.publishers().is_empty());
    assert_eq!(q.push_at(name("x"), b.clone(), None, None, 0).err(), Some(BrokerError::NotPublisher));
}

#[test]
fn push_by_non_publisher_fails() {
    let a = client("a", 1);
    let c = client("c", 3);
    let mut q = Queue::new(name("orders"), a.clone());
    let r = q.push(name("hello"), c.clone(), None, None);
    assert_eq!(r.err(), Some(BrokerError::NotPublisher));
    assert_eq!(q.messages().len(), 0);
}

#[test]
fn push_appends_one_message_with_snapshot_of_subscribers() {
    let c = client("c", 3);
    let s1 = client("s", 1);
    let s2 = client("s", 2);
    let mut q = Queue::new(name("orders"), c.clone());
    q.sub(s1.clone()).unwrap();
    let m = q.push_at(name("hello"), c.clone(), Some(2000), Some(5), 1_000).unwrap();
    assert_eq!(q.messages().len(), 1);
    assert_eq!(m.data(), "hello");
    assert!(m.sender() == &c);
    assert_eq!(m.recipients(), &vec![s1.clone()]);
    assert_eq!(m.priority(), 5);
    assert!(m.active());
    assert_eq!(m.created(), 1_000);
    assert_eq!(m.expiry(), 3_000);
    q.sub(s2.clone()).unwrap();
    q.unsub(s1.clone()).unwrap();
    let kept = &q.messages()[0];
    assert_eq!(kept.recipients(), &vec![s1.clone()]);
    assert_eq!(kept.data(), "hello");
}

#[test]
fn push_defaults_lifetime_and_priority() {
    let c = client("c", 3);
    let mut q = Queue::new(name("orders"), c.clone());
    let m = q.push_at(name("hi"), c.clone(), None, None, 500).unwrap();
    assert_eq!(m.priority(), 0);
    assert_eq!(m.expiry(), 500 + DEFAULT_TTL_MS as i64);
    assert_eq!(DEFAULT_TTL_MS, 6000);
}

#[test]
fn expiry_saturates_at_largest_time() {
    let c = client("c", 3);
    let mut q = Queue::new(name("orders"), c.clone());
    let m = q.push_at(name("hi"), c.clone(), Some(u64::MAX), None, i64::MAX - 10).unwrap();
    assert_eq!(m.expiry(), i64::MAX);
    let n = q.push_at(name("hi"), c.clone(), Some(20), None, -100).unwrap();
    assert_eq!(n.expiry(), -80);
}

#[test]
fn push_stamps_the_current_time() {
    let c = client("c", 3);
    let mut q = Queue::new(name("orders"), c.clone());
    let m = q.push(name("now"), c.clone(), Some(1000), None).unwrap();
    // 2020-01-01 in milliseconds since the Unix epoch.
    assert!(m.created() > 1_577_836_800_000);
    assert_eq!(m.expiry(), m.created() + 1000);
}

#[test]
fn message_new_keeps_fields() {
    let c = client("c", 3);
    let m = MSG::new(name("body"), c.clone(), vec![client("r", 9)], 10, Some(5), Some(7));
    assert_eq!(m.expiry(), 15);
    assert_eq!(m.priority(), 7);
    assert_eq!(m.recipients().len(), 1);
    let d = m.duplicate();
    assert_eq!(d.data(), "body");
    assert_eq!(d.created(), 10);
}

#[test]
fn two_subscribers_are_both_kept() {
    let a = client("a", 1);
    let b = client("b", 2);
    for flip in [false, true] {
        let mut reg = Registry::new();
        reg.new_queue(client("o", 1), name("q")).unwrap();
        let (first, second) = if flip { (&b, &a) } else { (&a, &b) };
        assert!(reg.sub(first.clone(), &name("q")).is_ok());
        assert!(reg.sub(second.clone(), &name("q")).is_ok());
        let q = reg.lookup(&name("q")).unwrap();
        let subs = q.subscribers();
        assert_eq!(subs.len(), 2);
        assert!(subs.contains(&a));
        assert!(subs.contains(&b));
    }
}

#[test]
fn two_creates_yield_one_queue() {
    let mut reg = Registry::new();
    let r1 = reg.new_queue(client("a", 1), name("x"));
    let r2 = reg.new_queue(client("b", 2), name("x"));
    assert!(r1.is_ok());
    assert_eq!(r2.err(), Some(BrokerError::Conflict));
    let all = reg.full_map();
    assert_eq!(all.len(), 1);
    assert_eq!(all[0].name(), "x");
    assert_eq!(all[0].publishers(), &vec![client("a", 1)]);
}

#[test]
fn registry_errors_for_unknown_queue() {
    let mut reg = Registry::new();
    let c = client("c", 1);
    assert_eq!(reg.sub(c.clone(), &name("nope")), Err(BrokerError::NotFound));
    assert_eq!(reg.unsub(c.clone(), &name("nope")), Err(BrokerError::NotFound));
    assert_eq!(reg.add_publisher(c.clone(), &name("nope")), Err(BrokerError::NotFound));
    assert_eq!(reg.unpub(c.clone(), &name("nope")), Err(BrokerError::NotFound));
    assert_eq!(
        reg.push_in_queue(c.clone(), &name("nope"), name("d"), None, None).err(),
        Some(BrokerError::NotFound)
    );
    assert!(reg.lookup(&name("nope")).is_none());
}

#[test]
fn registry_membership_and_push() {
    let mut reg = Registry::new();
    let o = client("o", 1);
    let c = client("c", 2);
    reg.new_queue(o.clone(), name("q")).unwrap();
    assert_eq!(reg.unsub(c.clone(), &name("q")), Err(BrokerError::NotSubscribed));
    assert_eq!(reg.sub(c.clone(), &name("q")), Ok(vec![c.clone()]));
    assert_eq!(
        reg.push_in_queue(c.clone(), &name("q"), name("d"), None, None).err(),
        Some(BrokerError::NotPublisher)
    );
    assert_eq!(reg.add_publisher(c.clone(), &name("q")), Ok(vec![o.clone(), c.clone()]));
    assert_eq!(reg.add_publisher(c.clone(), &name("q")), Err(BrokerError::Conflict));
    let m = reg.push_in_queue(c.clone(), &name("q"), name("d"), Some(10), Some(2)).unwrap();
    assert_eq!(m.recipients(), &vec![c.clone()]);
    assert_eq!(m.priority(), 2);
    assert_eq!(reg.unpub(o.clone(), &name("q")), Ok(vec![c.clone()]));
    assert_eq!(reg.unpub(o.clone(), &name("q")), Err(BrokerError::NotPublisher));
    assert_eq!(
        reg.change_membership(&name("q"), c.clone(), Membership::Unsubscribe),
        Ok(vec![])
    );
    let q = reg.lookup(&name("q")).unwrap();
    assert_eq!(q.messages().len(), 1);
}

#[test]
fn queue_insert_takes_a_built_queue() {
    let mut reg = Registry::new();
    let q = Queue::new(name("built"), client("a", 1));
    let copy = reg.queue_insert(q.clone()).unwrap();
    assert_eq!(copy.name(), "built");
    assert_eq!(reg.queue_insert(q).err(), Some(BrokerError::Conflict));
}

#[test]
fn client_log_lists_everything_once() {
    let mut reg = Registry::new();
    let c = client("c", 1);
    let d = client("d", 2);
    reg.new_queue(c.clone(), name("q1")).unwrap();
    reg.new_queue(d.clone(), name("q2")).unwrap();
    reg.new_queue(d.clone(), name("q3")).unwrap();
    reg.add_publisher(c.clone(), &name("q3")).unwrap();
    reg.sub(c.clone(), &name("q2")).unwrap();
    reg.push_in_queue(c.clone(), &name("q1"), name("m1"), None, None).unwrap();
    reg.push_in_queue(d.clone(), &name("q2"), name("other"), None, None).unwrap();
    reg.push_in_queue(c.clone(), &name("q3"), name("m2"), None, None).unwrap();
    reg.push_in_queue(c.clone(), &name("q1"), name("m3"), None, None).unwrap();
    let log = reg.get_user_log(&c);
    assert_eq!(log.publisher, vec![name("q1"), name("q3")]);
    assert_eq!(log.subscriber, vec![name("q2")]);
    let sent: Vec<&str> = log.messages.iter().map(|m| m.data().as_str()).collect();
    assert_eq!(sent, vec!["m1", "m3", "m2"]);

    let queues = reg.full_map();
    assert_eq!(Client::get_queue_where_client_publisher(&d, &queues), vec![name("q2"), name("q3")]);
    assert!(Client::get_queue_where_client_subscriber(&d, &queues).is_empty());
    assert_eq!(Client::get_client_messsages(&d, &queues).len(), 1);
    let mine = Client::get_my_data(&c, &queues);
    assert_eq!(mine.messages.len(), 3);
}

#[test]
fn snapshot_is_decoupled() {
    let c = client("c", 1);
    let mut q = Queue::new(name("q"), c.clone());
    let snap = q.snapshot();
    q.sub(c.clone()).unwrap();
    assert!(snap.subscribers().is_empty());
    assert_eq!(q.subscribers().len(), 1);
}

#[test]
fn full_map_lists_queues_in_creation_order() {
    let mut reg = Registry::new();
    assert!(reg.full_map().is_empty());
    reg.new_queue(client("a", 1), name("b")).unwrap();
    reg.new_queue(client("a", 1), name("a")).unwrap();
    reg.new_queue(client("a", 1), name("c")).unwrap();
    let names: Vec<String> = reg.full_map().iter().map(|q| q.name().clone()).collect();
    assert_eq!(names, vec![name("b"), name("a"), name("c")]);
    assert!(reg.lookup(&name("a")).is_some());
    assert!(reg.lookup(&name("d")).is_none());
}

#[test]
fn two_pushes_both_land() {
    let mut reg = Registry::new();
    let p1 = client("p", 1);
    let p2 = client("p", 2);
    reg.new_queue(p1.clone(), name("q")).unwrap();
    reg.add_publisher(p2.clone(), &name("q")).unwrap();
    reg.push_in_queue(p1.clone(), &name("q"), name("a"), None, None).unwrap();
    reg.push_in_queue(p2.clone(), &name("q"), name("b"), None, None).unwrap();
    let q = reg.lookup(&name("q")).unwrap();
    let log: Vec<&str> = q.messages().iter().map(|m| m.data().as_str()).collect();
    assert_eq!(log, vec!["a", "b"]);
    assert!(q.messages()[1].sender() == &p2);
}
