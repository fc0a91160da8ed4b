use live_server_lsp::heartbeat::Heartbeat;
use live_server_lsp::fanout::Broadcaster;
use live_server_lsp::protocol::Server;
use live_server_lsp::registry::{failed_entries, ChangeEvent, Entry, Registry, RegistryOp};

fn entry(name: &str, url: &str) -> Entry {
    Entry::new(name.to_string(), url.to_string())
}

fn pairs(r: &Registry) -> Vec<(String, String)> {
    r.list_ports()
}

#[test]
fn add_is_idempotent() {
    let mut r = Registry::new();
    assert!(r.add(entry("a", "http://127.0.0.1:4001/")));
    assert!(!r.add(entry("a", "http://127.0.0.1:4001/")));
    assert!(r.add(entry("a", "http://127.0.0.1:4002/")));
    assert_eq!(r.snapshot().len(), 2);
}

#[test]
fn remove_returns_removed_entries_in_order() {
    let mut r = Registry::new();
    r.add(entry("a", "u1"));
    r.add(entry("b", "u2"));
    r.add(entry("c", "u3"));
    let gone = r.remove(&vec![entry("c", "u3"), entry("a", "u1"), entry("z", "u9")]);
    let names: Vec<String> = gone.iter().map(|e| e.name.clone()).collect();
    assert_eq!(names, vec!["a".to_string(), "c".to_string()]);
    assert_eq!(pairs(&r), vec![("b".to_string(), "u2".to_string())]);
}

#[test]
fn replayed_operations_leave_exact_table() {
    let mut r = Registry::new();
    let ops = vec![
        RegistryOp::Add(entry("a", "u1")),
        RegistryOp::Add(entry("b", "u2")),
        RegistryOp::Add(entry("a", "u1")),
        RegistryOp::Remove(vec![entry("a", "u1")]),
        RegistryOp::Add(entry("c", "u3")),
        RegistryOp::Add(entry("a", "u1")),
        RegistryOp::Remove(vec![entry("b", "u2"), entry("q", "u0")]),
    ];
    for op in &ops {
        r.apply(op);
    }
    assert_eq!(
        pairs(&r),
        vec![("c".to_string(), "u3".to_string()), ("a".to_string(), "u1".to_string())]
    );
}

#[test]
fn heartbeat_evicts_exactly_the_unreachable() {
    let mut r = Registry::new();
    r.add(entry("A", "http://127.0.0.1:4001/"));
    r.add(entry("B", "http://127.0.0.1:4002/"));
    let snapshot = r.snapshot();
    // Added after the snapshot, under the same name as the failing entry.
    r.add(entry("B", "http://127.0.0.1:4003/"));
    let events = r.evict_unreachable(&snapshot, &vec![true, false]);
    assert_eq!(events.len(), 1);
    assert!(!events[0].added);
    assert_eq!(events[0].name, "B");
    assert_eq!(events[0].url, "http://127.0.0.1:4002/");
    assert_eq!(
        pairs(&r),
        vec![
            ("A".to_string(), "http://127.0.0.1:4001/".to_string()),
            ("B".to_string(), "http://127.0.0.1:4003/".to_string()),
        ]
    );
}

#[test]
fn failed_entries_pick_false_outcomes() {
    let snap = vec![entry("a", "u1"), entry("b", "u2"), entry("c", "u3")];
    let dead = failed_entries(&snap, &vec![false, true, false]);
    let names: Vec<String> = dead.iter().map(|e| e.name.clone()).collect();
    assert_eq!(names, vec!["a".to_string(), "c".to_string()]);
}

#[test]
fn failed_probe_declines_registration() {
    let mut r = Registry::new();
    let ev = r.accept_registration("x".to_string(), "http://127.0.0.1:4001/".to_string(), false);
    assert!(ev.is_none());
    assert!(r.snapshot().is_empty());
}

#[test]
fn event_json_text() {
    let ev = ChangeEvent { added: false, name: "B".to_string(), url: "http://h:1/".to_string() };
    assert_eq!(ev.to_json(), r#"{"added":false,"name":"B","url":"http://h:1/"}"#);
    let quoted = ChangeEvent { added: true, name: "a\"b".to_string(), url: "u".to_string() };
    assert_eq!(quoted.to_json(), r#"{"added":true,"name":"a\"b","url":"u"}"#);
}

#[test]
fn demo_instance_registers_and_is_evicted() {
    let mut registry = Registry::new();
    let mut hub = Broadcaster::new(10);
    let dashboard = hub.subscribe();

    let request = Server { name: "demo".to_string(), server: None, port: 4001 };
    let url = request.candidate_url().unwrap();
    assert_eq!(url, "http://127.0.0.1:4001/");
    let added = registry.accept_registration(request.name.clone(), url, true).unwrap();
    hub.publish(&added);
    let got = hub.receive(dashboard).unwrap();
    assert_eq!(got.to_json(), r#"{"added":true,"name":"demo","url":"http://127.0.0.1:4001/"}"#);

    let snapshot = registry.snapshot();
    for ev in registry.evict_unreachable(&snapshot, &vec![false]) {
        hub.publish(&ev);
    }
    let got = hub.receive(dashboard).unwrap();
    assert!(!got.added);
    assert_eq!(got.name, "demo");
    assert!(registry.list_ports().iter().all(|(n, _)| n != "demo"));
    assert!(hub.receive(dashboard).is_none());
}

#[test]
fn silent_subscriber_keeps_latest_window() {
    let mut hub = Broadcaster::new(10);
    let quiet = hub.subscribe();
    for i in 0..25 {
        hub.publish(&ChangeEvent { added: true, name: format!("n{}", i), url: "u".to_string() });
    }
    let mut names = vec![];
    while let Some(ev) = hub.receive(quiet) {
        names.push(ev.name);
    }
    let expected: Vec<String> = (15..25).map(|i| format!("n{}", i)).collect();
    assert_eq!(names, expected);
}

#[test]
fn closed_subscriber_receives_nothing() {
    let mut hub = Broadcaster::new(2);
    let a = hub.subscribe();
    let b = hub.subscribe();
    hub.unsubscribe(a);
    hub.publish(&ChangeEvent { added: true, name: "x".to_string(), url: "u".to_string() });
    assert!(hub.receive(a).is_none());
    assert_eq!(hub.receive(b).unwrap().name, "x");
    assert!(hub.receive(7).is_none());
}

#[test]
fn heartbeat_cycle_evicts_and_sleeps() {
    let mut r = Registry::new();
    r.add(entry("A", "http://127.0.0.1:4001/"));
    r.add(entry("B", "http://127.0.0.1:4002/"));
    let mut monitor = Heartbeat::new();
    assert!(!monitor.is_probing());
    assert!(monitor.targets().is_none());
    monitor.tick(&r);
    assert_eq!(monitor.targets().unwrap().len(), 2);
    assert_eq!(monitor.targets().unwrap()[1].name, "B");
    assert!(monitor.is_probing());
    let events = monitor.probed(&mut r, &vec![true, false]);
    assert!(!monitor.is_probing());
    assert_eq!(events.len(), 1);
    assert_eq!(events[0].to_json(), r#"{"added":false,"name":"B","url":"http://127.0.0.1:4002/"}"#);
    assert_eq!(pairs(&r), vec![("A".to_string(), "http://127.0.0.1:4001/".to_string())]);
    // Outcomes while sleeping change nothing.
    assert!(monitor.probed(&mut r, &vec![false]).is_empty());
    assert_eq!(r.snapshot().len(), 1);
}

#[test]
fn heartbeat_ignores_mismatched_outcomes() {
    let mut r = Registry::new();
    r.add(entry("A", "u1"));
    let mut monitor = Heartbeat::new();
    monitor.tick(&r);
    assert!(monitor.probed(&mut r, &vec![false, false]).is_empty());
    assert_eq!(r.snapshot().len(), 1);
}

#[test]
fn closed_subscriber_slot_is_reused() {
    let mut hub = Broadcaster::new(3);
    let a = hub.subscribe();
    let b = hub.subscribe();
    hub.publish(&ChangeEvent { added: true, name: "old".to_string(), url: "u".to_string() });
    hub.unsubscribe(a);
    let c = hub.subscribe();
    assert_eq!(c, a);
    assert!(hub.receive(c).is_none());
    assert_eq!(hub.receive(b).unwrap().name, "old");
    assert_eq!(hub.subscribe(), 2);
}
