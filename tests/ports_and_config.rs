use live_server_lsp::config::{Config, DEFAULT_PORT};
use live_server_lsp::protocol::{admits_request, next_free_port, occupied_ports, PortSearch, Server};

fn listed(urls: &[&str]) -> Vec<(String, String)> {
    urls.iter().enumerate().map(|(i, u)| (format!("s{}", i), u.to_string())).collect()
}

#[test]
fn next_free_port_skips_occupied() {
    assert_eq!(next_free_port(&vec![4001, 4002, 4004], 4001), Some(4003));
    assert_eq!(next_free_port(&vec![], 4001), Some(4001));
    assert_eq!(next_free_port(&vec![65534, 65535], 65534), None);
}

#[test]
fn occupied_ports_read_urls() {
    let l = listed(&["http://127.0.0.1:4001/", "not a url", "http://localhost/", "ws://h:7/"]);
    let mut ports = occupied_ports(&l);
    ports.sort();
    assert_eq!(ports, vec![7, 80, 4001]);
}

#[test]
fn port_search_avoids_listed_and_rejected_ports() {
    let l = listed(&["http://127.0.0.1:4001/", "http://127.0.0.1:4002/", "http://127.0.0.1:4004/"]);
    let mut search = PortSearch::start(4000, &l).unwrap();
    assert_eq!(search.candidate(), 4003);
    assert!(search.reject());
    assert_eq!(search.candidate(), 4005);
    assert!(search.reject());
    assert_eq!(search.candidate(), 4006);
}

#[test]
fn port_search_at_top_of_range() {
    assert!(PortSearch::start(65535, &vec![]).is_none());
    let mut search = PortSearch::start(65534, &vec![]).unwrap();
    assert_eq!(search.candidate(), 65535);
    assert!(!search.reject());
    assert_eq!(search.candidate(), 65535);
}

#[test]
fn candidate_url_uses_given_server() {
    let s = Server { name: "n".to_string(), server: Some("http://localhost".to_string()), port: 9000 };
    assert_eq!(s.candidate_url().unwrap(), "http://localhost:9000/");
    let bad = Server { name: "n".to_string(), server: Some("::nope".to_string()), port: 9000 };
    assert!(bad.candidate_url().is_none());
}

#[test]
fn request_admission() {
    assert!(admits_request(false, Some(true)));
    assert!(!admits_request(false, Some(false)));
    assert!(!admits_request(false, None));
    assert!(admits_request(true, None));
}

#[test]
fn config_defaults() {
    let c = Config::default();
    assert!(c.eager());
    assert!(!c.is_public());
    assert_eq!(c.port(), DEFAULT_PORT);
    let d = Config { lazy: Some(true), public: Some(true), start_port: Some(7000) };
    assert!(!d.eager());
    assert!(d.is_public());
    assert_eq!(d.port(), 7000);
}
