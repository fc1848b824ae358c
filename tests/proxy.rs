use relay_tunnel::proxy::{DataInterpreter, Message, ProxyConfig};

#[test]
fn default_config_intercepts_everything_but_the_page_server() {
    let c = ProxyConfig::default();
    assert_eq!(c.server_url, "ws://localhost:9001/ws");
    assert!(c.enabled);
    assert!(c.should_intercept("https://example.com/a"));
    assert!(!c.should_intercept("http://localhost:8000/index.html"));
    assert!(!c.should_intercept("https://cdn/relaydns_wasm_bg.wasm"));
}

#[test]
fn bypass_and_intercept_patterns() {
    let c = ProxyConfig {
        server_url: String::new(),
        enabled: true,
        intercept_patterns: vec!["api.".to_string()],
        bypass_patterns: vec!["static".to_string()],
    };
    assert!(c.should_intercept("https://api.example.com"));
    assert!(!c.should_intercept("https://api.example.com/static/x"));
    assert!(!c.should_intercept("https://www.example.com"));
}

#[test]
fn packets_round_trip_through_the_interpreter() {
    let text = DataInterpreter::create_packet(Message::Text { data: "hé".to_string() });
    assert_eq!(text, vec![1, 0, 0, 0, b'h', 0xC3, 0xA9]);
    assert_eq!(DataInterpreter::parse_packet(text), Ok(Message::Text { data: "hé".to_string() }));
    let bin = DataInterpreter::create_packet(Message::Binary { data: vec![9, 8] });
    assert_eq!(bin, vec![2, 0, 0, 0, 9, 8]);
    assert_eq!(DataInterpreter::parse_packet(bin), Ok(Message::Binary { data: vec![9, 8] }));
    let api = DataInterpreter::create_packet(Message::Api {
        endpoint: "/x".to_string(),
        method: "GET".to_string(),
        headers: vec![],
        body: None,
    });
    assert_eq!(api, vec![4, 0, 0, 0]);
}

#[test]
fn bad_packets_are_refused() {
    assert_eq!(DataInterpreter::parse_packet(vec![1, 0]), Err("packet too short".to_string()));
    assert_eq!(DataInterpreter::parse_packet(vec![3, 0, 0, 0]), Err("unknown packet type: 3".to_string()));
    assert_eq!(DataInterpreter::parse_packet(vec![200, 0, 0, 0]), Err("unknown packet type: 200".to_string()));
    let e = DataInterpreter::parse_packet(vec![1, 0, 0, 0, 0xFF]).unwrap_err();
    assert!(e.starts_with("utf8 error: "));
}
