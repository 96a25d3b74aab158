use route_cli::config::AppConfig;
use route_cli::json::{json_to_string, JsonVal};
use route_cli::proxy::generate_sing_box_config;
use route_cli::subscription::{NodeType, ProxyNode, WsOpts};
use route_cli::RouteError;

fn node(name: &str, node_type: NodeType) -> ProxyNode {
    ProxyNode {
        name: name.to_string(),
        node_type,
        server: Some("10.0.0.1".to_string()),
        port: Some(1080),
        username: None,
        password: None,
        uuid: None,
        alter_id: None,
        cipher: None,
        tls: None,
        network: None,
        servername: None,
        sni: None,
        ws_opts: None,
        grpc_opts: None,
        plugin: None,
    }
}

fn wrap(outbound: &str) -> String {
    format!(
        "{{\"log\":{{\"level\":\"warn\"}},\
         \"inbounds\":[{{\"type\":\"mixed\",\"tag\":\"mixed-in\",\
         \"listen\":\"127.0.0.1\",\"listen_port\":27890}}],\
         \"outbounds\":[{},{{\"type\":\"direct\",\"tag\":\"direct\"}}],\
         \"route\":{{\"rules\":[{{\"domain_suffix\":[\"openai.com\",\
         \"api.openai.com\",\"chatgpt.com\",\"oaistatic.com\",\
         \"oaiusercontent.com\",\"openaiapi-site.azureedge.net\"],\
         \"outbound\":\"proxy\"}}],\"final\":\"direct\"}}}}",
        outbound
    )
}

#[test]
fn socks_document_is_exact() {
    let cfg = AppConfig::default();
    let n = node("s", NodeType::Socks5);
    let text = generate_sing_box_config(&cfg, &n).expect("usable node must synthesize");
    let expected = wrap(
        "{\"type\":\"socks\",\"tag\":\"proxy\",\"server\":\"10.0.0.1\",\
         \"server_port\":1080,\"username\":null,\"password\":null}",
    );
    assert_eq!(text, expected);
}

#[test]
fn http_document_carries_credentials() {
    let cfg = AppConfig::default();
    let mut n = node("h", NodeType::Http);
    n.username = Some("user".to_string());
    n.password = Some("pa\"ss\\word".to_string());
    let text = generate_sing_box_config(&cfg, &n).expect("usable node must synthesize");
    let expected = wrap(
        "{\"type\":\"http\",\"tag\":\"proxy\",\"server\":\"10.0.0.1\",\
         \"server_port\":1080,\"username\":\"user\",\"password\":\"pa\\\"ss\\\\word\"}",
    );
    assert_eq!(text, expected);
}

#[test]
fn shadowsocks_document_is_exact() {
    let cfg = AppConfig::default();
    let mut n = node("ss", NodeType::Shadowsocks);
    n.cipher = Some("aes-256-gcm".to_string());
    n.password = Some("pw".to_string());
    let text = generate_sing_box_config(&cfg, &n).expect("usable node must synthesize");
    let expected = wrap(
        "{\"type\":\"shadowsocks\",\"tag\":\"proxy\",\"server\":\"10.0.0.1\",\
         \"server_port\":1080,\"method\":\"aes-256-gcm\",\"password\":\"pw\"}",
    );
    assert_eq!(text, expected);
}

#[test]
fn vmess_document_with_tls_and_websocket() {
    let cfg = AppConfig::default();
    let mut n = node("vm", NodeType::Vmess);
    n.uuid = Some("u-1".to_string());
    n.alter_id = Some(2);
    n.cipher = Some("auto".to_string());
    n.tls = Some(true);
    // `sni` is absent, so the TLS block falls back to `servername`.
    n.servername = Some("sn.example.com".to_string());
    n.network = Some("ws".to_string());
    n.ws_opts = Some(WsOpts {
        path: Some("/ws".to_string()),
        headers: Some(vec![("Host".to_string(), "h.example.com".to_string())]),
    });
    let text = generate_sing_box_config(&cfg, &n).expect("usable node must synthesize");
    let expected = wrap(
        "{\"type\":\"vmess\",\"tag\":\"proxy\",\"server\":\"10.0.0.1\",\
         \"server_port\":1080,\"uuid\":\"u-1\",\"alter_id\":2,\"security\":\"auto\",\
         \"tls\":{\"enabled\":true,\"server_name\":\"sn.example.com\"},\
         \"transport\":{\"type\":\"ws\",\"path\":\"/ws\",\
         \"headers\":{\"Host\":\"h.example.com\"}}}",
    );
    assert_eq!(text, expected);
}

#[test]
fn vmess_plain_transport_emits_no_transport_block() {
    let cfg = AppConfig::default();
    let mut n = node("vm", NodeType::Vmess);
    n.uuid = Some("u-1".to_string());
    let text = generate_sing_box_config(&cfg, &n).expect("usable node must synthesize");
    let expected = wrap(
        "{\"type\":\"vmess\",\"tag\":\"proxy\",\"server\":\"10.0.0.1\",\
         \"server_port\":1080,\"uuid\":\"u-1\"}",
    );
    assert_eq!(text, expected);
}

#[test]
fn synthesis_is_deterministic() {
    let cfg = AppConfig::default();
    let mut n = node("vm", NodeType::Vmess);
    n.uuid = Some("u-1".to_string());
    n.tls = Some(true);
    n.sni = Some("s.example.com".to_string());
    let once = generate_sing_box_config(&cfg, &n).expect("usable node must synthesize");
    let twice = generate_sing_box_config(&cfg, &n).expect("usable node must synthesize");
    assert_eq!(once.as_bytes(), twice.as_bytes());
}

#[test]
fn unusable_node_is_refused_with_its_name_and_type() {
    let cfg = AppConfig::default();
    let mut n = node("broken", NodeType::Shadowsocks);
    n.plugin = Some("obfs".to_string());
    n.cipher = Some("aes".to_string());
    n.password = Some("p".to_string());
    let err = generate_sing_box_config(&cfg, &n).expect_err("plugin must make the node unusable");
    assert_eq!(
        err,
        RouteError::UnsupportedNode {
            name: "broken".to_string(),
            node_type: "ss".to_string(),
        }
    );
    assert_eq!(err.message(), "Node 'broken' with type 'ss' is unsupported");
}

#[test]
fn json_serialization_escapes_and_renders() {
    assert_eq!(json_to_string(&JsonVal::Null), "null");
    assert_eq!(json_to_string(&JsonVal::Bool(true)), "true");
    assert_eq!(json_to_string(&JsonVal::UInt(0)), "0");
    assert_eq!(json_to_string(&JsonVal::UInt(65535)), "65535");
    assert_eq!(
        json_to_string(&JsonVal::Str("a\"b\\c\nd\u{1}".to_string())),
        "\"a\\\"b\\\\c\\nd\\u0001\""
    );
    assert_eq!(
        json_to_string(&JsonVal::Arr(vec![JsonVal::UInt(1), JsonVal::Null])),
        "[1,null]"
    );
    assert_eq!(
        json_to_string(&JsonVal::Obj(vec![("k".to_string(), JsonVal::Bool(false))])),
        "{\"k\":false}"
    );
}
