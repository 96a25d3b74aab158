use route_cli::subscription::{
    count_supported, find_node_by_name, node_type_from_str, node_type_name, GrpcOpts, NodeType,
    ProxyNode, WsOpts,
};

fn base_node(name: &str, node_type: NodeType) -> ProxyNode {
    ProxyNode {
        name: name.to_string(),
        node_type,
        server: Some("10.0.0.1".to_string()),
        port: Some(443),
        username: None,
        password: None,
        uuid: None,
        alter_id: None,
        cipher: None,
        tls: None,
        network: None,
        servername: None,
        sni: None,
        ws_opts: None,
        grpc_opts: None,
        plugin: None,
    }
}

#[test]
fn socks_and_http_need_only_server_and_port() {
    for t in [NodeType::Socks5, NodeType::Socks, NodeType::Http] {
        let node = base_node("n", t.clone());
        assert!(node.is_supported_for_sing_box());

        let mut no_server = base_node("n", t.clone());
        no_server.server = None;
        assert!(!no_server.is_supported_for_sing_box());

        let mut no_port = base_node("n", t.clone());
        no_port.port = None;
        assert!(!no_port.is_supported_for_sing_box());

        // Other fields never matter for these protocols.
        let mut decorated = base_node("n", t);
        decorated.username = Some("u".to_string());
        decorated.password = Some("p".to_string());
        decorated.plugin = Some("obfs".to_string());
        decorated.cipher = Some("aes".to_string());
        assert!(decorated.is_supported_for_sing_box());
    }
}

#[test]
fn shadowsocks_needs_cipher_password_and_no_plugin() {
    let mut complete = base_node("ss", NodeType::Shadowsocks);
    complete.cipher = Some("aes-256-gcm".to_string());
    complete.password = Some("secret".to_string());
    assert!(complete.is_supported_for_sing_box());

    let mut no_cipher = complete.clone();
    no_cipher.cipher = None;
    assert!(!no_cipher.is_supported_for_sing_box());

    let mut no_password = complete.clone();
    no_password.password = None;
    assert!(!no_password.is_supported_for_sing_box());

    // A plugin makes an otherwise complete node unusable.
    let mut with_plugin = complete.clone();
    with_plugin.plugin = Some("v2ray-plugin".to_string());
    assert!(!with_plugin.is_supported_for_sing_box());
}

#[test]
fn vmess_needs_identifier_and_optional_fields_never_block() {
    let mut bare = base_node("vm", NodeType::Vmess);
    assert!(!bare.is_supported_for_sing_box());
    bare.uuid = Some("123e4567-e89b-12d3-a456-426614174000".to_string());
    assert!(bare.is_supported_for_sing_box());

    let mut decorated = bare.clone();
    decorated.alter_id = Some(0);
    decorated.cipher = Some("auto".to_string());
    decorated.tls = Some(true);
    decorated.network = Some("ws".to_string());
    decorated.sni = Some("example.com".to_string());
    decorated.servername = Some("example.org".to_string());
    decorated.ws_opts = Some(WsOpts {
        path: Some("/ws".to_string()),
        headers: None,
    });
    decorated.grpc_opts = Some(GrpcOpts {
        grpc_service_name: Some("svc".to_string()),
    });
    assert!(decorated.is_supported_for_sing_box());
}

#[test]
fn unknown_protocols_are_never_usable() {
    let node = base_node("other", NodeType::Other("trojan".to_string()));
    assert!(!node.is_supported_for_sing_box());
}

#[test]
fn protocol_tags_round_trip() {
    assert!(matches!(node_type_from_str("socks5"), NodeType::Socks5));
    assert!(matches!(node_type_from_str("socks"), NodeType::Socks));
    assert!(matches!(node_type_from_str("http"), NodeType::Http));
    assert!(matches!(node_type_from_str("ss"), NodeType::Shadowsocks));
    assert!(matches!(node_type_from_str("vmess"), NodeType::Vmess));
    match node_type_from_str("trojan") {
        NodeType::Other(raw) => assert_eq!(raw, "trojan"),
        _ => panic!("unrecognized tag must map to Other"),
    }
    assert_eq!(node_type_name(&NodeType::Socks5), "socks5");
    assert_eq!(node_type_name(&NodeType::Shadowsocks), "ss");
    assert_eq!(node_type_name(&NodeType::Other("x".to_string())), "x");
}

#[test]
fn counting_and_lookup() {
    let mut ss = base_node("ss", NodeType::Shadowsocks);
    ss.cipher = Some("aes".to_string());
    ss.password = Some("p".to_string());
    let nodes = vec![
        base_node("a", NodeType::Socks5),
        base_node("b", NodeType::Other("trojan".to_string())),
        ss,
    ];
    assert_eq!(count_supported(&nodes), 2);
    assert_eq!(find_node_by_name(&nodes, "b"), Some(1));
    assert_eq!(find_node_by_name(&nodes, "missing"), None);
}
