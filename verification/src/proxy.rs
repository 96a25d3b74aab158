//! The config synthesizer and the engine lifecycle model. Mapping a usable
//! node to the forwarding-engine configuration document is pure and fully
//! pinned down; the driver only writes the returned text to disk, spawns the
//! engine, and reports poll outcomes back.

use vstd::prelude::*;
use vstd::string::StringExecFns;
use crate::RouteError;
use crate::config::AppConfig;
use crate::json::{
    jrep, jrep_members, jrep_items, JsonRep, JsonVal, json_to_string, lemma_jrep_items_push,
    lemma_jrep_members_push, lemma_json_text_is_rep_text, rep_text,
};
use crate::subscription::{spec_type_tag, node_type_name, NodeType, ProxyNode};
use crate::text::{dec_rep, dec_string, str_eq};

verus! {

/// The ghost mirror of the members built so far.
pub open spec fn jm(members: Seq<(String, JsonVal)>) -> Seq<(Seq<char>, JsonRep)> {
    jrep_members(members, members.len() as int)
}

/// The ghost mirror of the items built so far.
pub open spec fn ji(items: Seq<JsonVal>) -> Seq<JsonRep> {
    jrep_items(items, items.len() as int)
}

/// Appending one member mirrors as appending its ghost form.
proof fn lemma_jm_push(members: Seq<(String, JsonVal)>, x: (String, JsonVal))
    ensures
        jm(members.push(x)) == jm(members).push((x.0@, jrep(x.1))),
{
    lemma_jrep_members_push(members, x, members.len() as int);
    assert(members.push(x)[members.len() as int] == x);
}

/// Adds `"key": val` to an object under construction.
fn push_member(members: &mut Vec<(String, JsonVal)>, key: &str, val: JsonVal)
    ensures
        jm(final(members)@) == jm(old(members)@).push((key@, jrep(val))),
{
    let ghost before = members@;
    let ghost gval = val;
    members.push((String::from_str(key), val));
    proof {
        lemma_jm_push(before, (members@[before.len() as int].0, gval));
        assert(members@ == before.push(members@[before.len() as int]));
    }
}

/// A possibly absent string, as the document carries it: the value or null.
pub open spec fn rep_opt_str(o: Option<String>) -> JsonRep {
    match o {
        Some(s) => JsonRep::Str(s@),
        None => JsonRep::Null,
    }
}

fn opt_str_val(o: &Option<String>) -> (v: JsonVal)
    ensures
        jrep(v) == rep_opt_str(*o),
{
    match o {
        Some(s) => JsonVal::Str(s.clone()),
        None => JsonVal::Null,
    }
}

/// The server-name the vmess TLS block carries: `sni` wins over
/// `servername`; absent both, none is emitted.
pub open spec fn spec_tls_server_name(node: ProxyNode) -> Option<Seq<char>> {
    if node.sni is Some {
        Some(node.sni->0@)
    } else if node.servername is Some {
        Some(node.servername->0@)
    } else {
        None
    }
}

/// The vmess TLS block: enabled, with the preferred server name if present.
pub open spec fn spec_tls_members(node: ProxyNode) -> Seq<(Seq<char>, JsonRep)> {
    let base = seq![("enabled"@, JsonRep::Bool(true))];
    match spec_tls_server_name(node) {
        Some(s) => base.push(("server_name"@, JsonRep::Str(s))),
        None => base,
    }
}

/// Websocket headers, one member per pair, order kept.
pub open spec fn spec_header_members(hs: Seq<(String, String)>) -> Seq<(Seq<char>, JsonRep)> {
    hs.map_values(|p: (String, String)| (p.0@, JsonRep::Str(p.1@)))
}

/// The vmess websocket transport block.
pub open spec fn spec_ws_members(node: ProxyNode) -> Seq<(Seq<char>, JsonRep)> {
    let base = seq![("type"@, JsonRep::Str("ws"@))];
    let with_path = match node.ws_opts {
        Some(w) => match w.path {
            Some(p) => base.push(("path"@, JsonRep::Str(p@))),
            None => base,
        },
        None => base,
    };
    match node.ws_opts {
        Some(w) => match w.headers {
            Some(hs) => with_path.push(("headers"@, JsonRep::Obj(spec_header_members(hs@)))),
            None => with_path,
        },
        None => with_path,
    }
}

/// The vmess gRPC transport block.
pub open spec fn spec_grpc_members(node: ProxyNode) -> Seq<(Seq<char>, JsonRep)> {
    let base = seq![("type"@, JsonRep::Str("grpc"@))];
    match node.grpc_opts {
        Some(g) => match g.grpc_service_name {
            Some(s) => base.push(("service_name"@, JsonRep::Str(s@))),
            None => base,
        },
        None => base,
    }
}

/// The transport kind the node asks for: absent means plain TCP, which emits
/// no transport block; so does anything unrecognized.
pub open spec fn spec_network(node: ProxyNode) -> Seq<char> {
    match node.network {
        Some(s) => s@,
        None => "tcp"@,
    }
}

/// The members of the vmess outbound, in emission order.
pub open spec fn spec_vmess_members(node: ProxyNode) -> Seq<(Seq<char>, JsonRep)> {
    let base = seq![
        ("type"@, JsonRep::Str("vmess"@)),
        ("tag"@, JsonRep::Str("proxy"@)),
        ("server"@, JsonRep::Str(node.server->0@)),
        ("server_port"@, JsonRep::UInt(node.port->0 as nat)),
        ("uuid"@, JsonRep::Str(node.uuid->0@)),
    ];
    let with_aid = match node.alter_id {
        Some(aid) => base.push(("alter_id"@, JsonRep::UInt(aid as nat))),
        None => base,
    };
    let with_sec = match node.cipher {
        Some(c) => with_aid.push(("security"@, JsonRep::Str(c@))),
        None => with_aid,
    };
    let with_tls = if node.tls == Some(true) {
        with_sec.push(("tls"@, JsonRep::Obj(spec_tls_members(node))))
    } else {
        with_sec
    };
    if spec_network(node) == "ws"@ {
        with_tls.push(("transport"@, JsonRep::Obj(spec_ws_members(node))))
    } else if spec_network(node) == "grpc"@ {
        with_tls.push(("transport"@, JsonRep::Obj(spec_grpc_members(node))))
    } else {
        with_tls
    }
}

/// The outbound shape shared by socks and http: server, port and the
/// optional credentials, the latter null when absent.
pub open spec fn spec_credential_outbound(node: ProxyNode, proto: Seq<char>) -> JsonRep {
    JsonRep::Obj(
        seq![
            ("type"@, JsonRep::Str(proto)),
            ("tag"@, JsonRep::Str("proxy"@)),
            ("server"@, JsonRep::Str(node.server->0@)),
            ("server_port"@, JsonRep::UInt(node.port->0 as nat)),
            ("username"@, rep_opt_str(node.username)),
            ("password"@, rep_opt_str(node.password)),
        ],
    )
}

/// The outbound route the document carries for a usable node: the node's
/// connection data under the engine's field names, tagged "proxy".
pub open spec fn spec_outbound(node: ProxyNode) -> JsonRep
    recommends
        node.spec_usable(),
{
    match node.node_type {
        NodeType::Socks5 | NodeType::Socks => spec_credential_outbound(node, "socks"@),
        NodeType::Http => spec_credential_outbound(node, "http"@),
        NodeType::Shadowsocks => JsonRep::Obj(
            seq![
                ("type"@, JsonRep::Str("shadowsocks"@)),
                ("tag"@, JsonRep::Str("proxy"@)),
                ("server"@, JsonRep::Str(node.server->0@)),
                ("server_port"@, JsonRep::UInt(node.port->0 as nat)),
                ("method"@, JsonRep::Str(node.cipher->0@)),
                ("password"@, JsonRep::Str(node.password->0@)),
            ],
        ),
        NodeType::Vmess => JsonRep::Obj(spec_vmess_members(node)),
        NodeType::Other(_) => JsonRep::Null,
    }
}

fn credential_outbound(node: &ProxyNode, proto: &str, server: String, port: u16) -> (v: JsonVal)
    requires
        node.server is Some,
        node.port is Some,
        server@ == node.server->0@,
        port == node.port->0,
    ensures
        jrep(v) == spec_credential_outbound(*node, proto@),
{
    let mut ms: Vec<(String, JsonVal)> = Vec::new();
    proof {
        assert(jm(ms@) =~= Seq::<(Seq<char>, JsonRep)>::empty());
    }
    push_member(&mut ms, "type", JsonVal::Str(String::from_str(proto)));
    push_member(&mut ms, "tag", JsonVal::Str(String::from_str("proxy")));
    push_member(&mut ms, "server", JsonVal::Str(server));
    push_member(&mut ms, "server_port", JsonVal::UInt(port as u64));
    push_member(&mut ms, "username", opt_str_val(&node.username));
    push_member(&mut ms, "password", opt_str_val(&node.password));
    let v = JsonVal::Obj(ms);
    proof {
        assert(jm(ms@) =~= seq![
            ("type"@, JsonRep::Str(proto@)),
            ("tag"@, JsonRep::Str("proxy"@)),
            ("server"@, JsonRep::Str(node.server->0@)),
            ("server_port"@, JsonRep::UInt(node.port->0 as nat)),
            ("username"@, rep_opt_str(node.username)),
            ("password"@, rep_opt_str(node.password)),
        ]);
        assert(jrep(v) =~~= spec_credential_outbound(*node, proto@));
    }
    v
}

fn vmess_outbound(node: &ProxyNode) -> (v: JsonVal)
    requires
        node.spec_usable(),
        node.node_type is Vmess,
    ensures
        jrep(v) == spec_outbound(*node),
{
    let server = match &node.server {
        Some(s) => s.clone(),
        None => String::new(),
    };
    let uuid = match &node.uuid {
        Some(s) => s.clone(),
        None => String::new(),
    };
    let port = match node.port {
        Some(p) => p,
        None => 0,
    };
    let mut ms: Vec<(String, JsonVal)> = Vec::new();
    proof {
        assert(jm(ms@) =~= Seq::<(Seq<char>, JsonRep)>::empty());
    }
    push_member(&mut ms, "type", JsonVal::Str(String::from_str("vmess")));
    push_member(&mut ms, "tag", JsonVal::Str(String::from_str("proxy")));
    push_member(&mut ms, "server", JsonVal::Str(server));
    push_member(&mut ms, "server_port", JsonVal::UInt(port as u64));
    push_member(&mut ms, "uuid", JsonVal::Str(uuid));
    if let Some(aid) = node.alter_id {
        push_member(&mut ms, "alter_id", JsonVal::UInt(aid as u64));
    }
    if let Some(c) = &node.cipher {
        push_member(&mut ms, "security", JsonVal::Str(c.clone()));
    }
    let tls_on = match node.tls {
        Some(b) => b,
        None => false,
    };
    if tls_on {
        let mut tls: Vec<(String, JsonVal)> = Vec::new();
        proof {
            assert(jm(tls@) =~= Seq::<(Seq<char>, JsonRep)>::empty());
        }
        push_member(&mut tls, "enabled", JsonVal::Bool(true));
        let sni = match &node.sni {
            Some(s) => Some(s.clone()),
            None => match &node.servername {
                Some(s) => Some(s.clone()),
                None => None,
            },
        };
        if let Some(s) = sni {
            push_member(&mut tls, "server_name", JsonVal::Str(s));
        }
        proof {
            assert(jm(tls@) =~= spec_tls_members(*node));
        }
        push_member(&mut ms, "tls", JsonVal::Obj(tls));
    }
    let network = match &node.network {
        Some(s) => s.clone(),
        None => String::from_str("tcp"),
    };
    if str_eq(network.as_str(), "ws") {
        let mut tr: Vec<(String, JsonVal)> = Vec::new();
        proof {
            assert(jm(tr@) =~= Seq::<(Seq<char>, JsonRep)>::empty());
        }
        push_member(&mut tr, "type", JsonVal::Str(String::from_str("ws")));
        if let Some(w) = &node.ws_opts {
            if let Some(p) = &w.path {
                push_member(&mut tr, "path", JsonVal::Str(p.clone()));
            }
        }
        if let Some(w) = &node.ws_opts {
            if let Some(hs) = &w.headers {
                let mut hm: Vec<(String, JsonVal)> = Vec::new();
                proof {
                    assert(jm(hm@) =~= Seq::<(Seq<char>, JsonRep)>::empty());
                }
                let mut i: usize = 0;
                while i < hs.len()
                    invariant
                        i <= hs@.len(),
                        jm(hm@) == spec_header_members(hs@.subrange(0, i as int)),
                    decreases hs@.len() - i,
                {
                    let ghost before = hm@;
                    let pair = (hs[i].0.clone(), JsonVal::Str(hs[i].1.clone()));
                    let ghost gpair = pair;
                    hm.push(pair);
                    proof {
                        lemma_jm_push(before, gpair);
                        assert(hm@ == before.push(gpair));
                        assert(spec_header_members(hs@.subrange(0, i + 1)) =~= spec_header_members(
                            hs@.subrange(0, i as int),
                        ).push((hs@[i as int].0@, JsonRep::Str(hs@[i as int].1@))));
                    }
                    i = i + 1;
                }
                proof {
                    assert(hs@.subrange(0, hs@.len() as int) =~= hs@);
                }
                push_member(&mut tr, "headers", JsonVal::Obj(hm));
            }
        }
        proof {
            assert(jm(tr@) =~= spec_ws_members(*node));
        }
        push_member(&mut ms, "transport", JsonVal::Obj(tr));
    } else if str_eq(network.as_str(), "grpc") {
        let mut tr: Vec<(String, JsonVal)> = Vec::new();
        proof {
            assert(jm(tr@) =~= Seq::<(Seq<char>, JsonRep)>::empty());
        }
        push_member(&mut tr, "type", JsonVal::Str(String::from_str("grpc")));
        if let Some(g) = &node.grpc_opts {
            if let Some(s) = &g.grpc_service_name {
                push_member(&mut tr, "service_name", JsonVal::Str(s.clone()));
            }
        }
        proof {
            assert(jm(tr@) =~= spec_grpc_members(*node));
        }
        push_member(&mut ms, "transport", JsonVal::Obj(tr));
    }
    proof {
        assert(jm(ms@) =~= spec_vmess_members(*node));
    }
    let v = JsonVal::Obj(ms);
    proof {
        assert(jrep(v) =~= spec_outbound(*node));
    }
    v
}

/// Translates a node into its outbound route; a node that is not usable has
/// no translation.
pub fn node_to_outbound(node: &ProxyNode) -> (r: Option<JsonVal>)
    ensures
        r is Some <==> node.spec_usable(),
        r matches Some(v) ==> jrep(v) == spec_outbound(*node),
{
    if !node.is_supported_for_sing_box() {
        return None;
    }
    let server = match &node.server {
        Some(s) => s.clone(),
        None => String::new(),
    };
    let port = match node.port {
        Some(p) => p,
        None => 0,
    };
    match &node.node_type {
        NodeType::Socks5 | NodeType::Socks => {
            let v = credential_outbound(node, "socks", server, port);
            Some(v)
        },
        NodeType::Http => {
            let v = credential_outbound(node, "http", server, port);
            Some(v)
        },
        NodeType::Shadowsocks => {
            let method = match &node.cipher {
                Some(s) => s.clone(),
                None => String::new(),
            };
            let password = match &node.password {
                Some(s) => s.clone(),
                None => String::new(),
            };
            let mut ms: Vec<(String, JsonVal)> = Vec::new();
            proof {
                assert(jm(ms@) =~= Seq::<(Seq<char>, JsonRep)>::empty());
            }
            push_member(&mut ms, "type", JsonVal::Str(String::from_str("shadowsocks")));
            push_member(&mut ms, "tag", JsonVal::Str(String::from_str("proxy")));
            push_member(&mut ms, "server", JsonVal::Str(server));
            push_member(&mut ms, "server_port", JsonVal::UInt(port as u64));
            push_member(&mut ms, "method", JsonVal::Str(method));
            push_member(&mut ms, "password", JsonVal::Str(password));
            let v = JsonVal::Obj(ms);
            proof {
                assert(jm(ms@) =~= seq![
                    ("type"@, JsonRep::Str("shadowsocks"@)),
                    ("tag"@, JsonRep::Str("proxy"@)),
                    ("server"@, JsonRep::Str(node.server->0@)),
                    ("server_port"@, JsonRep::UInt(node.port->0 as nat)),
                    ("method"@, JsonRep::Str(node.cipher->0@)),
                    ("password"@, JsonRep::Str(node.password->0@)),
                ]);
                assert(jrep(v) =~~= spec_outbound(*node));
            }
            Some(v)
        },
        NodeType::Vmess => Some(vmess_outbound(node)),
        NodeType::Other(_) => None,
    }
}

/// Appending one item mirrors as appending its ghost form.
proof fn lemma_ji_push(items: Seq<JsonVal>, x: JsonVal)
    ensures
        ji(items.push(x)) == ji(items).push(jrep(x)),
{
    lemma_jrep_items_push(items, x, items.len() as int);
    assert(items.push(x)[items.len() as int] == x);
}

/// Adds one element to an array under construction.
fn push_item(items: &mut Vec<JsonVal>, val: JsonVal)
    ensures
        ji(final(items)@) == ji(old(items)@).push(jrep(val)),
{
    let ghost before = items@;
    let ghost gval = val;
    items.push(val);
    proof {
        lemma_ji_push(before, gval);
        assert(items@ == before.push(gval));
    }
}

/// The document's single inbound: a mixed-protocol listener on loopback at
/// the configured port.
pub open spec fn spec_inbound_rep(port: u16) -> JsonRep {
    JsonRep::Obj(
        seq![
            ("type"@, JsonRep::Str("mixed"@)),
            ("tag"@, JsonRep::Str("mixed-in"@)),
            ("listen"@, JsonRep::Str("127.0.0.1"@)),
            ("listen_port"@, JsonRep::UInt(port as nat)),
        ],
    )
}

/// One string element per configured domain suffix, order kept.
pub open spec fn spec_domains_rep(ds: Seq<String>) -> Seq<JsonRep> {
    ds.map_values(|d: String| JsonRep::Str(d@))
}

/// The routing section: one suffix-match rule to "proxy", default "direct".
pub open spec fn spec_route_rep(ds: Seq<String>) -> JsonRep {
    JsonRep::Obj(
        seq![
            (
                "rules"@,
                JsonRep::Arr(
                    seq![
                        JsonRep::Obj(
                            seq![
                                ("domain_suffix"@, JsonRep::Arr(spec_domains_rep(ds))),
                                ("outbound"@, JsonRep::Str("proxy"@)),
                            ],
                        ),
                    ],
                ),
            ),
            ("final"@, JsonRep::Str("direct"@)),
        ],
    )
}

/// The whole forwarding-engine configuration document for a usable node:
/// warn-level logging, the loopback inbound, the node's outbound beside the
/// pass-through one, and the suffix routing rule.
pub open spec fn spec_config_rep(cfg: AppConfig, node: ProxyNode) -> JsonRep
    recommends
        node.spec_usable(),
{
    JsonRep::Obj(
        seq![
            ("log"@, JsonRep::Obj(seq![("level"@, JsonRep::Str("warn"@))])),
            ("inbounds"@, JsonRep::Arr(seq![spec_inbound_rep(cfg.proxy.mixed_port)])),
            (
                "outbounds"@,
                JsonRep::Arr(
                    seq![
                        spec_outbound(node),
                        JsonRep::Obj(
                            seq![("type"@, JsonRep::Str("direct"@)), ("tag"@, JsonRep::Str("direct"@))],
                        ),
                    ],
                ),
            ),
            ("route"@, spec_route_rep(cfg.routing.proxy_domains@)),
        ],
    )
}

/// The exact text of the configuration document; synthesis is a function of
/// the settings and the node alone, so equal inputs give identical bytes.
pub open spec fn spec_config_text(cfg: AppConfig, node: ProxyNode) -> Seq<char> {
    rep_text(spec_config_rep(cfg, node))
}

/// Synthesizes the engine configuration for a usable node; an unusable node
/// is refused with `UnsupportedNode` carrying its name and protocol tag.
pub fn generate_sing_box_config(cfg: &AppConfig, node: &ProxyNode) -> (r: Result<
    String,
    RouteError,
>)
    ensures
        r is Ok <==> node.spec_usable(),
        r matches Ok(s) ==> s@ == spec_config_text(*cfg, *node),
        r matches Err(e) ==> (e matches RouteError::UnsupportedNode { name, node_type }
            && name@ == node.name@ && node_type@ == spec_type_tag(node.node_type)),
{
    let outbound = match node_to_outbound(node) {
        Some(v) => v,
        None => {
            return Err(
                RouteError::UnsupportedNode {
                    name: node.name.clone(),
                    node_type: node_type_name(&node.node_type),
                },
            );
        },
    };

    let mut log_ms: Vec<(String, JsonVal)> = Vec::new();
    proof {
        assert(jm(log_ms@) =~= Seq::<(Seq<char>, JsonRep)>::empty());
    }
    push_member(&mut log_ms, "level", JsonVal::Str(String::from_str("warn")));
    let log_val = JsonVal::Obj(log_ms);
    proof {
        assert(jm(log_val->Obj_0@) =~= seq![("level"@, JsonRep::Str("warn"@))]);
        assert(jrep(log_val) == JsonRep::Obj(seq![("level"@, JsonRep::Str("warn"@))]));
    }

    let mut in_ms: Vec<(String, JsonVal)> = Vec::new();
    proof {
        assert(jm(in_ms@) =~= Seq::<(Seq<char>, JsonRep)>::empty());
    }
    push_member(&mut in_ms, "type", JsonVal::Str(String::from_str("mixed")));
    push_member(&mut in_ms, "tag", JsonVal::Str(String::from_str("mixed-in")));
    push_member(&mut in_ms, "listen", JsonVal::Str(String::from_str("127.0.0.1")));
    push_member(&mut in_ms, "listen_port", JsonVal::UInt(cfg.proxy.mixed_port as u64));
    let inbound_val = JsonVal::Obj(in_ms);
    proof {
        assert(jm(inbound_val->Obj_0@) =~= seq![
            ("type"@, JsonRep::Str("mixed"@)),
            ("tag"@, JsonRep::Str("mixed-in"@)),
            ("listen"@, JsonRep::Str("127.0.0.1"@)),
            ("listen_port"@, JsonRep::UInt(cfg.proxy.mixed_port as nat)),
        ]);
        assert(jrep(inbound_val) == spec_inbound_rep(cfg.proxy.mixed_port));
    }
    let mut inbounds: Vec<JsonVal> = Vec::new();
    proof {
        assert(ji(inbounds@) =~= Seq::<JsonRep>::empty());
    }
    push_item(&mut inbounds, inbound_val);
    let inbounds_val = JsonVal::Arr(inbounds);
    proof {
        assert(ji(inbounds_val->Arr_0@) =~= seq![spec_inbound_rep(cfg.proxy.mixed_port)]);
        assert(jrep(inbounds_val) == JsonRep::Arr(seq![spec_inbound_rep(cfg.proxy.mixed_port)]));
    }

    let mut direct_ms: Vec<(String, JsonVal)> = Vec::new();
    proof {
        assert(jm(direct_ms@) =~= Seq::<(Seq<char>, JsonRep)>::empty());
    }
    push_member(&mut direct_ms, "type", JsonVal::Str(String::from_str("direct")));
    push_member(&mut direct_ms, "tag", JsonVal::Str(String::from_str("direct")));
    let direct_val = JsonVal::Obj(direct_ms);
    let ghost direct_rep = JsonRep::Obj(
        seq![("type"@, JsonRep::Str("direct"@)), ("tag"@, JsonRep::Str("direct"@))],
    );
    proof {
        assert(jm(direct_val->Obj_0@) =~= direct_rep->Obj_0);
        assert(jrep(direct_val) == direct_rep);
    }
    let mut outbounds: Vec<JsonVal> = Vec::new();
    proof {
        assert(ji(outbounds@) =~= Seq::<JsonRep>::empty());
    }
    push_item(&mut outbounds, outbound);
    push_item(&mut outbounds, direct_val);
    let outbounds_val = JsonVal::Arr(outbounds);
    proof {
        assert(ji(outbounds_val->Arr_0@) =~= seq![spec_outbound(*node), direct_rep]);
        assert(jrep(outbounds_val) == JsonRep::Arr(seq![spec_outbound(*node), direct_rep]));
    }

    let mut domain_items: Vec<JsonVal> = Vec::new();
    proof {
        assert(ji(domain_items@) =~= Seq::<JsonRep>::empty());
        assert(ji(domain_items@) =~= spec_domains_rep(cfg.routing.proxy_domains@.subrange(0, 0)));
    }
    let mut i: usize = 0;
    while i < cfg.routing.proxy_domains.len()
        invariant
            i <= cfg.routing.proxy_domains@.len(),
            ji(domain_items@) == spec_domains_rep(cfg.routing.proxy_domains@.subrange(0, i as int)),
        decreases cfg.routing.proxy_domains@.len() - i,
    {
        let ghost before = domain_items@;
        push_item(&mut domain_items, JsonVal::Str(cfg.routing.proxy_domains[i].clone()));
        proof {
            assert(spec_domains_rep(cfg.routing.proxy_domains@.subrange(0, i + 1)) =~= spec_domains_rep(
                cfg.routing.proxy_domains@.subrange(0, i as int),
            ).push(JsonRep::Str(cfg.routing.proxy_domains@[i as int]@)));
        }
        i = i + 1;
    }
    proof {
        assert(cfg.routing.proxy_domains@.subrange(0, cfg.routing.proxy_domains@.len() as int)
            =~= cfg.routing.proxy_domains@);
    }
    let domains_val = JsonVal::Arr(domain_items);

    let mut rule_ms: Vec<(String, JsonVal)> = Vec::new();
    proof {
        assert(jm(rule_ms@) =~= Seq::<(Seq<char>, JsonRep)>::empty());
    }
    push_member(&mut rule_ms, "domain_suffix", domains_val);
    push_member(&mut rule_ms, "outbound", JsonVal::Str(String::from_str("proxy")));
    let rule_val = JsonVal::Obj(rule_ms);
    let ghost rule_rep = JsonRep::Obj(
        seq![
            ("domain_suffix"@, JsonRep::Arr(spec_domains_rep(cfg.routing.proxy_domains@))),
            ("outbound"@, JsonRep::Str("proxy"@)),
        ],
    );
    proof {
        assert(jm(rule_val->Obj_0@) =~= rule_rep->Obj_0);
        assert(jrep(rule_val) == rule_rep);
    }
    let mut rules: Vec<JsonVal> = Vec::new();
    proof {
        assert(ji(rules@) =~= Seq::<JsonRep>::empty());
    }
    push_item(&mut rules, rule_val);
    let rules_val = JsonVal::Arr(rules);
    proof {
        assert(ji(rules_val->Arr_0@) =~= seq![rule_rep]);
        assert(jrep(rules_val) == JsonRep::Arr(seq![rule_rep]));
    }
    let mut route_ms: Vec<(String, JsonVal)> = Vec::new();
    proof {
        assert(jm(route_ms@) =~= Seq::<(Seq<char>, JsonRep)>::empty());
    }
    push_member(&mut route_ms, "rules", rules_val);
    push_member(&mut route_ms, "final", JsonVal::Str(String::from_str("direct")));
    let route_val = JsonVal::Obj(route_ms);
    proof {
        assert(jm(route_val->Obj_0@) =~= seq![
            ("rules"@, JsonRep::Arr(seq![rule_rep])),
            ("final"@, JsonRep::Str("direct"@)),
        ]);
        assert(jrep(route_val) == spec_route_rep(cfg.routing.proxy_domains@));
    }

    let mut root_ms: Vec<(String, JsonVal)> = Vec::new();
    proof {
        assert(jm(root_ms@) =~= Seq::<(Seq<char>, JsonRep)>::empty());
    }
    push_member(&mut root_ms, "log", log_val);
    push_member(&mut root_ms, "inbounds", inbounds_val);
    push_member(&mut root_ms, "outbounds", outbounds_val);
    push_member(&mut root_ms, "route", route_val);
    let root_val = JsonVal::Obj(root_ms);
    proof {
        assert(jm(root_val->Obj_0@) =~= seq![
            ("log"@, JsonRep::Obj(seq![("level"@, JsonRep::Str("warn"@))])),
            ("inbounds"@, JsonRep::Arr(seq![spec_inbound_rep(cfg.proxy.mixed_port)])),
            ("outbounds"@, JsonRep::Arr(seq![spec_outbound(*node), direct_rep])),
            ("route"@, spec_route_rep(cfg.routing.proxy_domains@)),
        ]);
        assert(jrep(root_val) == spec_config_rep(*cfg, *node));
        lemma_json_text_is_rep_text(root_val);
    }
    Ok(json_to_string(&root_val))
}

/// Config synthesis is deterministic: two syntheses of the same settings and
/// node yield character-identical text.
pub proof fn lemma_synthesis_deterministic(
    cfg: AppConfig,
    node: ProxyNode,
    s1: Seq<char>,
    s2: Seq<char>,
)
    requires
        s1 == spec_config_text(cfg, node),
        s2 == spec_config_text(cfg, node),
    ensures
        s1 == s2,
{
}

/// The proxy URLs handed to the wrapped command: the HTTP-style one for the
/// HTTP and HTTPS variables, the SOCKS-style one for the catch-all variable.
pub fn proxy_env_urls(port: u16) -> (r: (String, String))
    ensures
        r.0@ == "http://127.0.0.1:"@ + dec_rep(port as nat),
        r.1@ == "socks5://127.0.0.1:"@ + dec_rep(port as nat),
{
    let digits = dec_string(port as u64);
    let mut http = String::from_str("http://127.0.0.1:");
    http.append(digits.as_str());
    let mut socks = String::from_str("socks5://127.0.0.1:");
    socks.append(digits.as_str());
    (http, socks)
}

/// What the readiness wait does after one poll of the local port.
pub enum ReadinessStep {
    Ready,
    Wait,
    TimedOut,
}

/// Decides the next step of the readiness wait: ready the moment the port
/// accepts, give up only once the deadline has passed, wait otherwise.
pub fn readiness_decide(elapsed_ms: u64, timeout_ms: u64, port_open: bool) -> (s: ReadinessStep)
    ensures
        port_open ==> s is Ready,
        !port_open && elapsed_ms < timeout_ms ==> s is Wait,
        !port_open && elapsed_ms >= timeout_ms ==> s is TimedOut,
{
    if port_open {
        ReadinessStep::Ready
    } else if elapsed_ms < timeout_ms {
        ReadinessStep::Wait
    } else {
        ReadinessStep::TimedOut
    }
}

/// The whole readiness wait over recorded poll outcomes, one outcome per
/// poll interval starting at time zero: succeeds at the first poll that finds
/// the port open, waiting under the timeout; otherwise fails with
/// `EngineNotReady`, having waited at least the timeout but less than the
/// timeout plus one interval.
pub fn wait_port_open(polls: &Vec<bool>, timeout_ms: u64, interval_ms: u64) -> (r: (
    Result<(), RouteError>,
    u64,
))
    requires
        interval_ms > 0,
        timeout_ms + interval_ms <= u64::MAX,
        polls@.len() * interval_ms >= timeout_ms,
    ensures
        r.0 is Ok ==> exists|j: int|
            0 <= j < polls@.len() && polls@[j] && (forall|m: int| 0 <= m < j ==> !polls@[m]) && r.1
                == j * interval_ms && r.1 < timeout_ms,
        r.0 is Err ==> r.0 == Err::<(), RouteError>(RouteError::EngineNotReady) && timeout_ms <= r.1
            < timeout_ms + interval_ms && (forall|j: int|
            0 <= j && j * interval_ms < timeout_ms ==> !polls@[j]),
{
    let n = polls.len();
    let mut elapsed: u64 = 0;
    let mut j: usize = 0;
    while elapsed < timeout_ms
        invariant
            interval_ms > 0,
            timeout_ms + interval_ms <= u64::MAX,
            polls@.len() * interval_ms >= timeout_ms,
            n == polls@.len(),
            elapsed == j * interval_ms,
            j >= 1 ==> (j as int - 1) * interval_ms < timeout_ms,
            j == 0 ==> elapsed == 0,
            forall|m: int| 0 <= m < j ==> !polls@[m],
        decreases timeout_ms + interval_ms - elapsed,
    {
        proof {
            assert(j < polls@.len()) by (nonlinear_arith)
                requires
                    elapsed == j * interval_ms,
                    elapsed < timeout_ms,
                    polls@.len() * interval_ms >= timeout_ms,
                    interval_ms > 0,
            ;
        }
        let open = polls[j];
        match readiness_decide(elapsed, timeout_ms, open) {
            ReadinessStep::Ready => {
                return (Ok(()), elapsed);
            },
            _ => {},
        }
        proof {
            assert((j + 1) * interval_ms == j * interval_ms + interval_ms) by (nonlinear_arith);
            assert(elapsed + interval_ms <= timeout_ms + interval_ms);
        }
        elapsed = elapsed + interval_ms;
        j = j + 1;
    }
    proof {
        assert forall|m: int| 0 <= m && m * interval_ms < timeout_ms implies !polls@[m] by {
            assert(m < j) by (nonlinear_arith)
                requires
                    m * interval_ms < timeout_ms,
                    timeout_ms <= j * interval_ms,
                    interval_ms > 0,
            ;
        }
        assert(elapsed < timeout_ms + interval_ms) by (nonlinear_arith)
            requires
                elapsed == j * interval_ms,
                j >= 1 ==> (j as int - 1) * interval_ms < timeout_ms,
                j == 0 ==> elapsed == 0,
                interval_ms > 0,
                elapsed >= timeout_ms,
        ;
    }
    (Err(RouteError::EngineNotReady), elapsed)
}

/// Where the supervised engine process stands.
#[derive(Debug, Clone, Copy, PartialEq, Eq, Structural)]
pub enum EngineState {
    NotStarted,
    Running,
    ReadinessConfirmed,
    ReadinessTimedOut,
    Stopped,
}

/// Whether a state owns a live process that teardown must reap.
pub open spec fn engine_live(s: EngineState) -> bool {
    s is Running || s is ReadinessConfirmed || s is ReadinessTimedOut
}

/// The supervisor's handle on the forwarding engine. The driver owns the
/// real child process and keeps it in step with this model: it kills and
/// reaps the process exactly when `stop` says so.
pub struct EngineHandle {
    pub state: EngineState,
}

impl EngineHandle {
    /// A handle with nothing started yet.
    pub fn new() -> (h: EngineHandle)
        ensures
            h.state is NotStarted,
    {
        EngineHandle { state: EngineState::NotStarted }
    }

    /// The engine process was spawned. Synthesis happens before this, and
    /// the readiness wait only after it.
    pub fn mark_spawned(&mut self)
        requires
            old(self).state is NotStarted,
        ensures
            final(self).state is Running,
    {
        self.state = EngineState::Running;
    }

    /// The readiness wait saw the port open.
    pub fn mark_ready(&mut self)
        requires
            old(self).state is Running,
        ensures
            final(self).state is ReadinessConfirmed,
    {
        self.state = EngineState::ReadinessConfirmed;
    }

    /// The readiness wait gave up; the engine still runs and must be torn
    /// down before the run aborts.
    pub fn mark_ready_timeout(&mut self)
        requires
            old(self).state is Running,
        ensures
            final(self).state is ReadinessTimedOut,
    {
        self.state = EngineState::ReadinessTimedOut;
    }

    /// Teardown: tells the driver whether a live process must be killed and
    /// reaped. On a handle with no live process this is a no-op — the state
    /// does not change and no action is demanded — and it never errors.
    pub fn stop(&mut self) -> (kill: bool)
        ensures
            kill == engine_live(old(self).state),
            kill ==> final(self).state is Stopped,
            !kill ==> *final(self) == *old(self),
    {
        match self.state {
            EngineState::Running | EngineState::ReadinessConfirmed
                | EngineState::ReadinessTimedOut => {
                self.state = EngineState::Stopped;
                true
            },
            _ => false,
        }
    }
}

/// Stopping an already-stopped or never-started handle is a no-op: no kill
/// is demanded, and a second stop after a first demands none either.
pub proof fn lemma_stop_idempotent(s: EngineState)
    requires
        s is Stopped || s is NotStarted,
    ensures
        !engine_live(s),
{
}

} // verus!
