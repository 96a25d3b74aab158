//! The node model: one candidate upstream proxy endpoint per record, with a
//! derived usability predicate saying whether the forwarding engine can carry
//! traffic through it.

use vstd::prelude::*;
use vstd::string::StringExecFns;
use crate::text::str_eq;

verus! {

/// The closed set of protocols the engine understands, plus a variant for
/// anything else the subscription may carry.
#[derive(Debug, Clone)]
pub enum NodeType {
    Socks5,
    Socks,
    Http,
    Shadowsocks,
    Vmess,
    Other(String),
}

/// Options for a websocket transport.
#[derive(Debug, Clone)]
pub struct WsOpts {
    pub path: Option<String>,
    /// Header name/value pairs, kept in the order they are to be emitted.
    pub headers: Option<Vec<(String, String)>>,
}

/// Options for a gRPC transport.
#[derive(Debug, Clone)]
pub struct GrpcOpts {
    pub grpc_service_name: Option<String>,
}

/// One candidate upstream, as deserialized from the subscription cache.
/// Constructed once, never mutated afterwards.
#[derive(Debug, Clone)]
pub struct ProxyNode {
    pub name: String,
    pub node_type: NodeType,
    pub server: Option<String>,
    pub port: Option<u16>,
    pub username: Option<String>,
    pub password: Option<String>,
    pub uuid: Option<String>,
    pub alter_id: Option<u32>,
    pub cipher: Option<String>,
    pub tls: Option<bool>,
    pub network: Option<String>,
    pub servername: Option<String>,
    pub sni: Option<String>,
    pub ws_opts: Option<WsOpts>,
    pub grpc_opts: Option<GrpcOpts>,
    pub plugin: Option<String>,
}

/// A parsed subscription document: its ordered node list, if any.
#[derive(Debug, Clone)]
pub struct ClashSubscription {
    pub proxies: Option<Vec<ProxyNode>>,
}

impl ProxyNode {
    /// A node is usable iff server and port are present and its protocol's
    /// required fields are present: nothing more for socks/http, cipher and
    /// password and no plugin for shadowsocks, an identifier for vmess.
    /// An unrecognized protocol is never usable.
    pub open spec fn spec_usable(&self) -> bool {
        &&& self.server is Some
        &&& self.port is Some
        &&& match self.node_type {
            NodeType::Socks5 | NodeType::Socks | NodeType::Http => true,
            NodeType::Shadowsocks => self.password is Some && self.cipher is Some
                && self.plugin is None,
            NodeType::Vmess => self.uuid is Some,
            NodeType::Other(_) => false,
        }
    }

    /// Whether the forwarding engine can be configured with this node.
    pub fn is_supported_for_sing_box(&self) -> (r: bool)
        ensures
            r == self.spec_usable(),
    {
        let base = self.server.is_some() && self.port.is_some();
        if !base {
            return false;
        }
        match &self.node_type {
            NodeType::Socks5 | NodeType::Socks | NodeType::Http => true,
            NodeType::Shadowsocks => self.password.is_some() && self.cipher.is_some()
                && self.plugin.is_none(),
            NodeType::Vmess => self.uuid.is_some(),
            NodeType::Other(_) => false,
        }
    }
}

/// Maps a raw protocol tag to the closed protocol set; anything unrecognized
/// keeps its tag in the `Other` variant.
pub fn node_type_from_str(s: &str) -> (t: NodeType)
    ensures
        t is Socks5 <==> s@ == "socks5"@,
        t is Socks <==> s@ == "socks"@,
        t is Http <==> s@ == "http"@,
        t is Shadowsocks <==> s@ == "ss"@,
        t is Vmess <==> s@ == "vmess"@,
        t matches NodeType::Other(raw) ==> raw@ == s@,
{
    proof {
        reveal_strlit("socks5");
        reveal_strlit("socks");
        reveal_strlit("http");
        reveal_strlit("ss");
        reveal_strlit("vmess");
        assert("socks5"@.len() == 6);
        assert("socks"@.len() == 5);
        assert("http"@.len() == 4);
        assert("ss"@.len() == 2);
        assert("vmess"@.len() == 5);
        assert("socks"@[0] == 's');
        assert("vmess"@[0] == 'v');
    }
    if str_eq(s, "socks5") {
        NodeType::Socks5
    } else if str_eq(s, "socks") {
        NodeType::Socks
    } else if str_eq(s, "http") {
        NodeType::Http
    } else if str_eq(s, "ss") {
        NodeType::Shadowsocks
    } else if str_eq(s, "vmess") {
        NodeType::Vmess
    } else {
        NodeType::Other(String::from_str(s))
    }
}

/// The display tag of a protocol: the inverse of `node_type_from_str` on the
/// closed set, and the raw tag for `Other`.
pub open spec fn spec_type_tag(t: NodeType) -> Seq<char> {
    match t {
        NodeType::Socks5 => "socks5"@,
        NodeType::Socks => "socks"@,
        NodeType::Http => "http"@,
        NodeType::Shadowsocks => "ss"@,
        NodeType::Vmess => "vmess"@,
        NodeType::Other(raw) => raw@,
    }
}

/// Renders the protocol tag, exactly as `spec_type_tag` states.
pub fn node_type_name(t: &NodeType) -> (s: String)
    ensures
        s@ == spec_type_tag(*t),
{
    match t {
        NodeType::Socks5 => String::from_str("socks5"),
        NodeType::Socks => String::from_str("socks"),
        NodeType::Http => String::from_str("http"),
        NodeType::Shadowsocks => String::from_str("ss"),
        NodeType::Vmess => String::from_str("vmess"),
        NodeType::Other(raw) => raw.clone(),
    }
}

/// For socks5, socks and http nodes, usability is exactly the presence of
/// server and port; no other field matters.
pub proof fn lemma_usability_socks_http(n: ProxyNode)
    requires
        n.node_type is Socks5 || n.node_type is Socks || n.node_type is Http,
    ensures
        n.spec_usable() <==> (n.server is Some && n.port is Some),
{
}

/// For shadowsocks nodes, usability is exactly the presence of server, port,
/// cipher and password together with the absence of a plugin; in particular a
/// plugin makes an otherwise complete node unusable.
pub proof fn lemma_usability_shadowsocks(n: ProxyNode)
    requires
        n.node_type is Shadowsocks,
    ensures
        n.spec_usable() <==> (n.server is Some && n.port is Some && n.cipher is Some
            && n.password is Some && n.plugin is None),
        n.plugin is Some ==> !n.spec_usable(),
{
}

/// For vmess nodes, usability is exactly the presence of server, port and the
/// identifier; alter-id, cipher, TLS and transport fields never block it.
pub proof fn lemma_usability_vmess(n: ProxyNode)
    requires
        n.node_type is Vmess,
    ensures
        n.spec_usable() <==> (n.server is Some && n.port is Some && n.uuid is Some),
{
}

/// How many of the first `k` nodes are usable.
pub open spec fn spec_count_usable(nodes: Seq<ProxyNode>, k: int) -> int
    decreases k,
{
    if k <= 0 || k > nodes.len() {
        0
    } else {
        spec_count_usable(nodes, k - 1) + if nodes[k - 1].spec_usable() {
            1int
        } else {
            0int
        }
    }
}

/// Counts the usable nodes, as `spec_count_usable` states over the whole
/// list.
pub fn count_supported(nodes: &Vec<ProxyNode>) -> (n: usize)
    ensures
        n == spec_count_usable(nodes@, nodes@.len() as int),
{
    let mut n: usize = 0;
    let mut i: usize = 0;
    while i < nodes.len()
        invariant
            i <= nodes@.len(),
            n <= i,
            n == spec_count_usable(nodes@, i as int),
        decreases nodes@.len() - i,
    {
        if nodes[i].is_supported_for_sing_box() {
            n = n + 1;
        }
        i = i + 1;
    }
    n
}

/// The first node bearing `name`, if any.
pub fn find_node_by_name(nodes: &Vec<ProxyNode>, name: &str) -> (r: Option<usize>)
    ensures
        r matches Some(i) ==> i < nodes@.len() && nodes@[i as int].name@ == name@ && (forall|m: int|
            0 <= m < i ==> #[trigger] nodes@[m].name@ != name@),
        r is None ==> forall|m: int| 0 <= m < nodes@.len() ==> #[trigger] nodes@[m].name@ != name@,
{
    let mut i: usize = 0;
    while i < nodes.len()
        invariant
            i <= nodes@.len(),
            forall|m: int| 0 <= m < i ==> #[trigger] nodes@[m].name@ != name@,
        decreases nodes@.len() - i,
    {
        if str_eq(nodes[i].name.as_str(), name) {
            return Some(i);
        }
        i = i + 1;
    }
    None
}

} // verus!

