use route_cli::selection::{
    build_candidates, node_region_priority, order_candidates, select_among, selection_step,
    ProbeDecision,
};
use route_cli::subscription::{NodeType, ProxyNode};
use route_cli::RouteError;

fn usable(name: &str) -> ProxyNode {
    ProxyNode {
        name: name.to_string(),
        node_type: NodeType::Socks5,
        server: Some("10.0.0.1".to_string()),
        port: Some(1080),
        username: None,
        password: None,
        uuid: None,
        alter_id: None,
        cipher: None,
        tls: None,
        network: None,
        servername: None,
        sni: None,
        ws_opts: None,
        grpc_opts: None,
        plugin: None,
    }
}

fn unusable(name: &str) -> ProxyNode {
    let mut n = usable(name);
    n.server = None;
    n
}

#[test]
fn region_priorities_from_name_markers() {
    assert_eq!(node_region_priority("SG-fast"), 0);
    assert_eq!(node_region_priority("Singapore 01"), 0);
    assert_eq!(node_region_priority("新加坡-01"), 0);
    assert_eq!(node_region_priority("KR node"), 1);
    assert_eq!(node_region_priority("korea-2"), 1);
    assert_eq!(node_region_priority("韩国-1"), 1);
    assert_eq!(node_region_priority("US west"), 2);
    assert_eq!(node_region_priority("united states 3"), 2);
    assert_eq!(node_region_priority("美国-2"), 2);
    assert_eq!(node_region_priority("Tokyo"), 3);
    // The Singapore marker wins over a later Korea marker.
    assert_eq!(node_region_priority("sg-kr-mix"), 0);
}

#[test]
fn region_order_is_stable_within_buckets() {
    // A(sg), B(other), C(kr), D(sg): expected probe order A, D, C, B.
    let nodes = vec![
        usable("A-sg"),
        usable("B-tokyo"),
        usable("C-kr"),
        usable("D-sg"),
    ];
    let order = order_candidates(&nodes, &None);
    assert_eq!(order, vec![0, 3, 2, 1]);
}

#[test]
fn unusable_nodes_never_enter_the_order() {
    let nodes = vec![unusable("A-sg"), usable("B-kr"), unusable("C-kr")];
    let order = order_candidates(&nodes, &None);
    assert_eq!(order, vec![1]);
}

#[test]
fn sticky_preference_leads_the_order() {
    let nodes = vec![usable("A-sg"), usable("B-tokyo"), usable("C-kr")];
    let order = order_candidates(&nodes, &Some("B-tokyo".to_string()));
    assert_eq!(order, vec![1, 0, 2]);
}

#[test]
fn sticky_preference_probes_only_the_preferred_node() {
    let nodes = vec![usable("A-sg"), usable("B-tokyo"), usable("C-kr")];
    let order = order_candidates(&nodes, &Some("B-tokyo".to_string()));
    // The preferred node answers its probe: nothing else is probed.
    let reachable = vec![true, false, false];
    let (selected, probed) = select_among(&order, &reachable);
    assert_eq!(selected, Ok(1));
    assert_eq!(probed, 1);
}

#[test]
fn absent_sticky_preference_falls_back_to_region_order() {
    // The sticky name is not in the usable list: plain region ordering.
    let nodes = vec![usable("A-sg"), unusable("gone"), usable("C-kr")];
    let order = order_candidates(&nodes, &Some("gone".to_string()));
    assert_eq!(order, vec![0, 2]);
}

#[test]
fn first_reachable_node_wins_and_later_ones_are_not_probed() {
    // US unreachable, SG reachable, KR reachable: probe order SG, KR, US;
    // SG answers first, KR and US are never probed.
    let nodes = vec![usable("US-node"), usable("SG-node"), usable("KR-node")];
    let order = order_candidates(&nodes, &None);
    assert_eq!(order, vec![1, 2, 0]);
    let reachable: Vec<bool> = order
        .iter()
        .map(|&i| nodes[i].name.starts_with("SG") || nodes[i].name.starts_with("KR"))
        .collect();
    let (selected, probed) = select_among(&order, &reachable);
    assert_eq!(selected, Ok(1));
    assert_eq!(probed, 1);
}

#[test]
fn exhaustion_probes_every_candidate_once_and_fails() {
    let nodes = vec![usable("A-sg"), usable("B-tokyo"), usable("C-kr")];
    let order = order_candidates(&nodes, &None);
    let reachable = vec![false, false, false];
    let (selected, probed) = select_among(&order, &reachable);
    assert_eq!(selected, Err(RouteError::NoReachableNode));
    assert_eq!(probed, 3);
}

#[test]
fn selection_steps_walk_and_stop() {
    assert!(matches!(selection_step(3, 0, true), ProbeDecision::Selected(0)));
    assert!(matches!(selection_step(3, 0, false), ProbeDecision::ProbeNext(1)));
    assert!(matches!(selection_step(3, 2, false), ProbeDecision::Exhausted));
}

#[test]
fn empty_and_unusable_lists_have_no_candidates() {
    let empty: Vec<ProxyNode> = Vec::new();
    assert_eq!(build_candidates(&empty, &None), Err(RouteError::NoSupportedNodes));
    let nodes = vec![unusable("A"), unusable("B")];
    assert_eq!(build_candidates(&nodes, &None), Err(RouteError::NoSupportedNodes));
    let some = vec![unusable("A"), usable("B")];
    assert_eq!(build_candidates(&some, &None), Ok(vec![1]));
}

#[test]
fn duplicate_sticky_names_keep_only_the_first() {
    // Two usable nodes share the sticky name: the first leads the order and
    // its namesake is left out entirely.
    let nodes = vec![usable("dup"), usable("A-sg"), usable("dup")];
    let order = order_candidates(&nodes, &Some("dup".to_string()));
    assert_eq!(order, vec![0, 1]);
}

#[test]
fn selecting_among_no_candidates_fails_without_probing() {
    let no_candidates: Vec<usize> = Vec::new();
    let no_outcomes: Vec<bool> = Vec::new();
    let (selected, probed) = select_among(&no_candidates, &no_outcomes);
    assert_eq!(selected, Err(RouteError::NoReachableNode));
    assert_eq!(probed, 0);
}
