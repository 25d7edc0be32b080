use linkuptime::diam::diameter;
use linkuptime::graph::TopologyGraph;
use linkuptime::index::DirectedIndex;
use linkuptime::ledger::UptimeLedger;
use linkuptime::text::{duration_simplify, duration_text, fmt_usize, parse_seconds};

#[test]
fn duration_units_exact() {
    assert_eq!(duration_text(3599), "59 minutes");
    assert_eq!(duration_text(3600), "1 hour");
    assert_eq!(duration_text(7200), "2 hours");
    assert_eq!(duration_text(604800), "1 week");
    assert_eq!(duration_text(60), "1 minute");
    assert_eq!(duration_text(59), "0 minutes");
    assert_eq!(duration_text(86400), "1 day");
    assert_eq!(duration_text(172800), "2 days");
    assert_eq!(duration_text(1209600), "2 weeks");
}

#[test]
fn duration_simplify_pairs() {
    assert_eq!(duration_simplify(3599), (59, "minute"));
    assert_eq!(duration_simplify(3600), (1, "hour"));
    assert_eq!(duration_simplify(604800), (1, "week"));
    assert_eq!(duration_simplify(86401), (1, "day"));
    assert_eq!(duration_simplify(0), (0, "minute"));
}

#[test]
fn decimal_formatting() {
    assert_eq!(fmt_usize(0), "0");
    assert_eq!(fmt_usize(7), "7");
    assert_eq!(fmt_usize(1234567890), "1234567890");
}

#[test]
fn parse_seconds_tokens() {
    assert_eq!(parse_seconds("42 anything else"), Some(42));
    assert_eq!(parse_seconds("42"), Some(42));
    assert_eq!(parse_seconds("0"), Some(0));
    assert_eq!(parse_seconds(""), None);
    assert_eq!(parse_seconds(" 42"), None);
    assert_eq!(parse_seconds("4x2"), None);
    assert_eq!(parse_seconds("99999999999999999999999999 x"), None);
}

#[test]
fn graph_ids_first_seen_order() {
    let mut g = TopologyGraph::new();
    assert_eq!(g.get_or_create_id(String::from("alpha")), 0);
    assert_eq!(g.get_or_create_id(String::from("beta")), 1);
    assert_eq!(g.get_or_create_id(String::from("gamma")), 2);
    // re-reporting an already-seen name is idempotent
    assert_eq!(g.get_or_create_id(String::from("beta")), 1);
    assert_eq!(g.node_count(), 3);
    assert_eq!(g.id_of(&String::from("gamma")), Some(2));
    assert_eq!(g.id_of(&String::from("delta")), None);
    assert_eq!(g.name_of(0), "alpha");
}

#[test]
fn graph_add_edge_idempotent_ids() {
    let mut g = TopologyGraph::new();
    let (a, b) = g.add_edge(String::from("a"), String::from("b"));
    assert_eq!((a, b), (0, 1));
    let (c, b2) = g.add_edge(String::from("c"), String::from("b"));
    assert_eq!((c, b2), (2, 1));
    // the same pair again creates no new ids
    let (a2, b3) = g.add_edge(String::from("a"), String::from("b"));
    assert_eq!((a2, b3), (0, 1));
    assert_eq!(g.node_count(), 3);
}

#[test]
fn graph_self_report_single_id() {
    let mut g = TopologyGraph::new();
    let (l, r) = g.add_edge(String::from("hub"), String::from("hub"));
    assert_eq!(l, r);
    assert_eq!(g.node_count(), 1);
}

#[test]
fn index_keys_ascending_whatever_order() {
    let mut ix = DirectedIndex::new();
    ix.record(5, 1);
    ix.record(2, 9);
    ix.record(7, 3);
    ix.record(2, 4);
    ix.record(0, 8);
    assert_eq!(ix.keys().clone(), vec![0, 2, 5, 7]);
    assert_eq!(ix.entries_for(2).unwrap().clone(), vec![9, 4]);
    assert_eq!(ix.entries_for(5).unwrap().clone(), vec![1]);
    assert!(ix.entries_for(3).is_none());
    assert_eq!(ix.len(), 4);
}

#[test]
fn ledger_last_write_wins() {
    let mut led = UptimeLedger::new();
    assert_eq!(led.lookup(1, 2), None);
    led.record(1, 2, 100);
    led.record(2, 1, 7);
    assert_eq!(led.lookup(1, 2), Some(100));
    led.record(1, 2, 250);
    assert_eq!(led.lookup(1, 2), Some(250));
    assert_eq!(led.lookup(2, 1), Some(7));
}

#[test]
fn diameter_absent_below_two_nodes() {
    let g = TopologyGraph::new();
    assert!(diameter(&g).is_none());
    let mut g1 = TopologyGraph::new();
    g1.get_or_create_id(String::from("only"));
    assert!(diameter(&g1).is_none());
}

#[test]
fn diameter_two_nodes() {
    let mut g = TopologyGraph::new();
    g.add_edge(String::from("a"), String::from("b"));
    let (d, x, y) = diameter(&g).unwrap();
    assert_eq!(d, 1);
    let mut ends = vec![x, y];
    ends.sort();
    assert_eq!(ends, vec![String::from("a"), String::from("b")]);
}

#[test]
fn diameter_path_graph_any_root() {
    // a path of 4 edges whose middle node gets id 0, so the sweep roots
    // somewhere inside the path
    let mut g = TopologyGraph::new();
    g.add_edge(String::from("n2"), String::from("n3"));
    g.add_edge(String::from("n1"), String::from("n2"));
    g.add_edge(String::from("n0"), String::from("n1"));
    g.add_edge(String::from("n3"), String::from("n4"));
    let (d, x, y) = diameter(&g).unwrap();
    assert_eq!(d, 4);
    let mut ends = vec![x, y];
    ends.sort();
    assert_eq!(ends, vec![String::from("n0"), String::from("n4")]);
}

#[test]
fn diameter_star_graph() {
    let mut g = TopologyGraph::new();
    g.add_edge(String::from("leaf1"), String::from("hub"));
    g.add_edge(String::from("leaf2"), String::from("hub"));
    g.add_edge(String::from("leaf3"), String::from("hub"));
    let (d, _, _) = diameter(&g).unwrap();
    assert_eq!(d, 2);
}

#[test]
fn diameter_tolerates_disconnected() {
    let mut g = TopologyGraph::new();
    g.add_edge(String::from("a"), String::from("b"));
    g.get_or_create_id(String::from("island"));
    // must terminate and stay within the reachable part
    let (d, _, _) = diameter(&g).unwrap();
    assert_eq!(d, 1);
}

#[test]
fn diameter_tolerates_cycle() {
    let mut g = TopologyGraph::new();
    g.add_edge(String::from("a"), String::from("b"));
    g.add_edge(String::from("b"), String::from("c"));
    g.add_edge(String::from("c"), String::from("a"));
    // a protocol anomaly: still terminates, hop count below node count
    let (d, _, _) = diameter(&g).unwrap();
    assert!(d < 3);
}
