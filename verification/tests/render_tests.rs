use linkuptime::diam::diameter;
use linkuptime::machine::Machine;
use linkuptime::msg::{bytes_to_string, is_l_arg, tokenise_line, Message};
use linkuptime::render::render;

fn msg(source: Option<&[u8]>, command: &str, args: &[&[u8]]) -> Message {
    Message {
        source: source.map(|s| s.to_vec()),
        command: command.to_string(),
        arguments: args.iter().map(|a| a.to_vec()).collect(),
    }
}

const HEADER: &str = "graph L {\nbgcolor = black;\nnode [color=white;fontcolor=white;fontname=\"Comic Sans MS\"];\nedge [penwidth=2;color=gray;fontcolor=white;fontname=\"Comic Sans MS\"];\n";

#[test]
fn render_empty_state() {
    let m = Machine::new(false, false);
    let out = render(&m.graph, &m.index, &m.ledger, &None, None, &String::from("now"));
    assert_eq!(out, format!("{}}}", HEADER));
}

#[test]
fn render_unannotated_edge() {
    let mut m = Machine::new(false, false);
    m.handle_message(msg(None, "364", &[b"me", b"A", b"B"])).unwrap();
    let out = render(&m.graph, &m.index, &m.ledger, &None, None, &String::from("now"));
    assert_eq!(out, format!("{}\"B\" -- \"A\"\n}}", HEADER));
}

#[test]
fn render_annotated_edge_exact() {
    let mut m = Machine::new(false, false);
    m.handle_message(msg(None, "364", &[b"me", b"A", b"B"])).unwrap();
    // an uptime of zero seconds: label "0 minutes", hue exactly zero
    m.handle_message(msg(
        Some(b"B"),
        "211",
        &[b"me", b"A", b"0", b"0", b"0", b"0", b"0", b"0 s"],
    ))
    .unwrap();
    let out = render(&m.graph, &m.index, &m.ledger, &None, None, &String::from("now"));
    assert_eq!(
        out,
        format!(
            "{}\"B\" -- \"A\" [label=\"0 minutes\";color=\"0.000000,1,.8\"]\n}}",
            HEADER
        )
    );
}

#[test]
fn render_hue_grows_with_uptime() {
    let mut m = Machine::new(false, false);
    m.handle_message(msg(None, "364", &[b"me", b"A", b"B"])).unwrap();
    m.handle_message(msg(
        Some(b"B"),
        "211",
        &[b"me", b"A", b"0", b"0", b"0", b"0", b"0", b"604800 s"],
    ))
    .unwrap();
    let out = render(&m.graph, &m.index, &m.ledger, &None, None, &String::from("now"));
    assert!(out.contains("[label=\"1 week\";color=\"0."));
    assert!(out.contains(",1,.8\"]\n"));
    // a week-old link has moved visibly toward the long-lived hue
    let hue: f64 = out.split("color=\"0.").nth(1).unwrap()[..6].parse().unwrap();
    assert!(hue > 100000.0);
    assert!(hue < 300000.0);
}

#[test]
fn render_diameter_annotation_exact() {
    let mut m = Machine::new(false, false);
    m.handle_message(msg(None, "364", &[b"me", b"A", b"B"])).unwrap();
    let dia = Some((1, String::from("B"), String::from("A")));
    let out = render(
        &m.graph,
        &m.index,
        &m.ledger,
        &dia,
        Some(5),
        &String::from("2020-01-01 00:00:00 UTC"),
    );
    assert_eq!(
        out,
        format!(
            "{}\"B\" -- \"A\"\n\"longest path 1 hops, from B to A\\n5 seconds elapsed, 2020-01-01 00:00:00 UTC\" [shape=box];\n}}",
            HEADER
        )
    );
}

#[test]
fn render_skips_annotation_without_start_time() {
    let mut m = Machine::new(false, false);
    m.handle_message(msg(None, "364", &[b"me", b"A", b"B"])).unwrap();
    let dia = Some((1, String::from("B"), String::from("A")));
    let out = render(&m.graph, &m.index, &m.ledger, &dia, None, &String::from("x"));
    assert!(!out.contains("longest path"));
}

#[test]
fn ledger_entry_outside_index_never_rendered() {
    // a link-statistics entry for a pair absent from the directed index is
    // recorded but cannot appear: rendering iterates the index, not the ledger
    let mut m = Machine::new(false, false);
    m.handle_message(msg(None, "364", &[b"me", b"A", b"B"])).unwrap();
    // reported by A about B: the pair (A,B) is not a directed-index entry
    m.handle_message(msg(
        Some(b"A"),
        "211",
        &[b"me", b"B", b"0", b"0", b"0", b"0", b"0", b"60 s"],
    ))
    .unwrap();
    assert_eq!(m.ledger.lookup(0, 1), Some(60));
    let out = render(&m.graph, &m.index, &m.ledger, &None, None, &String::from("x"));
    assert_eq!(out, format!("{}\"B\" -- \"A\"\n}}", HEADER));
}

#[test]
fn cancellation_renders_partial_state() {
    // discovery interrupted after 1 of 3 expected end-of-statistics markers
    let mut m = Machine::new(false, false);
    m.handle_message(msg(None, "364", &[b"me", b"A", b"B"])).unwrap();
    m.handle_message(msg(None, "364", &[b"me", b"B", b"C"])).unwrap();
    m.handle_message(msg(None, "364", &[b"me", b"C", b"D"])).unwrap();
    m.handle_message(msg(None, "365", &[])).unwrap();
    m.handle_message(msg(
        Some(b"B"),
        "211",
        &[b"me", b"A", b"0", b"0", b"0", b"0", b"0", b"60 s"],
    ))
    .unwrap();
    m.handle_message(msg(None, "219", &[b"me", b"l"])).unwrap();
    assert_eq!(m.received, 1);
    // cancelled here: render whatever exists
    let dia = diameter(&m.graph);
    let (d, _, _) = dia.clone().unwrap();
    assert_eq!(d, 3);
    let out = render(&m.graph, &m.index, &m.ledger, &dia, Some(2), &String::from("t"));
    assert!(out.contains("\"B\" -- \"A\" [label=\"1 minute\";"));
    assert!(out.contains("\"C\" -- \"B\"\n"));
    assert!(out.contains("\"D\" -- \"C\"\n"));
    assert!(out.contains("longest path 3 hops"));
    assert!(out.contains("2 seconds elapsed, t"));
    assert!(out.ends_with("}"));
}

#[test]
fn tokenise_line_splits_fields() {
    let m = tokenise_line(&b":irc.example 364 me A B :1 hub".to_vec()).unwrap();
    assert_eq!(m.source, Some(b"irc.example".to_vec()));
    assert_eq!(m.command, "364");
    assert_eq!(
        m.arguments,
        vec![b"me".to_vec(), b"A".to_vec(), b"B".to_vec(), b"1 hub".to_vec()]
    );
    assert!(tokenise_line(&b"".to_vec()).is_none());
}

#[test]
fn bytes_to_string_checks_utf8() {
    assert_eq!(bytes_to_string(&b"server.one".to_vec()), Some(String::from("server.one")));
    assert_eq!(bytes_to_string(&b"\xff\xfe".to_vec()), None);
}

#[test]
fn link_category_argument() {
    assert!(is_l_arg(&b"l".to_vec()));
    assert!(!is_l_arg(&b"m".to_vec()));
    assert!(!is_l_arg(&b"ll".to_vec()));
}
