use linkuptime::diam::diameter;
use linkuptime::machine::{Action, Machine};
use linkuptime::msg::{encode_message, BotError, Message};

fn msg(source: Option<&[u8]>, command: &str, args: &[&[u8]]) -> Message {
    Message {
        source: source.map(|s| s.to_vec()),
        command: command.to_string(),
        arguments: args.iter().map(|a| a.to_vec()).collect(),
    }
}

fn sent(acts: &[Action]) -> Vec<&Message> {
    acts.iter()
        .filter_map(|a| match a {
            Action::Send(m) => Some(m),
            Action::StartTimer => None,
        })
        .collect()
}

#[test]
fn welcome_starts_discovery() {
    let mut m = Machine::new(false, false);
    let acts = m.handle_message(msg(None, "001", &[])).unwrap();
    assert_eq!(acts.len(), 2);
    assert!(matches!(acts[0], Action::StartTimer));
    let s = sent(&acts);
    assert_eq!(s[0].command, "LINKS");
    assert!(s[0].arguments.is_empty());
    assert!(m.started);
}

#[test]
fn welcome_waits_for_oper() {
    let mut m = Machine::new(true, false);
    let acts = m.handle_message(msg(None, "001", &[])).unwrap();
    assert!(acts.is_empty());
    assert!(!m.started);
    let acts = m.handle_message(msg(None, "381", &[])).unwrap();
    assert_eq!(acts.len(), 2);
    assert!(m.started);
}

#[test]
fn ping_is_echoed_with_payload() {
    let mut m = Machine::new(false, false);
    let acts = m
        .handle_message(msg(Some(b"srv"), "PING", &[b"token123"]))
        .unwrap();
    let s = sent(&acts);
    assert_eq!(s.len(), 1);
    assert_eq!(s[0].command, "PONG");
    assert_eq!(s[0].source, None);
    assert_eq!(s[0].arguments, vec![b"token123".to_vec()]);
    assert_eq!(encode_message(s[0]), b"PONG :token123\r\n".to_vec());
}

#[test]
fn nick_collision_appends_suffix() {
    let mut m = Machine::new(false, false);
    let acts = m
        .handle_message(msg(None, "433", &[b"*", b"linkuptime"]))
        .unwrap();
    let s = sent(&acts);
    assert_eq!(s[0].command, "NICK");
    assert_eq!(s[0].arguments, vec![b"linkuptime_".to_vec()]);
}

#[test]
fn nick_collision_short_is_shape_error() {
    let mut m = Machine::new(false, false);
    let r = m.handle_message(msg(None, "433", &[b"*"]));
    assert_eq!(r.unwrap_err(), BotError::ProtocolShape);
}

#[test]
fn links_entry_bad_utf8_is_encoding_error() {
    let mut m = Machine::new(false, false);
    let r = m.handle_message(msg(None, "364", &[b"me", b"\xff\xfe", b"b"]));
    assert_eq!(r.unwrap_err(), BotError::Encoding);
}

#[test]
fn links_entry_short_is_shape_error() {
    let mut m = Machine::new(false, false);
    let r = m.handle_message(msg(None, "364", &[b"me", b"a"]));
    assert_eq!(r.unwrap_err(), BotError::ProtocolShape);
}

#[test]
fn reporting_side_collects_peers() {
    // topology entries (A,B) and (B,C), B the reporting side both times
    let mut m = Machine::new(false, false);
    m.handle_message(msg(None, "364", &[b"me", b"A", b"B", b"1 hop"]))
        .unwrap();
    m.handle_message(msg(None, "364", &[b"me", b"C", b"B", b"1 hop"]))
        .unwrap();
    // one key: B's id, mapping to A's id then C's id
    assert_eq!(m.index.keys().clone(), vec![1]);
    assert_eq!(m.index.entries_for(1).unwrap().clone(), vec![0, 2]);
    let (d, x, y) = diameter(&m.graph).unwrap();
    assert_eq!(d, 2);
    let mut ends = vec![x, y];
    ends.sort();
    assert_eq!(ends, vec![String::from("A"), String::from("C")]);
}

#[test]
fn self_report_skips_directed_index() {
    let mut m = Machine::new(false, false);
    m.handle_message(msg(None, "364", &[b"me", b"hub", b"hub"]))
        .unwrap();
    assert_eq!(m.graph.node_count(), 1);
    assert!(m.index.keys().is_empty());
}

#[test]
fn links_end_fans_out_stats_ascending() {
    let mut m = Machine::new(false, false);
    m.handle_message(msg(None, "364", &[b"me", b"A", b"B"])).unwrap();
    m.handle_message(msg(None, "364", &[b"me", b"B", b"C"])).unwrap();
    let acts = m.handle_message(msg(None, "365", &[])).unwrap();
    let s = sent(&acts);
    assert_eq!(s.len(), 2);
    assert_eq!(s[0].command, "STATS");
    assert_eq!(s[0].arguments, vec![b"l".to_vec(), b"B".to_vec()]);
    assert_eq!(s[1].arguments, vec![b"l".to_vec(), b"C".to_vec()]);
    assert_eq!(encode_message(s[0]), b"STATS l :B\r\n".to_vec());
}

#[test]
fn links_end_quits_when_stats_disabled() {
    let mut m = Machine::new(false, true);
    m.handle_message(msg(None, "364", &[b"me", b"A", b"B"])).unwrap();
    let acts = m.handle_message(msg(None, "365", &[])).unwrap();
    let s = sent(&acts);
    assert_eq!(s.len(), 1);
    assert_eq!(s[0].command, "QUIT");
    assert_eq!(s[0].arguments, vec![b"mow mow mow".to_vec()]);
}

#[test]
fn links_end_quits_when_nothing_reported() {
    let mut m = Machine::new(false, false);
    let acts = m.handle_message(msg(None, "365", &[])).unwrap();
    let s = sent(&acts);
    assert_eq!(s.len(), 1);
    assert_eq!(s[0].command, "QUIT");
}

#[test]
fn stats_entry_records_uptime() {
    let mut m = Machine::new(false, false);
    m.handle_message(msg(None, "364", &[b"me", b"A", b"B"])).unwrap();
    let r = m.handle_message(msg(
        Some(b"B"),
        "211",
        &[b"me", b"A", b"0", b"0", b"0", b"0", b"0", b"3600 seconds"],
    ));
    assert!(r.unwrap().is_empty());
    // keyed (reporting_id, peer_id) = (B, A)
    assert_eq!(m.ledger.lookup(1, 0), Some(3600));
}

#[test]
fn stats_entry_unknown_names_dropped() {
    let mut m = Machine::new(false, false);
    let r = m.handle_message(msg(
        Some(b"X"),
        "211",
        &[b"me", b"Y", b"0", b"0", b"0", b"0", b"0", b"5 s"],
    ));
    assert!(r.unwrap().is_empty());
    assert_eq!(m.ledger.lookup(0, 1), None);
}

#[test]
fn stats_entry_missing_source_is_shape_error() {
    let mut m = Machine::new(false, false);
    let r = m.handle_message(msg(
        None,
        "211",
        &[b"me", b"A", b"0", b"0", b"0", b"0", b"0", b"5 s"],
    ));
    assert_eq!(r.unwrap_err(), BotError::ProtocolShape);
}

#[test]
fn stats_entry_wrong_arity_is_shape_error() {
    let mut m = Machine::new(false, false);
    let r = m.handle_message(msg(Some(b"B"), "211", &[b"me", b"A", b"5 s"]));
    assert_eq!(r.unwrap_err(), BotError::ProtocolShape);
}

#[test]
fn stats_entry_bad_uptime_is_encoding_error() {
    let mut m = Machine::new(false, false);
    m.handle_message(msg(None, "364", &[b"me", b"A", b"B"])).unwrap();
    let r = m.handle_message(msg(
        Some(b"B"),
        "211",
        &[b"me", b"A", b"0", b"0", b"0", b"0", b"0", b"soon maybe"],
    ));
    assert_eq!(r.unwrap_err(), BotError::Encoding);
}

#[test]
fn stats_end_counts_only_link_category() {
    let mut m = Machine::new(false, false);
    m.handle_message(msg(None, "364", &[b"me", b"A", b"B"])).unwrap();
    m.handle_message(msg(None, "364", &[b"me", b"B", b"C"])).unwrap();
    // unrelated category and missing argument are ignored
    let acts = m.handle_message(msg(None, "219", &[b"me", b"m"])).unwrap();
    assert!(acts.is_empty());
    assert_eq!(m.received, 0);
    let acts = m.handle_message(msg(None, "219", &[])).unwrap();
    assert!(acts.is_empty());
    assert_eq!(m.received, 0);
    // first of two expected completions: no termination yet
    let acts = m.handle_message(msg(None, "219", &[b"me", b"l"])).unwrap();
    assert!(acts.is_empty());
    assert_eq!(m.received, 1);
    // last completion terminates
    let acts = m.handle_message(msg(None, "219", &[b"me", b"l"])).unwrap();
    let s = sent(&acts);
    assert_eq!(s.len(), 1);
    assert_eq!(s[0].command, "QUIT");
    assert_eq!(s[0].arguments, vec![b"meow meow meow meow".to_vec()]);
}

#[test]
fn no_privilege_counts_as_completion() {
    let mut m = Machine::new(false, false);
    m.handle_message(msg(None, "364", &[b"me", b"A", b"B"])).unwrap();
    let acts = m.handle_message(msg(None, "481", &[b"me"])).unwrap();
    let s = sent(&acts);
    assert_eq!(m.received, 1);
    assert_eq!(s.len(), 1);
    assert_eq!(s[0].command, "QUIT");
}

#[test]
fn unknown_commands_ignored() {
    let mut m = Machine::new(false, false);
    let acts = m.handle_message(msg(Some(b"x"), "NOTICE", &[b"hi"])).unwrap();
    assert!(acts.is_empty());
    assert_eq!(m.graph.node_count(), 0);
}

#[test]
fn handle_line_strips_delimiter_and_dispatches() {
    let mut m = Machine::new(false, false);
    let acts = m.handle_line(b"PING :abc\r\n".to_vec()).unwrap();
    let s = sent(&acts);
    assert_eq!(s[0].command, "PONG");
    assert_eq!(s[0].arguments, vec![b"abc".to_vec()]);
}

#[test]
fn handle_line_tokenise_failure_is_decoding_error() {
    let mut m = Machine::new(false, false);
    let r = m.handle_line(b"\r\n".to_vec());
    assert_eq!(r.unwrap_err(), BotError::Decoding);
}

#[test]
fn handle_line_full_discovery_exchange() {
    let mut m = Machine::new(false, false);
    m.handle_line(b":srv 001 me :welcome\r\n".to_vec()).unwrap();
    m.handle_line(b":srv 364 me A B :1 hub\r\n".to_vec()).unwrap();
    m.handle_line(b":srv 364 me C B :2 hub\r\n".to_vec()).unwrap();
    let acts = m.handle_line(b":srv 365 me :End of /LINKS list.\r\n".to_vec()).unwrap();
    assert_eq!(sent(&acts).len(), 1); // one key, one STATS query
    m.handle_line(b":B 211 me A 0 0 0 0 0 :7200 seconds\r\n".to_vec()).unwrap();
    let acts = m.handle_line(b":B 219 me l :End of STATS\r\n".to_vec()).unwrap();
    assert_eq!(sent(&acts)[0].command, "QUIT");
    assert_eq!(m.ledger.lookup(1, 0), Some(7200));
}
