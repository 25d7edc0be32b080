//! The renderer: a pure function from the discovered topology, the directed
//! index, the uptime ledger and the diameter result to a deterministic
//! graph-description document, one edge statement per directed-index entry.

use vstd::prelude::*;
use vstd::arithmetic::div_mod::{lemma_div_is_ordered, lemma_div_multiples_vanish, lemma_div_pos_is_pos};
use crate::graph::TopologyGraph;
use crate::index::DirectedIndex;
use crate::ledger::UptimeLedger;
use crate::text::{dec_digits, digit_char, duration_label, duration_text, fmt_usize};

verus! {

/// Fixed-point scale for the hue computation: values are in millionths.
pub const SCALE: u64 = 1000000;

/// Per-second decay of the hue's distance from its long-lived target, in
/// millionths: the hue moves quickly at first and flattens for long uptimes.
pub const DECAY: u64 = 999998;

/// Target hue for a long-lived link, in millionths.
pub const TARGET_PPM: u64 = 300000;

/// `DECAY^e` in fixed point, by square and multiply, each product rescaled.
pub open spec fn decay_pow(e: nat) -> int
    decreases e,
{
    if e == 0 {
        SCALE as int
    } else {
        let h = decay_pow(e / 2);
        let hh = (h * h) / (SCALE as int);
        if e % 2 == 1 {
            (hh * (DECAY as int)) / (SCALE as int)
        } else {
            hh
        }
    }
}

pub proof fn lemma_decay_pow_bounds(e: nat)
    ensures
        0 <= decay_pow(e) <= SCALE,
    decreases e,
{
    if e > 0 {
        lemma_decay_pow_bounds(e / 2);
        let h = decay_pow(e / 2);
        let s = SCALE as int;
        assert(h * h <= s * s) by (nonlinear_arith)
            requires
                0 <= h <= s,
        ;
        assert(h * h >= 0) by (nonlinear_arith)
            requires
                0 <= h,
        ;
        lemma_div_is_ordered(h * h, s * s, s);
        lemma_div_multiples_vanish(s, s);
        lemma_div_pos_is_pos(h * h, s);
        let hh = (h * h) / s;
        let d = DECAY as int;
        assert(hh * d <= s * s) by (nonlinear_arith)
            requires
                0 <= hh <= s,
                0 <= d <= s,
        ;
        assert(hh * d >= 0) by (nonlinear_arith)
            requires
                0 <= hh,
                0 <= d,
        ;
        lemma_div_is_ordered(hh * d, s * s, s);
        lemma_div_pos_is_pos(hh * d, s);
    }
}

/// Computes `DECAY^e` in fixed point.
fn decay_pow_fixed(e: usize) -> (r: u64)
    ensures
        r as int == decay_pow(e as nat),
        r <= SCALE,
    decreases e,
{
    proof {
        lemma_decay_pow_bounds(e as nat);
        lemma_decay_pow_bounds((e / 2) as nat);
    }
    if e == 0 {
        SCALE
    } else {
        let h = decay_pow_fixed(e / 2);
        proof {
            let s = SCALE as int;
            assert(h * h <= s * s) by (nonlinear_arith)
                requires
                    0 <= h <= s,
            ;
        }
        let hh = h * h / SCALE;
        proof {
            let s = SCALE as int;
            lemma_div_is_ordered((h * h) as int, s * s, s);
            lemma_div_multiples_vanish(s, s);
            assert(hh * DECAY <= s * s) by (nonlinear_arith)
                requires
                    0 <= hh <= s,
                    0 <= DECAY <= s,
            ;
        }
        if e % 2 == 1 {
            hh * DECAY / SCALE
        } else {
            hh
        }
    }
}

/// The hue of an edge with uptime `secs`, in millionths: it approaches
/// `TARGET_PPM` asymptotically as the uptime grows.
pub open spec fn hue_ppm(secs: nat) -> int {
    ((TARGET_PPM as int) * ((SCALE as int) - decay_pow(secs))) / (SCALE as int)
}

/// `n` written in decimal, zero-padded to exactly `w` digits.
pub open spec fn dec_pad(n: nat, w: nat) -> Seq<char>
    decreases w,
{
    if w == 0 {
        Seq::empty()
    } else {
        dec_pad(n / 10, (w - 1) as nat) + seq![digit_char((n % 10) as int)]
    }
}

fn dec_pad_fixed(n: u64, w: usize) -> (r: String)
    ensures
        r@ == dec_pad(n as nat, w as nat),
    decreases w,
{
    if w == 0 {
        String::new()
    } else {
        let mut s = dec_pad_fixed(n / 10, w - 1);
        let d = (n % 10) as usize;
        let t = fmt_usize(d);
        proof {
            assert(dec_digits(d as nat) == seq![digit_char(d as int)]);
        }
        s.append(t.as_str());
        s
    }
}

/// The hue label for an uptime: the millionths written as `0.` and six
/// digits.
pub open spec fn hue_label(secs: nat) -> Seq<char> {
    "0."@ + dec_pad(hue_ppm(secs) as nat, 6)
}

/// Writes the hue label for an uptime of `secs` seconds.
fn hue_text(secs: usize) -> (r: String)
    ensures
        r@ == hue_label(secs as nat),
{
    let p = decay_pow_fixed(secs);
    proof {
        lemma_decay_pow_bounds(secs as nat);
        let s = SCALE as int;
        let t = TARGET_PPM as int;
        assert(t * (s - decay_pow(secs as nat)) <= t * s) by (nonlinear_arith)
            requires
                0 <= decay_pow(secs as nat) <= s,
                0 < t,
        ;
        assert(t * (s - decay_pow(secs as nat)) >= 0) by (nonlinear_arith)
            requires
                decay_pow(secs as nat) <= s,
                0 < t,
        ;
        lemma_div_pos_is_pos(t * (s - decay_pow(secs as nat)), s);
        lemma_div_is_ordered(t * (s - decay_pow(secs as nat)), t * s, s);
        lemma_div_multiples_vanish(t, s);
    }
    let ppm = TARGET_PPM * (SCALE - p) / SCALE;
    let mut out = "0.".to_owned();
    let digits = dec_pad_fixed(ppm, 6);
    out.append(digits.as_str());
    proof {
        assert(out@ =~= hue_label(secs as nat));
    }
    out
}

/// One edge statement: the reporting node toward its reported peer, with a
/// duration label and a hue when an uptime is on record.
pub open spec fn edge_line(right: Seq<char>, left: Seq<char>, up: Option<int>) -> Seq<char> {
    "\""@ + right + "\" -- \""@ + left + (match up {
        None => "\"\n"@,
        Some(secs) => "\" [label=\""@ + duration_label(secs as nat) + "\";color=\""@ + hue_label(
            secs as nat,
        ) + ",1,.8\"]\n"@,
    })
}

/// The uptime the ledger holds for the directed pair, if any.
pub open spec fn up_of(led: UptimeLedger, rid: int, lid: int) -> Option<int> {
    if led.table().contains_key((rid, lid)) {
        Some(led.table()[(rid, lid)])
    } else {
        None
    }
}

/// The edge statements of one reporting node, in recording order.
pub open spec fn key_lines(
    names: Seq<Seq<char>>,
    led: UptimeLedger,
    rid: usize,
    peers: Seq<usize>,
) -> Seq<char>
    decreases peers.len(),
{
    if peers.len() == 0 {
        Seq::empty()
    } else {
        key_lines(names, led, rid, peers.drop_last()) + edge_line(
            names[rid as int],
            names[peers.last() as int],
            up_of(led, rid as int, peers.last() as int),
        )
    }
}

/// The edge statements of the first `upto` reporting nodes, in key order.
pub open spec fn all_lines(
    g: TopologyGraph,
    ix: DirectedIndex,
    led: UptimeLedger,
    upto: int,
) -> Seq<char>
    decreases upto,
{
    if upto <= 0 {
        Seq::empty()
    } else {
        all_lines(g, ix, led, upto - 1) + key_lines(
            g.name_seq(),
            led,
            ix.keys@[upto - 1],
            ix.peers(ix.keys@[upto - 1]),
        )
    }
}

pub open spec fn header() -> Seq<char> {
    "graph L {\nbgcolor = black;\nnode [color=white;fontcolor=white;fontname=\"Comic Sans MS\"];\nedge [penwidth=2;color=gray;fontcolor=white;fontname=\"Comic Sans MS\"];\n"@
}

/// The annotation node stating the diameter and the elapsed time.
pub open spec fn dia_line(
    hops: int,
    from: Seq<char>,
    to: Seq<char>,
    elapsed: int,
    now: Seq<char>,
) -> Seq<char> {
    "\"longest path "@ + dec_digits(hops as nat) + " hops, from "@ + from + " to "@ + to + "\\n"@
        + dec_digits(elapsed as nat) + " seconds elapsed, "@ + now + "\" [shape=box];\n"@
}

/// The whole document.
pub open spec fn render_spec(
    g: TopologyGraph,
    ix: DirectedIndex,
    led: UptimeLedger,
    dia: Option<(usize, Seq<char>, Seq<char>)>,
    elapsed: Option<usize>,
    now: Seq<char>,
) -> Seq<char> {
    header() + all_lines(g, ix, led, ix.keys@.len() as int) + (match (dia, elapsed) {
        (Some(d), Some(e)) => dia_line(d.0 as int, d.1, d.2, e as int, now),
        _ => Seq::empty(),
    }) + "}"@
}

/// Every id the index mentions is a node of the graph.
pub open spec fn ids_in_graph(g: TopologyGraph, ix: DirectedIndex) -> bool {
    &&& forall|k: usize| #[trigger] ix.contains_key(k) ==> k < g.name_seq().len()
    &&& forall|k: usize, j: int|
        0 <= j < ix.peers(k).len() ==> (#[trigger] ix.peers(k)[j]) < g.name_seq().len()
}

/// Writes the graph-description document.
pub fn render(
    g: &TopologyGraph,
    ix: &DirectedIndex,
    led: &UptimeLedger,
    dia: &Option<(usize, String, String)>,
    elapsed: Option<usize>,
    now: &String,
) -> (out: String)
    requires
        g.wf(),
        ix.wf(),
        ids_in_graph(*g, *ix),
    ensures
        out@ == render_spec(
            *g,
            *ix,
            *led,
            match dia {
                Some(d) => Some((d.0, d.1@, d.2@)),
                None => None,
            },
            elapsed,
            now@,
        ),
{
    let mut out =
        "graph L {\nbgcolor = black;\nnode [color=white;fontcolor=white;fontname=\"Comic Sans MS\"];\nedge [penwidth=2;color=gray;fontcolor=white;fontname=\"Comic Sans MS\"];\n".to_owned();
    proof {
        assert(out@ =~= header() + all_lines(*g, *ix, *led, 0));
    }
    let nk = ix.len();
    let mut i: usize = 0;
    while i < nk
        invariant
            g.wf(),
            ix.wf(),
            ids_in_graph(*g, *ix),
            nk == ix.keys@.len(),
            i <= nk,
            out@ == header() + all_lines(*g, *ix, *led, i as int),
        decreases nk - i,
    {
        let rid = ix.keys()[i];
        let peers = match ix.entries_for(rid) {
            Some(v) => v,
            None => {
                proof {
                    crate::index::lemma_find_key(ix.keys@, rid);
                }
                unreached()
            },
        };
        proof {
            crate::index::lemma_find_key(ix.keys@, rid);
            assert(ix.contains_key(rid));
            assert(rid < g.name_seq().len());
            assert forall|k: int| 0 <= k < peers@.len() implies (#[trigger] peers@[k])
                < g.name_seq().len() by {
                assert(ix.peers(rid)[k] < g.name_seq().len());
            }
        }
        let np = peers.len();
        let ghost base = out@;
        proof {
            assert(out@ =~= base + key_lines(g.name_seq(), *led, rid, peers@.take(0)));
        }
        let mut j: usize = 0;
        while j < np
            invariant
                g.wf(),
                ix.wf(),
                ids_in_graph(*g, *ix),
                np == peers@.len(),
                peers@ == ix.peers(rid),
                rid < g.name_seq().len(),
                forall|k: int| 0 <= k < peers@.len() ==> (#[trigger] peers@[k]) < g.name_seq().len(),
                j <= np,
                out@ == base + key_lines(g.name_seq(), *led, rid, peers@.take(j as int)),
            decreases np - j,
        {
            let lid = peers[j];
            out.append("\"");
            out.append(g.name_of(rid).as_str());
            out.append("\" -- \"");
            out.append(g.name_of(lid).as_str());
            match led.lookup(rid, lid) {
                None => {
                    out.append("\"\n");
                },
                Some(u) => {
                    out.append("\" [label=\"");
                    let dt = duration_text(u);
                    out.append(dt.as_str());
                    out.append("\";color=\"");
                    let ht = hue_text(u);
                    out.append(ht.as_str());
                    out.append(",1,.8\"]\n");
                },
            }
            proof {
                assert(peers@.take(j + 1).drop_last() =~= peers@.take(j as int));
                assert(peers@.take(j + 1).last() == peers@[j as int]);
                assert(out@ =~= base + key_lines(g.name_seq(), *led, rid, peers@.take(j + 1)));
            }
            j = j + 1;
        }
        proof {
            assert(peers@.take(np as int) =~= peers@);
            assert(out@ =~= header() + all_lines(*g, *ix, *led, i + 1));
        }
        i = i + 1;
    }
    match (dia, elapsed) {
        (Some(d), Some(e)) => {
            let ghost base = out@;
            out.append("\"longest path ");
            let hops = fmt_usize(d.0);
            out.append(hops.as_str());
            out.append(" hops, from ");
            out.append(d.1.as_str());
            out.append(" to ");
            out.append(d.2.as_str());
            out.append("\\n");
            let el = fmt_usize(e);
            out.append(el.as_str());
            out.append(" seconds elapsed, ");
            out.append(now.as_str());
            out.append("\" [shape=box];\n");
            proof {
                assert(out@ =~= base + dia_line(d.0 as int, d.1@, d.2@, e as int, now@));
            }
        },
        _ => {},
    }
    out.append("}");
    proof {
        assert(out@ =~= render_spec(
            *g,
            *ix,
            *led,
            match dia {
                Some(d) => Some((d.0, d.1@, d.2@)),
                None => None,
            },
            elapsed,
            now@,
        ));
    }
    out
}

} // verus!
