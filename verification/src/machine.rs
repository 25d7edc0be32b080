//! The discovery state machine: consumes decoded protocol messages, mutates
//! the topology graph, the directed index and the uptime ledger, and says
//! which messages to send next. Everything it does to the state and every
//! message it emits is pinned down by `step_ok`.

use vstd::prelude::*;
use vstd::utf8::{decode_utf8, encode_utf8, valid_utf8};
use crate::graph::{find_name, goc_id, goc_names, TopologyGraph};
use crate::index::DirectedIndex;
use crate::ledger::UptimeLedger;
use crate::msg::{BotError, Message};
use crate::render::ids_in_graph;
use crate::text::parse_seconds_spec;

verus! {

/// What the machine asks its driver to do.
#[derive(Debug)]
pub enum Action {
    /// Note the wall-clock instant discovery began.
    StartTimer,
    /// Write this message to the peer.
    Send(Message),
}

pub struct Machine {
    pub graph: TopologyGraph,
    pub index: DirectedIndex,
    pub ledger: UptimeLedger,
    /// Completed per-node follow-up queries.
    pub received: usize,
    /// Whether the topology query has been issued.
    pub started: bool,
    /// Wait for elevated privilege before starting discovery.
    pub wait_oper: bool,
    /// Skip the per-link statistics phase.
    pub no_stats: bool,
}

impl Machine {
    pub open spec fn wf(self) -> bool {
        &&& self.graph.wf()
        &&& self.index.wf()
        &&& ids_in_graph(self.graph, self.index)
    }
}

pub open spec fn graph_same(o: Machine, f: Machine) -> bool {
    &&& f.graph.name_seq() == o.graph.name_seq()
    &&& forall|i: int, j: int| f.graph.has_edge(i, j) == o.graph.has_edge(i, j)
}

pub open spec fn index_same(o: Machine, f: Machine) -> bool {
    &&& f.index.keys@ == o.index.keys@
    &&& forall|k: usize| f.index.peers(k) == o.index.peers(k)
}

pub open spec fn ledger_same(o: Machine, f: Machine) -> bool {
    f.ledger.table() == o.ledger.table()
}

pub open spec fn state_same(o: Machine, f: Machine) -> bool {
    &&& graph_same(o, f)
    &&& index_same(o, f)
    &&& ledger_same(o, f)
    &&& f.received == o.received
    &&& f.started == o.started
}

pub open spec fn config_same(o: Machine, f: Machine) -> bool {
    &&& f.wait_oper == o.wait_oper
    &&& f.no_stats == o.no_stats
}

/// `a` sends `cmd` with arguments `args` and no source.
pub open spec fn is_send(a: Action, cmd: Seq<char>, args: Seq<Seq<u8>>) -> bool {
    match a {
        Action::Send(m) => m.source is None && m.command@ == cmd && m.arguments.deep_view()
            == args,
        Action::StartTimer => false,
    }
}

/// Discovery begins: the start instant is noted and the topology query goes
/// out.
pub open spec fn begin_step(o: Machine, f: Machine, acts: Seq<Action>) -> bool {
    &&& graph_same(o, f)
    &&& index_same(o, f)
    &&& ledger_same(o, f)
    &&& f.received == o.received
    &&& f.started == true
    &&& acts.len() == 2
    &&& acts[0] is StartTimer
    &&& is_send(acts[1], "LINKS"@, Seq::empty())
}

/// One more follow-up query is complete; when all expected ones are, the
/// termination request goes out.
pub open spec fn inc_stats_step(o: Machine, f: Machine, acts: Seq<Action>) -> bool {
    &&& graph_same(o, f)
    &&& index_same(o, f)
    &&& ledger_same(o, f)
    &&& f.started == o.started
    &&& f.received == (if o.received < usize::MAX {
        o.received + 1
    } else {
        o.received as int
    })
    &&& if f.received >= o.index.keys@.len() {
        acts.len() == 1 && is_send(acts[0], "QUIT"@, seq![encode_utf8("meow meow meow meow"@)])
    } else {
        acts.len() == 0
    }
}

/// The full step relation of the machine: for the old state `o`, the new
/// state `f`, and a message with source `src`, command `cmd` and arguments
/// `args`, says exactly which result and actions `handle_message` yields.
pub open spec fn step_ok(
    o: Machine,
    f: Machine,
    src: Option<Seq<u8>>,
    cmd: Seq<char>,
    args: Seq<Seq<u8>>,
    r: Result<Vec<Action>, BotError>,
) -> bool {
    &&& config_same(o, f)
    &&& if cmd == "PING"@ {
        // keep-alive probe: echo the payload back
        &&& state_same(o, f)
        &&& match r {
            Ok(acts) => acts@.len() == 1 && is_send(acts@[0], "PONG"@, args),
            Err(_) => false,
        }
    } else if cmd == "001"@ {
        // registration acknowledged
        match r {
            Ok(acts) => if o.wait_oper {
                state_same(o, f) && acts@.len() == 0
            } else {
                begin_step(o, f, acts@)
            },
            Err(_) => false,
        }
    } else if cmd == "433"@ {
        // nickname in use: retry with a disambiguating suffix
        if args.len() < 2 {
            state_same(o, f) && (r matches Err(e) && e == BotError::ProtocolShape)
        } else {
            &&& state_same(o, f)
            &&& match r {
                Ok(acts) => acts@.len() == 1 && is_send(
                    acts@[0],
                    "NICK"@,
                    seq![args[1] + seq![95u8]],
                ),
                Err(_) => false,
            }
        }
    } else if cmd == "381"@ {
        // privilege granted
        match r {
            Ok(acts) => if o.wait_oper {
                begin_step(o, f, acts@)
            } else {
                state_same(o, f) && acts@.len() == 0
            },
            Err(_) => false,
        }
    } else if cmd == "364"@ {
        // topology reply entry: one reported link
        if args.len() < 3 {
            state_same(o, f) && (r matches Err(e) && e == BotError::ProtocolShape)
        } else if !valid_utf8(args[1]) || !valid_utf8(args[2]) {
            state_same(o, f) && (r matches Err(e) && e == BotError::Encoding)
        } else {
            let left = decode_utf8(args[1]);
            let right = decode_utf8(args[2]);
            let lid = goc_id(o.graph.name_seq(), left);
            let names1 = goc_names(o.graph.name_seq(), left);
            let rid = goc_id(names1, right);
            &&& f.graph.name_seq() == goc_names(names1, right)
            &&& forall|i: int, j: int|
                f.graph.has_edge(i, j) <==> (o.graph.has_edge(i, j) || (i == lid && j == rid) || (
                i == rid && j == lid))
            &&& if lid != rid {
                &&& f.index.peers(rid as usize) == o.index.peers(rid as usize).push(lid as usize)
                &&& f.index.contains_key(rid as usize)
                &&& forall|k: usize|
                    k != rid as usize ==> f.index.peers(k) == o.index.peers(k)
                        && f.index.contains_key(k) == o.index.contains_key(k)
            } else {
                index_same(o, f)
            }
            &&& ledger_same(o, f)
            &&& f.received == o.received
            &&& f.started == o.started
            &&& match r {
                Ok(acts) => acts@.len() == 0,
                Err(_) => false,
            }
        }
    } else if cmd == "365"@ {
        // end of topology: either terminate or fan out statistics queries
        &&& state_same(o, f)
        &&& match r {
            Ok(acts) => if o.no_stats || o.index.keys@.len() == 0 {
                acts@.len() == 1 && is_send(acts@[0], "QUIT"@, seq![encode_utf8("mow mow mow"@)])
            } else {
                &&& acts@.len() == o.index.keys@.len()
                &&& forall|i: int|
                    0 <= i < acts@.len() ==> is_send(
                        #[trigger] acts@[i],
                        "STATS"@,
                        seq![
                            encode_utf8("l"@),
                            encode_utf8(o.graph.name_seq()[o.index.keys@[i] as int]),
                        ],
                    )
            },
            Err(_) => false,
        }
    } else if cmd == "211"@ {
        // statistics entry for a link
        if src is None || args.len() != 8 {
            state_same(o, f) && (r matches Err(e) && e == BotError::ProtocolShape)
        } else if !valid_utf8(args[1]) || !valid_utf8(src.unwrap()) || !valid_utf8(args[7]) {
            state_same(o, f) && (r matches Err(e) && e == BotError::Encoding)
        } else {
            let left = decode_utf8(args[1]);
            let right = decode_utf8(src.unwrap());
            match parse_seconds_spec(decode_utf8(args[7])) {
                None => state_same(o, f) && (r matches Err(e) && e == BotError::Encoding),
                Some(secs) => {
                    &&& graph_same(o, f)
                    &&& index_same(o, f)
                    &&& f.received == o.received
                    &&& f.started == o.started
                    &&& match (
                        find_name(o.graph.name_seq(), left),
                        find_name(o.graph.name_seq(), right),
                    ) {
                        (Some(li), Some(ri)) => f.ledger.table() == o.ledger.table().insert(
                            (ri, li),
                            secs,
                        ),
                        _ => ledger_same(o, f),
                    }
                    &&& match r {
                        Ok(acts) => acts@.len() == 0,
                        Err(_) => false,
                    }
                },
            }
        }
    } else if cmd == "219"@ {
        // end of statistics, relevant only for the link category
        if args.len() < 2 || args[1] != encode_utf8("l"@) {
            state_same(o, f) && (match r {
                Ok(acts) => acts@.len() == 0,
                Err(_) => false,
            })
        } else {
            match r {
                Ok(acts) => inc_stats_step(o, f, acts@),
                Err(_) => false,
            }
        }
    } else if cmd == "481"@ {
        // insufficient privilege while awaiting statistics: the query will
        // never succeed, so treat it as an end-of-statistics marker
        match r {
            Ok(acts) => inc_stats_step(o, f, acts@),
            Err(_) => false,
        }
    } else {
        // unrecognised commands are a forward-compatible no-op
        &&& state_same(o, f)
        &&& match r {
            Ok(acts) => acts@.len() == 0,
            Err(_) => false,
        }
    }
}

/// A raw line with its trailing delimiter bytes removed.
pub open spec fn stripped(s: Seq<u8>) -> Seq<u8> {
    let s1 = if s.len() > 0 && s.last() == 10 {
        s.drop_last()
    } else {
        s
    };
    if s1.len() > 0 && s1.last() == 13 {
        s1.drop_last()
    } else {
        s1
    }
}

impl Machine {
    pub fn new(wait_oper: bool, no_stats: bool) -> (r: Machine)
        ensures
            r.wf(),
            r.graph.name_seq() == Seq::<Seq<char>>::empty(),
            forall|i: int, j: int| !r.graph.has_edge(i, j),
            r.index.keys@ == Seq::<usize>::empty(),
            forall|k: usize| !r.index.contains_key(k) && r.index.peers(k) == Seq::<usize>::empty(),
            r.ledger.table() == Map::<(int, int), int>::empty(),
            r.received == 0,
            r.started == false,
            r.wait_oper == wait_oper,
            r.no_stats == no_stats,
    {
        Machine {
            graph: TopologyGraph::new(),
            index: DirectedIndex::new(),
            ledger: UptimeLedger::new(),
            received: 0,
            started: false,
            wait_oper,
            no_stats,
        }
    }

    fn begin(&mut self) -> (acts: Vec<Action>)
        ensures
            begin_step(*old(self), *final(self), acts@),
            config_same(*old(self), *final(self)),
            final(self).graph == old(self).graph,
            final(self).index == old(self).index,
            final(self).ledger == old(self).ledger,
    {
        self.started = true;
        let mut acts: Vec<Action> = Vec::new();
        acts.push(Action::StartTimer);
        acts.push(
            Action::Send(
                Message { source: None, command: "LINKS".to_owned(), arguments: Vec::new() },
            ),
        );
        proof {
            assert(acts@[1] matches Action::Send(m) && m.arguments.deep_view()
                =~~= Seq::<Seq<u8>>::empty());
        }
        acts
    }

    fn inc_stats(&mut self) -> (acts: Vec<Action>)
        ensures
            inc_stats_step(*old(self), *final(self), acts@),
            config_same(*old(self), *final(self)),
            final(self).graph == old(self).graph,
            final(self).index == old(self).index,
            final(self).ledger == old(self).ledger,
    {
        if self.received < usize::MAX {
            self.received = self.received + 1;
        }
        let mut acts: Vec<Action> = Vec::new();
        if self.received >= self.index.len() {
            let mut args: Vec<Vec<u8>> = Vec::new();
            args.push("meow meow meow meow".as_bytes_vec());
            acts.push(
                Action::Send(
                    Message { source: None, command: "QUIT".to_owned(), arguments: args },
                ),
            );
            proof {
                assert(acts@[0] matches Action::Send(m) && m.arguments.deep_view() =~~= seq![
                    encode_utf8("meow meow meow meow"@),
                ]);
            }
        }
        acts
    }

    /// Applies one decoded message: mutates the state and returns the actions
    /// to perform, exactly as `step_ok` describes. The graph bound is a
    /// machine limit: two node ids may be created per reported link.
    pub fn handle_message(&mut self, msg: Message) -> (r: Result<Vec<Action>, BotError>)
        requires
            old(self).wf(),
            old(self).graph.name_seq().len() + 2 < usize::MAX,
            old(self).index.keys@.len() < usize::MAX,
        ensures
            final(self).wf(),
            final(self).graph.name_seq().len() <= old(self).graph.name_seq().len() + 2,
            final(self).index.keys@.len() <= old(self).index.keys@.len() + 1,
            step_ok(
                *old(self),
                *final(self),
                msg.source.deep_view(),
                msg.command@,
                msg.arguments.deep_view(),
                r,
            ),
    {
        let Message { source, command, arguments } = msg;
        let ghost args = arguments.deep_view();
        if command.eq(&"PING".to_owned()) {
            Ok(self.echo_ping(arguments))
        } else if command.eq(&"001".to_owned()) {
            if self.wait_oper {
                Ok(Vec::new())
            } else {
                Ok(self.begin())
            }
        } else if command.eq(&"433".to_owned()) {
            if arguments.len() < 2 {
                Err(BotError::ProtocolShape)
            } else {
                let mut arguments = arguments;
                let mut nick = arguments.remove(1);
                nick.push(95);
                let mut nargs: Vec<Vec<u8>> = Vec::new();
                nargs.push(nick);
                let mut acts: Vec<Action> = Vec::new();
                acts.push(
                    Action::Send(
                        Message { source: None, command: "NICK".to_owned(), arguments: nargs },
                    ),
                );
                proof {
                    assert(acts@[0] matches Action::Send(m) && m.arguments.deep_view() =~~= seq![
                        args[1] + seq![95u8],
                    ]);
                }
                Ok(acts)
            }
        } else if command.eq(&"381".to_owned()) {
            if self.wait_oper {
                Ok(self.begin())
            } else {
                Ok(Vec::new())
            }
        } else if command.eq(&"364".to_owned()) {
            self.handle_links_entry(arguments)
        } else if command.eq(&"365".to_owned()) {
            self.handle_links_end()
        } else if command.eq(&"211".to_owned()) {
            self.handle_stats_entry(source, arguments)
        } else if command.eq(&"219".to_owned()) {
            if arguments.len() < 2 {
                Ok(Vec::new())
            } else {
                proof {
                    assert(args[1] =~= arguments@[1]@);
                }
                let is_l = crate::msg::is_l_arg(&arguments[1]);
                if is_l {
                    Ok(self.inc_stats())
                } else {
                    Ok(Vec::new())
                }
            }
        } else if command.eq(&"481".to_owned()) {
            Ok(self.inc_stats())
        } else {
            Ok(Vec::new())
        }
    }

    /// Echoes a keep-alive probe with its payload unchanged.
    fn echo_ping(&mut self, arguments: Vec<Vec<u8>>) -> (acts: Vec<Action>)
        ensures
            *final(self) == *old(self),
            acts@.len() == 1,
            is_send(acts@[0], "PONG"@, arguments.deep_view()),
    {
        let mut acts: Vec<Action> = Vec::new();
        acts.push(
            Action::Send(Message { source: None, command: "PONG".to_owned(), arguments }),
        );
        acts
    }

    /// One topology reply entry: resolve both endpoints, record the edge, and
    /// index its direction unless it is a degenerate self-report.
    fn handle_links_entry(&mut self, arguments: Vec<Vec<u8>>) -> (r: Result<Vec<Action>, BotError>)
        requires
            old(self).wf(),
            old(self).graph.name_seq().len() + 2 < usize::MAX,
            old(self).index.keys@.len() < usize::MAX,
        ensures
            final(self).wf(),
            final(self).graph.name_seq().len() <= old(self).graph.name_seq().len() + 2,
            final(self).index.keys@.len() <= old(self).index.keys@.len() + 1,
            config_same(*old(self), *final(self)),
            ({
                let o = *old(self);
                let f = *final(self);
                let args = arguments.deep_view();
                if args.len() < 3 {
                    state_same(o, f) && (r matches Err(e) && e == BotError::ProtocolShape)
                } else if !valid_utf8(args[1]) || !valid_utf8(args[2]) {
                    state_same(o, f) && (r matches Err(e) && e == BotError::Encoding)
                } else {
                    let left = decode_utf8(args[1]);
                    let right = decode_utf8(args[2]);
                    let lid = goc_id(o.graph.name_seq(), left);
                    let names1 = goc_names(o.graph.name_seq(), left);
                    let rid = goc_id(names1, right);
                    &&& f.graph.name_seq() == goc_names(names1, right)
                    &&& forall|i: int, j: int|
                        f.graph.has_edge(i, j) <==> (o.graph.has_edge(i, j) || (i == lid && j
                            == rid) || (i == rid && j == lid))
                    &&& if lid != rid {
                        &&& f.index.peers(rid as usize) == o.index.peers(rid as usize).push(
                            lid as usize,
                        )
                        &&& f.index.contains_key(rid as usize)
                        &&& forall|k: usize|
                            k != rid as usize ==> f.index.peers(k) == o.index.peers(k)
                                && f.index.contains_key(k) == o.index.contains_key(k)
                    } else {
                        index_same(o, f)
                    }
                    &&& ledger_same(o, f)
                    &&& f.received == o.received
                    &&& f.started == o.started
                    &&& match r {
                        Ok(acts) => acts@.len() == 0,
                        Err(_) => false,
                    }
                }
            }),
    {
        if arguments.len() < 3 {
            return Err(BotError::ProtocolShape);
        }
        proof {
            assert(arguments.deep_view()[1] =~= arguments@[1]@);
            assert(arguments.deep_view()[2] =~= arguments@[2]@);
        }
        let left = match crate::msg::bytes_to_string(&arguments[1]) {
            Some(s) => s,
            None => {
                return Err(BotError::Encoding);
            },
        };
        let right = match crate::msg::bytes_to_string(&arguments[2]) {
            Some(s) => s,
            None => {
                return Err(BotError::Encoding);
            },
        };
        let (lid, rid) = self.graph.add_edge(left, right);
        proof {
            assert(self.graph.name_seq().len() >= old(self).graph.name_seq().len());
        }
        if lid != rid {
            self.index.record(rid, lid);
            proof {
                self.lemma_wf_after_record(*old(self), rid, lid);
            }
        }
        Ok(Vec::new())
    }

    /// The index stays within the graph after one `record` of in-range ids.
    proof fn lemma_wf_after_record(self, o: Machine, rid: usize, lid: usize)
        requires
            ids_in_graph(o.graph, o.index),
            self.graph.name_seq().len() >= o.graph.name_seq().len(),
            rid < self.graph.name_seq().len(),
            lid < self.graph.name_seq().len(),
            self.index.peers(rid) == o.index.peers(rid).push(lid),
            self.index.contains_key(rid),
            forall|k: usize|
                k != rid ==> self.index.peers(k) == o.index.peers(k) && self.index.contains_key(k)
                    == o.index.contains_key(k),
        ensures
            ids_in_graph(self.graph, self.index),
    {
        assert forall|k: usize| #[trigger]
            self.index.contains_key(k) implies k < self.graph.name_seq().len() by {
            if k != rid {
                assert(o.index.contains_key(k));
            }
        }
        assert forall|k: usize, j: int|
            0 <= j < self.index.peers(k).len() implies (#[trigger] self.index.peers(k)[j])
            < self.graph.name_seq().len() by {
            if k == rid {
                if j < o.index.peers(rid).len() {
                    assert(o.index.peers(k)[j] < o.graph.name_seq().len());
                }
            } else {
                assert(self.index.peers(k) == o.index.peers(k));
                if o.index.peers(k).len() > 0 {
                    assert(o.index.peers(k)[j] < o.graph.name_seq().len());
                }
            }
        }
    }

    /// End of topology: terminate at once when there is nothing to follow up
    /// on, else query statistics for every reporting node, ascending.
    fn handle_links_end(&mut self) -> (r: Result<Vec<Action>, BotError>)
        requires
            old(self).wf(),
        ensures
            final(self).wf(),
            *final(self) == *old(self),
            state_same(*old(self), *final(self)),
            config_same(*old(self), *final(self)),
            match r {
                Ok(acts) => if old(self).no_stats || old(self).index.keys@.len() == 0 {
                    acts@.len() == 1 && is_send(
                        acts@[0],
                        "QUIT"@,
                        seq![encode_utf8("mow mow mow"@)],
                    )
                } else {
                    &&& acts@.len() == old(self).index.keys@.len()
                    &&& forall|i: int|
                        0 <= i < acts@.len() ==> is_send(
                            #[trigger] acts@[i],
                            "STATS"@,
                            seq![
                                encode_utf8("l"@),
                                encode_utf8(
                                    old(self).graph.name_seq()[old(self).index.keys@[i] as int],
                                ),
                            ],
                        )
                },
                Err(_) => false,
            },
    {
        if self.no_stats || self.index.is_empty() {
            let mut qargs: Vec<Vec<u8>> = Vec::new();
            qargs.push("mow mow mow".as_bytes_vec());
            let mut acts: Vec<Action> = Vec::new();
            acts.push(
                Action::Send(
                    Message { source: None, command: "QUIT".to_owned(), arguments: qargs },
                ),
            );
            proof {
                assert(acts@[0] matches Action::Send(m) && m.arguments.deep_view() =~~= seq![
                    encode_utf8("mow mow mow"@),
                ]);
            }
            return Ok(acts);
        }
        let nk = self.index.len();
        let mut acts: Vec<Action> = Vec::new();
        let mut i: usize = 0;
        while i < nk
            invariant
                self.wf(),
                nk == self.index.keys@.len(),
                i <= nk,
                acts@.len() == i,
                forall|m: int|
                    0 <= m < i ==> is_send(
                        #[trigger] acts@[m],
                        "STATS"@,
                        seq![
                            encode_utf8("l"@),
                            encode_utf8(self.graph.name_seq()[self.index.keys@[m] as int]),
                        ],
                    ),
            decreases nk - i,
        {
            let rid = self.index.keys()[i];
            proof {
                crate::index::lemma_find_key(self.index.keys@, rid);
                assert(self.index.contains_key(rid));
            }
            let name = self.graph.name_of(rid);
            let mut sargs: Vec<Vec<u8>> = Vec::new();
            sargs.push("l".as_bytes_vec());
            sargs.push(name.as_str().as_bytes_vec());
            let act = Action::Send(
                Message { source: None, command: "STATS".to_owned(), arguments: sargs },
            );
            proof {
                assert(act matches Action::Send(m) && m.arguments.deep_view() =~~= seq![
                    encode_utf8("l"@),
                    encode_utf8(self.graph.name_seq()[self.index.keys@[i as int] as int]),
                ]);
            }
            acts.push(act);
            i = i + 1;
        }
        Ok(acts)
    }

    /// One statistics entry: the first token of the trailing field is the
    /// uptime in seconds; record it when both endpoint names resolve.
    fn handle_stats_entry(
        &mut self,
        source: Option<Vec<u8>>,
        arguments: Vec<Vec<u8>>,
    ) -> (r: Result<Vec<Action>, BotError>)
        requires
            old(self).wf(),
        ensures
            final(self).wf(),
            config_same(*old(self), *final(self)),
            final(self).graph == old(self).graph,
            final(self).index == old(self).index,
            ({
                let o = *old(self);
                let f = *final(self);
                let src = source.deep_view();
                let args = arguments.deep_view();
                if src is None || args.len() != 8 {
                    state_same(o, f) && (r matches Err(e) && e == BotError::ProtocolShape)
                } else if !valid_utf8(args[1]) || !valid_utf8(src.unwrap()) || !valid_utf8(
                    args[7],
                ) {
                    state_same(o, f) && (r matches Err(e) && e == BotError::Encoding)
                } else {
                    let left = decode_utf8(args[1]);
                    let right = decode_utf8(src.unwrap());
                    match parse_seconds_spec(decode_utf8(args[7])) {
                        None => state_same(o, f) && (r matches Err(e) && e == BotError::Encoding),
                        Some(secs) => {
                            &&& graph_same(o, f)
                            &&& index_same(o, f)
                            &&& f.received == o.received
                            &&& f.started == o.started
                            &&& match (
                                find_name(o.graph.name_seq(), left),
                                find_name(o.graph.name_seq(), right),
                            ) {
                                (Some(li), Some(ri)) => f.ledger.table() == o.ledger.table().insert(
                                    (ri, li),
                                    secs,
                                ),
                                _ => ledger_same(o, f),
                            }
                            &&& match r {
                                Ok(acts) => acts@.len() == 0,
                                Err(_) => false,
                            }
                        },
                    }
                }
            }),
    {
        let srcb = match source {
            Some(b) => b,
            None => {
                return Err(BotError::ProtocolShape);
            },
        };
        if arguments.len() != 8 {
            return Err(BotError::ProtocolShape);
        }
        proof {
            assert(arguments.deep_view()[1] =~= arguments@[1]@);
            assert(arguments.deep_view()[7] =~= arguments@[7]@);
            assert(source.deep_view().unwrap() =~= srcb@);
        }
        let left = match crate::msg::bytes_to_string(&arguments[1]) {
            Some(s) => s,
            None => {
                return Err(BotError::Encoding);
            },
        };
        let right = match crate::msg::bytes_to_string(&srcb) {
            Some(s) => s,
            None => {
                return Err(BotError::Encoding);
            },
        };
        let uptime = match crate::msg::bytes_to_string(&arguments[7]) {
            Some(s) => s,
            None => {
                return Err(BotError::Encoding);
            },
        };
        let secs = match crate::text::parse_seconds(uptime.as_str()) {
            Some(v) => v,
            None => {
                return Err(BotError::Encoding);
            },
        };
        let lid = match self.graph.id_of(&left) {
            Some(i) => i,
            None => {
                return Ok(Vec::new());
            },
        };
        let rid = match self.graph.id_of(&right) {
            Some(i) => i,
            None => {
                return Ok(Vec::new());
            },
        };
        self.ledger.record(rid, lid, secs);
        Ok(Vec::new())
    }

    /// Applies one raw line as read from the transport, with its delimiter.
    pub fn handle_line(&mut self, raw: Vec<u8>) -> (r: Result<Vec<Action>, BotError>)
        requires
            old(self).wf(),
            old(self).graph.name_seq().len() + 2 < usize::MAX,
            old(self).index.keys@.len() < usize::MAX,
        ensures
            final(self).wf(),
            final(self).graph.name_seq().len() <= old(self).graph.name_seq().len() + 2,
            final(self).index.keys@.len() <= old(self).index.keys@.len() + 1,
            match crate::msg::tokenized_of(stripped(raw@)) {
                None => state_same(*old(self), *final(self)) && config_same(
                    *old(self),
                    *final(self),
                ) && (r matches Err(e) && e == BotError::Decoding),
                Some(t) => step_ok(*old(self), *final(self), t.0, t.1, t.2, r),
            },
    {
        let mut line = raw;
        if line.len() > 0 && line[line.len() - 1] == 10 {
            line.pop();
        }
        if line.len() > 0 && line[line.len() - 1] == 13 {
            line.pop();
        }
        proof {
            assert(line@ == stripped(raw@));
        }
        match crate::msg::tokenise_line(&line) {
            Some(m) => self.handle_message(m),
            None => Err(BotError::Decoding),
        }
    }
}

} // verus!
