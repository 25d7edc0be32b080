//! Protocol messages as the discovery machine sees them: an optional source,
//! a command, and byte-string arguments. Tokenising a raw line and writing a
//! message back out are done by the `irctokens` crate behind trusted wrappers;
//! everything downstream of them is verified.

use vstd::prelude::*;
use vstd::utf8::{decode_utf8, valid_utf8};

verus! {

/// One structured protocol message.
#[derive(Debug)]
pub struct Message {
    /// Where the message came from, when the peer said so; arbitrary bytes.
    pub source: Option<Vec<u8>>,
    /// The command discriminator, e.g. `PING` or a numeric reply code.
    pub command: String,
    /// The positional arguments; arbitrary bytes each.
    pub arguments: Vec<Vec<u8>>,
}

/// The fatal ways a run can end, besides transport failure.
#[derive(Clone, Copy, PartialEq, Eq, Structural, Debug)]
pub enum BotError {
    /// A received line could not be tokenised into a message.
    Decoding,
    /// A textual field of a recognised command is not validly encoded.
    Encoding,
    /// A recognised command arrived without the arguments its handler needs.
    ProtocolShape,
}

/// What `irctokens::Line::tokenise` yields for a raw line: source, command
/// and arguments on success, nothing on a tokenisation error. The result
/// depends on the bytes alone.
pub uninterp spec fn tokenized_of(line: Seq<u8>) -> Option<
    (Option<Seq<u8>>, Seq<char>, Seq<Seq<u8>>),
>;

/// Relies on irctokens::Line::tokenise: splits one already-delimited protocol
/// line into its source, command and arguments, total on all byte strings.
#[verifier::external_body]
pub fn tokenise_line(line: &Vec<u8>) -> (r: Option<Message>)
    ensures
        r is Some <==> tokenized_of(line@) is Some,
        r matches Some(m) ==> tokenized_of(line@) == Some(
            (m.source.deep_view(), m.command@, m.arguments.deep_view()),
        ),
{
    match irctokens::Line::tokenise(line.as_slice()) {
        Ok(l) => Some(Message { source: l.source, command: l.command, arguments: l.arguments }),
        Err(_) => None,
    }
}

/// Every argument but the last, each preceded by a space.
pub open spec fn wire_args_mid(args: Seq<Seq<u8>>) -> Seq<u8>
    decreases args.len(),
{
    if args.len() == 0 {
        Seq::empty()
    } else {
        wire_args_mid(args.drop_last()) + seq![32u8] + args.last()
    }
}

/// The wire form of an outgoing message without source or tags: the command,
/// then each argument preceded by a space, the last preceded by ` :`.
pub open spec fn wire_form(command: Seq<char>, args: Seq<Seq<u8>>) -> Seq<u8> {
    vstd::utf8::encode_utf8(command) + (if args.len() == 0 {
        Seq::<u8>::empty()
    } else {
        wire_args_mid(args.drop_last()) + seq![32u8, 58u8] + args.last()
    })
}

/// Relies on irctokens::Line::format: writes a source-less, tag-less line as
/// the command, space-separated arguments, and a `:`-marked trailing
/// argument, without a line delimiter.
#[verifier::external_body]
fn format_message(m: &Message) -> (r: Vec<u8>)
    requires
        m.source is None,
    ensures
        r@ == wire_form(m.command@, m.arguments.deep_view()),
{
    irctokens::Line {
        tags: None,
        source: None,
        command: m.command.clone(),
        arguments: m.arguments.clone(),
    }.format()
}

/// The wire form of an outgoing message, terminated by the line delimiter.
pub fn encode_message(m: &Message) -> (r: Vec<u8>)
    requires
        m.source is None,
    ensures
        r@ == wire_form(m.command@, m.arguments.deep_view()) + seq![13u8, 10u8],
{
    let mut out = format_message(m);
    out.push(13);
    out.push(10);
    proof {
        assert(out@ =~= wire_form(m.command@, m.arguments.deep_view()) + seq![13u8, 10u8]);
    }
    out
}

/// The encoding of the statistics category `l` is the single byte 108.
pub proof fn lemma_l_bytes()
    ensures
        vstd::utf8::encode_utf8("l"@) == seq![108u8],
{
    reveal_strlit("l");
    assert("l"@ =~= seq!['l']);
    assert('l' as u32 == 108);
    assert(108u32 & 0x7F == 108u32) by (bit_vector);
    assert(vstd::utf8::encode_scalar(108u32) =~= seq![108u8]);
    assert(("l"@).drop_first() =~= Seq::<char>::empty());
    assert(vstd::utf8::encode_utf8(Seq::<char>::empty()) =~= Seq::<u8>::empty());
    assert(vstd::utf8::encode_utf8("l"@) =~= seq![108u8]);
}

/// Whether an argument names the link-statistics category.
pub fn is_l_arg(b: &Vec<u8>) -> (r: bool)
    ensures
        r == (b@ == vstd::utf8::encode_utf8("l"@)),
{
    proof {
        lemma_l_bytes();
    }
    if b.len() == 1 && b[0] == 108 {
        proof {
            assert(b@ =~= seq![108u8]);
        }
        true
    } else {
        proof {
            if b@ == seq![108u8] {
                assert(b@.len() == 1 && b@[0] == 108);
            }
        }
        false
    }
}

/// Relies on String::from_utf8: accepts exactly the valid UTF-8 byte strings
/// and decodes them.
#[verifier::external_body]
pub fn bytes_to_string(b: &Vec<u8>) -> (r: Option<String>)
    ensures
        r is Some <==> valid_utf8(b@),
        r matches Some(s) ==> s@ == decode_utf8(b@),
{
    match String::from_utf8(b.clone()) {
        Ok(s) => Some(s),
        Err(_) => None,
    }
}

} // verus!
