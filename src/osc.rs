//! Outbound OSC messages: the typing signal and the chunked chat input.
use vstd::prelude::*;
use vstd::utf8::encode_utf8;
use crate::chunks::{chunk_at, chunk_count, split_message};

verus! {

/// An argument of an outbound message.
pub enum OscArg {
    Text(String),
    Flag(bool),
}

/// Bytes followed by one to four zero bytes, up to a multiple of four.
pub open spec fn padded(b: Seq<u8>) -> Seq<u8> {
    b + Seq::new((4 - b.len() % 4) as nat, |i: int| 0u8)
}

/// Type tag of an argument: `s`, `T` or `F`.
pub open spec fn arg_tag(a: OscArg) -> u8 {
    match a {
        OscArg::Text(_) => 0x73u8,
        OscArg::Flag(true) => 0x54u8,
        OscArg::Flag(false) => 0x46u8,
    }
}

/// Payload of an argument: a padded UTF-8 string, or nothing for a flag.
pub open spec fn arg_data(a: OscArg) -> Seq<u8> {
    match a {
        OscArg::Text(s) => padded(encode_utf8(s@)),
        OscArg::Flag(_) => Seq::empty(),
    }
}

/// An OSC message: padded address, padded type tags after a comma, then the
/// arguments' payloads.
pub open spec fn osc_message(addr: Seq<char>, args: Seq<OscArg>) -> Seq<u8> {
    padded(encode_utf8(addr)) + padded(seq![0x2cu8] + args.map_values(|a: OscArg| arg_tag(a)))
        + args.map_values(|a: OscArg| arg_data(a)).flatten()
}

/// Encodes one OSC message.
///
/// Relies on `rosc::encoder::encode`, which writes a message as `osc_message`
/// states and, writing into a `Vec`, never fails.
#[verifier::external_body]
fn encode_message(addr: &str, args: &Vec<OscArg>) -> (r: Vec<u8>)
    ensures
        r@ == osc_message(addr@, args@),
{
    let args = args.iter().map(|a| match a {
        OscArg::Text(s) => rosc::OscType::String(s.clone()),
        OscArg::Flag(b) => rosc::OscType::Bool(*b),
    }).collect();
    let msg = rosc::OscMessage { addr: addr.to_string(), args };
    match rosc::encoder::encode(&rosc::OscPacket::Message(msg)) {
        Ok(bytes) => bytes,
        Err(_) => Vec::new(),
    }
}

pub open spec fn typing_addr() -> Seq<char> {
    seq!['/', 'c', 'h', 'a', 't', 'b', 'o', 'x', '/', 't', 'y', 'p', 'i', 'n', 'g']
}

pub open spec fn input_addr() -> Seq<char> {
    seq!['/', 'c', 'h', 'a', 't', 'b', 'o', 'x', '/', 'i', 'n', 'p', 'u', 't']
}

/// The typing signal: one flag at `/chatbox/typing`.
pub fn typing_packet(is_typing: bool) -> (r: Vec<u8>)
    ensures
        r@ == osc_message(typing_addr(), seq![OscArg::Flag(is_typing)]),
{
    let args = vec![OscArg::Flag(is_typing)];
    proof {
        reveal_strlit("/chatbox/typing");
        assert("/chatbox/typing"@ =~= typing_addr());
        assert(args@ =~= seq![OscArg::Flag(is_typing)]);
    }
    encode_message("/chatbox/typing", &args)
}

/// The tag byte of a flag.
pub open spec fn flag_tag(b: bool) -> u8 {
    if b { 0x54u8 } else { 0x46u8 }
}

/// One chat chunk at `/chatbox/input`: its text, a set "send now" flag, and
/// a "notify" flag set only for the first chunk of a message.
pub open spec fn chat_message(text: Seq<char>, first: bool) -> Seq<u8> {
    padded(encode_utf8(input_addr())) + padded(seq![0x2cu8, 0x73u8, 0x54u8, flag_tag(first)])
        + padded(encode_utf8(text))
}

/// Encodes one chat chunk.
pub fn chat_packet(text: &str, first: bool) -> (r: Vec<u8>)
    ensures
        r@ == chat_message(text@, first),
{
    let args = vec![OscArg::Text(text.to_owned()), OscArg::Flag(true), OscArg::Flag(first)];
    proof {
        reveal_strlit("/chatbox/input");
        assert("/chatbox/input"@ =~= input_addr());
        let tags = args@.map_values(|a: OscArg| arg_tag(a));
        assert(tags =~= seq![0x73u8, 0x54u8, flag_tag(first)]);
        assert(seq![0x2cu8] + tags =~= seq![0x2cu8, 0x73u8, 0x54u8, flag_tag(first)]);
        let data = args@.map_values(|a: OscArg| arg_data(a));
        let d0 = padded(encode_utf8(text@));
        assert(data =~= seq![d0, Seq::empty(), Seq::empty()]);
        let d2 = data.drop_first().drop_first();
        assert(d2.drop_first() =~= Seq::<Seq<u8>>::empty());
        assert(d2.drop_first().flatten() =~= Seq::<u8>::empty());
        assert(d2.first() =~= Seq::<u8>::empty());
        assert(d2.flatten() == d2.first() + d2.drop_first().flatten());
        assert(d2.flatten() =~= Seq::<u8>::empty());
        assert(data.drop_first().flatten() =~= Seq::<u8>::empty());
        assert(data.flatten() =~= d0);
    }
    encode_message("/chatbox/input", &args)
}

/// The packets that carry `message`: one per kept chunk, in order, the first
/// marked for notification.
pub fn chat_packets(message: &str, budget: usize, max_chunks: usize) -> (r: Vec<Vec<u8>>)
    requires
        budget > 0,
    ensures
        r.len() == chunk_count(message@.len(), budget as nat, max_chunks as nat),
        forall|i: int|
            0 <= i < r.len() ==> (#[trigger] r[i])@ == chat_message(chunk_at(message@, budget as nat, i as nat), i == 0),
{
    let chunks = split_message(message, budget, max_chunks);
    let mut r: Vec<Vec<u8>> = Vec::new();
    let mut i: usize = 0;
    while i < chunks.len()
        invariant
            i <= chunks.len(),
            r.len() == i,
            chunks.len() == chunk_count(message@.len(), budget as nat, max_chunks as nat),
            forall|k: int|
                0 <= k < chunks.len() ==> (#[trigger] chunks[k]).text@ == chunk_at(message@, budget as nat, k as nat)
                    && chunks[k].first == (k == 0),
            forall|k: int|
                0 <= k < i ==> (#[trigger] r[k])@ == chat_message(chunk_at(message@, budget as nat, k as nat), k == 0),
        decreases chunks.len() - i,
    {
        let p = chat_packet(chunks[i].text.as_str(), chunks[i].first);
        r.push(p);
        i = i + 1;
    }
    r
}

} // verus!
