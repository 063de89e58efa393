use vstd::prelude::*;
use crate::encoding::{
    be32, decode, encoded_data, encoded_instruction, item_of, push_data, push_instruction,
    read_be_u32, u32_of_be, valid_name, write_be_u32, Kind,
};
use crate::error::Error;

verus! {

/// `TRACE`: the tag of a frame that carries one traced value.
pub const TRACE_TAG: [u8; 5] = [0x54, 0x52, 0x41, 0x43, 0x45];

/// `RESULT`: the tag of the frame that ends a submission.
pub const RESULT_TAG: [u8; 6] = [0x52, 0x45, 0x53, 0x55, 0x4c, 0x54];

/// The byte sequences that a vector of byte vectors holds.
pub open spec fn views(v: Seq<Vec<u8>>) -> Seq<Seq<u8>> {
    v.map_values(|x: Vec<u8>| x@)
}

// ---------------------------------------------------------------------------
// Framing

/// A message on the connection: four big-endian length bytes, then the payload.
pub open spec fn framed(payload: Seq<u8>) -> Seq<u8> {
    be32(payload.len() as u32) + payload
}

/// Frames `payload` for the connection.
pub fn frame(payload: &[u8]) -> (r: Vec<u8>)
    requires
        payload@.len() <= u32::MAX,
    ensures
        r@ == framed(payload@),
{
    let prefix = write_be_u32(payload.len() as u32);
    let mut out: Vec<u8> = Vec::new();
    out.push(prefix[0]);
    out.push(prefix[1]);
    out.push(prefix[2]);
    out.push(prefix[3]);
    let ghost base = out@;
    assert(base =~= be32(payload@.len() as u32));
    let n = payload.len();
    let mut i: usize = 0;
    while i < n
        invariant
            n == payload@.len(),
            i <= n,
            out@ == base + payload@.subrange(0, i as int),
        decreases n - i,
    {
        out.push(payload[i]);
        i = i + 1;
        assert(out@ =~= base + payload@.subrange(0, i as int));
    }
    assert(payload@.subrange(0, n as int) =~= payload@);
    out
}

/// The payload length announced by a frame's first four bytes; `None` when
/// fewer than four bytes are given.
pub fn frame_length(prefix: &[u8]) -> (r: Option<u32>)
    ensures
        r is Some <==> prefix@.len() >= 4,
        r matches Some(n) ==> n == u32_of_be(prefix@),
{
    if prefix.len() < 4 {
        None
    } else {
        Some(read_be_u32(prefix))
    }
}

// ---------------------------------------------------------------------------
// Decoding what the engine sends back

/// The payloads of a run of data items filling `b` exactly; `None` where an
/// item is malformed, cut short, or an instruction.
pub open spec fn items_of(b: Seq<u8>) -> Option<Seq<Seq<u8>>>
    decreases b.len(),
{
    if b.len() == 0 {
        Some(Seq::empty())
    } else {
        match item_of(b) {
            Some((k, p, n)) => if k != Kind::Data || n == 0 || n > b.len() {
                None
            } else {
                match items_of(b.subrange(n as int, b.len() as int)) {
                    Some(rest) => Some(seq![p] + rest),
                    None => None,
                }
            },
            None => None,
        }
    }
}

pub open spec fn prefixed(acc: Seq<Seq<u8>>, o: Option<Seq<Seq<u8>>>) -> Option<Seq<Seq<u8>>> {
    match o {
        Some(rest) => Some(acc + rest),
        None => None,
    }
}

/// Decodes a run of data items that fills `b` exactly.
pub fn decode_items(b: &[u8]) -> (r: Result<Vec<Vec<u8>>, Error>)
    ensures
        items_of(b@) is None <==> r is Err,
        r matches Ok(v) ==> items_of(b@) == Some(views(v@)),
        r matches Err(e) ==> e == Error::MalformedHeader,
{
    let len = b.len();
    let mut out: Vec<Vec<u8>> = Vec::new();
    let mut pos: usize = 0;
    assert(b@.subrange(0, len as int) =~= b@);
    assert(views(out@) + Seq::<Seq<u8>>::empty() =~= Seq::<Seq<u8>>::empty());
    while pos < len
        invariant
            len == b@.len(),
            pos <= len,
            items_of(b@) == prefixed(views(out@), items_of(b@.subrange(pos as int, len as int))),
        decreases len - pos,
    {
        let ghost rest = b@.subrange(pos as int, len as int);
        let tail = &b[pos..len];
        assert(tail@ == rest);
        match decode(tail) {
            Ok((k, p, n)) => {
                if k != Kind::Data || n == 0 {
                    return Err(Error::MalformedHeader);
                }
                let ghost acc = views(out@);
                let ghost next = b@.subrange((pos + n) as int, len as int);
                assert(rest.subrange(n as int, rest.len() as int) =~= next);
                out.push(p);
                assert(views(out@) =~= acc.push(p@));
                proof {
                    match items_of(next) {
                        Some(s) => {
                            assert(acc + (seq![p@] + s) =~= acc.push(p@) + s);
                        },
                        None => {},
                    }
                }
                pos = pos + n;
            },
            Err(e) => {
                return Err(e);
            },
        }
    }
    assert(b@.subrange(pos as int, len as int) =~= Seq::<u8>::empty());
    assert(views(out@) + Seq::<Seq<u8>>::empty() =~= views(out@));
    Ok(out)
}

/// The terminal answer to a submission: the stack entries, bottom first, and
/// the error description when the program failed.
pub struct Reply {
    pub entries: Vec<Vec<u8>>,
    pub failure: Option<Vec<u8>>,
}

/// How a decoded result splits: the last top-level item is the status the
/// failure-isolating wrapper (`TRY`) leaves; empty means success, anything
/// else is the error that ended the program.
///
/// This reads the status from the last item, not, as a literal reading of
/// the protocol's wording would, from a lone first item. The two agree on a
/// single item. They differ on a successful program: `TRY` leaves an empty
/// status after the program's own stack, so a run of `UUID/V4` ends in two
/// items, the identifier and the empty status. Only the last-item reading
/// reports that as one stack entry of 16 bytes, as the protocol expects.
pub open spec fn reply_of(items: Seq<Seq<u8>>) -> (Seq<Seq<u8>>, Option<Seq<u8>>) {
    if items.len() == 0 {
        (items, None)
    } else if items.last().len() == 0 {
        (items.drop_last(), None)
    } else {
        (items.drop_last(), Some(items.last()))
    }
}

/// A frame from the engine, told apart by its leading tag.
pub enum Message {
    /// A traced value.
    Trace(Vec<u8>),
    /// The terminal result.
    Done(Reply),
    /// A frame with neither tag.
    Other,
}

/// What a message holds, as sequences.
pub enum MessageView {
    Trace(Seq<u8>),
    Done(Seq<Seq<u8>>, Option<Seq<u8>>),
    Other,
}

impl View for Message {
    type V = MessageView;

    open spec fn view(&self) -> MessageView {
        match self {
            Message::Trace(v) => MessageView::Trace(v@),
            Message::Done(r) => MessageView::Done(
                views(r.entries@),
                match r.failure {
                    Some(f) => Some(f@),
                    None => None,
                },
            ),
            Message::Other => MessageView::Other,
        }
    }
}

pub open spec fn has_tag(p: Seq<u8>, tag: Seq<u8>) -> bool {
    p.len() >= tag.len() && p.subrange(0, tag.len() as int) == tag
}

/// What a frame's payload says; `None` where its items are malformed.
pub open spec fn message_of(p: Seq<u8>) -> Option<MessageView> {
    if has_tag(p, TRACE_TAG@) {
        match item_of(p.subrange(5, p.len() as int)) {
            Some((k, v, n)) => if k == Kind::Data { Some(MessageView::Trace(v)) } else { None },
            None => None,
        }
    } else if has_tag(p, RESULT_TAG@) {
        match items_of(p.subrange(6, p.len() as int)) {
            Some(items) => Some(MessageView::Done(reply_of(items).0, reply_of(items).1)),
            None => None,
        }
    } else {
        Some(MessageView::Other)
    }
}

/// Whether `p` starts with `tag`.
pub fn starts_with(p: &[u8], tag: &[u8]) -> (r: bool)
    ensures
        r == has_tag(p@, tag@),
{
    if p.len() < tag.len() {
        return false;
    }
    let mut i: usize = 0;
    while i < tag.len()
        invariant
            p@.len() >= tag@.len(),
            i <= tag@.len(),
            forall|j: int| 0 <= j < i ==> p@[j] == tag@[j],
        decreases tag@.len() - i,
    {
        if p[i] != tag[i] {
            return false;
        }
        i = i + 1;
    }
    assert(p@.subrange(0, tag@.len() as int) =~= tag@);
    true
}

/// Reads the payload of one frame from the engine.
pub fn read_message(p: &[u8]) -> (r: Result<Message, Error>)
    ensures
        message_of(p@) is None <==> r is Err,
        r matches Ok(m) ==> message_of(p@) == Some(m@),
        r matches Err(e) ==> e == Error::MalformedHeader,
{
    let len = p.len();
    if starts_with(p, &TRACE_TAG) {
        let (k, v, _) = decode(&p[5..len])?;
        if k != Kind::Data {
            return Err(Error::MalformedHeader);
        }
        Ok(Message::Trace(v))
    } else if starts_with(p, &RESULT_TAG) {
        let mut items = decode_items(&p[6..len])?;
        let ghost all = views(items@);
        if items.len() == 0 {
            return Ok(Message::Done(Reply { entries: items, failure: None }));
        }
        let last = items.pop().unwrap();
        assert(views(items@) =~= all.drop_last());
        if last.len() == 0 {
            Ok(Message::Done(Reply { entries: items, failure: None }))
        } else {
            Ok(Message::Done(Reply { entries: items, failure: Some(last) }))
        }
    } else {
        Ok(Message::Other)
    }
}

// ---------------------------------------------------------------------------
// Submission

/// `WRAP`
pub const WRAP: [u8; 4] = [0x57, 0x52, 0x41, 0x50];
/// `SWAP`
pub const SWAP: [u8; 4] = [0x53, 0x57, 0x41, 0x50];
/// `CONCAT`
pub const CONCAT: [u8; 6] = [0x43, 0x4f, 0x4e, 0x43, 0x41, 0x54];
/// `PUBLISH`
pub const PUBLISH: [u8; 7] = [0x50, 0x55, 0x42, 0x4c, 0x49, 0x53, 0x48];
/// `SUBSCRIBE`
pub const SUBSCRIBE: [u8; 9] = [0x53, 0x55, 0x42, 0x53, 0x43, 0x52, 0x49, 0x42, 0x45];
/// `UNSUBSCRIBE`
pub const UNSUBSCRIBE: [u8; 11] = [0x55, 0x4e, 0x53, 0x55, 0x42, 0x53, 0x43, 0x52, 0x49, 0x42, 0x45];
/// `___subscription___`: the name the subscription is kept under.
pub const SUBSCRIPTION: [u8; 18] = [
    0x5f, 0x5f, 0x5f, 0x73, 0x75, 0x62, 0x73, 0x63, 0x72, 0x69, 0x70, 0x74, 0x69, 0x6f, 0x6e, 0x5f,
    0x5f, 0x5f,
];
/// `SET`
pub const SET: [u8; 3] = [0x53, 0x45, 0x54];
/// `DEF`
pub const DEF: [u8; 3] = [0x44, 0x45, 0x46];
/// `TRY`
pub const TRY: [u8; 3] = [0x54, 0x52, 0x59];
/// `STACK`
pub const STACK: [u8; 5] = [0x53, 0x54, 0x41, 0x43, 0x4b];

/// An instruction reference: the encoded instruction carried as a data value.
pub open spec fn encoded_reference(name: Seq<u8>) -> Seq<u8> {
    encoded_data(encoded_instruction(name))
}

/// The body of `TRACE`: wraps the top value, tags it `TRACE` and publishes
/// it under the correlation identifier `id`.
pub open spec fn trace_program(id: Seq<u8>) -> Seq<u8> {
    encoded_data(seq![1u8]) + encoded_instruction(WRAP@) + encoded_data(TRACE_TAG@)
        + encoded_instruction(SWAP@) + encoded_instruction(CONCAT@) + encoded_data(id)
        + encoded_instruction(PUBLISH@)
}

/// The program sent for the compiled user program `compiled`: subscribe on
/// `id`, define `TRACE` to publish under `id`, run the user program inside
/// `TRY`, publish the final stack tagged `RESULT` under `id`, unsubscribe.
pub open spec fn submission_program(id: Seq<u8>, compiled: Seq<u8>) -> Seq<u8> {
    encoded_data(id) + encoded_instruction(SUBSCRIBE@) + encoded_reference(SUBSCRIPTION@)
        + encoded_instruction(SET@) + encoded_data(trace_program(id)) + encoded_reference(TRACE_TAG@)
        + encoded_instruction(DEF@) + encoded_data(compiled) + encoded_instruction(TRY@)
        + encoded_instruction(STACK@) + encoded_data(RESULT_TAG@) + encoded_instruction(SWAP@)
        + encoded_instruction(CONCAT@) + encoded_data(id) + encoded_instruction(PUBLISH@)
        + encoded_instruction(SUBSCRIPTION@) + encoded_instruction(UNSUBSCRIBE@)
}

fn push_reference(out: &mut Vec<u8>, name: &[u8])
    requires
        valid_name(name@),
    ensures
        final(out)@ == old(out)@ + encoded_reference(name@),
{
    let mut e: Vec<u8> = Vec::new();
    push_instruction(&mut e, name);
    assert(e@ =~= encoded_instruction(name@));
    push_data(out, e.as_slice());
}

fn trace_body(id: &[u8]) -> (r: Vec<u8>)
    requires
        id@.len() == 16,
    ensures
        r@ == trace_program(id@),
{
    let one: [u8; 1] = [1];
    let mut out: Vec<u8> = Vec::new();
    assert(WRAP@ =~= seq![0x57u8, 0x52, 0x41, 0x50]);
    assert(SWAP@ =~= seq![0x53u8, 0x57, 0x41, 0x50]);
    assert(CONCAT@ =~= seq![0x43u8, 0x4f, 0x4e, 0x43, 0x41, 0x54]);
    assert(PUBLISH@ =~= seq![0x50u8, 0x55, 0x42, 0x4c, 0x49, 0x53, 0x48]);
    push_data(&mut out, &one);
    push_instruction(&mut out, &WRAP);
    push_data(&mut out, &TRACE_TAG);
    push_instruction(&mut out, &SWAP);
    push_instruction(&mut out, &CONCAT);
    push_data(&mut out, id);
    push_instruction(&mut out, &PUBLISH);
    assert(one@ =~= seq![1u8]);
    assert(out@ =~= trace_program(id@));
    out
}

/// The program that submits `compiled` under the correlation identifier `id`.
pub fn submission(id: &[u8], compiled: &[u8]) -> (r: Vec<u8>)
    requires
        id@.len() == 16,
        compiled@.len() <= u32::MAX,
    ensures
        r@ == submission_program(id@, compiled@),
{
    let trace = trace_body(id);
    assert(trace@.len() < 200) by {
        assert(trace_program(id@).len() < 200);
    }
    assert(SUBSCRIBE@ =~= seq![0x53u8, 0x55, 0x42, 0x53, 0x43, 0x52, 0x49, 0x42, 0x45]);
    assert(UNSUBSCRIBE@ =~= seq![0x55u8, 0x4e, 0x53, 0x55, 0x42, 0x53, 0x43, 0x52, 0x49, 0x42, 0x45]);
    assert(SUBSCRIPTION@ =~= seq![
        0x5fu8, 0x5f, 0x5f, 0x73, 0x75, 0x62, 0x73, 0x63, 0x72, 0x69, 0x70, 0x74, 0x69, 0x6f, 0x6e, 0x5f,
        0x5f, 0x5f,
    ]);
    assert(SET@ =~= seq![0x53u8, 0x45, 0x54]);
    assert(DEF@ =~= seq![0x44u8, 0x45, 0x46]);
    assert(TRY@ =~= seq![0x54u8, 0x52, 0x59]);
    assert(STACK@ =~= seq![0x53u8, 0x54, 0x41, 0x43, 0x4b]);
    assert(SWAP@ =~= seq![0x53u8, 0x57, 0x41, 0x50]);
    assert(CONCAT@ =~= seq![0x43u8, 0x4f, 0x4e, 0x43, 0x41, 0x54]);
    assert(PUBLISH@ =~= seq![0x50u8, 0x55, 0x42, 0x4c, 0x49, 0x53, 0x48]);
    assert(TRACE_TAG@ =~= seq![0x54u8, 0x52, 0x41, 0x43, 0x45]);
    let mut out: Vec<u8> = Vec::new();
    push_data(&mut out, id);
    push_instruction(&mut out, &SUBSCRIBE);
    push_reference(&mut out, &SUBSCRIPTION);
    push_instruction(&mut out, &SET);
    push_data(&mut out, trace.as_slice());
    push_reference(&mut out, &TRACE_TAG);
    push_instruction(&mut out, &DEF);
    push_data(&mut out, compiled);
    push_instruction(&mut out, &TRY);
    push_instruction(&mut out, &STACK);
    push_data(&mut out, &RESULT_TAG);
    push_instruction(&mut out, &SWAP);
    push_instruction(&mut out, &CONCAT);
    push_data(&mut out, id);
    push_instruction(&mut out, &PUBLISH);
    push_instruction(&mut out, &SUBSCRIPTION);
    push_instruction(&mut out, &UNSUBSCRIBE);
    assert(out@ =~= submission_program(id@, compiled@));
    out
}

} // verus!
