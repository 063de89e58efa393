use vstd::prelude::*;
use uuid::Uuid;
use crate::dispatch::Dispatcher;
use crate::encoding::to_bytes;
use crate::env::{Env, EnvId};
use crate::error::{outcome, Error, Fault, PassResult};

verus! {

/// `UUID/V4`: pushes a fresh random identifier.
pub const UUID_V4: [u8; 8] = [0x87, 0x55, 0x55, 0x49, 0x44, 0x2f, 0x56, 0x34];

/// `UUID/->STRING`: replaces an identifier by its hyphenated text.
pub const UUID_TO_STRING: [u8; 14] = [
    0x8d, 0x55, 0x55, 0x49, 0x44, 0x2f, 0x2d, 0x3e, 0x53, 0x54, 0x52, 0x49, 0x4e, 0x47,
];

/// `UUID/STRING->`: replaces identifier text by the identifier's bytes.
pub const UUID_STRING_TO: [u8; 14] = [
    0x8d, 0x55, 0x55, 0x49, 0x44, 0x2f, 0x53, 0x54, 0x52, 0x49, 0x4e, 0x47, 0x2d, 0x3e,
];

// ---------------------------------------------------------------------------
// Identifier layout and text

/// Sixteen bytes with the version-4 nibble and the RFC 4122 variant bits.
pub open spec fn is_v4(b: Seq<u8>) -> bool {
    b.len() == 16 && b[6] & 0xf0u8 == 0x40u8 && b[8] & 0xc0u8 == 0x80u8
}

/// The lowercase hexadecimal digit of `x`, for `x < 16`.
pub open spec fn hex_digit(x: int) -> u8 {
    if x < 10 { (48 + x) as u8 } else { (87 + x) as u8 }
}

/// The value of a hexadecimal digit of either case, or -1.
pub open spec fn hex_value(c: u8) -> int {
    if 48 <= c <= 57 {
        c - 48
    } else if 97 <= c <= 102 {
        c - 87
    } else if 65 <= c <= 70 {
        c - 55
    } else {
        -1
    }
}

/// Two lowercase digits per byte, high nibble first.
pub open spec fn hex_of(b: Seq<u8>) -> Seq<u8> {
    Seq::new(
        2 * b.len(),
        |j: int| if j % 2 == 0 { hex_digit(b[j / 2] as int / 16) } else { hex_digit(b[j / 2] as int % 16) },
    )
}

/// Hyphens standing before position `k` of the 8-4-4-4-12 text form.
pub open spec fn hyphens_before(k: int) -> int {
    if k < 8 { 0 } else if k < 13 { 1 } else if k < 18 { 2 } else if k < 23 { 3 } else { 4 }
}

pub open spec fn is_hyphen_position(k: int) -> bool {
    k == 8 || k == 13 || k == 18 || k == 23
}

/// The canonical text of an identifier: 32 lowercase hex digits in groups of
/// 8-4-4-4-12 joined by hyphens.
pub open spec fn hyphenated(b: Seq<u8>) -> Seq<u8> {
    Seq::new(
        36,
        |k: int| if is_hyphen_position(k) { 45u8 } else { hex_of(b)[k - hyphens_before(k)] },
    )
}

/// 32 hex digits read as 16 bytes.
pub open spec fn from_hex32(h: Seq<u8>) -> Option<Seq<u8>> {
    if h.len() == 32 && forall|j: int| 0 <= j < 32 ==> hex_value(#[trigger] h[j]) >= 0 {
        Some(Seq::new(16, |i: int| (hex_value(h[2 * i]) * 16 + hex_value(h[2 * i + 1])) as u8))
    } else {
        None
    }
}

/// The digits of a 36-byte hyphenated form with its hyphens removed.
pub open spec fn without_hyphens(s: Seq<u8>) -> Option<Seq<u8>> {
    if s.len() == 36 && s[8] == 45 && s[13] == 45 && s[18] == 45 && s[23] == 45 {
        Some(
            Seq::new(
                32,
                |j: int|
                    s[j + if j < 8 { 0int } else if j < 12 { 1int } else if j < 16 { 2int } else if j < 20 { 3int } else { 4int }],
            ),
        )
    } else {
        None
    }
}

pub open spec fn from_hyphenated(s: Seq<u8>) -> Option<Seq<u8>> {
    match without_hyphens(s) {
        Some(h) => from_hex32(h),
        None => None,
    }
}

pub open spec fn ascii_lower(c: u8) -> u8 {
    if 65 <= c <= 90 { (c + 32) as u8 } else { c }
}

/// `urn:uuid:`
pub open spec fn urn_prefix() -> Seq<u8> {
    seq![117u8, 114, 110, 58, 117, 117, 105, 100, 58]
}

/// The identifier that text names: 32 hex digits, the hyphenated form, the
/// hyphenated form in braces, or it behind a `urn:uuid:` prefix of any
/// case; hex digits of either case.
pub open spec fn parsed(s: Seq<u8>) -> Option<Seq<u8>> {
    if s.len() == 32 {
        from_hex32(s)
    } else if s.len() == 36 {
        from_hyphenated(s)
    } else if s.len() == 38 && s[0] == 123 && s[37] == 125 {
        from_hyphenated(s.subrange(1, 37))
    } else if s.len() == 45 && forall|i: int| 0 <= i < 9 ==> ascii_lower(#[trigger] s[i]) == urn_prefix()[i] {
        from_hyphenated(s.subrange(9, 45))
    } else {
        None
    }
}

/// Relies on uuid's `Uuid::new_v4`: random bytes with the version nibble set
/// to 4 and the variant bits to `10`.
#[verifier::external_body]
fn new_v4_bytes() -> (r: Vec<u8>)
    ensures
        is_v4(r@),
{
    Uuid::new_v4().as_bytes().to_vec()
}

/// Relies on uuid's `Uuid::from_slice`, which takes exactly 16 bytes, and on
/// the `Display` of `Uuid::hyphenated`, which writes lowercase 8-4-4-4-12 text.
#[verifier::external_body]
fn hyphenated_text(b: &[u8]) -> (r: Option<Vec<u8>>)
    ensures
        r is Some <==> b@.len() == 16,
        r matches Some(t) ==> t@ == hyphenated(b@),
{
    match Uuid::from_slice(b) {
        Ok(u) => Some(u.hyphenated().to_string().into_bytes()),
        Err(_) => None,
    }
}

/// Relies on uuid's `Uuid::try_parse_ascii`, the parser behind `Uuid::from_str`:
/// simple, hyphenated, braced and URN forms, hex digits of either case.
#[verifier::external_body]
fn parse_text(s: &[u8]) -> (r: Option<Vec<u8>>)
    ensures
        match r {
            Some(b) => parsed(s@) == Some(b@),
            None => parsed(s@) is None,
        },
{
    match Uuid::try_parse_ascii(s) {
        Ok(u) => Some(u.as_bytes().to_vec()),
        Err(_) => None,
    }
}

/// Text form then parse gives the identifier back.
pub proof fn lemma_text_round_trip(b: Seq<u8>)
    requires
        b.len() == 16,
    ensures
        parsed(hyphenated(b)) == Some(b),
{
    let t = hyphenated(b);
    let h = hex_of(b);
    assert(t[8] == 45 && t[13] == 45 && t[18] == 45 && t[23] == 45);
    let w = without_hyphens(t)->Some_0;
    assert(w =~= h);
    assert forall|j: int| 0 <= j < 32 implies hex_value(#[trigger] h[j]) >= 0 by {
        assert(b[j / 2] as int / 16 < 16 && b[j / 2] as int % 16 < 16);
    }
    let r = from_hex32(h)->Some_0;
    assert forall|i: int| 0 <= i < 16 implies r[i] == b[i] by {
        assert((2 * i) / 2 == i && (2 * i) % 2 == 0);
        assert((2 * i + 1) / 2 == i && (2 * i + 1) % 2 == 1);
        assert(hex_value(h[2 * i]) == b[i] as int / 16);
        assert(hex_value(h[2 * i + 1]) == b[i] as int % 16);
    }
    assert(r =~= b);
}

// ---------------------------------------------------------------------------
// The handler

/// Whether two byte strings are equal.
pub fn same_bytes(a: &[u8], b: &[u8]) -> (r: bool)
    ensures
        r == (a@ == b@),
{
    if a.len() != b.len() {
        return false;
    }
    let mut i: usize = 0;
    while i < a.len()
        invariant
            a@.len() == b@.len(),
            i <= a@.len(),
            forall|j: int| 0 <= j < i ==> a@[j] == b@[j],
        decreases a@.len() - i,
    {
        if a[i] != b[i] {
            return false;
        }
        i = i + 1;
    }
    assert(a@ =~= b@);
    true
}

/// What `UUID/V4` may do: push any version-4 identifier.
pub open spec fn v4_performs(pre: Seq<Seq<u8>>, post: Seq<Seq<u8>>, r: Result<(), Fault>) -> bool {
    r == Ok::<(), Fault>(()) && exists|v: Seq<u8>| is_v4(v) && post == pre.push(v)
}

/// What `UUID/->STRING` does: pop; 16 bytes become their hyphenated text,
/// anything else is reported as invalid.
pub open spec fn to_text_step(pre: Seq<Seq<u8>>) -> (Result<(), Fault>, Seq<Seq<u8>>) {
    if pre.len() == 0 {
        (Err(Fault::EmptyStack), pre)
    } else if pre.last().len() == 16 {
        (Ok(()), pre.drop_last().push(hyphenated(pre.last())))
    } else {
        (Err(Fault::InvalidValue(pre.last())), pre.drop_last())
    }
}

/// What `UUID/STRING->` does: pop; canonical hyphenated identifier text
/// (8-4-4-4-12 hex digits of either case) becomes its 16 bytes, anything
/// else, other identifier spellings included, is reported as invalid.
pub open spec fn from_text_step(pre: Seq<Seq<u8>>) -> (Result<(), Fault>, Seq<Seq<u8>>) {
    if pre.len() == 0 {
        (Err(Fault::EmptyStack), pre)
    } else {
        match from_hyphenated(pre.last()) {
            Some(b) => (Ok(()), pre.drop_last().push(b)),
            None => (Err(Fault::InvalidValue(pre.last())), pre.drop_last()),
        }
    }
}

/// An identifier pushed by `UUID/V4`, turned to text by `UUID/->STRING` and
/// back by `UUID/STRING->`, comes back unchanged: both steps succeed and the
/// stack is as `UUID/V4` left it.
pub proof fn lemma_generated_round_trip(pre: Seq<Seq<u8>>, s: Seq<Seq<u8>>)
    requires
        v4_performs(pre, s, Ok(())),
    ensures
        to_text_step(s).0 == Ok::<(), Fault>(()),
        from_text_step(to_text_step(s).1) == (Ok::<(), Fault>(()), s),
{
    let v = choose|v: Seq<u8>| is_v4(v) && s == pre.push(v);
    assert(s.last() == v);
    assert(s.drop_last() =~= pre);
    lemma_text_round_trip(v);
    let t = to_text_step(s).1;
    assert(t.last() == hyphenated(v));
    assert(t.drop_last() =~= pre);
    assert(pre.push(v) =~= s);
}

/// `UUID/->STRING` on a value that is not 16 bytes long fails with
/// `InvalidValue` carrying that value, and leaves the stack below it as it was.
pub proof fn lemma_to_text_rejects_length(below: Seq<Seq<u8>>, v: Seq<u8>)
    requires
        v.len() != 16,
    ensures
        to_text_step(below.push(v)) == (Err::<(), Fault>(Fault::InvalidValue(v)), below),
{
    assert(below.push(v).drop_last() =~= below);
}

/// The identifier module: generation of random identifiers and conversion
/// to and from their text form.
pub struct Handler {}

impl Handler {
    pub fn new() -> (r: Handler) {
        Handler {}
    }

    /// `UUID/V4`; any other instruction is passed on.
    pub fn handle_uuid_v4(&mut self, env: &mut Env, instruction: &[u8], pid: EnvId) -> (r: PassResult)
        ensures
            final(env).id() == old(env).id(),
            instruction@ != UUID_V4@ ==> outcome(r) == Err::<(), Fault>(
                Fault::UnknownInstruction(instruction@),
            ) && final(env).stack() == old(env).stack(),
            instruction@ == UUID_V4@ ==> v4_performs(old(env).stack(), final(env).stack(), outcome(r)),
    {
        if !same_bytes(instruction, &UUID_V4) {
            return Err(Error::UnknownInstruction(to_bytes(instruction)));
        }
        let v = new_v4_bytes();
        env.push(v);
        Ok(())
    }

    /// `UUID/->STRING`; any other instruction is passed on.
    pub fn handle_uuid_to_string(&mut self, env: &mut Env, instruction: &[u8], pid: EnvId) -> (r:
        PassResult)
        ensures
            final(env).id() == old(env).id(),
            instruction@ != UUID_TO_STRING@ ==> outcome(r) == Err::<(), Fault>(
                Fault::UnknownInstruction(instruction@),
            ) && final(env).stack() == old(env).stack(),
            instruction@ == UUID_TO_STRING@ ==> (outcome(r), final(env).stack()) == to_text_step(
                old(env).stack(),
            ),
    {
        if !same_bytes(instruction, &UUID_TO_STRING) {
            return Err(Error::UnknownInstruction(to_bytes(instruction)));
        }
        let top = env.pop()?;
        match hyphenated_text(&top) {
            Some(text) => {
                env.push(text);
                Ok(())
            },
            None => Err(Error::InvalidValue(top)),
        }
    }

    /// `UUID/STRING->`; any other instruction is passed on.
    pub fn handle_uuid_string_to(&mut self, env: &mut Env, instruction: &[u8], pid: EnvId) -> (r:
        PassResult)
        ensures
            final(env).id() == old(env).id(),
            instruction@ != UUID_STRING_TO@ ==> outcome(r) == Err::<(), Fault>(
                Fault::UnknownInstruction(instruction@),
            ) && final(env).stack() == old(env).stack(),
            instruction@ == UUID_STRING_TO@ ==> (outcome(r), final(env).stack()) == from_text_step(
                old(env).stack(),
            ),
    {
        if !same_bytes(instruction, &UUID_STRING_TO) {
            return Err(Error::UnknownInstruction(to_bytes(instruction)));
        }
        let top = env.pop()?;
        if top.len() != 36 {
            return Err(Error::InvalidValue(top));
        }
        match parse_text(&top) {
            Some(bytes) => {
                env.push(bytes);
                Ok(())
            },
            None => Err(Error::InvalidValue(top)),
        }
    }
}

impl Dispatcher for Handler {
    open spec fn claims(&self, instruction: Seq<u8>) -> bool {
        instruction == UUID_V4@ || instruction == UUID_TO_STRING@ || instruction == UUID_STRING_TO@
    }

    open spec fn performs(
        &self,
        pre: Seq<Seq<u8>>,
        instruction: Seq<u8>,
        post: Seq<Seq<u8>>,
        r: Result<(), Fault>,
    ) -> bool {
        if instruction == UUID_V4@ {
            v4_performs(pre, post, r)
        } else if instruction == UUID_TO_STRING@ {
            (r, post) == to_text_step(pre)
        } else {
            (r, post) == from_text_step(pre)
        }
    }

    fn handle(&mut self, env: &mut Env, instruction: &[u8], pid: EnvId) -> (r: PassResult) {
        let r = self.handle_uuid_v4(env, instruction, pid);
        if !(r matches Err(Error::UnknownInstruction(_))) {
            return r;
        }
        let r = self.handle_uuid_to_string(env, instruction, pid);
        if !(r matches Err(Error::UnknownInstruction(_))) {
            return r;
        }
        let r = self.handle_uuid_string_to(env, instruction, pid);
        if !(r matches Err(Error::UnknownInstruction(_))) {
            return r;
        }
        Err(Error::UnknownInstruction(to_bytes(instruction)))
    }
}

} // verus!
