use vstd::prelude::*;
use crate::encoding::{encoded_data, encoded_instruction, push_data, push_instruction, valid_name};
use crate::mod_uuid::hex_value;

verus! {

/// Space, tab, line feed or carriage return.
pub open spec fn is_space(c: u8) -> bool {
    c == 32 || c == 9 || c == 10 || c == 13
}

/// Length of the run of non-space bytes that `t` starts with.
pub open spec fn word_len(t: Seq<u8>) -> nat
    decreases t.len(),
{
    if t.len() == 0 || is_space(t[0]) {
        0
    } else {
        1 + word_len(t.drop_first())
    }
}

/// Position of the first double quote in `t`, if any.
pub open spec fn quote_at(t: Seq<u8>) -> Option<nat>
    decreases t.len(),
{
    if t.len() == 0 {
        None
    } else if t[0] == 34 {
        Some(0)
    } else {
        match quote_at(t.drop_first()) {
            Some(i) => Some(i + 1),
            None => None,
        }
    }
}

/// Bytes spelled by an even number of hex digits.
pub open spec fn hex_bytes(h: Seq<u8>) -> Option<Seq<u8>> {
    if h.len() % 2 == 0 && forall|j: int| 0 <= j < h.len() ==> hex_value(#[trigger] h[j]) >= 0 {
        Some(Seq::new(h.len() / 2, |i: int| (hex_value(h[2 * i]) * 16 + hex_value(h[2 * i + 1])) as u8))
    } else {
        None
    }
}

/// The code of a word: `0x` and hex digits give that data value, `'NAME`
/// a reference to instruction `NAME` (carried as data), any other word the
/// instruction of that name.
pub open spec fn word_code(w: Seq<u8>) -> Option<Seq<u8>> {
    if w.len() >= 2 && w[0] == 48 && w[1] == 120 {
        match hex_bytes(w.subrange(2, w.len() as int)) {
            Some(b) => Some(encoded_data(b)),
            None => None,
        }
    } else if w.len() >= 1 && w[0] == 39 {
        if valid_name(w.drop_first()) {
            Some(encoded_data(encoded_instruction(w.drop_first())))
        } else {
            None
        }
    } else if valid_name(w) {
        Some(encoded_instruction(w))
    } else {
        None
    }
}

/// The binary program that the text `t` spells: items separated by spaces,
/// each a word (see `word_code`) or a string in double quotes, which gives
/// the data value of the bytes between the quotes. `None` where a word is
/// not valid or a string is not closed.
pub open spec fn compiled(t: Seq<u8>) -> Option<Seq<u8>>
    decreases t.len(),
{
    if t.len() == 0 {
        Some(Seq::empty())
    } else if is_space(t[0]) {
        compiled(t.drop_first())
    } else if t[0] == 34 {
        match quote_at(t.drop_first()) {
            Some(q) => if q + 2 > t.len() {
                None
            } else {
                match compiled(t.subrange(q + 2 as int, t.len() as int)) {
                    Some(rest) => Some(encoded_data(t.subrange(1, q + 1 as int)) + rest),
                    None => None,
                }
            },
            None => None,
        }
    } else {
        let n = word_len(t);
        if n == 0 || n > t.len() {
            None
        } else {
            match word_code(t.subrange(0, n as int)) {
            Some(c) => match compiled(t.subrange(n as int, t.len() as int)) {
                Some(rest) => Some(c + rest),
                None => None,
            },
            None => None,
        }
        }
    }
}

pub open spec fn appended(acc: Seq<u8>, o: Option<Seq<u8>>) -> Option<Seq<u8>> {
    match o {
        Some(rest) => Some(acc + rest),
        None => None,
    }
}

proof fn lemma_word_len_bound(t: Seq<u8>)
    ensures
        word_len(t) <= t.len(),
    decreases t.len(),
{
    if t.len() > 0 && !is_space(t[0]) {
        lemma_word_len_bound(t.drop_first());
    }
}

proof fn lemma_quote_bound(t: Seq<u8>)
    ensures
        quote_at(t) matches Some(q) ==> q < t.len() && t[q as int] == 34,
    decreases t.len(),
{
    if t.len() > 0 && t[0] != 34 {
        lemma_quote_bound(t.drop_first());
    }
}

fn is_space_byte(c: u8) -> (r: bool)
    ensures
        r == is_space(c),
{
    c == 32 || c == 9 || c == 10 || c == 13
}

/// End of the word starting at `start`.
fn word_end(t: &[u8], start: usize) -> (r: usize)
    requires
        start <= t@.len(),
    ensures
        r == start + word_len(t@.subrange(start as int, t@.len() as int)),
        r <= t@.len(),
{
    let n = t.len();
    let mut j: usize = start;
    while j < n && !is_space_byte(t[j])
        invariant
            start <= j <= n,
            n == t@.len(),
            word_len(t@.subrange(start as int, n as int)) == (j - start) + word_len(
                t@.subrange(j as int, n as int),
            ),
        decreases n - j,
    {
        assert(t@.subrange(j as int, n as int).drop_first() =~= t@.subrange(j + 1 as int, n as int));
        j = j + 1;
    }
    assert(j == n ==> t@.subrange(j as int, n as int).len() == 0);
    j
}

/// Position of the first double quote at or after `start`, if any.
fn quote_from(t: &[u8], start: usize) -> (r: Option<usize>)
    requires
        start <= t@.len(),
    ensures
        match quote_at(t@.subrange(start as int, t@.len() as int)) {
            Some(q) => r == Some((start + q) as usize),
            None => r is None,
        },
{
    let n = t.len();
    let mut j: usize = start;
    while j < n
        invariant
            start <= j <= n,
            n == t@.len(),
            quote_at(t@.subrange(start as int, n as int)) == match quote_at(
                t@.subrange(j as int, n as int),
            ) {
                Some(q) => Some((q + (j - start)) as nat),
                None => None,
            },
        decreases n - j,
    {
        if t[j] == 34 {
            return Some(j);
        }
        assert(t@.subrange(j as int, n as int).drop_first() =~= t@.subrange(j + 1 as int, n as int));
        j = j + 1;
    }
    None
}

fn hex_nibble(c: u8) -> (r: Option<u8>)
    ensures
        hex_value(c) < 0 ==> r is None,
        hex_value(c) >= 0 ==> r == Some(hex_value(c) as u8),
{
    if 48 <= c && c <= 57 {
        Some(c - 48)
    } else if 97 <= c && c <= 102 {
        Some(c - 87)
    } else if 65 <= c && c <= 70 {
        Some(c - 55)
    } else {
        None
    }
}

/// The bytes spelled by the hex digits `t[start..end]`.
fn decode_hex(t: &[u8], start: usize, end: usize) -> (r: Option<Vec<u8>>)
    requires
        start <= end <= t@.len(),
    ensures
        match hex_bytes(t@.subrange(start as int, end as int)) {
            Some(b) => r matches Some(v) && v@ == b,
            None => r is None,
        },
{
    let ghost h = t@.subrange(start as int, end as int);
    if (end - start) % 2 != 0 {
        return None;
    }
    let mut out: Vec<u8> = Vec::new();
    let mut i: usize = start;
    while i < end
        invariant
            start <= i <= end,
            end <= t@.len(),
            h == t@.subrange(start as int, end as int),
            (i - start) % 2 == 0,
            (end - start) % 2 == 0,
            out@.len() == (i - start) / 2,
            forall|j: int| 0 <= j < i - start ==> hex_value(#[trigger] h[j]) >= 0,
            forall|k: int| 0 <= k < out@.len() ==> out@[k] == (hex_value(h[2 * k]) * 16 + hex_value(h[2 * k + 1])) as u8,
        decreases end - i,
    {
        let hi = hex_nibble(t[i]);
        let lo = hex_nibble(t[i + 1]);
        match (hi, lo) {
            (Some(a), Some(b)) => {
                assert(h[i - start] == t@[i as int] && h[i - start + 1] == t@[i + 1]);
                out.push(a * 16 + b);
                i = i + 2;
            },
            _ => {
                assert(h[i - start] == t@[i as int] && h[i - start + 1] == t@[i + 1]);
                return None;
            },
        }
    }
    let ghost b = hex_bytes(h)->Some_0;
    assert(out@ =~= b);
    Some(out)
}

proof fn lemma_compiled_space(t: Seq<u8>)
    requires
        t.len() > 0,
        is_space(t[0]),
    ensures
        compiled(t) == compiled(t.drop_first()),
{
}

proof fn lemma_compiled_string(t: Seq<u8>)
    requires
        t.len() > 0,
        t[0] == 34,
    ensures
        match quote_at(t.drop_first()) {
            Some(q) => q + 2 <= t.len() && compiled(t) == appended(
                encoded_data(t.subrange(1, q + 1 as int)),
                compiled(t.subrange(q + 2 as int, t.len() as int)),
            ),
            None => compiled(t) is None,
        },
{
    lemma_quote_bound(t.drop_first());
    match quote_at(t.drop_first()) {
        Some(q) => {
            match compiled(t.subrange(q + 2 as int, t.len() as int)) {
                Some(r) => {},
                None => {},
            }
        },
        None => {},
    }
}

proof fn lemma_compiled_word(t: Seq<u8>)
    requires
        t.len() > 0,
        !is_space(t[0]),
        t[0] != 34,
    ensures
        0 < word_len(t) <= t.len(),
        compiled(t) == match word_code(t.subrange(0, word_len(t) as int)) {
            Some(c) => appended(c, compiled(t.subrange(word_len(t) as int, t.len() as int))),
            None => None,
        },
{
    lemma_word_len_bound(t);
    let n = word_len(t);
    match word_code(t.subrange(0, n as int)) {
        Some(c) => {
            match compiled(t.subrange(n as int, t.len() as int)) {
                Some(r) => {},
                None => {},
            }
        },
        None => {},
    }
}

proof fn lemma_appended_assoc(a: Seq<u8>, b: Seq<u8>, o: Option<Seq<u8>>)
    ensures
        appended(a, appended(b, o)) == appended(a + b, o),
{
    match o {
        Some(r) => {
            assert(a + (b + r) =~= a + b + r);
        },
        None => {},
    }
}

fn is_name(b: &[u8]) -> (r: bool)
    ensures
        r == valid_name(b@),
{
    if b.len() == 0 || b.len() > 127 {
        return false;
    }
    let mut k: usize = 0;
    while k < b.len()
        invariant
            k <= b@.len(),
            forall|j: int| 0 <= j < k ==> b@[j] < 0x80,
        decreases b@.len() - k,
    {
        if b[k] >= 0x80 {
            return false;
        }
        k = k + 1;
    }
    true
}

/// Appends the code of the word `t[start..end]` to `out`; `false` (with
/// `out` in some state) where the word is not valid.
fn push_word(out: &mut Vec<u8>, t: &[u8], start: usize, end: usize) -> (r: bool)
    requires
        start < end <= t@.len(),
        t@.len() <= u32::MAX,
    ensures
        r == (word_code(t@.subrange(start as int, end as int)) is Some),
        r ==> final(out)@ == old(out)@ + word_code(t@.subrange(start as int, end as int))->Some_0,
{
    let ghost w = t@.subrange(start as int, end as int);
    if end - start >= 2 && t[start] == 48 && t[start + 1] == 120 {
        assert(w.subrange(2, w.len() as int) =~= t@.subrange(start + 2 as int, end as int));
        match decode_hex(t, start + 2, end) {
            Some(b) => {
                push_data(out, b.as_slice());
                true
            },
            None => false,
        }
    } else {
        let quoted = t[start] == 39;
        let named = if quoted { &t[start + 1..end] } else { &t[start..end] };
        if quoted {
            assert(named@ =~= w.drop_first());
        } else {
            assert(named@ =~= w);
        }
        if !is_name(named) {
            return false;
        }
        if quoted {
            let mut e: Vec<u8> = Vec::new();
            push_instruction(&mut e, named);
            assert(e@ =~= encoded_instruction(named@));
            push_data(out, e.as_slice());
        } else {
            push_instruction(out, named);
        }
        true
    }
}

/// Compiles program text into its binary form; `None` where a word is not
/// valid or a string is not closed.
///
/// This covers a subset of the script language: items separated by
/// whitespace, each a string in double quotes (no escapes), `0x` followed by
/// an even number of hex digits, `'NAME` for a reference to an instruction,
/// or a bare instruction name. Numbers and `[...]` blocks are not
/// recognised: a word such as `1` compiles to an instruction named `1`, and
/// `[` to an instruction named `[`.
pub fn compile(t: &[u8]) -> (r: Option<Vec<u8>>)
    requires
        t@.len() <= u32::MAX,
    ensures
        match compiled(t@) {
            Some(c) => r matches Some(v) && v@ == c,
            None => r is None,
        },
{
    let n = t.len();
    let mut out: Vec<u8> = Vec::new();
    let mut pos: usize = 0;
    assert(t@.subrange(0, n as int) =~= t@);
    assert(out@ + t@.subrange(0, 0) =~= Seq::<u8>::empty());
    while pos < n
        invariant
            n == t@.len(),
            n <= u32::MAX,
            pos <= n,
            compiled(t@) == appended(out@, compiled(t@.subrange(pos as int, n as int))),
        decreases n - pos,
    {
        let ghost rest = t@.subrange(pos as int, n as int);
        let ghost acc = out@;
        let c = t[pos];
        if is_space_byte(c) {
            proof {
                lemma_compiled_space(rest);
            }
            assert(rest.drop_first() =~= t@.subrange(pos + 1 as int, n as int));
            pos = pos + 1;
        } else if c == 34 {
            proof {
                lemma_compiled_string(rest);
            }
            assert(rest.drop_first() =~= t@.subrange(pos + 1 as int, n as int));
            match quote_from(t, pos + 1) {
                Some(q) => {
                    let ghost qq = (q - pos - 1) as nat;
                    assert(rest.subrange(qq + 2 as int, rest.len() as int) =~= t@.subrange(q + 1 as int, n as int));
                    let s = &t[pos + 1..q];
                    assert(s@ =~= rest.subrange(1, qq + 1 as int));
                    push_data(&mut out, s);
                    proof {
                        lemma_appended_assoc(acc, encoded_data(s@), compiled(t@.subrange(q + 1 as int, n as int)));
                    }
                    pos = q + 1;
                },
                None => {
                    return None;
                },
            }
        } else {
            proof {
                lemma_compiled_word(rest);
            }
            let end = word_end(t, pos);
            assert(rest.subrange(0, (end - pos) as int) =~= t@.subrange(pos as int, end as int));
            assert(rest.subrange((end - pos) as int, rest.len() as int) =~= t@.subrange(end as int, n as int));
            if !push_word(&mut out, t, pos, end) {
                return None;
            }
            proof {
                let cd = word_code(t@.subrange(pos as int, end as int))->Some_0;
                lemma_appended_assoc(acc, cd, compiled(t@.subrange(end as int, n as int)));
            }
            pos = end;
        }
    }
    assert(t@.subrange(pos as int, n as int) =~= Seq::<u8>::empty());
    assert(out@ + Seq::<u8>::empty() =~= out@);
    Some(out)
}

} // verus!
