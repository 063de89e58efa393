use vstd::prelude::*;
use crate::encoding::to_bytes;
use crate::mod_uuid::{hex_digit, hex_of};

verus! {

// ---------------------------------------------------------------------------
// Rendering values

/// Every byte is printable ASCII (space to tilde).
pub open spec fn is_printable(d: Seq<u8>) -> bool {
    forall|i: int| 0 <= i < d.len() ==> 0x20 <= #[trigger] d[i] <= 0x7e
}

/// A printable byte inside double quotes: quote and backslash get a backslash.
pub open spec fn escaped(c: u8) -> Seq<u8> {
    if c == 34 {
        seq![92u8, 34]
    } else if c == 92 {
        seq![92u8, 92]
    } else {
        seq![c]
    }
}

pub open spec fn quoted(d: Seq<u8>) -> Seq<u8>
    decreases d.len(),
{
    if d.len() == 0 {
        Seq::empty()
    } else {
        quoted(d.drop_last()) + escaped(d.last())
    }
}

/// How a value is shown: printable text in double quotes, anything else as
/// `0x` and lowercase hex; a space follows either.
pub open spec fn rendered(d: Seq<u8>) -> Seq<u8> {
    if is_printable(d) {
        seq![34u8] + quoted(d) + seq![34u8, 32]
    } else {
        seq![48u8, 120] + hex_of(d) + seq![32u8]
    }
}

fn hex_char(x: u8) -> (r: u8)
    requires
        x < 16,
    ensures
        r == hex_digit(x as int),
{
    if x < 10 { 48 + x } else { 87 + x }
}

fn printable(d: &[u8]) -> (r: bool)
    ensures
        r == is_printable(d@),
{
    let mut i: usize = 0;
    while i < d.len()
        invariant
            i <= d@.len(),
            forall|j: int| 0 <= j < i ==> 0x20 <= #[trigger] d@[j] <= 0x7e,
        decreases d@.len() - i,
    {
        if d[i] < 0x20 || d[i] > 0x7e {
            return false;
        }
        i = i + 1;
    }
    true
}

/// Appends the rendering of `data` to `out`.
pub fn render_item(out: &mut Vec<u8>, data: &[u8])
    ensures
        final(out)@ == old(out)@ + rendered(data@),
{
    let n = data.len();
    if printable(data) {
        out.push(34);
        let ghost base = out@;
        let mut i: usize = 0;
        assert(data@.subrange(0, 0) =~= Seq::<u8>::empty());
        assert(out@ =~= base + quoted(data@.subrange(0, 0)));
        while i < n
            invariant
                n == data@.len(),
                i <= n,
                out@ == base + quoted(data@.subrange(0, i as int)),
            decreases n - i,
        {
            let c = data[i];
            if c == 34 || c == 92 {
                out.push(92);
            }
            out.push(c);
            assert(data@.subrange(0, i + 1 as int).drop_last() =~= data@.subrange(0, i as int));
            i = i + 1;
            assert(out@ =~= base + quoted(data@.subrange(0, i as int)));
        }
        assert(data@.subrange(0, n as int) =~= data@);
        out.push(34);
        out.push(32);
        assert(out@ =~= old(out)@ + rendered(data@));
    } else {
        out.push(48);
        out.push(120);
        let ghost base = out@;
        let mut i: usize = 0;
        assert(out@ =~= base + hex_of(data@.subrange(0, 0)));
        while i < n
            invariant
                n == data@.len(),
                i <= n,
                out@ == base + hex_of(data@.subrange(0, i as int)),
            decreases n - i,
        {
            let c = data[i];
            out.push(hex_char(c / 16));
            out.push(hex_char(c % 16));
            i = i + 1;
            assert(out@ =~= base + hex_of(data@.subrange(0, i as int)));
        }
        assert(data@.subrange(0, n as int) =~= data@);
        out.push(32);
        assert(out@ =~= old(out)@ + rendered(data@));
    }
}

// ---------------------------------------------------------------------------
// Collecting input lines

/// What the terminal does with a line of input.
pub enum Input {
    /// The line asks for help.
    Help,
    /// Nothing to do: an unknown escape, or an empty program.
    Ignored,
    /// The line completes this program text, which is to be sent.
    Submit(Vec<u8>),
    /// The line was kept; more lines follow.
    More,
}

/// Input lines waiting for the one that ends the program with `.`.
pub struct LineBuffer {
    pending: Vec<u8>,
}

/// A line that starts with a backslash and holds at least one more byte.
pub open spec fn is_escape(line: Seq<u8>) -> bool {
    line.len() >= 2 && line[0] == 92
}

/// A line that ends with `.`.
pub open spec fn ends_program(line: Seq<u8>) -> bool {
    line.len() > 0 && line.last() == 46
}

impl LineBuffer {
    /// The text collected so far.
    pub closed spec fn pending(&self) -> Seq<u8> {
        self.pending@
    }

    pub fn new() -> (r: LineBuffer)
        ensures
            r.pending() == Seq::<u8>::empty(),
    {
        LineBuffer { pending: Vec::new() }
    }

    /// Takes one line. An escape line (`\\h` for help) leaves the buffer as it
    /// is. A line ending in `.` completes the program: the kept lines and this
    /// one without its `.`, submitted unless empty. Any other line is kept,
    /// followed by a space.
    pub fn feed(&mut self, line: &[u8]) -> (r: Input)
        ensures
            is_escape(line@) ==> final(self).pending() == old(self).pending() && if line@[1] == 104 {
                r is Help
            } else {
                r is Ignored
            },
            !is_escape(line@) && ends_program(line@) ==> final(self).pending() == Seq::<u8>::empty()
                && if old(self).pending() + line@.drop_last() == Seq::<u8>::empty() {
                r is Ignored
            } else {
                r matches Input::Submit(p) && p@ == old(self).pending() + line@.drop_last()
            },
            !is_escape(line@) && !ends_program(line@) ==> final(self).pending() == old(
                self,
            ).pending() + line@ + seq![32u8] && r is More,
    {
        let n = line.len();
        if n >= 2 && line[0] == 92 {
            if line[1] == 104 {
                Input::Help
            } else {
                Input::Ignored
            }
        } else if n > 0 && line[n - 1] == 46 {
            let ghost before = self.pending@;
            let mut i: usize = 0;
            while i < n - 1
                invariant
                    n == line@.len(),
                    n > 0,
                    i <= n - 1,
                    self.pending@ == before + line@.subrange(0, i as int),
                decreases n - 1 - i,
            {
                self.pending.push(line[i]);
                i = i + 1;
                assert(self.pending@ =~= before + line@.subrange(0, i as int));
            }
            assert(line@.subrange(0, n - 1 as int) =~= line@.drop_last());
            let program = to_bytes(self.pending.as_slice());
            self.pending = Vec::new();
            if program.len() == 0 {
                assert(program@ =~= Seq::<u8>::empty());
                Input::Ignored
            } else {
                Input::Submit(program)
            }
        } else {
            let ghost before = self.pending@;
            let mut i: usize = 0;
            while i < n
                invariant
                    n == line@.len(),
                    i <= n,
                    self.pending@ == before + line@.subrange(0, i as int),
                decreases n - i,
            {
                self.pending.push(line[i]);
                i = i + 1;
                assert(self.pending@ =~= before + line@.subrange(0, i as int));
            }
            assert(line@.subrange(0, n as int) =~= line@);
            self.pending.push(32);
            assert(self.pending@ =~= before + line@ + seq![32u8]);
            Input::More
        }
    }
}

} // verus!
