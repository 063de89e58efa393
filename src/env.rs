use vstd::prelude::*;
use crate::error::{Error, Fault};

verus! {

/// Identity of one execution, distinguishing concurrent programs.
#[derive(Debug, Clone, Copy, PartialEq, Eq, Structural)]
pub struct EnvId(pub u64);

/// The execution context of one program: its operand stack, whose last
/// element is the top, and its process identity. Values pushed are owned by
/// the context and released with it.
pub struct Env {
    stack: Vec<Vec<u8>>,
    pid: EnvId,
}

/// The view of what a pop returned.
pub open spec fn popped(r: Result<Vec<u8>, Error>) -> Result<Seq<u8>, Fault> {
    match r {
        Ok(v) => Ok(v@),
        Err(e) => Err(e@),
    }
}

impl Env {
    /// The stack as byte sequences, bottom first.
    pub closed spec fn stack(&self) -> Seq<Seq<u8>> {
        self.stack@.map_values(|v: Vec<u8>| v@)
    }

    pub closed spec fn id(&self) -> EnvId {
        self.pid
    }

    /// A fresh context with an empty stack.
    pub fn new(pid: EnvId) -> (r: Env)
        ensures
            r.stack() == Seq::<Seq<u8>>::empty(),
            r.id() == pid,
    {
        let r = Env { stack: Vec::new(), pid };
        assert(r.stack() =~= Seq::<Seq<u8>>::empty());
        r
    }

    pub fn pid(&self) -> (r: EnvId)
        ensures
            r == self.id(),
    {
        self.pid
    }

    pub fn len(&self) -> (r: usize)
        ensures
            r == self.stack().len(),
    {
        self.stack.len()
    }

    /// Puts `value` on top of the stack.
    pub fn push(&mut self, value: Vec<u8>)
        ensures
            final(self).stack() == old(self).stack().push(value@),
            final(self).id() == old(self).id(),
    {
        self.stack.push(value);
        assert(self.stack() =~= old(self).stack().push(value@));
    }

    /// Removes and returns the top of the stack; `EmptyStack` (and no change)
    /// when there is none.
    pub fn pop(&mut self) -> (r: Result<Vec<u8>, Error>)
        ensures
            final(self).id() == old(self).id(),
            (popped(r), final(self).stack()) == pop_spec(old(self).stack()),
    {
        match self.stack.pop() {
            Some(v) => {
                assert(self.stack() =~= old(self).stack().drop_last());
                Ok(v)
            },
            None => Err(Error::EmptyStack),
        }
    }

    /// A zeroed buffer of `len` bytes for the caller to fill and push.
    pub fn allocate(&self, len: usize) -> (r: Vec<u8>)
        ensures
            r@ == Seq::new(len as nat, |i: int| 0u8),
    {
        let mut v: Vec<u8> = Vec::new();
        let mut i: usize = 0;
        while i < len
            invariant
                i <= len,
                v@ == Seq::new(i as nat, |j: int| 0u8),
            decreases len - i,
        {
            v.push(0u8);
            i = i + 1;
            assert(v@ =~= Seq::new(i as nat, |j: int| 0u8));
        }
        v
    }
}

/// What a pop does to a stack: the value taken (or the fault) and the stack left.
pub open spec fn pop_spec(s: Seq<Seq<u8>>) -> (Result<Seq<u8>, Fault>, Seq<Seq<u8>>) {
    if s.len() == 0 {
        (Err(Fault::EmptyStack), s)
    } else {
        (Ok(s.last()), s.drop_last())
    }
}

/// Popping an empty context fails with `EmptyStack` and leaves it empty, so
/// a second pop fails in the same way.
pub proof fn lemma_pop_empty(s: Seq<Seq<u8>>)
    requires
        s.len() == 0,
    ensures
        pop_spec(s) == (Err::<Seq<u8>, Fault>(Fault::EmptyStack), s),
        pop_spec(pop_spec(s).1) == pop_spec(s),
{
}

} // verus!
