use vstd::prelude::*;
use crate::encoding::{decode, item_of, Kind};
use crate::env::{Env, EnvId};
use crate::error::{outcome, Error, Fault, PassResult};

verus! {

/// A handler module: it owns a fixed set of encoded instructions and
/// executes them against an execution context.
pub trait Dispatcher: Sized {
    /// Whether the handler owns `instruction` (compared as encoded bytes).
    spec fn claims(&self, instruction: Seq<u8>) -> bool;

    /// The outcomes allowed when the handler executes a claimed
    /// `instruction` on stack `pre`, leaving stack `post`.
    spec fn performs(
        &self,
        pre: Seq<Seq<u8>>,
        instruction: Seq<u8>,
        post: Seq<Seq<u8>>,
        r: Result<(), Fault>,
    ) -> bool;

    /// Offers `instruction` to the handler. One it does not own comes back as
    /// `UnknownInstruction` with the context untouched; one it owns is
    /// executed, and never reported as unknown.
    fn handle(&mut self, env: &mut Env, instruction: &[u8], pid: EnvId) -> (r: PassResult)
        ensures
            *final(self) == *old(self),
            final(env).id() == old(env).id(),
            !old(self).claims(instruction@) ==> outcome(r) == Err::<(), Fault>(
                Fault::UnknownInstruction(instruction@),
            ) && final(env).stack() == old(env).stack(),
            old(self).claims(instruction@) ==> !(r matches Err(Error::UnknownInstruction(_)))
                && old(self).performs(old(env).stack(), instruction@, final(env).stack(), outcome(r)),
    ;
}

/// Two dispatchers in order: an instruction goes to `first` and, only when
/// `first` does not own it, to `rest`.
pub struct Chain<A, B> {
    pub first: A,
    pub rest: B,
}

impl<A: Dispatcher, B: Dispatcher> Dispatcher for Chain<A, B> {
    open spec fn claims(&self, instruction: Seq<u8>) -> bool {
        self.first.claims(instruction) || self.rest.claims(instruction)
    }

    open spec fn performs(
        &self,
        pre: Seq<Seq<u8>>,
        instruction: Seq<u8>,
        post: Seq<Seq<u8>>,
        r: Result<(), Fault>,
    ) -> bool {
        if self.first.claims(instruction) {
            self.first.performs(pre, instruction, post, r)
        } else {
            self.rest.performs(pre, instruction, post, r)
        }
    }

    fn handle(&mut self, env: &mut Env, instruction: &[u8], pid: EnvId) -> (r: PassResult) {
        let r = self.first.handle(env, instruction, pid);
        match r {
            Err(Error::UnknownInstruction(_)) => self.rest.handle(env, instruction, pid),
            _ => r,
        }
    }
}

/// Routing through a chain: an instruction that `first` does not own but
/// `rest` does gets exactly the outcomes of `rest`, so `first` only inspects
/// it; one that neither owns is not owned by the chain, whose `handle` then
/// reports it as `UnknownInstruction` with those exact bytes.
pub proof fn lemma_chain_routing<A: Dispatcher, B: Dispatcher>(
    c: Chain<A, B>,
    pre: Seq<Seq<u8>>,
    instruction: Seq<u8>,
    post: Seq<Seq<u8>>,
    r: Result<(), Fault>,
)
    ensures
        !c.first.claims(instruction) && c.rest.claims(instruction) ==> c.claims(instruction) && (
        c.performs(pre, instruction, post, r) == c.rest.performs(pre, instruction, post, r)),
        !c.first.claims(instruction) && !c.rest.claims(instruction) ==> !c.claims(instruction),
        c.first.claims(instruction) ==> (c.performs(pre, instruction, post, r)
            == c.first.performs(pre, instruction, post, r)),
{
}

/// The outcomes allowed when `d` runs the encoded program `prog` on stack
/// `pre`, leaving `post`: items run left to right, data values are pushed,
/// instructions go to `d`, and the first failure ends the run.
pub open spec fn runs<D: Dispatcher>(
    d: D,
    pre: Seq<Seq<u8>>,
    prog: Seq<u8>,
    post: Seq<Seq<u8>>,
    r: Result<(), Fault>,
) -> bool
    decreases prog.len(),
{
    if prog.len() == 0 {
        post == pre && r == Ok::<(), Fault>(())
    } else {
        match item_of(prog) {
            Some((k, p, n)) => if n == 0 || n > prog.len() {
                false
            } else if k == Kind::Data {
                runs(d, pre.push(p), prog.subrange(n as int, prog.len() as int), post, r)
            } else {
                let i = prog.subrange(0, n as int);
                if !d.claims(i) {
                    post == pre && r == Err::<(), Fault>(Fault::UnknownInstruction(i))
                } else {
                    exists|mid: Seq<Seq<u8>>, r1: Result<(), Fault>|
                        #[trigger] d.performs(pre, i, mid, r1) && if r1 is Err {
                            post == mid && r == r1
                        } else {
                            runs(d, mid, prog.subrange(n as int, prog.len() as int), post, r)
                        }
                }
            },
            None => post == pre && r == Err::<(), Fault>(Fault::MalformedHeader),
        }
    }
}

proof fn lemma_item_nonempty(b: Seq<u8>)
    requires
        item_of(b) is Some,
    ensures
        item_of(b)->Some_0.2 > 0,
        item_of(b)->Some_0.2 <= b.len(),
{
}

/// Runs the encoded program `program` on `env`, offering each instruction
/// to `d`, and stops at the first failure.
pub fn execute<D: Dispatcher>(d: &mut D, env: &mut Env, program: &[u8]) -> (r: PassResult)
    ensures
        *final(d) == *old(d),
        final(env).id() == old(env).id(),
        runs(*old(d), old(env).stack(), program@, final(env).stack(), outcome(r)),
{
    let len = program.len();
    let mut pos: usize = 0;
    let pid = env.pid();
    assert(program@.subrange(0, len as int) =~= program@);
    while pos < len
        invariant
            len == program@.len(),
            pos <= len,
            *d == *old(d),
            env.id() == old(env).id(),
            pid == env.id(),
            forall|post: Seq<Seq<u8>>, r: Result<(), Fault>|
                runs(*d, env.stack(), program@.subrange(pos as int, len as int), post, r) ==> runs(
                    *d,
                    old(env).stack(),
                    program@,
                    post,
                    r,
                ),
        decreases len - pos,
    {
        let ghost cur = env.stack();
        let ghost rest = program@.subrange(pos as int, len as int);
        let tail = &program[pos..len];
        assert(tail@ == rest);
        match decode(tail) {
            Err(e) => {
                assert(runs(*d, cur, rest, cur, Err::<(), Fault>(Fault::MalformedHeader)));
                return Err(e);
            },
            Ok((k, p, n)) => {
                proof {
                    lemma_item_nonempty(rest);
                }
                let ghost next = program@.subrange((pos + n) as int, len as int);
                assert(rest.subrange(n as int, rest.len() as int) =~= next);
                if k == Kind::Data {
                    env.push(p);
                    pos = pos + n;
                } else {
                    let instruction = &program[pos..pos + n];
                    assert(instruction@ =~= rest.subrange(0, n as int));
                    let r = d.handle(env, instruction, pid);
                    match r {
                        Ok(()) => {
                            assert forall|post: Seq<Seq<u8>>, r2: Result<(), Fault>|
                                runs(*d, env.stack(), next, post, r2) implies runs(
                                *d,
                                cur,
                                rest,
                                post,
                                r2,
                            ) by {
                                assert(d.performs(cur, instruction@, env.stack(), Ok::<(), Fault>(())));
                            }
                            pos = pos + n;
                        },
                        Err(e) => {
                            proof {
                                if d.claims(instruction@) {
                                    assert(d.performs(cur, instruction@, env.stack(), outcome(Err(e))));
                                }
                            }
                            assert(runs(*d, cur, rest, env.stack(), outcome(Err(e))));
                            return Err(e);
                        },
                    }
                }
            },
        }
    }
    assert(program@.subrange(pos as int, len as int) =~= Seq::<u8>::empty());
    Ok(())
}

} // verus!
