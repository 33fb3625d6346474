//! A streaming form of the transform engine: bytes are fed in chunks of any
//! size, output is drained as it becomes ready, and only a one-slot lookahead
//! (whether the last byte seen was `\r`) is carried between chunks. Feeding a
//! whole stream and finishing yields exactly the same bytes as transforming
//! it in one piece.

use vstd::prelude::*;

use crate::eol::{CR, Eol, LF, target_spec};
use crate::laws::{lemma_single_break, lemma_trailing_cr, lemma_transform_concat};
use crate::transform::{push_all, transform_spec};

verus! {

/// The transform engine's running state: the target spelling, the output not
/// yet drained, and the one-slot lookahead (`saw_cr`) that merges an `\r`
/// with an `\n` opening the next chunk. The two ghost fields record what has
/// been fed and what has been drained, so the contracts can tie both to the
/// whole-stream transform.
pub struct TransformEngine {
    /// The bytes one line break is rewritten to.
    pub target: Vec<u8>,
    /// Whether the last byte fed was an `\r` whose reading is still open.
    pub saw_cr: bool,
    /// Output produced but not yet drained.
    pub out: Vec<u8>,
    /// Every byte fed so far.
    pub fed: Ghost<Seq<u8>>,
    /// Every output byte already drained.
    pub emitted: Ghost<Seq<u8>>,
}

impl TransformEngine {
    /// The prefix of the fed bytes whose reading is settled: everything but
    /// a trailing `\r` still waiting for its possible `\n`.
    pub open spec fn committed(self) -> Seq<u8> {
        if self.saw_cr {
            self.fed@.drop_last()
        } else {
            self.fed@
        }
    }

    /// The engine's invariant: the lookahead slot is occupied exactly when
    /// the stream so far ends in `\r`, and everything produced — drained or
    /// not — is the transform of the settled prefix.
    pub open spec fn wf(self) -> bool {
        &&& (self.saw_cr <==> self.fed@.len() > 0 && self.fed@.last() == CR)
        &&& self.emitted@ + self.out@ == transform_spec(self.committed(), self.target@)
    }

    /// A fresh engine for the given target: nothing fed, nothing produced.
    pub fn new(eol: Eol) -> (e: Self)
        ensures
            e.wf(),
            e.target@ == target_spec(eol),
            e.fed@ == Seq::<u8>::empty(),
            e.emitted@ == Seq::<u8>::empty(),
            e.out@ == Seq::<u8>::empty(),
    {
        let e = TransformEngine {
            target: eol.target_bytes(),
            saw_cr: false,
            out: Vec::new(),
            fed: Ghost(Seq::empty()),
            emitted: Ghost(Seq::empty()),
        };
        proof {
            assert(e.committed() =~= Seq::<u8>::empty());
            assert(e.emitted@ + e.out@ =~= Seq::<u8>::empty());
            assert(transform_spec(Seq::<u8>::empty(), e.target@) =~= Seq::<u8>::empty());
        }
        e
    }

    /// Append one copy of the target spelling to the pending output.
    fn emit_target(&mut self)
        ensures
            final(self).out@ == old(self).out@ + old(self).target@,
            final(self).target == old(self).target,
            final(self).saw_cr == old(self).saw_cr,
            final(self).fed == old(self).fed,
            final(self).emitted == old(self).emitted,
    {
        let mut j: usize = 0;
        while j < self.target.len()
            invariant
                j <= self.target.len(),
                self.out@ == old(self).out@ + old(self).target@.take(j as int),
                self.target == old(self).target,
                self.saw_cr == old(self).saw_cr,
                self.fed == old(self).fed,
                self.emitted == old(self).emitted,
            decreases self.target.len() - j,
        {
            let b = self.target[j];
            self.out.push(b);
            j += 1;
            proof {
                assert(old(self).target@.take(j as int) =~= old(self).target@.take(j - 1).push(
                    old(self).target@[j - 1],
                ));
                assert(old(self).out@ + old(self).target@.take(j - 1).push(
                    old(self).target@[j - 1],
                ) =~= (old(self).out@ + old(self).target@.take(j - 1)).push(
                    old(self).target@[j - 1],
                ));
            }
        }
        proof {
            assert(old(self).target@.take(old(self).target@.len() as int) =~= old(self).target@);
        }
    }

    /// Feed one byte.
    pub fn feed_byte(&mut self, b: u8)
        requires
            old(self).wf(),
        ensures
            final(self).wf(),
            final(self).target@ == old(self).target@,
            final(self).fed@ == old(self).fed@.push(b),
            final(self).emitted@ == old(self).emitted@,
    {
        let ghost t = self.target@;
        let ghost fed0 = self.fed@;
        let ghost committed0 = self.committed();
        let ghost produced0 = self.emitted@ + self.out@;
        proof {
            self.fed@ = self.fed@.push(b);
        }
        if self.saw_cr {
            proof {
                assert(fed0.len() > 0 && fed0.last() == CR);
                assert(committed0 == fed0.drop_last());
            }
            if b == LF {
                self.emit_target();
                self.saw_cr = false;
                proof {
                    assert(self.fed@.last() == LF);
                    assert(self.committed() == self.fed@);
                    lemma_single_break(seq![CR, LF], t);
                    lemma_transform_concat(committed0, seq![CR, LF], t);
                    assert(committed0 + seq![CR, LF] =~= self.fed@);
                    assert(self.emitted@ + self.out@ =~= produced0 + t);
                    assert(produced0 + t =~= transform_spec(committed0, t) + transform_spec(
                        seq![CR, LF],
                        t,
                    ));
                }
            } else if b == CR {
                self.emit_target();
                proof {
                    assert(self.saw_cr && self.fed@.last() == CR);
                    assert(self.committed() =~= committed0.push(CR));
                    lemma_trailing_cr(committed0, t);
                    assert(self.emitted@ + self.out@ =~= produced0 + t);
                    assert(produced0 + t =~= transform_spec(committed0, t) + t);
                }
            } else {
                self.emit_target();
                self.out.push(b);
                self.saw_cr = false;
                proof {
                    assert(self.fed@.last() == b && b != CR);
                    assert(self.committed() == self.fed@);
                    lemma_transform_concat(committed0, seq![CR, b], t);
                    assert(committed0 + seq![CR, b] =~= self.fed@);
                    assert(seq![CR, b][0] == CR && seq![CR, b][1] == b && b != LF);
                    assert(seq![CR, b].skip(1) =~= seq![b]);
                    assert(seq![b].skip(1) =~= Seq::<u8>::empty());
                    assert(seq![b][0] == b);
                    assert(transform_spec(seq![b], t) == seq![b] + transform_spec(
                        seq![b].skip(1),
                        t,
                    ));
                    assert(transform_spec(seq![b], t) =~= seq![b]);
                    assert(transform_spec(seq![CR, b], t) =~= t + seq![b]);
                    assert(self.emitted@ + self.out@ =~= produced0 + t + seq![b]);
                    assert(produced0 + t + seq![b] =~= transform_spec(committed0, t) + (t
                        + seq![b]));
                }
            }
        } else {
            proof {
                assert(committed0 == fed0);
            }
            if b == LF {
                self.emit_target();
                proof {
                    assert(self.fed@.last() == LF);
                    assert(self.committed() == self.fed@);
                    lemma_single_break(seq![LF], t);
                    lemma_transform_concat(committed0, seq![LF], t);
                    assert(committed0 + seq![LF] =~= self.fed@);
                    assert(self.emitted@ + self.out@ =~= produced0 + t);
                    assert(produced0 + t =~= transform_spec(committed0, t) + transform_spec(
                        seq![LF],
                        t,
                    ));
                }
            } else if b == CR {
                self.saw_cr = true;
                proof {
                    assert(self.fed@.last() == CR);
                    assert(self.committed() =~= committed0);
                }
            } else {
                self.out.push(b);
                proof {
                    assert(self.fed@.last() == b && b != CR);
                    assert(self.committed() == self.fed@);
                    lemma_transform_concat(committed0, seq![b], t);
                    assert(committed0 + seq![b] =~= self.fed@);
                    assert(seq![b].skip(1) =~= Seq::<u8>::empty());
                    assert(seq![b][0] == b);
                    assert(transform_spec(seq![b], t) == seq![b] + transform_spec(
                        seq![b].skip(1),
                        t,
                    ));
                    assert(transform_spec(seq![b], t) =~= seq![b]);
                    assert(self.emitted@ + self.out@ =~= produced0 + seq![b]);
                }
            }
        }
    }

    /// Feed a whole chunk, byte by byte, in order.
    pub fn feed(&mut self, chunk: &Vec<u8>)
        requires
            old(self).wf(),
        ensures
            final(self).wf(),
            final(self).target@ == old(self).target@,
            final(self).fed@ == old(self).fed@ + chunk@,
            final(self).emitted@ == old(self).emitted@,
    {
        let mut i: usize = 0;
        proof {
            assert(self.fed@ =~= old(self).fed@ + chunk@.take(0));
        }
        while i < chunk.len()
            invariant
                i <= chunk.len(),
                self.wf(),
                self.target@ == old(self).target@,
                self.fed@ == old(self).fed@ + chunk@.take(i as int),
                self.emitted@ == old(self).emitted@,
            decreases chunk.len() - i,
        {
            self.feed_byte(chunk[i]);
            i += 1;
            proof {
                assert((old(self).fed@ + chunk@.take(i - 1)).push(chunk@[i - 1]) =~= old(
                    self,
                ).fed@ + chunk@.take(i as int));
            }
        }
        proof {
            assert(chunk@.take(chunk@.len() as int) =~= chunk@);
        }
    }

    /// Hand over the output produced so far and clear the slot, so a caller
    /// can stream it onward while the input is still arriving.
    pub fn take_output(&mut self) -> (out: Vec<u8>)
        requires
            old(self).wf(),
        ensures
            final(self).wf(),
            out@ == old(self).out@,
            final(self).out@ == Seq::<u8>::empty(),
            final(self).emitted@ == old(self).emitted@ + out@,
            final(self).fed@ == old(self).fed@,
            final(self).target@ == old(self).target@,
            final(self).saw_cr == old(self).saw_cr,
    {
        let mut out: Vec<u8> = Vec::new();
        core::mem::swap(&mut out, &mut self.out);
        proof {
            self.emitted@ = self.emitted@ + out@;
            assert((old(self).emitted@ + out@) + Seq::<u8>::empty() =~= old(self).emitted@
                + out@);
        }
        out
    }

    /// End of input: a still-open trailing `\r` is one line break of its own.
    /// What was drained, followed by this tail, is exactly the transform of
    /// everything fed.
    pub fn finish(self) -> (tail: Vec<u8>)
        requires
            self.wf(),
        ensures
            self.emitted@ + tail@ == transform_spec(self.fed@, self.target@),
    {
        let ghost t = self.target@;
        let ghost fed0 = self.fed@;
        let ghost emitted0 = self.emitted@;
        let ghost committed0 = self.committed();
        let TransformEngine { target, saw_cr, mut out, fed: _, emitted: _ } = self;
        if saw_cr {
            let ghost out0 = out@;
            push_all(&mut out, &target);
            proof {
                lemma_trailing_cr(committed0, t);
                assert(committed0.push(CR) =~= fed0);
                assert(emitted0 + (out0 + t) =~= (emitted0 + out0) + t);
            }
        }
        out
    }
}

} // verus!
