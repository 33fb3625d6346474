//! The transform engine: a single pass over a byte sequence with one byte of
//! lookahead, replacing every line break — `\n`, `\r\n`, or a lone `\r` — by
//! the target spelling and copying every other byte unchanged.

use vstd::prelude::*;

use crate::eol::{CR, Eol, LF, target_spec};

verus! {

/// The result of rewriting `s` so that every line break — `\n`, `\r\n`, or a
/// lone `\r` — becomes one copy of `t`, while every other byte is kept
/// unchanged, in order.
pub open spec fn transform_spec(s: Seq<u8>, t: Seq<u8>) -> Seq<u8>
    decreases s.len(),
{
    if s.len() == 0 {
        Seq::<u8>::empty()
    } else if s[0] == LF {
        t + transform_spec(s.skip(1), t)
    } else if s[0] == CR && s.len() >= 2 && s[1] == LF {
        t + transform_spec(s.skip(2), t)
    } else if s[0] == CR {
        t + transform_spec(s.skip(1), t)
    } else {
        seq![s[0]] + transform_spec(s.skip(1), t)
    }
}

/// Append every byte of `src` to `out`.
pub fn push_all(out: &mut Vec<u8>, src: &Vec<u8>)
    ensures
        final(out)@ == old(out)@ + src@,
{
    let mut j: usize = 0;
    while j < src.len()
        invariant
            j <= src.len(),
            out@ == old(out)@ + src@.take(j as int),
        decreases src.len() - j,
    {
        out.push(src[j]);
        j += 1;
        proof {
            assert(src@.take(j as int) =~= src@.take(j - 1) + seq![src@[j - 1]]);
            assert(old(out)@ + src@.take(j - 1) + seq![src@[j - 1]] =~= old(out)@ + src@.take(
                j as int,
            ));
        }
    }
    proof {
        assert(src@.take(src@.len() as int) =~= src@);
    }
}

/// Rewrite `input` so that every line break becomes one copy of `target`.
///
/// One pass, one byte of lookahead: a `\r` directly followed by `\n` is
/// consumed as a single line break.
pub fn convert(input: &Vec<u8>, target: &Vec<u8>) -> (out: Vec<u8>)
    ensures
        out@ == transform_spec(input@, target@),
{
    let mut out: Vec<u8> = Vec::new();
    let mut i: usize = 0;
    proof {
        assert(input@.skip(0) =~= input@);
        assert(out@ + transform_spec(input@, target@) =~= transform_spec(input@, target@));
    }
    while i < input.len()
        invariant
            i <= input.len(),
            out@ + transform_spec(input@.skip(i as int), target@) == transform_spec(
                input@,
                target@,
            ),
        decreases input.len() - i,
    {
        let ghost rest = input@.skip(i as int);
        let ghost pre = out@;
        let b = input[i];
        proof {
            assert(rest.len() == input@.len() - i);
            assert(rest[0] == input@[i as int]);
        }
        if b == LF {
            push_all(&mut out, target);
            i += 1;
            proof {
                assert(rest.skip(1) =~= input@.skip(i as int));
                assert(pre + target@ + transform_spec(rest.skip(1), target@) =~= pre + (target@
                    + transform_spec(rest.skip(1), target@)));
            }
        } else if b == CR {
            if i + 1 < input.len() && input[i + 1] == LF {
                push_all(&mut out, target);
                i += 2;
                proof {
                    assert(rest[1] == input@[i - 1]);
                    assert(rest.skip(2) =~= input@.skip(i as int));
                    assert(pre + target@ + transform_spec(rest.skip(2), target@) =~= pre + (target@
                        + transform_spec(rest.skip(2), target@)));
                }
            } else {
                push_all(&mut out, target);
                i += 1;
                proof {
                    assert(rest.len() >= 2 ==> rest[1] == input@[i as int]);
                    assert(!(rest[0] == CR && rest.len() >= 2 && rest[1] == LF));
                    assert(rest.skip(1) =~= input@.skip(i as int));
                    assert(pre + target@ + transform_spec(rest.skip(1), target@) =~= pre + (target@
                        + transform_spec(rest.skip(1), target@)));
                }
            }
        } else {
            out.push(b);
            i += 1;
            proof {
                assert(rest.skip(1) =~= input@.skip(i as int));
                assert(pre + seq![b] =~= out@);
                assert(pre + seq![b] + transform_spec(rest.skip(1), target@) =~= pre + (seq![b]
                    + transform_spec(rest.skip(1), target@)));
            }
        }
    }
    proof {
        assert(input@.skip(input@.len() as int) =~= Seq::<u8>::empty());
        assert(out@ + Seq::<u8>::empty() =~= out@);
    }
    out
}

impl Eol {
    /// Rewrite `input` so that every line break becomes one copy of this
    /// target's spelling.
    pub fn transform_fn(&self, input: &Vec<u8>) -> (out: Vec<u8>)
        ensures
            out@ == transform_spec(input@, target_spec(*self)),
    {
        let target = self.target_bytes();
        convert(input, &target)
    }
}

} // verus!
