//! Rendering output bytes for human inspection: a pure decorator over a sink
//! that spells the two line-break bytes out as the two-character escapes
//! `\r` and `\n`, leaving every other byte as it is.

use vstd::prelude::*;

use crate::eol::{CR, LF};

verus! {

/// Backslash byte (`\`).
pub const BACKSLASH: u8 = 0x5C;

/// The byte `n`.
pub const LOWER_N: u8 = 0x6E;

/// The byte `r`.
pub const LOWER_R: u8 = 0x72;

/// How one byte renders under escaping: `\n` and `\r` become their
/// two-character spellings, any other byte stands as itself.
pub open spec fn escape_byte(b: u8) -> Seq<u8> {
    if b == LF {
        seq![BACKSLASH, LOWER_N]
    } else if b == CR {
        seq![BACKSLASH, LOWER_R]
    } else {
        seq![b]
    }
}

/// A byte sequence rendered for inspection, byte by byte, in order.
pub open spec fn escape_spec(s: Seq<u8>) -> Seq<u8>
    decreases s.len(),
{
    if s.len() == 0 {
        Seq::<u8>::empty()
    } else {
        escape_byte(s[0]) + escape_spec(s.skip(1))
    }
}

/// Prepare bytes for a sink: escaped for inspection when `debug` is set,
/// unchanged otherwise. Escaping only changes how line-break bytes are
/// rendered; it never adds or drops any other byte.
pub fn writer(input: &Vec<u8>, debug: bool) -> (out: Vec<u8>)
    ensures
        debug ==> out@ == escape_spec(input@),
        !debug ==> out@ == input@,
{
    let mut out: Vec<u8> = Vec::new();
    if !debug {
        let mut i: usize = 0;
        while i < input.len()
            invariant
                i <= input.len(),
                out@ == input@.take(i as int),
            decreases input.len() - i,
        {
            out.push(input[i]);
            i += 1;
            proof {
                assert(input@.take(i as int) =~= input@.take(i - 1).push(input@[i - 1]));
            }
        }
        proof {
            assert(input@.take(input@.len() as int) =~= input@);
        }
        return out;
    }
    let mut i: usize = 0;
    proof {
        assert(input@.skip(0) =~= input@);
        assert(out@ + escape_spec(input@) =~= escape_spec(input@));
    }
    while i < input.len()
        invariant
            i <= input.len(),
            out@ + escape_spec(input@.skip(i as int)) == escape_spec(input@),
        decreases input.len() - i,
    {
        let ghost rest = input@.skip(i as int);
        let ghost pre = out@;
        let b = input[i];
        proof {
            assert(rest[0] == input@[i as int]);
        }
        if b == LF {
            out.push(BACKSLASH);
            out.push(LOWER_N);
            proof {
                assert(pre + seq![BACKSLASH, LOWER_N] =~= out@);
            }
        } else if b == CR {
            out.push(BACKSLASH);
            out.push(LOWER_R);
            proof {
                assert(pre + seq![BACKSLASH, LOWER_R] =~= out@);
            }
        } else {
            out.push(b);
            proof {
                assert(pre + seq![b] =~= out@);
            }
        }
        i += 1;
        proof {
            assert(rest.skip(1) =~= input@.skip(i as int));
            assert(pre + escape_byte(b) + escape_spec(rest.skip(1)) =~= pre + (escape_byte(b)
                + escape_spec(rest.skip(1))));
        }
    }
    proof {
        assert(input@.skip(input@.len() as int) =~= Seq::<u8>::empty());
        assert(escape_spec(Seq::<u8>::empty()) =~= Seq::<u8>::empty());
        assert(out@ + Seq::<u8>::empty() =~= out@);
    }
    out
}

} // verus!
