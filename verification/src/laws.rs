//! Laws of the transform engine, proved once and for all byte sequences:
//! converting twice changes nothing more than converting once; line breaks
//! collapse to exactly one target spelling wherever they stand; a trailing
//! lone `\r` still yields one line break; and all other bytes pass through
//! unchanged.

use vstd::prelude::*;

use crate::eol::{CR, LF};
use crate::transform::transform_spec;

verus! {

/// The three byte spellings a line break may be rewritten to.
pub open spec fn is_canonical_target(t: Seq<u8>) -> bool {
    t == seq![LF] || t == seq![CR, LF] || t == seq![CR]
}

/// Every target an `Eol` stands for is one of the three canonical spellings,
/// so each law below applies to every configurable target.
pub proof fn lemma_target_canonical(e: crate::eol::Eol)
    ensures
        is_canonical_target(crate::eol::target_spec(e)),
{
}

/// A single line break, in any of its three spellings, rewrites to exactly
/// one copy of the target.
pub proof fn lemma_single_break(brk: Seq<u8>, t: Seq<u8>)
    requires
        is_canonical_target(brk),
    ensures
        transform_spec(brk, t) == t,
{
    if brk == seq![LF] {
        assert(brk.len() == 1 && brk[0] == LF);
        assert(transform_spec(brk, t) == t + transform_spec(brk.skip(1), t));
        assert(brk.skip(1) =~= Seq::<u8>::empty());
        assert(t + Seq::<u8>::empty() =~= t);
    } else if brk == seq![CR, LF] {
        assert(brk.len() == 2 && brk[0] == CR && brk[1] == LF);
        assert(transform_spec(brk, t) == t + transform_spec(brk.skip(2), t));
        assert(brk.skip(2) =~= Seq::<u8>::empty());
        assert(t + Seq::<u8>::empty() =~= t);
    } else {
        assert(brk == seq![CR]);
        assert(brk.len() == 1 && brk[0] == CR);
        assert(transform_spec(brk, t) == t + transform_spec(brk.skip(1), t));
        assert(brk.skip(1) =~= Seq::<u8>::empty());
        assert(t + Seq::<u8>::empty() =~= t);
    }
}

/// The transform distributes over concatenation, provided the seam does not
/// split a `\r\n` pair (an `\r` ending the left part would merge with an
/// `\n` opening the right part into a single line break).
pub proof fn lemma_transform_concat(a: Seq<u8>, b: Seq<u8>, t: Seq<u8>)
    requires
        !(a.len() > 0 && a.last() == CR && b.len() > 0 && b[0] == LF),
    ensures
        transform_spec(a + b, t) == transform_spec(a, t) + transform_spec(b, t),
    decreases a.len(),
{
    let ab = a + b;
    if a.len() == 0 {
        assert(ab =~= b);
        assert(Seq::<u8>::empty() + transform_spec(b, t) =~= transform_spec(b, t));
    } else {
        assert(ab[0] == a[0]);
        if a[0] == LF {
            assert(ab.skip(1) =~= a.skip(1) + b);
            if a.len() > 1 {
                assert(a.skip(1).last() == a.last());
            }
            lemma_transform_concat(a.skip(1), b, t);
            assert(t + (transform_spec(a.skip(1), t) + transform_spec(b, t)) =~= (t
                + transform_spec(a.skip(1), t)) + transform_spec(b, t));
        } else if a[0] == CR && a.len() >= 2 && a[1] == LF {
            assert(ab[1] == a[1]);
            assert(ab.skip(2) =~= a.skip(2) + b);
            if a.len() > 2 {
                assert(a.skip(2).last() == a.last());
            }
            lemma_transform_concat(a.skip(2), b, t);
            assert(t + (transform_spec(a.skip(2), t) + transform_spec(b, t)) =~= (t
                + transform_spec(a.skip(2), t)) + transform_spec(b, t));
        } else if a[0] == CR && a.len() == 1 {
            assert(b.len() == 0 || b[0] != LF);
            assert(ab.len() >= 2 ==> ab[1] == b[0]);
            assert(ab.skip(1) =~= b);
            assert(a.skip(1) =~= Seq::<u8>::empty());
            assert(t + Seq::<u8>::empty() =~= t);
            assert((t + Seq::<u8>::empty()) + transform_spec(b, t) =~= t + transform_spec(b, t));
        } else if a[0] == CR {
            assert(a.len() >= 2 && a[1] != LF);
            assert(ab[1] == a[1]);
            assert(ab.skip(1) =~= a.skip(1) + b);
            assert(a.skip(1).last() == a.last());
            lemma_transform_concat(a.skip(1), b, t);
            assert(t + (transform_spec(a.skip(1), t) + transform_spec(b, t)) =~= (t
                + transform_spec(a.skip(1), t)) + transform_spec(b, t));
        } else {
            assert(ab.skip(1) =~= a.skip(1) + b);
            if a.len() > 1 {
                assert(a.skip(1).last() == a.last());
            }
            lemma_transform_concat(a.skip(1), b, t);
            assert(seq![a[0]] + (transform_spec(a.skip(1), t) + transform_spec(b, t)) =~= (
            seq![a[0]] + transform_spec(a.skip(1), t)) + transform_spec(b, t));
        }
    }
}

/// With target `\r`, the output never holds an `\n` byte: every line break
/// becomes a lone `\r`, and pass-through bytes are not `\n`.
pub proof fn lemma_cr_output_has_no_lf(s: Seq<u8>)
    ensures
        forall|j: int|
            0 <= j < transform_spec(s, seq![CR]).len() ==> transform_spec(s, seq![CR])[j] != LF,
    decreases s.len(),
{
    let t = seq![CR];
    let out = transform_spec(s, t);
    if s.len() == 0 {
    } else if s[0] == LF {
        lemma_cr_output_has_no_lf(s.skip(1));
        assert(out == t + transform_spec(s.skip(1), t));
    } else if s[0] == CR && s.len() >= 2 && s[1] == LF {
        lemma_cr_output_has_no_lf(s.skip(2));
        assert(out == t + transform_spec(s.skip(2), t));
    } else if s[0] == CR {
        lemma_cr_output_has_no_lf(s.skip(1));
        assert(out == t + transform_spec(s.skip(1), t));
    } else {
        lemma_cr_output_has_no_lf(s.skip(1));
        assert(out == seq![s[0]] + transform_spec(s.skip(1), t));
    }
}

/// Prepending one target spelling to a sequence prepends one target spelling
/// to the output. With target `\r`, the sequence must not open with `\n`,
/// else the two would merge into one break.
pub proof fn lemma_prepend_target(t: Seq<u8>, x: Seq<u8>)
    requires
        is_canonical_target(t),
        t == seq![CR] ==> x.len() == 0 || x[0] != LF,
    ensures
        transform_spec(t + x, t) == t + transform_spec(x, t),
{
    let tx = t + x;
    if t == seq![LF] {
        assert(tx[0] == LF);
        assert(tx.skip(1) =~= x);
    } else if t == seq![CR, LF] {
        assert(tx[0] == CR && tx.len() >= 2 && tx[1] == LF);
        assert(tx.skip(2) =~= x);
    } else {
        assert(tx[0] == CR);
        assert(tx.len() >= 2 ==> tx[1] == x[0]);
        assert(!(tx.len() >= 2 && tx[1] == LF));
        assert(tx.skip(1) =~= x);
    }
}

/// Converting is idempotent: converting the output again with the same
/// target yields the output unchanged.
pub proof fn lemma_transform_idempotent(s: Seq<u8>, t: Seq<u8>)
    requires
        is_canonical_target(t),
    ensures
        transform_spec(transform_spec(s, t), t) == transform_spec(s, t),
    decreases s.len(),
{
    if s.len() == 0 {
    } else if s[0] == LF || s[0] == CR {
        let s1: Seq<u8> = if s[0] == CR && s.len() >= 2 && s[1] == LF {
            s.skip(2)
        } else {
            s.skip(1)
        };
        assert(transform_spec(s, t) == t + transform_spec(s1, t));
        lemma_transform_idempotent(s1, t);
        let x = transform_spec(s1, t);
        if t == seq![CR] {
            lemma_cr_output_has_no_lf(s1);
        }
        lemma_prepend_target(t, x);
    } else {
        lemma_transform_idempotent(s.skip(1), t);
        let x = transform_spec(s.skip(1), t);
        assert(transform_spec(s, t) == seq![s[0]] + x);
        let sx = seq![s[0]] + x;
        assert(sx[0] == s[0]);
        assert(sx.skip(1) =~= x);
    }
}

/// Every line-break spelling, wherever it stands, is replaced by exactly one
/// copy of the target, and the bytes around it are transformed independently.
/// The two side conditions keep the named occurrence a whole line break of
/// its own: an `\r` just before an `\n` spelling, or an `\n` just after an
/// `\r` spelling, would merge with it into a single break.
pub proof fn lemma_break_collapses(a: Seq<u8>, brk: Seq<u8>, b: Seq<u8>, t: Seq<u8>)
    requires
        is_canonical_target(brk),
        brk == seq![LF] ==> !(a.len() > 0 && a.last() == CR),
        brk == seq![CR] ==> !(b.len() > 0 && b[0] == LF),
    ensures
        transform_spec(a + brk + b, t) == transform_spec(a, t) + t + transform_spec(b, t),
{
    lemma_single_break(brk, t);
    lemma_transform_concat(brk, b, t);
    assert(brk.len() > 0 && (brk + b).len() > 0);
    assert((brk + b)[0] == brk[0]);
    lemma_transform_concat(a, brk + b, t);
    assert(a + brk + b =~= a + (brk + b));
    assert(transform_spec(a, t) + (t + transform_spec(b, t)) =~= transform_spec(a, t) + t
        + transform_spec(b, t));
}

/// A trailing lone `\r`, with no byte after it, still produces exactly one
/// target line break.
pub proof fn lemma_trailing_cr(s: Seq<u8>, t: Seq<u8>)
    ensures
        transform_spec(s.push(CR), t) == transform_spec(s, t) + t,
{
    assert(s.push(CR) =~= s + seq![CR]);
    lemma_transform_concat(s, seq![CR], t);
    lemma_single_break(seq![CR], t);
}

/// A sequence free of `\r` and `\n` passes through unchanged, byte for byte,
/// in its original order.
pub proof fn lemma_passthrough(s: Seq<u8>, t: Seq<u8>)
    requires
        forall|i: int| 0 <= i < s.len() ==> s[i] != CR && s[i] != LF,
    ensures
        transform_spec(s, t) == s,
    decreases s.len(),
{
    if s.len() == 0 {
        assert(transform_spec(s, t) =~= s);
    } else {
        assert(forall|i: int| 0 <= i < s.skip(1).len() ==> s.skip(1)[i] != CR && s.skip(1)[i] != LF);
        lemma_passthrough(s.skip(1), t);
        assert(seq![s[0]] + s.skip(1) =~= s);
    }
}

} // verus!
