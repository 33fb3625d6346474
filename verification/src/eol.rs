//! The end-of-line target: which byte sequence every line break is rewritten
//! to, and how that target is named in configuration text.

use vstd::prelude::*;
use vstd::string::StrSliceExecFns;

verus! {

/// Carriage-return byte (`\r`).
pub const CR: u8 = 0x0D;

/// Line-feed byte (`\n`).
pub const LF: u8 = 0x0A;

/// End-of-line sequence: the spelling every line break is converted to.
#[derive(Clone, Copy, Debug, PartialEq, Eq, Structural)]
pub enum Eol {
    Lf,
    Crlf,
    Cr,
}

/// The bytes that one line break is rewritten to under target `e`.
pub open spec fn target_spec(e: Eol) -> Seq<u8> {
    match e {
        Eol::Lf => seq![LF],
        Eol::Crlf => seq![CR, LF],
        Eol::Cr => seq![CR],
    }
}

/// Case-insensitive spelling of the name `lf`.
pub open spec fn spells_lf(s: Seq<char>) -> bool {
    &&& s.len() == 2
    &&& (s[0] == 'l' || s[0] == 'L')
    &&& (s[1] == 'f' || s[1] == 'F')
}

/// Case-insensitive spelling of the name `crlf`.
pub open spec fn spells_crlf(s: Seq<char>) -> bool {
    &&& s.len() == 4
    &&& (s[0] == 'c' || s[0] == 'C')
    &&& (s[1] == 'r' || s[1] == 'R')
    &&& (s[2] == 'l' || s[2] == 'L')
    &&& (s[3] == 'f' || s[3] == 'F')
}

/// Case-insensitive spelling of the name `cr`.
pub open spec fn spells_cr(s: Seq<char>) -> bool {
    &&& s.len() == 2
    &&& (s[0] == 'c' || s[0] == 'C')
    &&& (s[1] == 'r' || s[1] == 'R')
}

/// Which target, if any, a configuration string names.
pub open spec fn eol_of_name(s: Seq<char>) -> Option<Eol> {
    if spells_lf(s) {
        Some(Eol::Lf)
    } else if spells_crlf(s) {
        Some(Eol::Crlf)
    } else if spells_cr(s) {
        Some(Eol::Cr)
    } else {
        None
    }
}

/// The configuration string named no known end-of-line sequence.
#[derive(Clone, Copy, Debug, PartialEq, Eq, Structural)]
pub struct UnknownEol;

impl Eol {
    /// Parse a target name (`LF`, `CRLF`, `CR`, in any letter case).
    pub fn from_str(s: &str) -> (r: Result<Eol, UnknownEol>)
        ensures
            r == match eol_of_name(s@) {
                Some(e) => Ok::<Eol, UnknownEol>(e),
                None => Err::<Eol, UnknownEol>(UnknownEol),
            },
    {
        let n = s.unicode_len();
        if n == 2 {
            let c0 = s.get_char(0);
            let c1 = s.get_char(1);
            if (c0 == 'l' || c0 == 'L') && (c1 == 'f' || c1 == 'F') {
                Ok(Eol::Lf)
            } else if (c0 == 'c' || c0 == 'C') && (c1 == 'r' || c1 == 'R') {
                Ok(Eol::Cr)
            } else {
                Err(UnknownEol)
            }
        } else if n == 4 {
            let c0 = s.get_char(0);
            let c1 = s.get_char(1);
            let c2 = s.get_char(2);
            let c3 = s.get_char(3);
            if (c0 == 'c' || c0 == 'C') && (c1 == 'r' || c1 == 'R') && (c2 == 'l' || c2 == 'L')
                && (c3 == 'f' || c3 == 'F') {
                Ok(Eol::Crlf)
            } else {
                Err(UnknownEol)
            }
        } else {
            Err(UnknownEol)
        }
    }

    /// The canonical upper-case spelling of this target's name.
    pub open spec fn name_spec(&self) -> Seq<char> {
        match self {
            Eol::Lf => seq!['L', 'F'],
            Eol::Crlf => seq!['C', 'R', 'L', 'F'],
            Eol::Cr => seq!['C', 'R'],
        }
    }

    /// The canonical upper-case name of this target: exactly `LF`, `CRLF` or
    /// `CR`, which parses back to the same target.
    pub fn name(&self) -> (r: &'static str)
        ensures
            r@ == self.name_spec(),
            eol_of_name(r@) == Some(*self),
    {
        match self {
            Eol::Lf => {
                let r = "LF";
                proof {
                    reveal_strlit("LF");
                    assert(r@ =~= seq!['L', 'F']);
                }
                r
            },
            Eol::Crlf => {
                let r = "CRLF";
                proof {
                    reveal_strlit("CRLF");
                    assert(r@ =~= seq!['C', 'R', 'L', 'F']);
                }
                r
            },
            Eol::Cr => {
                let r = "CR";
                proof {
                    reveal_strlit("CR");
                    assert(r@ =~= seq!['C', 'R']);
                }
                r
            },
        }
    }

    /// The target's byte sequence as a vector.
    pub fn target_bytes(&self) -> (v: Vec<u8>)
        ensures
            v@ == target_spec(*self),
    {
        let mut v: Vec<u8> = Vec::new();
        match self {
            Eol::Lf => {
                v.push(LF);
                proof {
                    assert(v@ =~= seq![LF]);
                }
            },
            Eol::Crlf => {
                v.push(CR);
                v.push(LF);
                proof {
                    assert(v@ =~= seq![CR, LF]);
                }
            },
            Eol::Cr => {
                v.push(CR);
                proof {
                    assert(v@ =~= seq![CR]);
                }
            },
        }
        v
    }
}

} // verus!
