//! `SlabPlaceholder`: a thin newtype around a slab index, and the decimal
//! rendering used to interpolate it into a hand-built JSON skeleton.

use vstd::prelude::*;
use vstd::string::StringExecFns;

verus! {

/// The character for a decimal digit `d` (`0 <= d < 10`).
pub open spec fn digit_char(d: nat) -> char {
    if d == 0 {
        '0'
    } else if d == 1 {
        '1'
    } else if d == 2 {
        '2'
    } else if d == 3 {
        '3'
    } else if d == 4 {
        '4'
    } else if d == 5 {
        '5'
    } else if d == 6 {
        '6'
    } else if d == 7 {
        '7'
    } else if d == 8 {
        '8'
    } else {
        '9'
    }
}

/// The decimal representation of `n`, most significant digit first, with
/// no leading zeros (`0` is written as a single `'0'`).
pub open spec fn decimal(n: nat) -> Seq<char>
    decreases n,
{
    if n < 10 {
        seq![digit_char(n)]
    } else {
        decimal(n / 10).push(digit_char(n % 10))
    }
}

/// The one-character string of a decimal digit.
fn digit_str(d: usize) -> (s: &'static str)
    requires
        d < 10,
    ensures
        s@ == seq![digit_char(d as nat)],
{
    if d == 0 {
        proof {
            reveal_strlit("0");
        }
        "0"
    } else if d == 1 {
        proof {
            reveal_strlit("1");
        }
        "1"
    } else if d == 2 {
        proof {
            reveal_strlit("2");
        }
        "2"
    } else if d == 3 {
        proof {
            reveal_strlit("3");
        }
        "3"
    } else if d == 4 {
        proof {
            reveal_strlit("4");
        }
        "4"
    } else if d == 5 {
        proof {
            reveal_strlit("5");
        }
        "5"
    } else if d == 6 {
        proof {
            reveal_strlit("6");
        }
        "6"
    } else if d == 7 {
        proof {
            reveal_strlit("7");
        }
        "7"
    } else if d == 8 {
        proof {
            reveal_strlit("8");
        }
        "8"
    } else {
        proof {
            reveal_strlit("9");
        }
        "9"
    }
}

/// Append the decimal representation of `n` to `out`.
pub fn push_decimal(out: &mut String, n: usize)
    ensures
        final(out)@ == old(out)@ + decimal(n as nat),
    decreases n,
{
    if n >= 10 {
        push_decimal(out, n / 10);
    }
    out.append(digit_str(n % 10));
    proof {
        if n >= 10 {
            assert(decimal(n as nat) == decimal((n / 10) as nat).push(digit_char((n % 10) as nat)));
        }
    }
}

/// Append the decimal representation of the 64-bit `n` to `out`.
pub fn push_decimal_u64(out: &mut String, n: u64)
    ensures
        final(out)@ == old(out)@ + decimal(n as nat),
    decreases n,
{
    if n >= 10 {
        push_decimal_u64(out, n / 10);
    }
    out.append(digit_str((n % 10) as usize));
    proof {
        if n >= 10 {
            assert(decimal(n as nat) == decimal((n / 10) as nat).push(digit_char((n % 10) as nat)));
        }
    }
}

/// The characters of `{"$s":` that open a placeholder object.
pub open spec fn placeholder_open() -> Seq<char> {
    seq!['{', '"', '$', 's', '"', ':']
}

/// A reference to a slab by its index in the file's slab table.
///
/// Returned from `Builder::add_slab` when building a file, and accepted by
/// `ParsedFile::read` and friends when reading one back. The inner `usize`
/// is the raw slab index; index 0 is the root JSON skeleton, so the
/// placeholders the builder hands out start at 1.
#[derive(Debug, Clone, Copy, PartialEq, Eq, Structural)]
pub struct SlabPlaceholder(pub usize);

impl SlabPlaceholder {
    /// The underlying slab table index.
    pub fn index(self) -> (i: usize)
        ensures
            i == self.0,
    {
        self.0
    }

    /// The bare index in decimal, e.g. `"2"`.
    pub fn to_string(&self) -> (s: String)
        ensures
            s@ == decimal(self.0 as nat),
    {
        let mut s = String::new();
        push_decimal(&mut s, self.0);
        s
    }

    /// The whole placeholder object, e.g. `{"$s":2}`.
    pub fn to_json_string(&self) -> (s: String)
        ensures
            s@ == placeholder_open() + decimal(self.0 as nat) + seq!['}'],
    {
        let mut s = String::new();
        let open = "{\"$s\":";
        let close = "}";
        proof {
            reveal_strlit("{\"$s\":");
            reveal_strlit("}");
        }
        s.append(open);
        push_decimal(&mut s, self.0);
        s.append(close);
        s
    }
}

} // verus!
