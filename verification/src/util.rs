//! Small pieces shared by the command-line tools: decimal widths, byte
//! lengths of text, validating that a file's skeleton can be walked, and
//! the decisions of filling a buffer from a reader.

use crate::format::SlabType;
use crate::placeholder::decimal;
use crate::read::{spec_validate_extents, ParseError, SlabDirectory};
use vstd::prelude::*;

verus! {

/// The length in bytes of a string holding `s`, as `str::len` gives it:
/// the length of its UTF-8 encoding.
pub open spec fn byte_len(s: Seq<char>) -> usize {
    vstd::utf8::encode_utf8(s).len() as usize
}

/// A decimal numeral is no longer than its value (for positive values).
proof fn lemma_decimal_len(n: nat)
    ensures
        decimal(n).len() >= 1,
        n >= 1 ==> decimal(n).len() <= n,
        n >= 10 ==> decimal(n).len() == decimal(n / 10).len() + 1,
    decreases n,
{
    if n >= 10 {
        lemma_decimal_len(n / 10);
    }
}

/// The number of decimal digits of `n`.
pub fn digits(n: usize) -> (d: usize)
    ensures
        d == decimal(n as nat).len(),
{
    let mut m = n;
    let mut d: usize = 1;
    proof {
        lemma_decimal_len(n as nat);
    }
    while m >= 10
        invariant
            d + decimal(m as nat).len() == decimal(n as nat).len() + 1,
            n >= 1 ==> decimal(n as nat).len() <= n,
            decimal(n as nat).len() >= 1,
            m <= n,
        decreases m,
    {
        proof {
            lemma_decimal_len(m as nat);
            lemma_decimal_len((m / 10) as nat);
        }
        m = m / 10;
        d = d + 1;
    }
    proof {
        lemma_decimal_len(m as nat);
    }
    d
}

/// `n - 1`, or 0 for 0.
pub open spec fn saturating_pred(n: nat) -> nat {
    if n == 0 {
        0
    } else {
        (n - 1) as nat
    }
}

/// Checks a slab directory before its skeleton is walked: every slab must
/// lie within the file's `file_len` bytes (the first that does not is
/// reported), and the root slab must be a JSON slab.
pub fn check_walkable(dir: &SlabDirectory, file_len: u64) -> (r: Result<(), ParseError>)
    requires
        dir.header.root_json_slab_index < dir.entries@.len(),
    ensures
        r == match spec_validate_extents(dir.entries@, file_len as int) {
            Err(e) => Err(e),
            Ok(_) => if dir.entries@[dir.header.root_json_slab_index as int].slab_type
                == SlabType::Json {
                Ok(())
            } else {
                Err(ParseError::RootNotJson)
            },
        },
{
    dir.validate_extents(file_len)?;
    if dir.root_entry().slab_type != SlabType::Json {
        return Err(ParseError::RootNotJson);
    }
    Ok(())
}

/// What one read into the unfilled part of a buffer gave.
#[derive(Debug, Clone, Copy, PartialEq, Eq, Structural)]
pub enum ReadOutcome {
    /// It read this many bytes (0 at the end of the input).
    Read(usize),
    /// It was interrupted before reading anything.
    Interrupted,
    /// It failed with any other error.
    Failed,
}

/// What filling a buffer does next.
#[derive(Debug, Clone, Copy, PartialEq, Eq, Structural)]
pub enum FillStep {
    /// Read again into the buffer from this offset.
    Continue(usize),
    /// Stop: this many bytes were read (fewer than the buffer only at the
    /// end of the input).
    Finished(usize),
    /// Stop and report the read's error.
    Failed,
}

/// One step of filling a buffer of `len` bytes of which `total` are
/// filled: reads are retried when interrupted, and stop at the end of the
/// input or once the buffer is full.
pub fn fill_step(total: usize, len: usize, outcome: ReadOutcome) -> (s: FillStep)
    requires
        total < len,
        outcome matches ReadOutcome::Read(n) ==> n <= len - total,
    ensures
        s == match outcome {
            ReadOutcome::Read(n) => if n == 0 {
                FillStep::Finished(total)
            } else if total + n < len {
                FillStep::Continue((total + n) as usize)
            } else {
                FillStep::Finished((total + n) as usize)
            },
            ReadOutcome::Interrupted => FillStep::Continue(total),
            ReadOutcome::Failed => FillStep::Failed,
        },
{
    match outcome {
        ReadOutcome::Read(n) => {
            if n == 0 {
                FillStep::Finished(total)
            } else if total + n < len {
                FillStep::Continue(total + n)
            } else {
                FillStep::Finished(total + n)
            }
        },
        ReadOutcome::Interrupted => FillStep::Continue(total),
        ReadOutcome::Failed => FillStep::Failed,
    }
}

} // verus!
