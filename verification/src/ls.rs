//! The size breakdown that `jslb ls` prints: one row per slab with its
//! index, type, size, element count and (optionally) the first JSON path
//! that reaches it, between a header, rules and a total.
//!
//! Sizes are rendered by the `humansize` crate in decimal (SI) units.
//! Columns are aligned the way Rust's `format!` aligns them: widths are
//! computed from byte lengths, and padding counts characters.

use crate::format::{Header, SlabTableEntry, SlabType};
use crate::placeholder::{decimal, push_decimal};
use crate::util::{byte_len, digits, saturating_pred};
use vstd::prelude::*;
use vstd::string::{StrSliceExecFns, StringExecFns};

verus! {

/// The name for what `humansize::format_size(n, humansize::DECIMAL)`
/// returns for `n` bytes, e.g. `"1.02 kB"`.
pub uninterp spec fn decimal_size(n: u64) -> Seq<char>;

/// `n` bytes in decimal (SI) units, through `humansize::format_size` with
/// the `DECIMAL` options. Claimed: the result depends on `n` alone, and is
/// named `decimal_size(n)`.
#[verifier::external_body]
fn format_size_decimal(n: u64) -> (s: String)
    ensures
        s@ == decimal_size(n),
{
    humansize::format_size(n, humansize::DECIMAL)
}

/// The path column's text for a slab that no placeholder reaches.
pub open spec fn unreferenced() -> Seq<char> {
    seq!['(', 'u', 'n', 'r', 'e', 'f', 'e', 'r', 'e', 'n', 'c', 'e', 'd', ')']
}

/// `n` copies of `c`.
pub open spec fn repeat_char(c: char, n: nat) -> Seq<char> {
    Seq::new(n, |_i: int| c)
}

/// `s` right-aligned in a field of `w` characters.
pub open spec fn pad_left(s: Seq<char>, w: nat) -> Seq<char> {
    if s.len() < w {
        repeat_char(' ', (w - s.len()) as nat) + s
    } else {
        s
    }
}

/// `s` left-aligned in a field of `w` characters.
pub open spec fn pad_right(s: Seq<char>, w: nat) -> Seq<char> {
    if s.len() < w {
        s + repeat_char(' ', (w - s.len()) as nat)
    } else {
        s
    }
}

/// The two spaces between columns.
pub open spec fn gap() -> Seq<char> {
    seq![' ', ' ']
}

/// The larger of two numbers.
pub open spec fn max_nat(a: nat, b: nat) -> nat {
    if a < b {
        b
    } else {
        a
    }
}

/// The number of elements of a slab.
pub open spec fn elem_count(e: SlabTableEntry) -> nat {
    (e.byte_length / (e.slab_type.spec_element_size() as u64)) as nat
}

/// The longest byte length among `ss`, 0 if there are none.
pub open spec fn max_len(ss: Seq<Seq<char>>) -> nat
    decreases ss.len(),
{
    if ss.len() == 0 {
        0
    } else {
        max_nat(max_len(ss.drop_last()), byte_len(ss.last()) as nat)
    }
}

/// The most digits among the element counts of the slabs that are not
/// JSON slabs, 0 if there are none.
pub open spec fn max_elem_digits(es: Seq<SlabTableEntry>) -> nat
    decreases es.len(),
{
    if es.len() == 0 {
        0
    } else if es.last().slab_type == SlabType::Json {
        max_elem_digits(es.drop_last())
    } else {
        max_nat(max_elem_digits(es.drop_last()), decimal(elem_count(es.last())).len())
    }
}

/// The longest byte length among the recorded paths, 0 if there are none.
pub open spec fn max_path_len(ps: Seq<Option<Seq<char>>>) -> nat
    decreases ps.len(),
{
    if ps.len() == 0 {
        0
    } else {
        match ps.last() {
            Some(p) => max_nat(max_path_len(ps.drop_last()), byte_len(p) as nat),
            None => max_path_len(ps.drop_last()),
        }
    }
}

/// Whether some slab has no recorded path.
pub open spec fn has_unreferenced(ps: Seq<Option<Seq<char>>>) -> bool
    decreases ps.len(),
{
    if ps.len() == 0 {
        false
    } else {
        has_unreferenced(ps.drop_last()) || ps.last() is None
    }
}

/// The total size of the slabs in bytes.
pub open spec fn total_bytes(es: Seq<SlabTableEntry>) -> nat
    decreases es.len(),
{
    if es.len() == 0 {
        0
    } else {
        total_bytes(es.drop_last()) + es.last().byte_length as nat
    }
}

/// The column widths of a table.
pub struct Widths {
    pub idx: nat,
    pub bytes: nat,
    pub elems: nat,
    pub path: Option<nat>,
}

/// The column widths for the slabs `es`, their rendered sizes `sizes` and
/// total size `total_size`, and their paths, if shown.
pub open spec fn widths(
    es: Seq<SlabTableEntry>,
    paths: Option<Seq<Option<Seq<char>>>>,
    sizes: Seq<Seq<char>>,
    total_size: Seq<char>,
) -> Widths {
    Widths {
        idx: max_nat(decimal(saturating_pred(es.len())).len(), 3),
        bytes: max_nat(max_nat(max_len(sizes), byte_len(total_size) as nat), 5),
        elems: max_nat(max_elem_digits(es), 8),
        path: match paths {
            Some(ps) => Some(
                max_nat(
                    max_nat(
                        max_path_len(ps),
                        if has_unreferenced(ps) {
                            14
                        } else {
                            0
                        },
                    ),
                    4,
                ),
            ),
            None => None,
        },
    }
}

/// The header line.
pub open spec fn header_line(w: Widths) -> Seq<char> {
    pad_left(seq!['i', 'd', 'x'], w.idx) + gap() + pad_right(seq!['t', 'y', 'p', 'e'], 7) + gap()
        + pad_left(seq!['b', 'y', 't', 'e', 's'], w.bytes) + gap() + pad_left(
        seq!['e', 'l', 'e', 'm', 'e', 'n', 't', 's'],
        w.elems,
    ) + match w.path {
        Some(pw) => gap() + pad_right(seq!['p', 'a', 't', 'h'], pw),
        None => Seq::empty(),
    }
}

/// A rule: each column filled with dashes.
pub open spec fn rule_line(w: Widths) -> Seq<char> {
    repeat_char('-', w.idx) + gap() + repeat_char('-', 7) + gap() + repeat_char('-', w.bytes) + gap()
        + repeat_char('-', w.elems) + match w.path {
        Some(pw) => gap() + repeat_char('-', pw),
        None => Seq::empty(),
    }
}

/// The element column of a slab: `-` for a JSON slab, else its element
/// count.
pub open spec fn elems_text(e: SlabTableEntry) -> Seq<char> {
    if e.slab_type == SlabType::Json {
        seq!['-']
    } else {
        decimal(elem_count(e))
    }
}

/// The row of slab `i`.
pub open spec fn row_line(
    w: Widths,
    i: nat,
    e: SlabTableEntry,
    is_root: bool,
    size: Seq<char>,
    path: Option<Seq<char>>,
) -> Seq<char> {
    pad_left(decimal(i), w.idx) + gap() + pad_right(e.slab_type.spec_name(), 7) + gap() + pad_left(
        size,
        w.bytes,
    ) + gap() + pad_left(elems_text(e), w.elems) + match w.path {
        Some(pw) => gap() + pad_right(
            match path {
                Some(p) => p,
                None => unreferenced(),
            },
            pw,
        ),
        None => Seq::empty(),
    } + if is_root {
        seq![' ', ' ', '(', 'r', 'o', 'o', 't', ')']
    } else {
        Seq::empty()
    }
}

/// The label of the total: `N slabs`, or `1 slab`.
pub open spec fn total_label(n: nat) -> Seq<char> {
    decimal(n) + seq![' ', 's', 'l', 'a', 'b'] + if n == 1 {
        Seq::empty()
    } else {
        seq!['s']
    }
}

/// The total line.
pub open spec fn total_line(w: Widths, n: nat, total_size: Seq<char>) -> Seq<char> {
    pad_left(Seq::empty(), w.idx) + gap() + pad_right(total_label(n), 7) + gap() + pad_left(
        total_size,
        w.bytes,
    )
}

/// The lines of the table: header, rule, one row per slab, rule, total.
/// `root` is the root slab's index, `sizes[i]` the rendered size of slab
/// `i` and `total_size` that of all slabs together; `paths[i]` is the path
/// recorded for slab `i`, when paths are shown.
pub open spec fn table(
    root: usize,
    es: Seq<SlabTableEntry>,
    paths: Option<Seq<Option<Seq<char>>>>,
    sizes: Seq<Seq<char>>,
    total_size: Seq<char>,
) -> Seq<Seq<char>> {
    let w = widths(es, paths, sizes, total_size);
    seq![header_line(w), rule_line(w)] + Seq::new(
        es.len(),
        |i: int|
            row_line(
                w,
                i as nat,
                es[i],
                i == root,
                sizes[i],
                match paths {
                    Some(ps) => ps[i],
                    None => None,
                },
            ),
    ) + seq![rule_line(w), total_line(w, es.len(), total_size)]
}

/// The views of strings.
pub open spec fn strings_view(ss: Seq<String>) -> Seq<Seq<char>> {
    ss.map_values(|s: String| s@)
}

/// The views of optional strings.
pub open spec fn opt_strings_view(ps: Seq<Option<String>>) -> Seq<Option<Seq<char>>> {
    crate::paths::opt_strings_view(ps)
}

/// Viewing strings commutes with pushing one.
proof fn lemma_strings_push(ss: Seq<String>, s: String)
    ensures
        strings_view(ss.push(s)) == strings_view(ss).push(s@),
{
    assert(strings_view(ss.push(s)) =~= strings_view(ss).push(s@));
}

/// The rendered sizes of the first `n` slabs of `es`.
pub open spec fn rendered_sizes(es: Seq<SlabTableEntry>, n: nat) -> Seq<Seq<char>> {
    Seq::new(n, |i: int| decimal_size(es[i].byte_length))
}

/// Appends `n` copies of the one-character string `piece`.
fn push_repeat(out: &mut String, piece: &str, n: usize)
    requires
        piece@.len() == 1,
    ensures
        final(out)@ == old(out)@ + repeat_char(piece@[0], n as nat),
{
    let mut i: usize = 0;
    let ghost o = out@;
    while i < n
        invariant
            i <= n,
            piece@.len() == 1,
            out@ == o + repeat_char(piece@[0], i as nat),
        decreases n - i,
    {
        out.append(piece);
        assert(repeat_char(piece@[0], (i + 1) as nat) =~= repeat_char(piece@[0], i as nat) + piece@);
        i = i + 1;
    }
}

/// Appends `s` right-aligned in a field of `w` characters.
fn push_pad_left(out: &mut String, s: &str, w: usize)
    ensures
        final(out)@ == old(out)@ + pad_left(s@, w as nat),
{
    let n = s.unicode_len();
    let ghost o = out@;
    if n < w {
        proof {
            reveal_strlit(" ");
        }
        push_repeat(out, " ", w - n);
    }
    out.append(s);
    assert(out@ =~= o + pad_left(s@, w as nat));
}

/// Appends `s` left-aligned in a field of `w` characters.
fn push_pad_right(out: &mut String, s: &str, w: usize)
    ensures
        final(out)@ == old(out)@ + pad_right(s@, w as nat),
{
    let n = s.unicode_len();
    let ghost o = out@;
    out.append(s);
    if n < w {
        proof {
            reveal_strlit(" ");
        }
        push_repeat(out, " ", w - n);
    }
    assert(out@ =~= o + pad_right(s@, w as nat));
}

/// Appends the two spaces between columns.
fn push_gap(out: &mut String)
    ensures
        final(out)@ == old(out)@ + gap(),
{
    proof {
        reveal_strlit("  ");
    }
    out.append("  ");
}

/// The column widths, computed.
struct TableWidths {
    idx: usize,
    bytes: usize,
    elems: usize,
    path: Option<usize>,
}

impl TableWidths {
    spec fn view(&self) -> Widths {
        Widths {
            idx: self.idx as nat,
            bytes: self.bytes as nat,
            elems: self.elems as nat,
            path: match self.path {
                Some(p) => Some(p as nat),
                None => None,
            },
        }
    }
}

/// The larger of two `usize`s.
fn max_usize(a: usize, b: usize) -> (m: usize)
    ensures
        m as nat == max_nat(a as nat, b as nat),
{
    if a < b {
        b
    } else {
        a
    }
}

/// Whether every slab's size fits in 32 bits and there are at most
/// `u32::MAX` slabs, as for every slab table.
pub open spec fn entries_in_range(es: Seq<SlabTableEntry>) -> bool {
    &&& es.len() <= u32::MAX
    &&& forall|i: int| 0 <= i < es.len() ==> #[trigger] es[i].byte_length <= u32::MAX
}

/// The total size of `es`, which fits in a `u64`.
fn sum_bytes(es: &[SlabTableEntry]) -> (t: u64)
    requires
        entries_in_range(es@),
    ensures
        t as nat == total_bytes(es@),
{
    let mut t: u64 = 0;
    let mut i: usize = 0;
    while i < es.len()
        invariant
            i <= es@.len(),
            entries_in_range(es@),
            t as nat == total_bytes(es@.subrange(0, i as int)),
            t <= i * 0xffff_ffffu64,
        decreases es@.len() - i,
    {
        assert(es@.subrange(0, i + 1).drop_last() =~= es@.subrange(0, i as int));
        assert(es[i as int].byte_length <= u32::MAX);
        t = t + es[i].byte_length;
        i = i + 1;
    }
    assert(es@.subrange(0, i as int) =~= es@);
    t
}

/// The widths of the columns.
fn compute_widths(
    es: &[SlabTableEntry],
    paths: Option<&[Option<String>]>,
    sizes: &[String],
    total_size: &str,
) -> (w: TableWidths)
    requires
        sizes@.len() == es@.len(),
        entries_in_range(es@),
    ensures
        w.view() == widths(
            es@,
            match paths {
                Some(ps) => Some(opt_strings_view(ps@)),
                None => None,
            },
            strings_view(sizes@),
            total_size@,
        ),
{
    let n = es.len();
    let last = if n == 0 {
        0
    } else {
        n - 1
    };
    let idx = max_usize(digits(last), 3);
    let ghost sv = strings_view(sizes@);
    let mut max_size: usize = 0;
    let mut i: usize = 0;
    while i < n
        invariant
            i <= n,
            n == es@.len(),
            n == sizes@.len(),
            sv == strings_view(sizes@),
            max_size as nat == max_len(sv.subrange(0, i as int)),
        decreases n - i,
    {
        assert(sv.subrange(0, i + 1).drop_last() =~= sv.subrange(0, i as int));
        let len = sizes[i].as_str().len();
        max_size = max_usize(max_size, len);
        i = i + 1;
    }
    assert(sv.subrange(0, n as int) =~= sv);
    let bytes = max_usize(max_usize(max_size, total_size.len()), 5);
    let mut max_digits: usize = 0;
    let mut i: usize = 0;
    while i < n
        invariant
            i <= n,
            n == es@.len(),
            entries_in_range(es@),
            max_digits as nat == max_elem_digits(es@.subrange(0, i as int)),
        decreases n - i,
    {
        assert(es@.subrange(0, i + 1).drop_last() =~= es@.subrange(0, i as int));
        let e = es[i];
        if e.slab_type != SlabType::Json {
            assert(e.byte_length <= u32::MAX);
            let count = (e.byte_length / (e.slab_type.element_size() as u64)) as usize;
            max_digits = max_usize(max_digits, digits(count));
        }
        i = i + 1;
    }
    assert(es@.subrange(0, n as int) =~= es@);
    let elems = max_usize(max_digits, 8);
    let path = match paths {
        None => None,
        Some(ps) => {
            let ghost pv = opt_strings_view(ps@);
            let mut max_path: usize = 0;
            let mut any_none = false;
            let mut j: usize = 0;
            while j < ps.len()
                invariant
                    j <= ps@.len(),
                    pv == opt_strings_view(ps@),
                    max_path as nat == max_path_len(pv.subrange(0, j as int)),
                    any_none == has_unreferenced(pv.subrange(0, j as int)),
                decreases ps@.len() - j,
            {
                assert(pv.subrange(0, j + 1).drop_last() =~= pv.subrange(0, j as int));
                match &ps[j] {
                    Some(p) => {
                        max_path = max_usize(max_path, p.as_str().len());
                    },
                    None => {
                        any_none = true;
                    },
                }
                j = j + 1;
            }
            assert(pv.subrange(0, ps@.len() as int) =~= pv);
            let unref_w: usize = if any_none {
                14
            } else {
                0
            };
            Some(max_usize(max_usize(max_path, unref_w), 4))
        },
    };
    TableWidths { idx, bytes, elems, path }
}

/// The header line, rendered.
fn header_text(w: &TableWidths) -> (s: String)
    ensures
        s@ == header_line(w.view()),
{
    let mut s = String::new();
    proof {
        reveal_strlit("idx");
        reveal_strlit("type");
        reveal_strlit("bytes");
        reveal_strlit("elements");
        reveal_strlit("path");
    }
    push_pad_left(&mut s, "idx", w.idx);
    push_gap(&mut s);
    push_pad_right(&mut s, "type", 7);
    push_gap(&mut s);
    push_pad_left(&mut s, "bytes", w.bytes);
    push_gap(&mut s);
    push_pad_left(&mut s, "elements", w.elems);
    match w.path {
        Some(pw) => {
            push_gap(&mut s);
            push_pad_right(&mut s, "path", pw);
        },
        None => {},
    }
    assert(s@ =~= header_line(w.view()));
    s
}

/// A rule, rendered.
fn rule_text(w: &TableWidths) -> (s: String)
    ensures
        s@ == rule_line(w.view()),
{
    let mut s = String::new();
    proof {
        reveal_strlit("-");
    }
    push_repeat(&mut s, "-", w.idx);
    push_gap(&mut s);
    push_repeat(&mut s, "-", 7);
    push_gap(&mut s);
    push_repeat(&mut s, "-", w.bytes);
    push_gap(&mut s);
    push_repeat(&mut s, "-", w.elems);
    match w.path {
        Some(pw) => {
            push_gap(&mut s);
            push_repeat(&mut s, "-", pw);
        },
        None => {},
    }
    assert(s@ =~= rule_line(w.view()));
    s
}

/// The row of slab `i`, rendered.
fn row_text(
    w: &TableWidths,
    i: usize,
    e: SlabTableEntry,
    is_root: bool,
    size: &str,
    path: Option<&String>,
) -> (s: String)
    requires
        e.byte_length <= u32::MAX,
    ensures
        s@ == row_line(
            w.view(),
            i as nat,
            e,
            is_root,
            size@,
            match path {
                Some(p) => Some(p@),
                None => None,
            },
        ),
{
    let mut s = String::new();
    let mut idx_text = String::new();
    push_decimal(&mut idx_text, i);
    push_pad_left(&mut s, idx_text.as_str(), w.idx);
    push_gap(&mut s);
    push_pad_right(&mut s, e.slab_type.name(), 7);
    push_gap(&mut s);
    push_pad_left(&mut s, size, w.bytes);
    push_gap(&mut s);
    let mut elems = String::new();
    if e.slab_type == SlabType::Json {
        proof {
            reveal_strlit("-");
        }
        elems.append("-");
    } else {
        let count = (e.byte_length / (e.slab_type.element_size() as u64)) as usize;
        push_decimal(&mut elems, count);
    }
    assert(elems@ =~= elems_text(e));
    push_pad_left(&mut s, elems.as_str(), w.elems);
    match w.path {
        Some(pw) => {
            push_gap(&mut s);
            match path {
                Some(p) => push_pad_right(&mut s, p.as_str(), pw),
                None => {
                    proof {
                        reveal_strlit("(unreferenced)");
                    }
                    let u = "(unreferenced)";
                    assert(u@ =~= unreferenced());
                    push_pad_right(&mut s, u, pw);
                },
            }
        },
        None => {},
    }
    if is_root {
        proof {
            reveal_strlit("  (root)");
        }
        s.append("  (root)");
    }
    assert(s@ =~= row_line(
        w.view(),
        i as nat,
        e,
        is_root,
        size@,
        match path {
            Some(p) => Some(p@),
            None => None,
        },
    ));
    s
}

/// The total line, rendered.
fn total_text(w: &TableWidths, n: usize, total_size: &str) -> (s: String)
    ensures
        s@ == total_line(w.view(), n as nat, total_size@),
{
    let mut s = String::new();
    let mut label = String::new();
    push_decimal(&mut label, n);
    proof {
        reveal_strlit(" slab");
        reveal_strlit("s");
        reveal_strlit("");
    }
    label.append(" slab");
    if n != 1 {
        label.append("s");
    }
    assert(label@ =~= total_label(n as nat));
    push_pad_left(&mut s, "", w.idx);
    push_gap(&mut s);
    push_pad_right(&mut s, label.as_str(), 7);
    push_gap(&mut s);
    push_pad_left(&mut s, total_size, w.bytes);
    assert(s@ =~= total_line(w.view(), n as nat, total_size@));
    s
}

/// The lines of the size breakdown of the slabs `es` (the root slab being
/// `header.root_json_slab_index`), given the rendered size of each slab
/// and of their total, and the path recorded for each slab when paths are
/// shown.
pub fn format_table(
    header: &Header,
    es: &[SlabTableEntry],
    paths: Option<&[Option<String>]>,
    sizes: &[String],
    total_size: &str,
) -> (lines: Vec<String>)
    requires
        sizes@.len() == es@.len(),
        entries_in_range(es@),
        paths matches Some(ps) ==> ps@.len() == es@.len(),
    ensures
        strings_view(lines@) == table(
            header.root_json_slab_index,
            es@,
            match paths {
                Some(ps) => Some(opt_strings_view(ps@)),
                None => None,
            },
            strings_view(sizes@),
            total_size@,
        ),
{
    let ghost pv = match paths {
        Some(ps) => Some(opt_strings_view(ps@)),
        None => None,
    };
    let ghost sv = strings_view(sizes@);
    let w = compute_widths(es, paths, sizes, total_size);
    let ghost wv = w.view();
    let ghost t = table(header.root_json_slab_index, es@, pv, sv, total_size@);
    let mut lines: Vec<String> = Vec::new();
    lines.push(header_text(&w));
    lines.push(rule_text(&w));
    let n = es.len();
    let mut i: usize = 0;
    assert(strings_view(lines@) =~= t.subrange(0, 2));
    while i < n
        invariant
            i <= n,
            n == es@.len(),
            n == sizes@.len(),
            entries_in_range(es@),
            paths matches Some(ps) ==> ps@.len() == n,
            sv == strings_view(sizes@),
            pv == match paths {
                Some(ps) => Some(opt_strings_view(ps@)),
                None => None::<Seq<Option<Seq<char>>>>,
            },
            wv == w.view(),
            wv == widths(es@, pv, sv, total_size@),
            t == table(header.root_json_slab_index, es@, pv, sv, total_size@),
            t.len() == n + 4,
            strings_view(lines@) == t.subrange(0, i + 2),
        decreases n - i,
    {
        let path = match paths {
            Some(ps) => match &ps[i] {
                Some(p) => Some(p),
                None => None,
            },
            None => None,
        };
        assert(es[i as int].byte_length <= u32::MAX);
        let row = row_text(&w, i, es[i], i == header.root_json_slab_index, sizes[i].as_str(), path);
        let ghost before = lines@;
        lines.push(row);
        proof {
            lemma_strings_push(before, row);
            assert(t[i + 2] == row@);
            assert(t.subrange(0, i + 3) =~= t.subrange(0, i + 2).push(t[i + 2]));
        }
        i = i + 1;
    }
    let r2 = rule_text(&w);
    let ghost l0 = lines@;
    lines.push(r2);
    proof {
        lemma_strings_push(l0, r2);
        assert(t.subrange(0, n + 3) =~= t.subrange(0, n + 2).push(t[n + 2]));
    }
    let tl = total_text(&w, n, total_size);
    let ghost l1 = lines@;
    lines.push(tl);
    proof {
        lemma_strings_push(l1, tl);
        assert(t.subrange(0, n + 4) =~= t.subrange(0, n + 3).push(t[n + 3]));
        assert(t.subrange(0, n + 4) =~= t);
    }
    lines
}

/// The lines of the size breakdown of the slabs `es`, with their sizes in
/// decimal (SI) units, and the path recorded for each slab when paths are
/// shown.
pub fn table_lines(
    header: &Header,
    es: &[SlabTableEntry],
    paths: Option<&[Option<String>]>,
) -> (lines: Vec<String>)
    requires
        entries_in_range(es@),
        paths matches Some(ps) ==> ps@.len() == es@.len(),
    ensures
        strings_view(lines@) == table(
            header.root_json_slab_index,
            es@,
            match paths {
                Some(ps) => Some(opt_strings_view(ps@)),
                None => None,
            },
            rendered_sizes(es@, es@.len()),
            decimal_size(total_bytes(es@) as u64),
        ),
{
    let mut sizes: Vec<String> = Vec::new();
    let mut i: usize = 0;
    while i < es.len()
        invariant
            i <= es@.len(),
            strings_view(sizes@) == rendered_sizes(es@, i as nat),
        decreases es@.len() - i,
    {
        let one = format_size_decimal(es[i].byte_length);
        let ghost s0 = sizes@;
        sizes.push(one);
        proof {
            lemma_strings_push(s0, one);
            assert(rendered_sizes(es@, (i + 1) as nat) =~= rendered_sizes(es@, i as nat).push(one@));
        }
        i = i + 1;
    }
    let total = sum_bytes(es);
    let total_size = format_size_decimal(total);
    format_table(header, es, paths, sizes.as_slice(), total_size.as_str())
}

} // verus!
