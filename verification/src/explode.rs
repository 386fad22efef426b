//! The names under which `jslb explode` writes each slab to its own file,
//! and the line it reports for each.

use crate::format::SlabType;
use crate::placeholder::{decimal, push_decimal, push_decimal_u64};
use crate::read::SlabDirectory;
use crate::util::{digits, saturating_pred};
use vstd::prelude::*;
use vstd::string::{StrSliceExecFns, StringExecFns};

verus! {

/// `n` zeros.
pub open spec fn zeros_text(n: nat) -> Seq<char> {
    Seq::new(n, |_i: int| '0')
}

/// `s` right-aligned in a field of `w` characters, filled with zeros.
pub open spec fn zero_pad(s: Seq<char>, w: nat) -> Seq<char> {
    if s.len() < w {
        zeros_text((w - s.len()) as nat) + s
    } else {
        s
    }
}

/// The file name of slab `i` of type `t`, its index zero-padded to `pad`
/// digits: `slab-I-json-root.json` for the root JSON slab,
/// `slab-I-json.json` for another JSON slab, `slab-I-TYPE.bin` for a typed
/// array.
pub open spec fn slab_file_name(i: nat, pad: nat, t: SlabType, is_root: bool) -> Seq<char> {
    let stem = seq!['s', 'l', 'a', 'b', '-'] + zero_pad(decimal(i), pad);
    if t == SlabType::Json {
        if is_root {
            stem + seq!['-', 'j', 's', 'o', 'n', '-', 'r', 'o', 'o', 't', '.', 'j', 's', 'o', 'n']
        } else {
            stem + seq!['-', 'j', 's', 'o', 'n', '.', 'j', 's', 'o', 'n']
        }
    } else {
        stem + seq!['-'] + t.spec_name() + seq!['.', 'b', 'i', 'n']
    }
}

/// The views of strings.
pub open spec fn names_view(ss: Seq<String>) -> Seq<Seq<char>> {
    ss.map_values(|s: String| s@)
}

/// The file names of all slabs of a directory, their indexes padded to the
/// digits of the largest index.
pub open spec fn file_names(root: usize, es: Seq<crate::format::SlabTableEntry>) -> Seq<Seq<char>> {
    Seq::new(
        es.len(),
        |i: int|
            slab_file_name(
                i as nat,
                decimal(saturating_pred(es.len())).len(),
                es[i].slab_type,
                i == root,
            ),
    )
}

/// The file name of slab `i`.
pub fn file_name(i: usize, pad: usize, slab_type: SlabType, is_root: bool) -> (s: String)
    ensures
        s@ == slab_file_name(i as nat, pad as nat, slab_type, is_root),
{
    let mut digits_text = String::new();
    push_decimal(&mut digits_text, i);
    let n = digits_text.as_str().unicode_len();
    let mut s = String::new();
    proof {
        reveal_strlit("slab-");
        reveal_strlit("0");
        reveal_strlit("-json-root.json");
        reveal_strlit("-json.json");
        reveal_strlit("-");
        reveal_strlit(".bin");
    }
    s.append("slab-");
    let ghost stem0 = s@;
    assert("0"@ =~= seq!['0']);
    if n < pad {
        let mut k: usize = 0;
        while k < pad - n
            invariant
                k <= pad - n,
                s@ == stem0 + zeros_text(k as nat),
                "0"@ == seq!['0'],
            decreases pad - n - k,
        {
            s.append("0");
            assert(zeros_text((k + 1) as nat) =~= zeros_text(k as nat) + seq!['0']);
            k = k + 1;
        }
    }
    s.append(digits_text.as_str());
    assert(s@ =~= seq!['s', 'l', 'a', 'b', '-'] + zero_pad(decimal(i as nat), pad as nat));
    if slab_type == SlabType::Json {
        if is_root {
            s.append("-json-root.json");
        } else {
            s.append("-json.json");
        }
    } else {
        s.append("-");
        s.append(slab_type.name());
        s.append(".bin");
    }
    assert(s@ =~= slab_file_name(i as nat, pad as nat, slab_type, is_root));
    s
}

/// The file name of every slab of `dir`, in slab-table order, with the
/// indexes zero-padded to the digits of the largest one.
pub fn file_names_of(dir: &SlabDirectory) -> (names: Vec<String>)
    ensures
        names_view(names@) == file_names(dir.header.root_json_slab_index, dir.entries@),
{
    let n = dir.entries.len();
    let last = if n == 0 {
        0
    } else {
        n - 1
    };
    let pad = digits(last);
    let root = dir.root_json_index();
    let ghost target = file_names(dir.header.root_json_slab_index, dir.entries@);
    let mut names: Vec<String> = Vec::new();
    let mut i: usize = 0;
    while i < n
        invariant
            i <= n,
            n == dir.entries@.len(),
            pad == decimal(saturating_pred(n as nat)).len(),
            root == dir.header.root_json_slab_index,
            target == file_names(dir.header.root_json_slab_index, dir.entries@),
            names_view(names@) == target.subrange(0, i as int),
        decreases n - i,
    {
        let name = file_name(i, pad, dir.entries[i].slab_type, i == root);
        let ghost before = names@;
        names.push(name);
        proof {
            assert(names_view(names@) =~= names_view(before).push(name@));
            assert(target.subrange(0, i + 1) =~= target.subrange(0, i as int).push(target[i as int]));
        }
        i = i + 1;
    }
    assert(target.subrange(0, n as int) =~= target);
    names
}

/// The line reported for a slab written to `name`: `NAME  (N bytes)`.
pub fn report_line(name: &str, byte_length: u64) -> (s: String)
    ensures
        s@ == name@ + seq![' ', ' ', '('] + decimal(byte_length as nat) + seq![
            ' ',
            'b',
            'y',
            't',
            'e',
            's',
            ')',
        ],
{
    let mut s = String::new();
    proof {
        reveal_strlit("  (");
        reveal_strlit(" bytes)");
    }
    s.append(name);
    s.append("  (");
    push_decimal_u64(&mut s, byte_length);
    s.append(" bytes)");
    assert(s@ =~= name@ + seq![' ', ' ', '('] + decimal(byte_length as nat) + seq![
        ' ',
        'b',
        'y',
        't',
        'e',
        's',
        ')',
    ]);
    s
}

/// Whether `s` ends with `suffix`.
pub open spec fn ends_with(s: Seq<char>, suffix: Seq<char>) -> bool {
    s.len() >= suffix.len() && s.subrange(s.len() - suffix.len(), s.len() as int) == suffix
}

/// The ending of the root JSON slab's file name.
pub open spec fn root_file_suffix() -> Seq<char> {
    seq!['-', 'j', 's', 'o', 'n', '-', 'r', 'o', 'o', 't', '.', 'j', 's', 'o', 'n']
}

/// The root JSON slab is the one the header names, wherever it stands in
/// the slab table: among the file names of a directory whose header gives
/// `root` as the root index, the name of slab `i` ends in
/// `-json-root.json` exactly when `i` is `root` and slab `i` is a JSON
/// slab. Every other JSON slab's name ends in `-json.json`, and a typed
/// slab's in `.bin`.
pub proof fn law_root_file_is_named_by_header(
    root: usize,
    es: Seq<crate::format::SlabTableEntry>,
    i: int,
)
    requires
        0 <= i < es.len(),
    ensures
        ends_with(file_names(root, es)[i], root_file_suffix()) <==> (i == root
            && es[i].slab_type == SlabType::Json),
        es[i].slab_type == SlabType::Json && i != root ==> ends_with(
            file_names(root, es)[i],
            seq!['-', 'j', 's', 'o', 'n', '.', 'j', 's', 'o', 'n'],
        ),
        es[i].slab_type != SlabType::Json ==> ends_with(
            file_names(root, es)[i],
            seq!['.', 'b', 'i', 'n'],
        ),
{
    let name = file_names(root, es)[i];
    let pad = decimal(saturating_pred(es.len())).len();
    let stem = seq!['s', 'l', 'a', 'b', '-'] + zero_pad(decimal(i as nat), pad);
    let r = root_file_suffix();
    let len = name.len() as int;
    if es[i].slab_type == SlabType::Json {
        if i == root {
            assert(name == stem + r);
            assert(name.subrange(len - 15, len) =~= r);
        } else {
            let j = seq!['-', 'j', 's', 'o', 'n', '.', 'j', 's', 'o', 'n'];
            assert(name == stem + j);
            assert(name.subrange(len - 10, len) =~= j);
            if len >= 15 {
                assert(name.subrange(len - 15, len)[6] == name[len - 9]);
                assert(name[len - 9] == 'j');
                assert(r[6] == 'r');
            }
        }
    } else {
        let b = seq!['.', 'b', 'i', 'n'];
        let mid = seq!['-'] + es[i].slab_type.spec_name();
        assert(name == stem + mid + b);
        assert(name.subrange(len - 4, len) =~= b);
        if len >= 15 {
            assert(name.subrange(len - 15, len)[11] == name[len - 4]);
            assert(name[len - 4] == '.');
            assert(r[11] == 'j');
        }
    }
}

} // verus!
