//! The jq-style path that first reaches each slab, as `jslb ls` prints it.
//!
//! `PathFinder` follows the visitor calls of skeleton walks and records,
//! for every slab, the path of the first placeholder that refers to it.

use crate::format::{SlabTableEntry, SlabType};
use crate::json_text::{json_quoted, push_json_string};
use crate::placeholder::{decimal, push_decimal};
use crate::skeleton::{CallView, VisitorCall};
use vstd::prelude::*;
use vstd::std_specs::iter::IteratorSpec;
use vstd::string::StringExecFns;

verus! {

broadcast use vstd::string::group_string_axioms;

/// Whether `c` is an ASCII letter.
pub open spec fn is_ascii_letter(c: char) -> bool {
    ('a' <= c && c <= 'z') || ('A' <= c && c <= 'Z')
}

/// Whether `c` may continue an identifier: an ASCII letter or digit, or `_`.
pub open spec fn is_ident_char(c: char) -> bool {
    is_ascii_letter(c) || ('0' <= c && c <= '9') || c == '_'
}

/// Whether `k` can be written as `.k` in a path: a non-empty run of ASCII
/// letters, digits and `_` that does not start with a digit.
pub open spec fn simple_identifier(k: Seq<char>) -> bool {
    &&& k.len() > 0
    &&& (is_ascii_letter(k[0]) || k[0] == '_')
    &&& forall|i: int| 1 <= i < k.len() ==> #[trigger] is_ident_char(k[i])
}

/// The path component of an object key: `.key` for a simple identifier,
/// else `["key"]` with the key as a JSON string.
pub open spec fn key_component(k: Seq<char>) -> Seq<char> {
    if simple_identifier(k) {
        seq!['.'] + k
    } else {
        seq!['['] + json_quoted(k) + seq![']']
    }
}

/// The path component of an array element: `[index]`.
pub open spec fn index_component(i: nat) -> Seq<char> {
    seq!['['] + decimal(i) + seq![']']
}

/// Determines whether `.key` can be used for this key in a path (else it
/// must be written `["key"]`).
pub fn is_simple_identifier(k: &str) -> (b: bool)
    ensures
        b == simple_identifier(k@),
{
    let ghost t = k@;
    let mut it = k.chars();
    let first = it.next();
    let c = match first {
        None => {
            return false;
        },
        Some(c) => c,
    };
    assert(c == t[0]);
    if !(('a' <= c && c <= 'z') || ('A' <= c && c <= 'Z') || c == '_') {
        return false;
    }
    let ghost mut pos: int = 1;
    assert(it.remaining() =~= t.subrange(1, t.len() as int));
    loop
        invariant
            t == k@,
            1 <= pos <= t.len(),
            t.len() > 0,
            is_ascii_letter(t[0]) || t[0] == '_',
            it.remaining() == t.subrange(pos, t.len() as int),
            forall|i: int| 1 <= i < pos ==> #[trigger] is_ident_char(t[i]),
        decreases t.len() - pos,
    {
        let ghost before = it.remaining();
        match it.next() {
            None => {
                assert(before.len() == 0);
                return true;
            },
            Some(c) => {
                assert(before.len() > 0);
                assert(c == t[pos]);
                if !(('a' <= c && c <= 'z') || ('A' <= c && c <= 'Z') || ('0' <= c && c <= '9')
                    || c == '_') {
                    assert(!is_ident_char(t[pos]));
                    return false;
                }
                assert(it.remaining() =~= t.subrange(pos + 1, t.len() as int));
                proof {
                    pos = pos + 1;
                }
            },
        }
    }
}

/// Formats an object key as a jq-style path component: `.foo` for simple
/// identifiers, `["..."]` (JSON-escaped) for anything else.
pub fn format_key(k: &str) -> (s: String)
    ensures
        s@ == key_component(k@),
{
    if is_simple_identifier(k) {
        let mut s = String::new();
        proof {
            reveal_strlit(".");
        }
        s.append(".");
        s.append(k);
        s
    } else {
        let mut s = String::new();
        proof {
            reveal_strlit("[");
            reveal_strlit("]");
        }
        s.append("[");
        push_json_string(&mut s, k);
        s.append("]");
        s
    }
}

/// The path component `[index]` of an array element.
pub fn format_index(index: usize) -> (s: String)
    ensures
        s@ == index_component(index as nat),
{
    let mut s = String::new();
    proof {
        reveal_strlit("[");
        reveal_strlit("]");
    }
    s.append("[");
    push_decimal(&mut s, index);
    s.append("]");
    s
}

/// The concatenation of path components.
pub open spec fn join(cs: Seq<Seq<char>>) -> Seq<char>
    decreases cs.len(),
{
    if cs.len() == 0 {
        Seq::empty()
    } else {
        join(cs.drop_last()) + cs.last()
    }
}

/// The views of optional strings.
pub open spec fn opt_strings_view(ps: Seq<Option<String>>) -> Seq<Option<Seq<char>>> {
    ps.map_values(
        |p: Option<String>|
            match p {
                Some(s) => Some(s@),
                None => None,
            },
    )
}

/// The path recorded for the root slab, and for a placeholder at the top
/// of a skeleton.
pub open spec fn root_path() -> Seq<char> {
    seq!['.']
}

/// The path recorded for a placeholder reached along `path`: the path
/// itself, or `.` when it is empty.
pub open spec fn recorded_path(path: Seq<char>) -> Seq<char> {
    if path.len() == 0 {
        root_path()
    } else {
        path
    }
}

/// The paths of a fresh path finder: `.` for the root slab, none for
/// the others.
pub open spec fn initial_paths(n: nat, root: int) -> Seq<Option<Seq<char>>> {
    Seq::new(n, |i: int| if i == root { Some(root_path()) } else { None::<Seq<char>> })
}

/// What `PathFinder` holds: the path recorded so far for each slab, and
/// the components of the path being walked, outermost first.
pub struct PathFinderView {
    pub paths: Seq<Option<Seq<char>>>,
    pub components: Seq<Seq<char>>,
}

/// Records, for every slab, the first jq-style path that points at it.
/// Keeps a stack of path components: each object key or array element
/// pushes one, and the next sibling or the end of the container pops it.
pub struct PathFinder {
    paths: Vec<Option<String>>,
    components: Vec<String>,
}

impl View for PathFinder {
    type V = PathFinderView;

    closed spec fn view(&self) -> PathFinderView {
        PathFinderView {
            paths: opt_strings_view(self.paths@),
            components: self.components@.map_values(|s: String| s@),
        }
    }
}

/// Whether a visitor call needs a path component on the stack (it pops
/// one): a further key, or the end of a non-empty container.
pub open spec fn call_pops(c: CallView) -> bool {
    match c {
        CallView::ObjectKey(_, first) => !first,
        CallView::ExitObject(empty) => !empty,
        CallView::ArrayElement(i) => i > 0,
        CallView::ExitArray(empty) => !empty,
        _ => false,
    }
}

/// Whether slab `idx` gets its path recorded and is then walked in turn:
/// it was not reached before and is a JSON slab.
pub open spec fn should_walk(
    paths: Seq<Option<Seq<char>>>,
    slabs: Seq<SlabTableEntry>,
    idx: usize,
) -> bool {
    &&& !(idx < paths.len() && paths[idx as int] is Some)
    &&& idx < slabs.len()
    &&& slabs[idx as int].slab_type == SlabType::Json
}

/// The paths after a placeholder for slab `idx` is reached along `path`:
/// the slab's path is recorded if it had none.
pub open spec fn paths_after_placeholder(
    paths: Seq<Option<Seq<char>>>,
    idx: usize,
    path: Seq<char>,
) -> Seq<Option<Seq<char>>> {
    if idx < paths.len() && paths[idx as int] is None {
        paths.update(idx as int, Some(recorded_path(path)))
    } else {
        paths
    }
}

/// What one visitor call does to a `PathFinder`.
pub open spec fn visit_spec(v: PathFinderView, c: CallView) -> PathFinderView {
    let popped = if call_pops(c) {
        v.components.drop_last()
    } else {
        v.components
    };
    match c {
        CallView::ObjectKey(k, _) => PathFinderView {
            paths: v.paths,
            components: popped.push(key_component(k)),
        },
        CallView::ArrayElement(i) => PathFinderView {
            paths: v.paths,
            components: popped.push(index_component(i as nat)),
        },
        CallView::Placeholder(idx) => PathFinderView {
            paths: paths_after_placeholder(v.paths, idx, join(v.components)),
            components: v.components,
        },
        _ => PathFinderView { paths: v.paths, components: popped },
    }
}

impl PathFinder {
    /// A path finder for `slab_count` slabs, with the root slab reached by
    /// the path `.` and no other slab reached yet.
    pub fn new(slab_count: usize, root: usize) -> (f: PathFinder)
        requires
            root < slab_count,
        ensures
            f@.paths == initial_paths(slab_count as nat, root as int),
            f@.components == Seq::<Seq<char>>::empty(),
    {
        let mut paths: Vec<Option<String>> = Vec::new();
        let mut i: usize = 0;
        while i < slab_count
            invariant
                i <= slab_count,
                root < slab_count,
                paths@.len() == i,
                opt_strings_view(paths@) == initial_paths(i as nat, root as int),
            decreases slab_count - i,
        {
            let ghost before = paths@;
            if i == root {
                proof {
                    reveal_strlit(".");
                }
                let dot = String::from_str(".");
                assert(dot@ =~= root_path());
                paths.push(Some(dot));
                assert(opt_strings_view(paths@)[i as int] == Some(root_path()));
            } else {
                paths.push(None);
                assert(opt_strings_view(paths@)[i as int] == None::<Seq<char>>);
            }
            proof {
                assert(paths@.drop_last() == before);
                assert forall|j: int| 0 <= j < i implies opt_strings_view(paths@)[j] == opt_strings_view(before)[j] by {
                    assert(paths@[j] == before[j]);
                }
                assert forall|j: int| 0 <= j < i + 1 implies opt_strings_view(paths@)[j]
                    == initial_paths((i + 1) as nat, root as int)[j] by {
                    if j < i {
                        assert(opt_strings_view(before)[j] == initial_paths(i as nat, root as int)[j]);
                    }
                }
                assert(opt_strings_view(paths@) =~= initial_paths((i + 1) as nat, root as int));
            }
            i = i + 1;
        }
        let f = PathFinder { paths, components: Vec::new() };
        assert(f@.components =~= Seq::<Seq<char>>::empty());
        f
    }

    /// The number of path components on the stack.
    pub fn depth(&self) -> (n: usize)
        ensures
            n == self@.components.len(),
    {
        self.components.len()
    }

    /// Pushes a path component.
    pub fn push(&mut self, component: String)
        ensures
            final(self)@.paths == old(self)@.paths,
            final(self)@.components == old(self)@.components.push(component@),
    {
        let ghost c = component@;
        self.components.push(component);
        assert(self@.components =~= old(self)@.components.push(c));
    }

    /// Pops the last path component.
    pub fn pop(&mut self)
        requires
            old(self)@.components.len() > 0,
        ensures
            final(self)@.paths == old(self)@.paths,
            final(self)@.components == old(self)@.components.drop_last(),
    {
        self.components.pop();
        assert(self@.components =~= old(self)@.components.drop_last());
    }

    /// The current path: the components joined.
    fn current_path(&self) -> (s: String)
        ensures
            s@ == join(self@.components),
    {
        let mut s = String::new();
        let mut i: usize = 0;
        let ghost cs = self@.components;
        while i < self.components.len()
            invariant
                i <= self.components@.len(),
                cs == self@.components,
                cs.len() == self.components@.len(),
                s@ == join(cs.subrange(0, i as int)),
            decreases self.components@.len() - i,
        {
            s.append(self.components[i].as_str());
            proof {
                assert(cs.subrange(0, i + 1).drop_last() =~= cs.subrange(0, i as int));
            }
            i = i + 1;
        }
        assert(cs.subrange(0, i as int) =~= cs);
        s
    }

    /// A placeholder for slab `slab_idx` reached along the current path:
    /// records the path if the slab has none yet, and returns whether the
    /// caller should now walk that slab (it was not reached before and is
    /// a JSON slab). Walking a slab only the first time it is reached
    /// captures every path it leads to, and stops self-referencing files.
    pub fn placeholder(&mut self, slabs: &[SlabTableEntry], slab_idx: usize) -> (walk: bool)
        ensures
            final(self)@.components == old(self)@.components,
            final(self)@.paths == paths_after_placeholder(
                old(self)@.paths,
                slab_idx,
                join(old(self)@.components),
            ),
            walk == should_walk(old(self)@.paths, slabs@, slab_idx),
    {
        let ghost p0 = self@.paths;
        let n = self.paths.len();
        let already_seen = slab_idx < n && self.paths[slab_idx].is_some();
        if slab_idx < n && self.paths[slab_idx].is_none() {
            let path = self.current_path();
            let recorded = if path.as_str().is_empty() {
                proof {
                    reveal_strlit(".");
                }
                let dot = String::from_str(".");
                assert(dot@ =~= root_path());
                dot
            } else {
                path
            };
            let ghost rv = recorded@;
            self.paths.set(slab_idx, Some(recorded));
            proof {
                assert(opt_strings_view(self.paths@) =~= p0.update(slab_idx as int, Some(rv)));
            }
        }
        !already_seen && slab_idx < slabs.len() && slabs[slab_idx].slab_type == SlabType::Json
    }

    /// Whether `visit` can follow `call`: a call that pops a path
    /// component needs one on the stack.
    pub fn can_visit(&self, call: &VisitorCall) -> (b: bool)
        ensures
            b == (call_pops(call@) ==> self@.components.len() > 0),
    {
        let pops = match call {
            VisitorCall::ObjectKey(_, first) => !*first,
            VisitorCall::ExitObject(empty) => !*empty,
            VisitorCall::ArrayElement(i) => *i > 0,
            VisitorCall::ExitArray(empty) => !*empty,
            _ => false,
        };
        !pops || self.components.len() > 0
    }

    /// Follows one visitor call. For a placeholder, returns whether the
    /// caller should walk the slab it refers to.
    pub fn visit(&mut self, call: &VisitorCall, slabs: &[SlabTableEntry]) -> (walk: bool)
        requires
            call_pops(call@) ==> old(self)@.components.len() > 0,
        ensures
            final(self)@ == visit_spec(old(self)@, call@),
            walk == (call@ is Placeholder && should_walk(
                old(self)@.paths,
                slabs@,
                call@->Placeholder_0,
            )),
    {
        match call {
            VisitorCall::ObjectKey(k, first) => {
                if !*first {
                    self.pop();
                }
                self.push(format_key(k.as_str()));
                false
            },
            VisitorCall::ExitObject(empty) => {
                if !*empty {
                    self.pop();
                }
                false
            },
            VisitorCall::ArrayElement(index) => {
                if *index > 0 {
                    self.pop();
                }
                self.push(format_index(*index));
                false
            },
            VisitorCall::ExitArray(empty) => {
                if !*empty {
                    self.pop();
                }
                false
            },
            VisitorCall::Placeholder(idx) => self.placeholder(slabs, *idx),
            _ => false,
        }
    }

    /// The path recorded for each slab, `None` for a slab no placeholder
    /// reached.
    pub fn into_paths(self) -> (ps: Vec<Option<String>>)
        ensures
            opt_strings_view(ps@) == self@.paths,
    {
        self.paths
    }
}

} // verus!
