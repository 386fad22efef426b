//! The decisions of walking the JSON skeleton of a `.jslb` file.
//!
//! A JSON parser turns a JSON slab's bytes into events; `SkeletonWalker`
//! takes those events one at a time and says which visitor calls they
//! amount to. It recognises the placeholder shape
//! `{"$s": <non-negative integer>}` with a three-token lookahead: a real
//! placeholder becomes a single `Placeholder` call, while a regular object
//! that merely starts with `$s` is replayed as `EnterObject`,
//! `ObjectKey("$s")`, its value and so on, so that a visitor never learns
//! that the lookahead happened.
//!
//! The transitions are stated by `spec_step`; `SkeletonWalker::step` is
//! proved to follow them.

use crate::types::SLAB_REF_KEY;
use vstd::prelude::*;
use vstd::std_specs::iter::IteratorSpec;

verus! {

broadcast use vstd::string::group_string_axioms;

/// One event of a JSON parser, with the text of keys, strings and numbers
/// in the form the parser saw it.
#[derive(Debug)]
pub enum SkeletonEvent {
    StartObject,
    EndObject,
    StartArray,
    EndArray,
    FieldName(String),
    ValueString(String),
    ValueInt(String),
    ValueFloat(String),
    ValueTrue,
    ValueFalse,
    ValueNull,
}

/// The mathematical value of a `SkeletonEvent`.
pub enum EventView {
    StartObject,
    EndObject,
    StartArray,
    EndArray,
    FieldName(Seq<char>),
    ValueString(Seq<char>),
    ValueInt(Seq<char>),
    ValueFloat(Seq<char>),
    ValueTrue,
    ValueFalse,
    ValueNull,
}

impl View for SkeletonEvent {
    type V = EventView;

    open spec fn view(&self) -> EventView {
        match self {
            SkeletonEvent::StartObject => EventView::StartObject,
            SkeletonEvent::EndObject => EventView::EndObject,
            SkeletonEvent::StartArray => EventView::StartArray,
            SkeletonEvent::EndArray => EventView::EndArray,
            SkeletonEvent::FieldName(s) => EventView::FieldName(s@),
            SkeletonEvent::ValueString(s) => EventView::ValueString(s@),
            SkeletonEvent::ValueInt(s) => EventView::ValueInt(s@),
            SkeletonEvent::ValueFloat(s) => EventView::ValueFloat(s@),
            SkeletonEvent::ValueTrue => EventView::ValueTrue,
            SkeletonEvent::ValueFalse => EventView::ValueFalse,
            SkeletonEvent::ValueNull => EventView::ValueNull,
        }
    }
}

/// The view of an event that may be missing (the end of the input).
pub open spec fn opt_event_view(e: Option<SkeletonEvent>) -> Option<EventView> {
    match e {
        Some(ev) => Some(ev@),
        None => None,
    }
}

/// Which kind an event is, without its text; named in error reports.
#[derive(Debug, Clone, Copy, PartialEq, Eq, Structural)]
pub enum EventKind {
    StartObject,
    EndObject,
    StartArray,
    EndArray,
    FieldName,
    ValueString,
    ValueInt,
    ValueFloat,
    ValueTrue,
    ValueFalse,
    ValueNull,
}

/// The kind of an event.
pub open spec fn event_kind(e: EventView) -> EventKind {
    match e {
        EventView::StartObject => EventKind::StartObject,
        EventView::EndObject => EventKind::EndObject,
        EventView::StartArray => EventKind::StartArray,
        EventView::EndArray => EventKind::EndArray,
        EventView::FieldName(_) => EventKind::FieldName,
        EventView::ValueString(_) => EventKind::ValueString,
        EventView::ValueInt(_) => EventKind::ValueInt,
        EventView::ValueFloat(_) => EventKind::ValueFloat,
        EventView::ValueTrue => EventKind::ValueTrue,
        EventView::ValueFalse => EventKind::ValueFalse,
        EventView::ValueNull => EventKind::ValueNull,
    }
}

impl SkeletonEvent {
    /// The kind of this event.
    pub fn kind(&self) -> (k: EventKind)
        ensures
            k == event_kind(self@),
    {
        match self {
            SkeletonEvent::StartObject => EventKind::StartObject,
            SkeletonEvent::EndObject => EventKind::EndObject,
            SkeletonEvent::StartArray => EventKind::StartArray,
            SkeletonEvent::EndArray => EventKind::EndArray,
            SkeletonEvent::FieldName(_) => EventKind::FieldName,
            SkeletonEvent::ValueString(_) => EventKind::ValueString,
            SkeletonEvent::ValueInt(_) => EventKind::ValueInt,
            SkeletonEvent::ValueFloat(_) => EventKind::ValueFloat,
            SkeletonEvent::ValueTrue => EventKind::ValueTrue,
            SkeletonEvent::ValueFalse => EventKind::ValueFalse,
            SkeletonEvent::ValueNull => EventKind::ValueNull,
        }
    }
}

/// A call the walker makes on its visitor. `first` and `index` give the
/// position within the enclosing container; `empty` says whether the
/// container had no members.
#[derive(Debug)]
pub enum VisitorCall {
    EnterObject,
    ExitObject(bool),
    EnterArray,
    ExitArray(bool),
    ObjectKey(String, bool),
    ArrayElement(usize),
    ValueString(String),
    /// A number, spelled as in the skeleton.
    ValueNumber(String),
    ValueTrue,
    ValueFalse,
    ValueNull,
    /// A `{"$s": N}` placeholder, with `N` unchecked against the slab
    /// table.
    Placeholder(usize),
}

/// The mathematical value of a `VisitorCall`.
pub enum CallView {
    EnterObject,
    ExitObject(bool),
    EnterArray,
    ExitArray(bool),
    ObjectKey(Seq<char>, bool),
    ArrayElement(usize),
    ValueString(Seq<char>),
    ValueNumber(Seq<char>),
    ValueTrue,
    ValueFalse,
    ValueNull,
    Placeholder(usize),
}

impl View for VisitorCall {
    type V = CallView;

    open spec fn view(&self) -> CallView {
        match self {
            VisitorCall::EnterObject => CallView::EnterObject,
            VisitorCall::ExitObject(e) => CallView::ExitObject(*e),
            VisitorCall::EnterArray => CallView::EnterArray,
            VisitorCall::ExitArray(e) => CallView::ExitArray(*e),
            VisitorCall::ObjectKey(k, f) => CallView::ObjectKey(k@, *f),
            VisitorCall::ArrayElement(i) => CallView::ArrayElement(*i),
            VisitorCall::ValueString(s) => CallView::ValueString(s@),
            VisitorCall::ValueNumber(s) => CallView::ValueNumber(s@),
            VisitorCall::ValueTrue => CallView::ValueTrue,
            VisitorCall::ValueFalse => CallView::ValueFalse,
            VisitorCall::ValueNull => CallView::ValueNull,
            VisitorCall::Placeholder(i) => CallView::Placeholder(*i),
        }
    }
}

/// The views of a sequence of calls.
pub open spec fn calls_view(calls: Seq<VisitorCall>) -> Seq<CallView> {
    calls.map_values(|c: VisitorCall| c@)
}

/// Why a skeleton cannot be walked.
#[derive(Debug, Clone, Copy, PartialEq, Eq, Structural)]
pub enum WalkError {
    /// The input ended where a value was due.
    EndInValue,
    /// The input ended inside an object.
    EndInObject,
    /// The input ended after a `"$s"` key.
    EndAfterRefKey,
    /// The input ended after the integer of a `"$s"` key.
    EndAfterRefValue,
    /// The input ended inside an array.
    EndInArray,
    /// An event that cannot stand where a value is due.
    UnexpectedInValue(EventKind),
    /// An event that cannot follow the start of an object.
    UnexpectedAfterStartObject(EventKind),
    /// An event that cannot follow `"$s": N`.
    UnexpectedAfterRefValue(EventKind),
    /// An event that cannot stand between the members of an object.
    UnexpectedInObject(EventKind),
    /// An event after the complete top-level value.
    Trailing(EventKind),
}

/// An open container: an object, or an array with the index its next
/// element will get.
#[derive(Debug, Clone, Copy, PartialEq, Eq, Structural)]
pub enum Frame {
    Object,
    Array(usize),
}

/// What the walker expects next.
pub enum Pending {
    /// A value.
    Value,
    /// The first key of an object, or its end.
    ObjectStart,
    /// The value of a `"$s"` first key.
    RefValue,
    /// After `{"$s": N`: the end of the object (a placeholder) or
    /// another key. Holds `N` and its text.
    RefNext(usize, String),
    /// Another member of an object, or its end.
    Member,
    /// Another element of an array, or its end.
    Item,
    /// The end of the input, after the complete top-level value.
    Done,
    /// Nothing: the input ended where it should.
    Finished,
    /// Nothing: an error was reported.
    Failed,
}

/// The mathematical value of a `Pending`.
pub enum PendingView {
    Value,
    ObjectStart,
    RefValue,
    RefNext(usize, Seq<char>),
    Member,
    Item,
    Done,
    Finished,
    Failed,
}

impl View for Pending {
    type V = PendingView;

    open spec fn view(&self) -> PendingView {
        match self {
            Pending::Value => PendingView::Value,
            Pending::ObjectStart => PendingView::ObjectStart,
            Pending::RefValue => PendingView::RefValue,
            Pending::RefNext(i, t) => PendingView::RefNext(*i, t@),
            Pending::Member => PendingView::Member,
            Pending::Item => PendingView::Item,
            Pending::Done => PendingView::Done,
            Pending::Finished => PendingView::Finished,
            Pending::Failed => PendingView::Failed,
        }
    }
}

/// The state of a walk: the open containers, innermost last, and what is
/// expected next.
pub struct WalkState {
    pub frames: Seq<Frame>,
    pub pending: PendingView,
}

/// The result of one step: the state after it, the visitor calls it
/// makes, in order, and the error it reports, if any.
pub struct StepView {
    pub state: WalkState,
    pub calls: Seq<CallView>,
    pub error: Option<WalkError>,
}

/// The characters of the placeholder key `$s`.
pub open spec fn ref_key() -> Seq<char> {
    seq!['$', 's']
}

/// The value of a decimal digit character.
pub open spec fn digit_value(c: char) -> int {
    c as int - '0' as int
}

/// Whether `c` is an ASCII decimal digit.
pub open spec fn is_digit(c: char) -> bool {
    '0' <= c && c <= '9'
}

/// The value of a string of decimal digits.
pub open spec fn digits_value(s: Seq<char>) -> nat
    decreases s.len(),
{
    if s.len() == 0 {
        0
    } else {
        (digits_value(s.drop_last()) * 10 + digit_value(s.last())) as nat
    }
}

/// The digits of an unsigned integer literal, after an optional `+`.
pub open spec fn unsigned_digits(t: Seq<char>) -> Seq<char> {
    if t.len() > 0 && t[0] == '+' {
        t.drop_first()
    } else {
        t
    }
}

/// `t` read as a `usize` the way `str::parse::<usize>` reads it: an
/// optional `+`, then one or more ASCII digits whose value fits in a
/// `usize`.
pub open spec fn spec_parse_index(t: Seq<char>) -> Option<usize> {
    let d = unsigned_digits(t);
    if d.len() > 0 && (forall|i: int| 0 <= i < d.len() ==> #[trigger] is_digit(d[i]))
        && digits_value(d) <= usize::MAX {
        Some(digits_value(d) as usize)
    } else {
        None
    }
}

/// What follows a complete value: the next member or element of the
/// enclosing container, or the end of the input at the top level.
pub open spec fn after_value(frames: Seq<Frame>) -> PendingView {
    if frames.len() == 0 {
        PendingView::Done
    } else if frames.last() == Frame::Object {
        PendingView::Member
    } else {
        PendingView::Item
    }
}

/// A step that succeeds.
pub open spec fn step_ok(frames: Seq<Frame>, pending: PendingView, calls: Seq<CallView>) -> StepView {
    StepView { state: WalkState { frames, pending }, calls, error: None }
}

/// A step that reports `e` after making `calls`.
pub open spec fn step_err(frames: Seq<Frame>, calls: Seq<CallView>, e: WalkError) -> StepView {
    StepView { state: WalkState { frames, pending: PendingView::Failed }, calls, error: Some(e) }
}

/// An event where a value is due, after the calls `prior`.
pub open spec fn value_event(frames: Seq<Frame>, prior: Seq<CallView>, e: EventView) -> StepView {
    match e {
        EventView::StartObject => step_ok(frames, PendingView::ObjectStart, prior),
        EventView::StartArray => step_ok(
            frames.push(Frame::Array(0)),
            PendingView::Item,
            prior.push(CallView::EnterArray),
        ),
        EventView::ValueString(s) => step_ok(
            frames,
            after_value(frames),
            prior.push(CallView::ValueString(s)),
        ),
        EventView::ValueInt(s) => step_ok(
            frames,
            after_value(frames),
            prior.push(CallView::ValueNumber(s)),
        ),
        EventView::ValueFloat(s) => step_ok(
            frames,
            after_value(frames),
            prior.push(CallView::ValueNumber(s)),
        ),
        EventView::ValueTrue => step_ok(frames, after_value(frames), prior.push(CallView::ValueTrue)),
        EventView::ValueFalse => step_ok(
            frames,
            after_value(frames),
            prior.push(CallView::ValueFalse),
        ),
        EventView::ValueNull => step_ok(frames, after_value(frames), prior.push(CallView::ValueNull)),
        _ => step_err(frames, prior, WalkError::UnexpectedInValue(event_kind(e))),
    }
}

/// The first event inside an object.
pub open spec fn object_start_event(frames: Seq<Frame>, ev: Option<EventView>) -> StepView {
    match ev {
        None => step_err(frames, seq![], WalkError::EndInObject),
        Some(EventView::EndObject) => step_ok(
            frames,
            after_value(frames),
            seq![CallView::EnterObject, CallView::ExitObject(true)],
        ),
        Some(EventView::FieldName(k)) => if k == ref_key() {
            step_ok(frames, PendingView::RefValue, seq![])
        } else {
            step_ok(
                frames.push(Frame::Object),
                PendingView::Value,
                seq![CallView::EnterObject, CallView::ObjectKey(k, true)],
            )
        },
        Some(e) => step_err(frames, seq![], WalkError::UnexpectedAfterStartObject(event_kind(e))),
    }
}

/// The event after a `"$s"` first key: an index makes a placeholder
/// candidate; any other value makes a regular object.
pub open spec fn ref_value_event(frames: Seq<Frame>, ev: Option<EventView>) -> StepView {
    match ev {
        None => step_err(frames, seq![], WalkError::EndAfterRefKey),
        Some(e) => if e is ValueInt && spec_parse_index(e->ValueInt_0) is Some {
            step_ok(
                frames,
                PendingView::RefNext(spec_parse_index(e->ValueInt_0)->0, e->ValueInt_0),
                seq![],
            )
        } else {
            value_event(
                frames.push(Frame::Object),
                seq![CallView::EnterObject, CallView::ObjectKey(ref_key(), true)],
                e,
            )
        },
    }
}

/// The event after `{"$s": N`: its end makes a placeholder; another key
/// makes a regular object whose first member is replayed.
pub open spec fn ref_next_event(
    frames: Seq<Frame>,
    idx: usize,
    text: Seq<char>,
    ev: Option<EventView>,
) -> StepView {
    match ev {
        None => step_err(frames, seq![], WalkError::EndAfterRefValue),
        Some(EventView::EndObject) => step_ok(
            frames,
            after_value(frames),
            seq![CallView::Placeholder(idx)],
        ),
        Some(EventView::FieldName(k)) => step_ok(
            frames.push(Frame::Object),
            PendingView::Value,
            seq![
                CallView::EnterObject,
                CallView::ObjectKey(ref_key(), true),
                CallView::ValueNumber(text),
                CallView::ObjectKey(k, false),
            ],
        ),
        Some(e) => step_err(frames, seq![], WalkError::UnexpectedAfterRefValue(event_kind(e))),
    }
}

/// An event between the members of an object.
pub open spec fn member_event(frames: Seq<Frame>, ev: Option<EventView>) -> StepView {
    match ev {
        None => step_err(frames, seq![], WalkError::EndInObject),
        Some(EventView::EndObject) => step_ok(
            frames.drop_last(),
            after_value(frames.drop_last()),
            seq![CallView::ExitObject(false)],
        ),
        Some(EventView::FieldName(k)) => step_ok(
            frames,
            PendingView::Value,
            seq![CallView::ObjectKey(k, false)],
        ),
        Some(e) => step_err(frames, seq![], WalkError::UnexpectedInObject(event_kind(e))),
    }
}

/// An event between the elements of an array whose next element gets
/// index `i`.
pub open spec fn item_event(frames: Seq<Frame>, i: usize, ev: Option<EventView>) -> StepView {
    match ev {
        None => step_err(frames, seq![], WalkError::EndInArray),
        Some(EventView::EndArray) => step_ok(
            frames.drop_last(),
            after_value(frames.drop_last()),
            seq![CallView::ExitArray(i == 0)],
        ),
        Some(e) => value_event(
            frames.drop_last().push(Frame::Array((i + 1) as usize)),
            seq![CallView::ArrayElement(i)],
            e,
        ),
    }
}

/// One step of the walk: what the event `ev` (`None` for the end of the
/// input) does in the state `st`.
pub open spec fn spec_step(st: WalkState, ev: Option<EventView>) -> StepView {
    match st.pending {
        PendingView::Value => match ev {
            None => step_err(st.frames, seq![], WalkError::EndInValue),
            Some(e) => value_event(st.frames, seq![], e),
        },
        PendingView::ObjectStart => object_start_event(st.frames, ev),
        PendingView::RefValue => ref_value_event(st.frames, ev),
        PendingView::RefNext(idx, text) => ref_next_event(st.frames, idx, text, ev),
        PendingView::Member => member_event(st.frames, ev),
        PendingView::Item => item_event(st.frames, st.frames.last()->Array_0, ev),
        PendingView::Done => match ev {
            None => step_ok(st.frames, PendingView::Finished, seq![]),
            Some(e) => step_err(st.frames, seq![], WalkError::Trailing(event_kind(e))),
        },
        _ => step_ok(st.frames, st.pending, seq![]),
    }
}

/// Whether a state is one the walk can be in: an array is open where
/// elements are due, an object where members are, and nothing once the
/// top-level value is complete.
pub open spec fn state_wf(st: WalkState) -> bool {
    match st.pending {
        PendingView::Member => st.frames.len() > 0 && st.frames.last() == Frame::Object,
        PendingView::Item => st.frames.len() > 0 && st.frames.last() is Array,
        PendingView::Done => st.frames.len() == 0,
        PendingView::Finished => st.frames.len() == 0,
        _ => true,
    }
}

/// Whether the walk still takes events.
pub open spec fn state_open(st: WalkState) -> bool {
    !(st.pending is Finished) && !(st.pending is Failed)
}

/// Whether the next element index of the innermost array, where one is
/// due, can be counted in a `usize`.
pub open spec fn index_room(st: WalkState) -> bool {
    st.pending is Item ==> st.frames.last()->Array_0 < usize::MAX
}

/// That a step left the state `state`, appended `new_calls` to
/// `old_calls` and returned `r`, as `s` says.
pub open spec fn step_done(
    old_calls: Seq<VisitorCall>,
    state: WalkState,
    new_calls: Seq<VisitorCall>,
    r: Result<(), WalkError>,
    s: StepView,
) -> bool {
    &&& state == s.state
    &&& calls_view(new_calls) == calls_view(old_calls) + s.calls
    &&& r == match s.error {
        None => Ok::<(), WalkError>(()),
        Some(e) => Err(e),
    }
}

/// Calls made before a value event come before the calls it makes.
pub proof fn lemma_value_event_prior(frames: Seq<Frame>, prior: Seq<CallView>, e: EventView)
    ensures
        value_event(frames, prior, e).state == value_event(frames, seq![], e).state,
        value_event(frames, prior, e).error == value_event(frames, seq![], e).error,
        value_event(frames, prior, e).calls == prior + value_event(frames, seq![], e).calls,
{
    let s = value_event(frames, seq![], e);
    match e {
        EventView::StartObject => {
            assert(prior =~= prior + s.calls);
        },
        EventView::StartArray => {
            assert(prior.push(CallView::EnterArray) =~= prior + s.calls);
        },
        EventView::ValueString(t) => {
            assert(prior.push(CallView::ValueString(t)) =~= prior + s.calls);
        },
        EventView::ValueInt(t) => {
            assert(prior.push(CallView::ValueNumber(t)) =~= prior + s.calls);
        },
        EventView::ValueFloat(t) => {
            assert(prior.push(CallView::ValueNumber(t)) =~= prior + s.calls);
        },
        EventView::ValueTrue => {
            assert(prior.push(CallView::ValueTrue) =~= prior + s.calls);
        },
        EventView::ValueFalse => {
            assert(prior.push(CallView::ValueFalse) =~= prior + s.calls);
        },
        EventView::ValueNull => {
            assert(prior.push(CallView::ValueNull) =~= prior + s.calls);
        },
        _ => {
            assert(prior =~= prior + s.calls);
        },
    }
}

/// Whether `k` is the placeholder key `$s`.
pub fn is_ref_key(k: &str) -> (b: bool)
    ensures
        b == (k@ == ref_key()),
{
    let mut it = k.chars();
    let ghost t = k@;
    let c0 = it.next();
    match c0 {
        Some('$') => {},
        _ => {
            proof {
                if t.len() > 0 {
                    assert(t[0] != '$');
                }
                assert(t != ref_key());
            }
            return false;
        },
    }
    assert(it.remaining() =~= t.subrange(1, t.len() as int));
    let c1 = it.next();
    match c1 {
        Some('s') => {},
        _ => {
            proof {
                if t.len() > 1 {
                    assert(t[1] != 's');
                }
                assert(t != ref_key());
            }
            return false;
        },
    }
    assert(it.remaining() =~= t.subrange(2, t.len() as int));
    let c2 = it.next();
    match c2 {
        None => {
            assert(t =~= ref_key());
            true
        },
        Some(_) => {
            assert(t.len() > 2);
            false
        },
    }
}

/// Walks one JSON slab's events, saying which visitor calls they make.
pub struct SkeletonWalker {
    frames: Vec<Frame>,
    pending: Pending,
}

impl View for SkeletonWalker {
    type V = WalkState;

    closed spec fn view(&self) -> WalkState {
        WalkState { frames: self.frames@, pending: self.pending@ }
    }
}

/// Reads `text` as a `usize` as `str::parse::<usize>` does.
pub fn parse_index(text: &str) -> (r: Option<usize>)
    ensures
        r == spec_parse_index(text@),
{
    let ghost t = text@;
    let mut it = text.chars();
    let ghost mut pos: int = 0;
    let ghost mut start: int = 0;
    let mut at_start = true;
    let mut any_digit = false;
    let mut value: usize = 0;
    let mut overflow = false;
    let mut bad = false;
    loop
        invariant
            0 <= start <= pos <= t.len(),
            start <= 1,
            start == 1 ==> t.len() > 0 && t[0] == '+',
            start == 0 && pos > 0 ==> t[0] != '+',
            at_start <==> pos == 0,
            it.remaining() == t.subrange(pos, t.len() as int),
            any_digit <==> pos > start,
            bad <==> exists|i: int| start <= i < pos && !#[trigger] is_digit(t[i]),
            !bad ==> (overflow <==> digits_value(t.subrange(start, pos)) > usize::MAX),
            !bad && !overflow ==> value == digits_value(t.subrange(start, pos)),
        ensures
            pos == t.len(),
            0 <= start <= pos,
            start == 1 <==> t.len() > 0 && t[0] == '+',
            any_digit <==> pos > start,
            bad <==> exists|i: int| start <= i < pos && !#[trigger] is_digit(t[i]),
            !bad ==> (overflow <==> digits_value(t.subrange(start, pos)) > usize::MAX),
            !bad && !overflow ==> value == digits_value(t.subrange(start, pos)),
        decreases t.len() - pos,
    {
        let ghost before = it.remaining();
        let next = it.next();
        match next {
            None => {
                assert(before.len() == 0);
                break;
            },
            Some(c) => {
                assert(before.len() > 0);
                assert(c == t[pos]);
                assert(it.remaining() =~= t.subrange(pos + 1, t.len() as int));
                if at_start && c == '+' {
                    proof {
                        start = 1;
                    }
                } else {
                    if '0' <= c && c <= '9' {
                        assert(is_digit(t[pos]));
                        let ghost sub = t.subrange(start, pos + 1);
                        proof {
                            assert(sub.drop_last() =~= t.subrange(start, pos));
                        }
                        if !bad && !overflow {
                            let d = (c as u32 - '0' as u32) as usize;
                            match value.checked_mul(10) {
                                Some(v10) => match v10.checked_add(d) {
                                    Some(v) => {
                                        value = v;
                                    },
                                    None => {
                                        overflow = true;
                                    },
                                },
                                None => {
                                    overflow = true;
                                },
                            }
                        }
                    } else {
                        assert(!is_digit(t[pos]));
                        bad = true;
                    }
                    any_digit = true;
                }
                at_start = false;
                proof {
                    pos = pos + 1;
                }
            },
        }
    }
    let ghost d = t.subrange(start, pos);
    proof {
        assert(d =~= unsigned_digits(t));
        if !bad {
            assert forall|i: int| 0 <= i < d.len() implies #[trigger] is_digit(d[i]) by {
                assert(d[i] == t[start + i]);
            }
        } else {
            let j = choose|j: int| start <= j < pos && !#[trigger] is_digit(t[j]);
            assert(d[j - start] == t[j]);
        }
    }
    if bad || overflow || !any_digit {
        None
    } else {
        Some(value)
    }
}

impl SkeletonWalker {
    /// Whether `self` is in a state the walk can be in.
    pub closed spec fn wf(&self) -> bool {
        state_wf(self@)
    }

    /// A walker at the start of a JSON slab, expecting its top-level
    /// value.
    pub fn new() -> (w: SkeletonWalker)
        ensures
            w@ == (WalkState { frames: Seq::<Frame>::empty(), pending: PendingView::Value }),
            w.wf(),
    {
        let w = SkeletonWalker { frames: Vec::new(), pending: Pending::Value };
        proof {
            assert(w@.frames =~= Seq::<Frame>::empty());
        }
        w
    }

    /// Whether the walk still takes events: it has neither finished nor
    /// reported an error.
    pub fn is_open(&self) -> (b: bool)
        ensures
            b == state_open(self@),
    {
        match self.pending {
            Pending::Finished => false,
            Pending::Failed => false,
            _ => true,
        }
    }

    /// Whether the input ended right after the complete top-level value.
    pub fn is_finished(&self) -> (b: bool)
        ensures
            b == (self@.pending is Finished),
    {
        match self.pending {
            Pending::Finished => true,
            _ => false,
        }
    }

    /// Whether the next array element, if one is due, can be indexed.
    pub fn has_index_room(&self) -> (b: bool)
        requires
            self.wf(),
        ensures
            b == index_room(self@),
    {
        match self.pending {
            Pending::Item => {
                let n = self.frames.len();
                match self.frames[n - 1] {
                    Frame::Array(i) => i < usize::MAX,
                    Frame::Object => true,
                }
            },
            _ => true,
        }
    }

    /// Sets what is expected after a complete value.
    fn finish_value(&mut self)
        ensures
            final(self)@.frames == old(self)@.frames,
            final(self)@.pending == after_value(old(self)@.frames),
    {
        let n = self.frames.len();
        if n == 0 {
            self.pending = Pending::Done;
        } else {
            match self.frames[n - 1] {
                Frame::Object => {
                    self.pending = Pending::Member;
                },
                Frame::Array(_) => {
                    self.pending = Pending::Item;
                },
            }
        }
    }

    /// An event where a value is due.
    fn walk_event(&mut self, e: SkeletonEvent, calls: &mut Vec<VisitorCall>) -> (r: Result<
        (),
        WalkError,
    >)
        ensures
            ({
                let s = value_event(old(self)@.frames, seq![], e@);
                &&& final(self)@ == s.state
                &&& calls_view(final(calls)@) == calls_view(old(calls)@) + s.calls
                &&& r == match s.error {
                    None => Ok::<(), WalkError>(()),
                    Some(err) => Err(err),
                }
            }),
    {
        let ghost c0 = calls@;
        let k = e.kind();
        match e {
            SkeletonEvent::StartObject => {
                self.pending = Pending::ObjectStart;
                Ok(())
            },
            SkeletonEvent::StartArray => {
                calls.push(VisitorCall::EnterArray);
                self.frames.push(Frame::Array(0));
                self.pending = Pending::Item;
                proof {
                    assert(calls_view(calls@) =~= calls_view(c0).push(CallView::EnterArray));
                }
                Ok(())
            },
            SkeletonEvent::ValueString(s) => {
                let ghost v = s@;
                calls.push(VisitorCall::ValueString(s));
                self.finish_value();
                proof {
                    assert(calls_view(calls@) =~= calls_view(c0).push(CallView::ValueString(v)));
                }
                Ok(())
            },
            SkeletonEvent::ValueInt(s) => {
                let ghost v = s@;
                calls.push(VisitorCall::ValueNumber(s));
                self.finish_value();
                proof {
                    assert(calls_view(calls@) =~= calls_view(c0).push(CallView::ValueNumber(v)));
                }
                Ok(())
            },
            SkeletonEvent::ValueFloat(s) => {
                let ghost v = s@;
                calls.push(VisitorCall::ValueNumber(s));
                self.finish_value();
                proof {
                    assert(calls_view(calls@) =~= calls_view(c0).push(CallView::ValueNumber(v)));
                }
                Ok(())
            },
            SkeletonEvent::ValueTrue => {
                calls.push(VisitorCall::ValueTrue);
                self.finish_value();
                proof {
                    assert(calls_view(calls@) =~= calls_view(c0).push(CallView::ValueTrue));
                }
                Ok(())
            },
            SkeletonEvent::ValueFalse => {
                calls.push(VisitorCall::ValueFalse);
                self.finish_value();
                proof {
                    assert(calls_view(calls@) =~= calls_view(c0).push(CallView::ValueFalse));
                }
                Ok(())
            },
            SkeletonEvent::ValueNull => {
                calls.push(VisitorCall::ValueNull);
                self.finish_value();
                proof {
                    assert(calls_view(calls@) =~= calls_view(c0).push(CallView::ValueNull));
                }
                Ok(())
            },
            _ => {
                self.pending = Pending::Failed;
                proof {
                    assert(calls_view(calls@) =~= calls_view(c0) + Seq::<CallView>::empty());
                }
                Err(WalkError::UnexpectedInValue(k))
            },
        }
    }

    /// The first event inside an object.
    fn walk_object(&mut self, ev: Option<SkeletonEvent>, calls: &mut Vec<VisitorCall>) -> (r:
        Result<(), WalkError>)
        ensures
            step_done(
                old(calls)@,
                final(self)@,
                final(calls)@,
                r,
                object_start_event(old(self)@.frames, opt_event_view(ev)),
            ),
    {
        let ghost c0 = calls@;
        match ev {
            None => {
                self.pending = Pending::Failed;
                assert(calls_view(calls@) =~= calls_view(c0) + Seq::<CallView>::empty());
                Err(WalkError::EndInObject)
            },
            Some(SkeletonEvent::EndObject) => {
                calls.push(VisitorCall::EnterObject);
                calls.push(VisitorCall::ExitObject(true));
                self.finish_value();
                assert(calls_view(calls@) =~= calls_view(c0) + seq![
                    CallView::EnterObject,
                    CallView::ExitObject(true),
                ]);
                Ok(())
            },
            Some(SkeletonEvent::FieldName(k)) => {
                if is_ref_key(k.as_str()) {
                    self.pending = Pending::RefValue;
                    assert(calls_view(calls@) =~= calls_view(c0) + Seq::<CallView>::empty());
                    Ok(())
                } else {
                    let ghost kv = k@;
                    calls.push(VisitorCall::EnterObject);
                    calls.push(VisitorCall::ObjectKey(k, true));
                    self.frames.push(Frame::Object);
                    self.pending = Pending::Value;
                    assert(calls_view(calls@) =~= calls_view(c0) + seq![
                        CallView::EnterObject,
                        CallView::ObjectKey(kv, true),
                    ]);
                    Ok(())
                }
            },
            Some(e) => {
                let k = e.kind();
                self.pending = Pending::Failed;
                assert(calls_view(calls@) =~= calls_view(c0) + Seq::<CallView>::empty());
                Err(WalkError::UnexpectedAfterStartObject(k))
            },
        }
    }

    /// Opens a regular object whose first key is `$s`, with the frame for
    /// it.
    fn open_ref_object(&mut self, calls: &mut Vec<VisitorCall>)
        ensures
            final(self)@.frames == old(self)@.frames.push(Frame::Object),
            calls_view(final(calls)@) == calls_view(old(calls)@) + seq![
                CallView::EnterObject,
                CallView::ObjectKey(ref_key(), true),
            ],
    {
        let ghost c0 = calls@;
        proof {
            reveal_strlit("$s");
        }
        let key = <String as vstd::string::StringExecFns>::from_str(SLAB_REF_KEY);
        assert(key@ =~= ref_key());
        calls.push(VisitorCall::EnterObject);
        calls.push(VisitorCall::ObjectKey(key, true));
        self.frames.push(Frame::Object);
        assert(calls_view(calls@) =~= calls_view(c0) + seq![
            CallView::EnterObject,
            CallView::ObjectKey(ref_key(), true),
        ]);
    }

    /// The event after a `"$s"` first key.
    fn try_placeholder(&mut self, ev: Option<SkeletonEvent>, calls: &mut Vec<VisitorCall>) -> (r:
        Result<(), WalkError>)
        ensures
            step_done(
                old(calls)@,
                final(self)@,
                final(calls)@,
                r,
                ref_value_event(old(self)@.frames, opt_event_view(ev)),
            ),
    {
        let ghost c0 = calls@;
        let ghost f0 = self.frames@;
        let ghost prior = seq![CallView::EnterObject, CallView::ObjectKey(ref_key(), true)];
        match ev {
            None => {
                self.pending = Pending::Failed;
                assert(calls_view(calls@) =~= calls_view(c0) + Seq::<CallView>::empty());
                Err(WalkError::EndAfterRefKey)
            },
            Some(SkeletonEvent::ValueInt(t)) => {
                let ghost tv = t@;
                match parse_index(t.as_str()) {
                    Some(idx) => {
                        self.pending = Pending::RefNext(idx, t);
                        assert(calls_view(calls@) =~= calls_view(c0) + Seq::<CallView>::empty());
                        Ok(())
                    },
                    None => {
                        self.open_ref_object(calls);
                        let ghost c1 = calls@;
                        let r = self.walk_event(SkeletonEvent::ValueInt(t), calls);
                        proof {
                            lemma_value_event_prior(f0.push(Frame::Object), prior, EventView::ValueInt(tv));
                            assert(calls_view(calls@) =~= calls_view(c0) + (prior + value_event(
                                f0.push(Frame::Object),
                                seq![],
                                EventView::ValueInt(tv),
                            ).calls));
                        }
                        r
                    },
                }
            },
            Some(e) => {
                let ghost ev0 = e@;
                self.open_ref_object(calls);
                let r = self.walk_event(e, calls);
                proof {
                    lemma_value_event_prior(f0.push(Frame::Object), prior, ev0);
                    assert(calls_view(calls@) =~= calls_view(c0) + (prior + value_event(
                        f0.push(Frame::Object),
                        seq![],
                        ev0,
                    ).calls));
                }
                r
            },
        }
    }

    /// The event after `{"$s": N`.
    fn after_ref_value(
        &mut self,
        idx: usize,
        text: String,
        ev: Option<SkeletonEvent>,
        calls: &mut Vec<VisitorCall>,
    ) -> (r: Result<(), WalkError>)
        ensures
            step_done(
                old(calls)@,
                final(self)@,
                final(calls)@,
                r,
                ref_next_event(old(self)@.frames, idx, text@, opt_event_view(ev)),
            ),
    {
        let ghost c0 = calls@;
        match ev {
            None => {
                self.pending = Pending::Failed;
                assert(calls_view(calls@) =~= calls_view(c0) + Seq::<CallView>::empty());
                Err(WalkError::EndAfterRefValue)
            },
            Some(SkeletonEvent::EndObject) => {
                calls.push(VisitorCall::Placeholder(idx));
                self.finish_value();
                assert(calls_view(calls@) =~= calls_view(c0) + seq![CallView::Placeholder(idx)]);
                Ok(())
            },
            Some(SkeletonEvent::FieldName(k)) => {
                let ghost kv = k@;
                let ghost tv = text@;
                self.open_ref_object(calls);
                let ghost c1 = calls@;
                calls.push(VisitorCall::ValueNumber(text));
                calls.push(VisitorCall::ObjectKey(k, false));
                self.pending = Pending::Value;
                assert(calls_view(calls@) =~= calls_view(c1) + seq![
                    CallView::ValueNumber(tv),
                    CallView::ObjectKey(kv, false),
                ]);
                assert(calls_view(calls@) =~= calls_view(c0) + seq![
                    CallView::EnterObject,
                    CallView::ObjectKey(ref_key(), true),
                    CallView::ValueNumber(tv),
                    CallView::ObjectKey(kv, false),
                ]);
                Ok(())
            },
            Some(e) => {
                let k = e.kind();
                self.pending = Pending::Failed;
                assert(calls_view(calls@) =~= calls_view(c0) + Seq::<CallView>::empty());
                Err(WalkError::UnexpectedAfterRefValue(k))
            },
        }
    }

    /// An event between the members of an object.
    fn continue_object(&mut self, ev: Option<SkeletonEvent>, calls: &mut Vec<VisitorCall>) -> (r:
        Result<(), WalkError>)
        requires
            old(self)@.frames.len() > 0,
        ensures
            step_done(
                old(calls)@,
                final(self)@,
                final(calls)@,
                r,
                member_event(old(self)@.frames, opt_event_view(ev)),
            ),
    {
        let ghost c0 = calls@;
        match ev {
            None => {
                self.pending = Pending::Failed;
                assert(calls_view(calls@) =~= calls_view(c0) + Seq::<CallView>::empty());
                Err(WalkError::EndInObject)
            },
            Some(SkeletonEvent::EndObject) => {
                calls.push(VisitorCall::ExitObject(false));
                self.frames.pop();
                self.finish_value();
                assert(calls_view(calls@) =~= calls_view(c0) + seq![CallView::ExitObject(false)]);
                Ok(())
            },
            Some(SkeletonEvent::FieldName(k)) => {
                let ghost kv = k@;
                calls.push(VisitorCall::ObjectKey(k, false));
                self.pending = Pending::Value;
                assert(calls_view(calls@) =~= calls_view(c0) + seq![CallView::ObjectKey(kv, false)]);
                Ok(())
            },
            Some(e) => {
                let k = e.kind();
                self.pending = Pending::Failed;
                assert(calls_view(calls@) =~= calls_view(c0) + Seq::<CallView>::empty());
                Err(WalkError::UnexpectedInObject(k))
            },
        }
    }

    /// An event between the elements of an array.
    fn walk_array(&mut self, ev: Option<SkeletonEvent>, calls: &mut Vec<VisitorCall>) -> (r:
        Result<(), WalkError>)
        requires
            old(self)@.frames.len() > 0,
            old(self)@.frames.last() is Array,
            old(self)@.frames.last()->Array_0 < usize::MAX,
        ensures
            step_done(
                old(calls)@,
                final(self)@,
                final(calls)@,
                r,
                item_event(old(self)@.frames, old(self)@.frames.last()->Array_0, opt_event_view(ev)),
            ),
    {
        let ghost c0 = calls@;
        let ghost f0 = self.frames@;
        let n = self.frames.len();
        let i = match self.frames[n - 1] {
            Frame::Array(i) => i,
            Frame::Object => 0,
        };
        match ev {
            None => {
                self.pending = Pending::Failed;
                assert(calls_view(calls@) =~= calls_view(c0) + Seq::<CallView>::empty());
                Err(WalkError::EndInArray)
            },
            Some(SkeletonEvent::EndArray) => {
                calls.push(VisitorCall::ExitArray(i == 0));
                self.frames.pop();
                self.finish_value();
                assert(calls_view(calls@) =~= calls_view(c0) + seq![CallView::ExitArray(i == 0)]);
                Ok(())
            },
            Some(e) => {
                let ghost ev0 = e@;
                calls.push(VisitorCall::ArrayElement(i));
                self.frames.pop();
                self.frames.push(Frame::Array(i + 1));
                let ghost f1 = self.frames@;
                assert(f1 =~= f0.drop_last().push(Frame::Array((i + 1) as usize)));
                let r = self.walk_event(e, calls);
                proof {
                    lemma_value_event_prior(f1, seq![CallView::ArrayElement(i)], ev0);
                    assert(calls_view(calls@) =~= calls_view(c0) + (seq![CallView::ArrayElement(i)]
                        + value_event(f1, seq![], ev0).calls));
                }
                r
            },
        }
    }

    /// Takes the next event, `None` at the end of the input: appends the
    /// visitor calls it makes to `calls` and reports an error where the
    /// event cannot stand, as `spec_step` says.
    pub fn step(&mut self, event: Option<SkeletonEvent>, calls: &mut Vec<VisitorCall>) -> (r:
        Result<(), WalkError>)
        requires
            old(self).wf(),
            state_open(old(self)@),
            index_room(old(self)@),
        ensures
            final(self).wf(),
            step_done(
                old(calls)@,
                final(self)@,
                final(calls)@,
                r,
                spec_step(old(self)@, opt_event_view(event)),
            ),
    {
        let ghost c0 = calls@;
        let mut pending = Pending::Failed;
        std::mem::swap(&mut pending, &mut self.pending);
        match pending {
            Pending::Value => match event {
                None => {
                    assert(calls_view(calls@) =~= calls_view(c0) + Seq::<CallView>::empty());
                    Err(WalkError::EndInValue)
                },
                Some(e) => {
                    let r = self.walk_event(e, calls);
                    r
                },
            },
            Pending::ObjectStart => self.walk_object(event, calls),
            Pending::RefValue => self.try_placeholder(event, calls),
            Pending::RefNext(idx, text) => self.after_ref_value(idx, text, event, calls),
            Pending::Member => self.continue_object(event, calls),
            Pending::Item => self.walk_array(event, calls),
            Pending::Done => match event {
                None => {
                    self.pending = Pending::Finished;
                    assert(calls_view(calls@) =~= calls_view(c0) + Seq::<CallView>::empty());
                    Ok(())
                },
                Some(e) => {
                    let k = e.kind();
                    assert(calls_view(calls@) =~= calls_view(c0) + Seq::<CallView>::empty());
                    Err(WalkError::Trailing(k))
                },
            },
            Pending::Finished => {
                self.pending = Pending::Finished;
                Ok(())
            },
            Pending::Failed => Ok(()),
        }
    }
}

} // verus!
