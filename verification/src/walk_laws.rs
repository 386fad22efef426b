//! Laws of the skeleton walk: the visitor calls it makes open and close
//! objects and arrays in a properly nested way, in step with the
//! containers the walker holds open, so that a walk that reaches the end
//! of its input has closed every container it opened.

use crate::skeleton::{
    after_value, item_event, member_event, object_start_event, ref_key, ref_next_event, ref_value_event,
    digits_value, is_digit, spec_parse_index, spec_step, unsigned_digits, state_open, state_wf, index_room, value_event, CallView, EventView, Frame,
    PendingView, StepView, WalkState,
};
use crate::paths::{call_pops, visit_spec, PathFinderView};
use crate::placeholder::{decimal, digit_char};
use vstd::prelude::*;

verus! {

/// An open container as the visitor sees it: whether it is an object, and
/// whether it has had a member (or element) yet.
pub struct Mark {
    pub object: bool,
    pub filled: bool,
}

/// The containers open after `o` once the call `c` is made, innermost
/// last; `None` once a call did not fit: an exit that closes no open
/// container of its kind or gets its emptiness wrong, or a key or element
/// outside a container of its kind or with the wrong `first`/`index`.
pub open spec fn nest_call(o: Option<Seq<Mark>>, c: CallView) -> Option<Seq<Mark>> {
    match o {
        None => None,
        Some(s) => match c {
            CallView::EnterObject => Some(s.push(Mark { object: true, filled: false })),
            CallView::EnterArray => Some(s.push(Mark { object: false, filled: false })),
            CallView::ExitObject(empty) => if s.len() > 0 && s.last().object && s.last().filled
                == !empty {
                Some(s.drop_last())
            } else {
                None
            },
            CallView::ExitArray(empty) => if s.len() > 0 && !s.last().object && s.last().filled
                == !empty {
                Some(s.drop_last())
            } else {
                None
            },
            CallView::ObjectKey(_, first) => if s.len() > 0 && s.last().object && s.last().filled
                == !first {
                Some(s.drop_last().push(Mark { object: true, filled: true }))
            } else {
                None
            },
            CallView::ArrayElement(i) => if s.len() > 0 && !s.last().object && s.last().filled
                == (i > 0) {
                Some(s.drop_last().push(Mark { object: false, filled: true }))
            } else {
                None
            },
            _ => Some(s),
        },
    }
}

/// The containers open after the calls `calls`, starting from `o`.
pub open spec fn nest_from(o: Option<Seq<Mark>>, calls: Seq<CallView>) -> Option<Seq<Mark>>
    decreases calls.len(),
{
    if calls.len() == 0 {
        o
    } else {
        nest_call(nest_from(o, calls.drop_last()), calls.last())
    }
}

/// The containers the calls `calls` leave open, or `None` if one of them
/// does not fit.
pub open spec fn nesting(calls: Seq<CallView>) -> Option<Seq<Mark>> {
    nest_from(Some(Seq::empty()), calls)
}

/// The open frames as the visitor sees them: an object frame is opened
/// with its first key, so it always has a member; an array frame has one
/// once its next index is past 0.
pub open spec fn frame_mark(f: Frame) -> Mark {
    match f {
        Frame::Object => Mark { object: true, filled: true },
        Frame::Array(i) => Mark { object: false, filled: i > 0 },
    }
}

/// The marks of the open frames.
pub open spec fn frame_kinds(frames: Seq<Frame>) -> Seq<Mark> {
    frames.map_values(|f: Frame| frame_mark(f))
}

/// Running calls one after another.
proof fn lemma_nest_from_append(o: Option<Seq<Mark>>, a: Seq<CallView>, b: Seq<CallView>)
    ensures
        nest_from(o, a + b) == nest_from(nest_from(o, a), b),
    decreases b.len(),
{
    if b.len() == 0 {
        assert(a + b =~= a);
    } else {
        lemma_nest_from_append(o, a, b.drop_last());
        assert((a + b).drop_last() =~= a + b.drop_last());
        assert((a + b).last() == b.last());
    }
}

/// Pushing and popping frames changes their marks accordingly.
proof fn lemma_frame_kinds(frames: Seq<Frame>, f: Frame)
    ensures
        frame_kinds(frames.push(f)) == frame_kinds(frames).push(frame_mark(f)),
        frames.len() > 0 ==> frame_kinds(frames.drop_last()) == frame_kinds(frames).drop_last(),
        frames.len() > 0 ==> frame_kinds(frames).last() == frame_mark(frames.last()),
        frame_kinds(frames).len() == frames.len(),
{
    assert(frame_kinds(frames.push(f)) =~= frame_kinds(frames).push(frame_mark(f)));
    if frames.len() > 0 {
        assert(frame_kinds(frames.drop_last()) =~= frame_kinds(frames).drop_last());
    }
}

/// A value event keeps the calls in step with the frames.
proof fn lemma_value_event_nests(frames: Seq<Frame>, o: Seq<Mark>, prior: Seq<CallView>, e: EventView)
    requires
        nest_from(Some(o), prior) == Some(frame_kinds(frames)),
        value_event(frames, prior, e).error is None,
    ensures
        nest_from(Some(o), value_event(frames, prior, e).calls) == Some(
            frame_kinds(value_event(frames, prior, e).state.frames),
        ),
{
    let s = value_event(frames, prior, e);
    lemma_frame_kinds(frames, Frame::Array(0));
    match e {
        EventView::StartObject => {},
        EventView::StartArray => {
            assert(s.calls.drop_last() =~= prior);
        },
        EventView::ValueString(_) => {
            assert(s.calls.drop_last() =~= prior);
        },
        EventView::ValueInt(_) => {
            assert(s.calls.drop_last() =~= prior);
        },
        EventView::ValueFloat(_) => {
            assert(s.calls.drop_last() =~= prior);
        },
        EventView::ValueTrue => {
            assert(s.calls.drop_last() =~= prior);
        },
        EventView::ValueFalse => {
            assert(s.calls.drop_last() =~= prior);
        },
        EventView::ValueNull => {
            assert(s.calls.drop_last() =~= prior);
        },
        _ => {},
    }
}

/// The calls of a step, run from the frames' kinds, leave open the
/// frames after it.
pub open spec fn keeps_nesting(frames: Seq<Frame>, s: StepView) -> bool {
    s.error is None ==> {
        &&& nest_from(Some(frame_kinds(frames)), s.calls) == Some(frame_kinds(s.state.frames))
        &&& state_wf(s.state)
    }
}

proof fn lemma_object_start_nests(fr: Seq<Frame>, ev: Option<EventView>)
    ensures
        keeps_nesting(fr, object_start_event(fr, ev)),
{
    let k = frame_kinds(fr);
    lemma_frame_kinds(fr, Frame::Object);
    reveal_with_fuel(nest_from, 3);
    match ev {
        Some(EventView::EndObject) => {
            assert(k.push(Mark { object: true, filled: false }).drop_last() =~= k);
        },
        Some(EventView::FieldName(_)) => {
            assert(k.push(Mark { object: true, filled: false }).drop_last().push(
                Mark { object: true, filled: true },
            ) =~= k.push(Mark { object: true, filled: true }));
        },
        _ => {},
    }
}

proof fn lemma_ref_value_nests(fr: Seq<Frame>, ev: Option<EventView>)
    ensures
        keeps_nesting(fr, ref_value_event(fr, ev)),
{
    let k = frame_kinds(fr);
    lemma_frame_kinds(fr, Frame::Object);
    match ev {
        Some(e) => {
            if !(e is ValueInt && spec_parse_index(e->ValueInt_0) is Some) {
                let prior = seq![CallView::EnterObject, CallView::ObjectKey(ref_key(), true)];
                reveal_with_fuel(nest_from, 3);
                assert(nest_from(Some(k), prior) == Some(frame_kinds(fr.push(Frame::Object))));
                if value_event(fr.push(Frame::Object), prior, e).error is None {
                    lemma_value_event_nests(fr.push(Frame::Object), k, prior, e);
                }
            }
        },
        None => {},
    }
}

proof fn lemma_ref_next_nests(fr: Seq<Frame>, idx: usize, text: Seq<char>, ev: Option<EventView>)
    ensures
        keeps_nesting(fr, ref_next_event(fr, idx, text, ev)),
{
    let k = frame_kinds(fr);
    lemma_frame_kinds(fr, Frame::Object);
    reveal_with_fuel(nest_from, 5);
    let full = Mark { object: true, filled: true };
    assert(k.push(Mark { object: true, filled: false }).drop_last().push(full) =~= k.push(full));
    assert(k.push(full).drop_last().push(full) =~= k.push(full));
}

proof fn lemma_member_nests(fr: Seq<Frame>, ev: Option<EventView>)
    requires
        fr.len() > 0,
        fr.last() == Frame::Object,
    ensures
        keeps_nesting(fr, member_event(fr, ev)),
{
    let k = frame_kinds(fr);
    lemma_frame_kinds(fr, Frame::Object);
    lemma_frame_kinds(fr.drop_last(), Frame::Object);
    reveal_with_fuel(nest_from, 2);
    assert(k.drop_last().push(Mark { object: true, filled: true }) =~= k);
}

proof fn lemma_item_nests(fr: Seq<Frame>, ev: Option<EventView>)
    requires
        fr.len() > 0,
        fr.last() is Array,
        fr.last()->Array_0 < usize::MAX,
    ensures
        keeps_nesting(fr, item_event(fr, fr.last()->Array_0, ev)),
{
    let k = frame_kinds(fr);
    let i = fr.last()->Array_0;
    lemma_frame_kinds(fr, Frame::Object);
    lemma_frame_kinds(fr.drop_last(), Frame::Array((i + 1) as usize));
    reveal_with_fuel(nest_from, 2);
    match ev {
        Some(EventView::EndArray) => {},
        Some(e) => {
            let f1 = fr.drop_last().push(Frame::Array((i + 1) as usize));
            assert(frame_kinds(f1) =~= k.drop_last().push(Mark { object: false, filled: true }));
            if value_event(f1, seq![CallView::ArrayElement(i)], e).error is None {
                lemma_value_event_nests(f1, k, seq![CallView::ArrayElement(i)], e);
            }
        },
        None => {},
    }
}

/// Every step that succeeds keeps the visitor's view of the open
/// containers in step with the walker's frames: if the calls made so far
/// leave open exactly the walker's frames, the calls made by the step
/// leave open exactly the frames after it. So, from the start of a walk,
/// every `ExitObject` closes an open object and every `ExitArray` an
/// open array.
pub proof fn law_step_keeps_nesting(st: WalkState, ev: Option<EventView>, made: Seq<CallView>)
    requires
        state_wf(st),
        state_open(st),
        index_room(st),
        nesting(made) == Some(frame_kinds(st.frames)),
        spec_step(st, ev).error is None,
    ensures
        nesting(made + spec_step(st, ev).calls) == Some(frame_kinds(spec_step(st, ev).state.frames)),
        state_wf(spec_step(st, ev).state),
{
    let s = spec_step(st, ev);
    let fr = st.frames;
    lemma_nest_from_append(Some(Seq::empty()), made, s.calls);
    match st.pending {
        PendingView::Value => {
            lemma_value_event_nests(fr, frame_kinds(fr), seq![], ev->0);
        },
        PendingView::ObjectStart => lemma_object_start_nests(fr, ev),
        PendingView::RefValue => lemma_ref_value_nests(fr, ev),
        PendingView::RefNext(idx, text) => lemma_ref_next_nests(fr, idx, text, ev),
        PendingView::Member => lemma_member_nests(fr, ev),
        PendingView::Item => lemma_item_nests(fr, ev),
        _ => {},
    }
}

/// The start of a walk: no open container, a value expected.
pub open spec fn walk_start() -> WalkState {
    WalkState { frames: Seq::empty(), pending: PendingView::Value }
}

/// The events `evs` taken one after another from `st` (`None` standing for
/// the end of the input), stopping at the first error, once the walk is
/// finished, or where an array's next element index would not fit in a
/// `usize`: the final state, all calls made, and the error, if any.
pub open spec fn run_steps(st: WalkState, evs: Seq<Option<EventView>>) -> StepView
    decreases evs.len(),
{
    if evs.len() == 0 {
        StepView { state: st, calls: Seq::empty(), error: None }
    } else {
        let r = run_steps(st, evs.drop_last());
        if r.error is Some || !state_open(r.state) || !index_room(r.state) {
            r
        } else {
            let s = spec_step(r.state, evs.last());
            StepView { state: s.state, calls: r.calls + s.calls, error: s.error }
        }
    }
}

/// A walk from the start that has reported no error has made visitor
/// calls that leave open exactly the walker's open containers, each exit
/// closing a container of its own kind; and a walk that has reached the
/// end of its input has closed every container it opened.
pub proof fn law_walk_is_balanced(evs: Seq<Option<EventView>>)
    requires
        run_steps(walk_start(), evs).error is None,
    ensures
        nesting(run_steps(walk_start(), evs).calls) == Some(
            frame_kinds(run_steps(walk_start(), evs).state.frames),
        ),
        state_wf(run_steps(walk_start(), evs).state),
        run_steps(walk_start(), evs).state.pending is Finished ==> nesting(
            run_steps(walk_start(), evs).calls,
        ) == Some(Seq::<Mark>::empty()),
    decreases evs.len(),
{
    if evs.len() == 0 {
        assert(frame_kinds(Seq::<Frame>::empty()) =~= Seq::<Mark>::empty());
    } else {
        let r = run_steps(walk_start(), evs.drop_last());
        law_walk_is_balanced(evs.drop_last());
        if r.error is None && state_open(r.state) && index_room(r.state) {
            law_step_keeps_nesting(r.state, evs.last(), r.calls);
        }
    }
    let fin = run_steps(walk_start(), evs);
    if fin.state.pending is Finished {
        assert(frame_kinds(fin.state.frames) =~= Seq::<Mark>::empty());
    }
}

/// The step of a walker that treats every key alike: a `"$s"` first key
/// opens a regular object at once.
pub open spec fn plain_step(st: WalkState, ev: Option<EventView>) -> StepView {
    if st.pending is ObjectStart && ev is Some && ev->0 is FieldName {
        StepView {
            state: WalkState { frames: st.frames.push(Frame::Object), pending: PendingView::Value },
            calls: seq![CallView::EnterObject, CallView::ObjectKey(ev->0->FieldName_0, true)],
            error: None,
        }
    } else {
        spec_step(st, ev)
    }
}

/// `run_steps` for the walker of `plain_step`.
pub open spec fn run_plain_steps(st: WalkState, evs: Seq<Option<EventView>>) -> StepView
    decreases evs.len(),
{
    if evs.len() == 0 {
        StepView { state: st, calls: Seq::empty(), error: None }
    } else {
        let r = run_plain_steps(st, evs.drop_last());
        if r.error is Some || !state_open(r.state) {
            r
        } else {
            let s = plain_step(r.state, evs.last());
            StepView { state: s.state, calls: r.calls + s.calls, error: s.error }
        }
    }
}

/// Whether `v` is the value of a placeholder: an integer literal that
/// reads as a slab index.
pub open spec fn is_index_literal(v: EventView) -> bool {
    v is ValueInt && spec_parse_index(v->ValueInt_0) is Some
}

/// A placeholder `{"$s": N}` where a value is due makes the single call
/// `Placeholder(N)`, and the walk goes on as after any complete value.
pub proof fn law_placeholder_is_one_call(frames: Seq<Frame>, text: Seq<char>)
    requires
        spec_parse_index(text) is Some,
    ensures
        ({
            let r = run_steps(
                WalkState { frames, pending: PendingView::Value },
                seq![
                    Some(EventView::StartObject),
                    Some(EventView::FieldName(ref_key())),
                    Some(EventView::ValueInt(text)),
                    Some(EventView::EndObject),
                ],
            );
            &&& r.error is None
            &&& r.calls == seq![CallView::Placeholder(spec_parse_index(text)->0)]
            &&& r.state == WalkState { frames, pending: after_value(frames) }
        }),
{
    let evs = seq![
        Some(EventView::StartObject),
        Some(EventView::FieldName(ref_key())),
        Some(EventView::ValueInt(text)),
        Some(EventView::EndObject),
    ];
    let st = WalkState { frames, pending: PendingView::Value };
    assert(evs.drop_last().drop_last().drop_last().drop_last() =~= Seq::<Option<EventView>>::empty());
    reveal_with_fuel(run_steps, 5);
    let r = run_steps(st, evs);
    assert(r.calls =~= seq![CallView::Placeholder(spec_parse_index(text)->0)]);
}

/// An object whose first key is `$s` but whose value is not a slab index
/// is walked exactly as a walker that treats every key alike walks it:
/// the same calls, the same state after, the same error.
pub proof fn law_non_index_ref_is_replayed(frames: Seq<Frame>, v: EventView)
    requires
        !is_index_literal(v),
    ensures
        ({
            let st = WalkState { frames, pending: PendingView::Value };
            let evs = seq![
                Some(EventView::StartObject),
                Some(EventView::FieldName(ref_key())),
                Some(v),
            ];
            run_steps(st, evs) == run_plain_steps(st, evs)
        }),
{
    let st = WalkState { frames, pending: PendingView::Value };
    let evs = seq![Some(EventView::StartObject), Some(EventView::FieldName(ref_key())), Some(v)];
    assert(evs.drop_last().drop_last().drop_last() =~= Seq::<Option<EventView>>::empty());
    reveal_with_fuel(run_steps, 4);
    reveal_with_fuel(run_plain_steps, 4);
    let a = run_steps(st, evs);
    let b = run_plain_steps(st, evs);
    let prior = seq![CallView::EnterObject, CallView::ObjectKey(ref_key(), true)];
    crate::skeleton::lemma_value_event_prior(frames.push(Frame::Object), prior, v);
    assert(a.calls =~= b.calls);
}

/// An object whose first member is `"$s": N` with `N` a slab index, but
/// which has a second key, is walked exactly as a walker that treats every
/// key alike walks it, up to and including that second key.
pub proof fn law_ref_member_is_replayed(frames: Seq<Frame>, text: Seq<char>, key: Seq<char>)
    requires
        spec_parse_index(text) is Some,
    ensures
        ({
            let st = WalkState { frames, pending: PendingView::Value };
            let evs = seq![
                Some(EventView::StartObject),
                Some(EventView::FieldName(ref_key())),
                Some(EventView::ValueInt(text)),
                Some(EventView::FieldName(key)),
            ];
            run_steps(st, evs) == run_plain_steps(st, evs)
        }),
{
    let st = WalkState { frames, pending: PendingView::Value };
    let evs = seq![
        Some(EventView::StartObject),
        Some(EventView::FieldName(ref_key())),
        Some(EventView::ValueInt(text)),
        Some(EventView::FieldName(key)),
    ];
    assert(evs.drop_last().drop_last().drop_last().drop_last() =~= Seq::<Option<EventView>>::empty());
    reveal_with_fuel(run_steps, 5);
    reveal_with_fuel(run_plain_steps, 5);
    let a = run_steps(st, evs);
    let b = run_plain_steps(st, evs);
    assert(a.calls =~= b.calls);
}

/// The number of open containers that have had a member.
pub open spec fn filled_count(s: Seq<Mark>) -> nat
    decreases s.len(),
{
    if s.len() == 0 {
        0
    } else {
        filled_count(s.drop_last()) + if s.last().filled {
            1nat
        } else {
            0nat
        }
    }
}

/// A `PathFinder` after following the calls `calls` one after another.
pub open spec fn visit_all(v: PathFinderView, calls: Seq<CallView>) -> PathFinderView
    decreases calls.len(),
{
    if calls.len() == 0 {
        v
    } else {
        visit_spec(visit_all(v, calls.drop_last()), calls.last())
    }
}

/// A call that fits changes the path depth as it changes the number of
/// containers with a member, and pops only when there is a component.
proof fn lemma_visit_depth(v: PathFinderView, c: CallView, s: Seq<Mark>)
    requires
        v.components.len() == filled_count(s),
        nest_call(Some(s), c) is Some,
    ensures
        call_pops(c) ==> v.components.len() > 0,
        visit_spec(v, c).components.len() == filled_count(nest_call(Some(s), c)->0),
{
    if s.len() > 0 {
        let m = s.last();
        assert(s.drop_last().push(Mark { object: m.object, filled: true }).drop_last() =~= s.drop_last());
        assert(s.push(Mark { object: true, filled: false }).drop_last() =~= s);
        assert(s.push(Mark { object: false, filled: false }).drop_last() =~= s);
    } else {
        assert(s.push(Mark { object: true, filled: false }).drop_last() =~= s);
        assert(s.push(Mark { object: false, filled: false }).drop_last() =~= s);
    }
}

/// Once calls stop fitting, no later call makes them fit.
proof fn lemma_nest_none(calls: Seq<CallView>)
    ensures
        nest_from(None, calls) is None,
    decreases calls.len(),
{
    if calls.len() > 0 {
        lemma_nest_none(calls.drop_last());
    }
}

/// Calls that fit have prefixes that fit.
proof fn lemma_prefix_fits(calls: Seq<CallView>, j: int)
    requires
        nesting(calls) is Some,
        0 <= j <= calls.len(),
    ensures
        nesting(calls.subrange(0, j)) is Some,
{
    let a = calls.subrange(0, j);
    let b = calls.subrange(j, calls.len() as int);
    assert(a + b =~= calls);
    lemma_nest_from_append(Some(Seq::empty()), a, b);
    if nesting(a) is None {
        lemma_nest_none(b);
    }
}

/// Following calls that fit from an empty path gives a path as deep as
/// the number of open containers with a member.
proof fn lemma_visit_all_depth(v0: PathFinderView, calls: Seq<CallView>)
    requires
        v0.components.len() == 0,
        nesting(calls) is Some,
    ensures
        visit_all(v0, calls).components.len() == filled_count(nesting(calls)->0),
    decreases calls.len(),
{
    if calls.len() > 0 {
        lemma_prefix_fits(calls, calls.len() - 1);
        assert(calls.subrange(0, calls.len() - 1) =~= calls.drop_last());
        lemma_visit_all_depth(v0, calls.drop_last());
        lemma_visit_depth(visit_all(v0, calls.drop_last()), calls.last(), nesting(calls.drop_last())->0);
    }
}

/// A `PathFinder` that starts with an empty path and follows calls that
/// fit never pops a path component it does not have: before every call
/// that pops, the path has a component.
pub proof fn law_path_finder_stays_balanced(v0: PathFinderView, calls: Seq<CallView>)
    requires
        v0.components.len() == 0,
        nesting(calls) is Some,
    ensures
        forall|i: int|
            0 <= i < calls.len() && call_pops(#[trigger] calls[i]) ==> visit_all(
                v0,
                calls.subrange(0, i),
            ).components.len() > 0,
{
    assert forall|i: int| 0 <= i < calls.len() && call_pops(#[trigger] calls[i]) implies visit_all(
        v0,
        calls.subrange(0, i),
    ).components.len() > 0 by {
        lemma_prefix_fits(calls, i + 1);
        lemma_prefix_fits(calls, i);
        let p = calls.subrange(0, i);
        assert(calls.subrange(0, i + 1).drop_last() =~= p);
        assert(calls.subrange(0, i + 1).last() == calls[i]);
        lemma_visit_all_depth(v0, p);
        lemma_visit_depth(visit_all(v0, p), calls[i], nesting(p)->0);
    }
}

/// The calls of any walk that has reported no error can drive a
/// `PathFinder` that starts with an empty path: it never pops a path
/// component it does not have.
pub proof fn law_walk_drives_path_finder(evs: Seq<Option<EventView>>, v0: PathFinderView)
    requires
        run_steps(walk_start(), evs).error is None,
        v0.components.len() == 0,
    ensures
        ({
            let calls = run_steps(walk_start(), evs).calls;
            forall|i: int|
                0 <= i < calls.len() && call_pops(#[trigger] calls[i]) ==> visit_all(
                    v0,
                    calls.subrange(0, i),
                ).components.len() > 0
        }),
{
    law_walk_is_balanced(evs);
    law_path_finder_stays_balanced(v0, run_steps(walk_start(), evs).calls);
}

/// A slab's path, once recorded, is never changed: a `PathFinder` keeps
/// the first path that reached each slab.
pub proof fn law_recorded_paths_are_kept(v: PathFinderView, c: CallView, i: int)
    requires
        0 <= i < v.paths.len(),
        v.paths[i] is Some,
    ensures
        visit_spec(v, c).paths.len() == v.paths.len(),
        visit_spec(v, c).paths[i] == v.paths[i],
{
}

/// The character of a decimal digit is a digit of that value.
proof fn lemma_digit_char_value(k: nat)
    requires
        k < 10,
    ensures
        is_digit(digit_char(k)),
        crate::skeleton::digit_value(digit_char(k)) == k,
{
}

/// A decimal numeral is made of digits and reads back as its value.
proof fn lemma_decimal_digits(m: nat)
    ensures
        decimal(m).len() >= 1,
        forall|i: int| 0 <= i < decimal(m).len() ==> #[trigger] is_digit(decimal(m)[i]),
        digits_value(decimal(m)) == m,
    decreases m,
{
    if m >= 10 {
        lemma_decimal_digits(m / 10);
        let d = decimal(m);
        assert(d.drop_last() =~= decimal(m / 10));
        assert(d.last() == digit_char(m % 10));
        lemma_digit_char_value(m % 10);
        assert(digits_value(d) == digits_value(d.drop_last()) * 10 + crate::skeleton::digit_value(
            d.last(),
        ));
        assert((m / 10) * 10 + m % 10 == m) by (nonlinear_arith);
        assert forall|i: int| 0 <= i < d.len() implies #[trigger] is_digit(d[i]) by {
            if i < d.len() - 1 {
                assert(d[i] == decimal(m / 10)[i]);
            }
        }
    } else {
        assert(decimal(m).drop_last() =~= Seq::<char>::empty());
        assert(digits_value(Seq::<char>::empty()) == 0);
        lemma_digit_char_value(m);
        assert(digits_value(decimal(m)) == digits_value(decimal(m).drop_last()) * 10
            + crate::skeleton::digit_value(decimal(m).last()));
    }
}

/// A slab index written in decimal, as `SlabPlaceholder` writes it into a
/// skeleton, is read back by the walker as the same index: the
/// placeholder `{"$s":N}` that `SlabPlaceholder::to_json_string` renders
/// is taken for slab `N`.
pub proof fn law_written_index_reads_back(n: usize)
    ensures
        spec_parse_index(decimal(n as nat)) == Some(n),
{
    lemma_decimal_digits(n as nat);
    let d = decimal(n as nat);
    assert(is_digit(d[0]));
    assert(unsigned_digits(d) == d);
}

/// Each element of an array is announced with its position in that array:
/// where an element is due in an array whose next index is `i`, any event
/// but the end of the array (or of the input) makes `ArrayElement(i)` its
/// first call and leaves the array, under whatever container the element
/// opens, expecting index `i + 1` next; the end of the array makes the one
/// call `ExitArray`, empty exactly when no element came, and closes it.
/// So the `k`-th element of an array, counting from 0 and whatever its
/// kind, is announced as `ArrayElement(k)`.
pub proof fn law_array_elements_are_counted(frames: Seq<Frame>, i: usize, ev: Option<EventView>)
    requires
        frames.len() > 0,
        frames.last() == Frame::Array(i),
        i < usize::MAX,
    ensures
        ({
            let s = spec_step(WalkState { frames, pending: PendingView::Item }, ev);
            let n = frames.len() as int;
            &&& ev is Some && !(ev->0 is EndArray) ==> {
                &&& s.calls.len() > 0
                &&& s.calls[0] == CallView::ArrayElement(i)
                &&& s.state.frames.len() >= n
                &&& s.state.frames[n - 1] == Frame::Array((i + 1) as usize)
                &&& s.state.frames.subrange(0, n - 1) == frames.drop_last()
            }
            &&& ev == Some(EventView::EndArray) ==> {
                &&& s.calls == seq![CallView::ExitArray(i == 0)]
                &&& s.state.frames == frames.drop_last()
            }
        }),
{
    let st = WalkState { frames, pending: PendingView::Item };
    let s = spec_step(st, ev);
    let n = frames.len() as int;
    let f1 = frames.drop_last().push(Frame::Array((i + 1) as usize));
    if ev is Some && !(ev->0 is EndArray) {
        let e = ev->0;
        lemma_value_event_prior_calls(f1, seq![CallView::ArrayElement(i)], e);
        assert(f1.subrange(0, n - 1) =~= frames.drop_last());
        if e is StartArray {
            assert(s.state.frames == f1.push(Frame::Array(0)));
            assert(s.state.frames.subrange(0, n - 1) =~= frames.drop_last());
        }
    }
}

/// The calls of a value event begin with the calls made before it.
proof fn lemma_value_event_prior_calls(frames: Seq<Frame>, prior: Seq<CallView>, e: EventView)
    ensures
        value_event(frames, prior, e).calls.subrange(0, prior.len() as int) == prior,
        value_event(frames, prior, e).state.frames == frames || value_event(
            frames,
            prior,
            e,
        ).state.frames == frames.push(Frame::Array(0)),
{
    crate::skeleton::lemma_value_event_prior(frames, prior, e);
    let s = value_event(frames, seq![], e);
    assert((prior + s.calls).subrange(0, prior.len() as int) =~= prior);
}

} // verus!
