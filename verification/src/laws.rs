//! Proved properties of the decision engine, stated over its mathematical
//! model: how a whole run advances the cursor and which tokens it forwards.

use crate::copy_selector::{
    in_window, model_wf, run_forwards, run_ok, run_state, select_step, Placement, SelectorModel,
    TraversalModel,
};
use crate::key_path::Event;
use vstd::prelude::*;

verus! {

/// A run over one token is one step of the engine.
pub proof fn lemma_run_one(m: SelectorModel, ev: Event)
    ensures
        run_state(m, seq![ev]) == select_step(m, ev).next,
        run_ok(m, seq![ev]) == !(select_step(m, ev).verdict is Err),
        run_forwards(m, seq![ev]) == (if select_step(m, ev).verdict == Ok::<bool, ()>(true) {
            seq![ev]
        } else {
            Seq::<Event>::empty()
        }),
{
    assert(seq![ev].drop_last() =~= Seq::<Event>::empty());
    assert(seq![ev].last() == ev);
    assert(run_state(m, Seq::<Event>::empty()) == m);
    assert(run_ok(m, Seq::<Event>::empty()));
    assert(run_forwards(m, Seq::<Event>::empty()) == Seq::<Event>::empty());
    if select_step(m, ev).verdict == Ok::<bool, ()>(true) {
        assert(Seq::<Event>::empty() + seq![ev] =~= seq![ev]);
    } else {
        assert(Seq::<Event>::empty() + Seq::<Event>::empty() =~= Seq::<Event>::empty());
    }
}

/// A run splits at any point: the second part starts where the first ended,
/// and the forwarded tokens concatenate.
pub proof fn lemma_run_append(m: SelectorModel, a: Seq<Event>, b: Seq<Event>)
    ensures
        run_state(m, a + b) == run_state(run_state(m, a), b),
        run_ok(m, a + b) == (run_ok(m, a) && run_ok(run_state(m, a), b)),
        run_forwards(m, a + b) == run_forwards(m, a) + run_forwards(run_state(m, a), b),
    decreases b.len(),
{
    if b.len() == 0 {
        assert(a + b =~= a);
        assert(run_forwards(m, a) + run_forwards(run_state(m, a), b) =~= run_forwards(m, a));
    } else {
        lemma_run_append(m, a, b.drop_last());
        assert((a + b).drop_last() =~= a + b.drop_last());
        assert((a + b).last() == b.last());
        let p = run_state(run_state(m, a), b.drop_last());
        let tail: Seq<Event> = if select_step(p, b.last()).verdict == Ok::<bool, ()>(true) {
            seq![b.last()]
        } else {
            Seq::<Event>::empty()
        };
        assert(run_forwards(m, a + b) == (run_forwards(m, a) + run_forwards(
            run_state(m, a),
            b.drop_last(),
        )) + tail);
        assert((run_forwards(m, a) + run_forwards(run_state(m, a), b.drop_last())) + tail
            =~= run_forwards(m, a) + (run_forwards(run_state(m, a), b.drop_last()) + tail));
    }
}

/// The phases in their one allowed order.
pub open spec fn placement_rank(p: Placement) -> int {
    match p {
        Placement::BeforeTarget => 0,
        Placement::InsideTarget => 1,
        Placement::AfterTarget => 2,
    }
}

/// One step never moves the phase backwards, never forgets a matched key,
/// and never counts an element back — nor counts one at all outside the
/// target array.
pub proof fn lemma_step_monotonic(m: SelectorModel, ev: Event)
    ensures
        placement_rank(select_step(m, ev).next.state.placement) >= placement_rank(
            m.state.placement,
        ),
        select_step(m, ev).next.state.keys_index >= m.state.keys_index,
        select_step(m, ev).next.state.target_index >= m.state.target_index,
        m.state.placement != Placement::InsideTarget ==> select_step(m, ev).next.state.target_index
            == m.state.target_index,
{
}

/// The scan phase only advances over any run: BeforeTarget, then
/// InsideTarget, then AfterTarget, never back; the key-path descent and the
/// element counter likewise only move forward. These are the cursor's
/// monotonicity invariants.
pub proof fn lemma_run_monotonic(m: SelectorModel, evs: Seq<Event>)
    ensures
        placement_rank(run_state(m, evs).state.placement) >= placement_rank(m.state.placement),
        run_state(m, evs).state.keys_index >= m.state.keys_index,
        run_state(m, evs).state.target_index >= m.state.target_index,
    decreases evs.len(),
{
    if evs.len() > 0 {
        lemma_run_monotonic(m, evs.drop_last());
        lemma_step_monotonic(run_state(m, evs.drop_last()), evs.last());
    }
}

/// A run never changes the selector's configuration: the window, the context
/// flag and the key path are immutable for the life of one scan.
pub proof fn lemma_run_preserves_config(m: SelectorModel, evs: Seq<Event>)
    ensures
        run_state(m, evs).count == m.count,
        run_state(m, evs).skip == m.skip,
        run_state(m, evs).no_context == m.no_context,
        run_state(m, evs).state.keys == m.state.keys,
    decreases evs.len(),
{
    if evs.len() > 0 {
        lemma_run_preserves_config(m, evs.drop_last());
    }
}

/// With context suppressed, the only token the engine ever forwards outside
/// the target array is the array's own opening bracket: enclosing object
/// keys and braces are never emitted.
pub proof fn lemma_no_context_emits_no_enclosure(m: SelectorModel, ev: Event)
    requires
        model_wf(m),
        m.no_context,
        m.state.placement != Placement::InsideTarget,
        select_step(m, ev).verdict == Ok::<bool, ()>(true),
    ensures
        m.state.placement == Placement::BeforeTarget,
        m.state.keys_index == m.state.keys.len(),
        ev == Event::StartArray,
{
}

/// With context wanted, every token outside the target array that passes the
/// shape check is forwarded: the full original nesting down to the target
/// array survives in the output.
pub proof fn lemma_context_forwards_enclosure(m: SelectorModel, ev: Event)
    requires
        !m.no_context,
        m.state.placement != Placement::InsideTarget,
        !(select_step(m, ev).verdict is Err),
    ensures
        select_step(m, ev).verdict == Ok::<bool, ()>(true),
{
}

/// The nesting contribution of one token.
pub open spec fn depth_delta(ev: Event) -> int {
    match ev {
        Event::StartArray | Event::StartObject => 1,
        Event::EndArray | Event::EndObject => -1,
        _ => 0,
    }
}

/// The total nesting depth change over a token sequence.
pub open spec fn depth_sum(evs: Seq<Event>) -> int
    decreases evs.len(),
{
    if evs.len() == 0 {
        0
    } else {
        depth_sum(evs.drop_last()) + depth_delta(evs.last())
    }
}

/// One complete element of an array: a single token that opens and closes
/// nothing, or a composite whose brackets balance exactly at its end and
/// nowhere earlier.
pub open spec fn is_element(evs: Seq<Event>) -> bool {
    &&& evs.len() >= 1
    &&& depth_sum(evs) == 0
    &&& forall|i: int| 0 < i < evs.len() ==> #[trigger] depth_sum(evs.take(i)) > 0
}

/// The token streams of several elements, one after the other.
pub open spec fn concat_elements(elems: Seq<Seq<Event>>) -> Seq<Event>
    decreases elems.len(),
{
    if elems.len() == 0 {
        Seq::empty()
    } else {
        concat_elements(elems.drop_last()) + elems.last()
    }
}

proof fn lemma_depth_bounds(evs: Seq<Event>)
    ensures
        -(evs.len() as int) <= depth_sum(evs) <= evs.len() as int,
    decreases evs.len(),
{
    if evs.len() > 0 {
        lemma_depth_bounds(evs.drop_last());
    }
}

proof fn lemma_depth_take_step(evs: Seq<Event>, i: int)
    requires
        0 <= i < evs.len(),
    ensures
        depth_sum(evs.take(i + 1)) == depth_sum(evs.take(i)) + depth_delta(evs[i]),
{
    assert(evs.take(i + 1).drop_last() =~= evs.take(i));
    assert(evs.take(i + 1).last() == evs[i]);
}

proof fn lemma_element_prefix(m: SelectorModel, evs: Seq<Event>, i: int)
    requires
        m.state.placement == Placement::InsideTarget,
        m.state.sub_elements == 0,
        m.state.target_index < usize::MAX as nat,
        is_element(evs),
        evs.len() <= usize::MAX as nat,
        0 <= i < evs.len(),
    ensures
        run_ok(m, evs.take(i)),
        run_state(m, evs.take(i)) == (SelectorModel {
            state: TraversalModel { sub_elements: depth_sum(evs.take(i)) as nat, ..m.state },
            ..m
        }),
        run_forwards(m, evs.take(i)) == (if in_window(m, m.state.target_index) {
            evs.take(i)
        } else {
            Seq::<Event>::empty()
        }),
    decreases i,
{
    if i == 0 {
        assert(evs.take(0) =~= Seq::<Event>::empty());
        assert(run_state(m, Seq::<Event>::empty()) == m);
        assert((SelectorModel {
            state: TraversalModel { sub_elements: 0 as nat, ..m.state },
            ..m
        }) == m);
    } else {
        lemma_element_prefix(m, evs, i - 1);
        let p = run_state(m, evs.take(i - 1));
        let ev = evs[i - 1];
        lemma_depth_take_step(evs, i - 1);
        lemma_depth_bounds(evs.take(i - 1));
        assert(evs.take(i - 1).len() == i - 1);
        assert(depth_sum(evs.take(i)) > 0);
        if i - 1 > 0 {
            assert(depth_sum(evs.take(i - 1)) > 0);
        }
        assert(p.state.sub_elements == depth_sum(evs.take(i - 1)));
        assert(!(ev == Event::EndArray && p.state.sub_elements == 0)) by {
            if p.state.sub_elements == 0 {
                assert(depth_sum(evs.take(i)) == depth_delta(ev));
            }
        }
        lemma_run_one(p, ev);
        lemma_run_append(m, evs.take(i - 1), seq![ev]);
        assert(evs.take(i) =~= evs.take(i - 1) + seq![ev]);
        if in_window(m, m.state.target_index) {
            assert(evs.take(i - 1) + seq![ev] =~= evs.take(i));
        } else {
            assert(Seq::<Event>::empty() + Seq::<Event>::empty() =~= Seq::<Event>::empty());
        }
    }
}

/// Feeding one complete element to the engine inside the target array, at an
/// element boundary, leaves it at the next boundary with the element counter
/// one higher, and forwards the whole element or none of it: all of it when
/// its index lies in the window, nothing otherwise. A nested composite counts
/// as one element regardless of its internal size.
pub proof fn lemma_element_run(m: SelectorModel, evs: Seq<Event>)
    requires
        m.state.placement == Placement::InsideTarget,
        m.state.sub_elements == 0,
        m.state.target_index < usize::MAX as nat,
        is_element(evs),
        evs.len() <= usize::MAX as nat,
    ensures
        run_ok(m, evs),
        run_state(m, evs) == (SelectorModel {
            state: TraversalModel { target_index: m.state.target_index + 1, ..m.state },
            ..m
        }),
        run_forwards(m, evs) == (if in_window(m, m.state.target_index) {
            evs
        } else {
            Seq::<Event>::empty()
        }),
{
    let n = evs.len() as int;
    lemma_element_prefix(m, evs, n - 1);
    let p = run_state(m, evs.take(n - 1));
    let ev = evs.last();
    assert(evs[n - 1] == ev);
    lemma_depth_take_step(evs, n - 1);
    assert(evs.take(n) =~= evs);
    assert(depth_sum(evs.take(n - 1)) + depth_delta(ev) == 0);
    if n - 1 > 0 {
        assert(depth_sum(evs.take(n - 1)) > 0);
    }
    assert(p.state.sub_elements == depth_sum(evs.take(n - 1)));
    assert(!(ev == Event::EndArray && p.state.sub_elements == 0)) by {
        if p.state.sub_elements == 0 {
            assert(depth_delta(ev) == 0);
        }
    }
    lemma_run_one(p, ev);
    lemma_run_append(m, evs.take(n - 1), seq![ev]);
    assert(evs =~= evs.take(n - 1) + seq![ev]);
    if in_window(m, m.state.target_index) {
        assert(evs.take(n - 1) + seq![ev] =~= evs);
    } else {
        assert(Seq::<Event>::empty() + Seq::<Event>::empty() =~= Seq::<Event>::empty());
    }
}

/// What survives of several consecutive elements, the first of which carries
/// element index `first_index`, under the window [skip, skip + count): each
/// element wholly kept or wholly dropped.
pub open spec fn windowed_concat(
    elems: Seq<Seq<Event>>,
    first_index: nat,
    skip: nat,
    count: nat,
) -> Seq<Event>
    decreases elems.len(),
{
    if elems.len() == 0 {
        Seq::empty()
    } else {
        windowed_concat(elems.drop_last(), first_index, skip, count) + (if skip <= first_index
            + elems.len() - 1 && first_index + elems.len() - 1 < skip + count {
            elems.last()
        } else {
            Seq::<Event>::empty()
        })
    }
}

/// Running the engine over consecutive complete elements, from an element
/// boundary, counts each element exactly once and forwards exactly those
/// whose index lies in the window.
pub proof fn lemma_elements_run(m: SelectorModel, elems: Seq<Seq<Event>>)
    requires
        m.state.placement == Placement::InsideTarget,
        m.state.sub_elements == 0,
        forall|i: int| 0 <= i < elems.len() ==> is_element(#[trigger] elems[i]),
        forall|i: int| 0 <= i < elems.len() ==> (#[trigger] elems[i]).len() <= usize::MAX as nat,
        m.state.target_index + elems.len() <= usize::MAX as nat,
    ensures
        run_ok(m, concat_elements(elems)),
        run_state(m, concat_elements(elems)) == (SelectorModel {
            state: TraversalModel {
                target_index: (m.state.target_index + elems.len()) as nat,
                ..m.state
            },
            ..m
        }),
        run_forwards(m, concat_elements(elems)) == windowed_concat(
            elems,
            m.state.target_index,
            m.skip,
            m.count,
        ),
    decreases elems.len(),
{
    if elems.len() == 0 {
        assert(run_state(m, Seq::<Event>::empty()) == m);
        assert((SelectorModel {
            state: TraversalModel {
                target_index: (m.state.target_index + 0) as nat,
                ..m.state
            },
            ..m
        }) == m);
    } else {
        let front = elems.drop_last();
        assert(forall|i: int| 0 <= i < front.len() ==> front[i] == elems[i]);
        lemma_elements_run(m, front);
        let p = run_state(m, concat_elements(front));
        assert(is_element(elems.last()));
        assert(elems.last().len() <= usize::MAX as nat);
        lemma_element_run(p, elems.last());
        lemma_run_append(m, concat_elements(front), elems.last());
    }
}

/// `windowed_concat` from index zero is exactly the concatenation of the
/// sub-range [skip, skip + count) of the elements, clipped to their number.
proof fn lemma_windowed_is_subrange(elems: Seq<Seq<Event>>, skip: nat, count: nat)
    ensures
        windowed_concat(elems, 0, skip, count) == concat_elements(
            elems.subrange(
                if skip < elems.len() {
                    skip as int
                } else {
                    elems.len() as int
                },
                if skip + count < elems.len() {
                    (skip + count) as int
                } else {
                    elems.len() as int
                },
            ),
        ),
    decreases elems.len(),
{
    let n = elems.len() as int;
    let lo: int = if skip < elems.len() {
        skip as int
    } else {
        n
    };
    let hi: int = if skip + count < elems.len() {
        (skip + count) as int
    } else {
        n
    };
    if elems.len() == 0 {
        assert(elems.subrange(lo, hi) =~= Seq::<Seq<Event>>::empty());
    } else {
        let front = elems.drop_last();
        lemma_windowed_is_subrange(front, skip, count);
        let flo: int = if skip < front.len() {
            skip as int
        } else {
            n - 1
        };
        let fhi: int = if skip + count < front.len() {
            (skip + count) as int
        } else {
            n - 1
        };
        if skip <= n - 1 && n - 1 < skip + count {
            // the last element lies in the window
            assert(elems.subrange(lo, hi).drop_last() =~= front.subrange(flo, fhi));
            assert(elems.subrange(lo, hi).last() == elems.last());
            assert(elems.subrange(lo, hi).len() >= 1);
        } else {
            assert(elems.subrange(lo, hi) =~= front.subrange(flo, fhi));
            assert(windowed_concat(elems, 0, skip, count) == windowed_concat(
                front,
                0,
                skip,
                count,
            ) + Seq::<Event>::empty());
            assert(windowed_concat(front, 0, skip, count) + Seq::<Event>::empty()
                =~= windowed_concat(front, 0, skip, count));
        }
    }
}

/// The window theorem: from the opening of the target array (the key path
/// fully consumed), a token stream `[ e_0 ... e_(n-1) ]` of complete elements
/// drives the engine without failure to AfterTarget, and what it forwards is
/// exactly the sub-range [skip, skip + count) of the elements, clipped to the
/// array's length, between the array's own brackets — whatever the context
/// flag says, and with each element counted once whatever its internal size.
pub proof fn theorem_array_window(m: SelectorModel, elems: Seq<Seq<Event>>)
    requires
        m.state.placement == Placement::BeforeTarget,
        m.state.keys_index == m.state.keys.len(),
        m.state.target_index == 0,
        m.state.sub_elements == 0,
        forall|i: int| 0 <= i < elems.len() ==> is_element(#[trigger] elems[i]),
        forall|i: int| 0 <= i < elems.len() ==> (#[trigger] elems[i]).len() <= usize::MAX as nat,
        elems.len() <= usize::MAX as nat,
    ensures
        ({
            let evs = seq![Event::StartArray] + concat_elements(elems) + seq![Event::EndArray];
            let lo: int = if m.skip < elems.len() {
                m.skip as int
            } else {
                elems.len() as int
            };
            let hi: int = if m.skip + m.count < elems.len() {
                (m.skip + m.count) as int
            } else {
                elems.len() as int
            };
            &&& run_ok(m, evs)
            &&& run_state(m, evs).state.placement == Placement::AfterTarget
            &&& run_forwards(m, evs) == seq![Event::StartArray] + concat_elements(
                elems.subrange(lo, hi),
            ) + seq![Event::EndArray]
        }),
{
    let open_tok = seq![Event::StartArray];
    let close_tok = seq![Event::EndArray];
    let body = concat_elements(elems);
    lemma_run_one(m, Event::StartArray);
    let m1 = select_step(m, Event::StartArray).next;
    assert(m1.state.placement == Placement::InsideTarget);
    lemma_elements_run(m1, elems);
    let m2 = run_state(m1, body);
    assert(m2.state.sub_elements == 0);
    lemma_run_one(m2, Event::EndArray);
    lemma_run_append(m, open_tok, body);
    lemma_run_append(m, open_tok + body, close_tok);
    lemma_windowed_is_subrange(elems, m.skip, m.count);
    assert(run_forwards(m, open_tok) == open_tok);
    assert(run_forwards(m2, close_tok) == close_tok);
    assert(run_forwards(m, (open_tok + body) + close_tok) == (open_tok + windowed_concat(
        elems,
        0,
        m.skip,
        m.count,
    )) + close_tok);
    assert((open_tok + body) + close_tok =~= open_tok + body + close_tok);
    assert((open_tok + windowed_concat(elems, 0, m.skip, m.count)) + close_tok =~= open_tok
        + windowed_concat(elems, 0, m.skip, m.count) + close_tok);
}

/// The boundary case `count == 0` (in particular `skip == 0, count == 0`):
/// the engine forwards an empty target array, the brackets and nothing else.
pub proof fn lemma_empty_window(m: SelectorModel, elems: Seq<Seq<Event>>)
    requires
        m.state.placement == Placement::BeforeTarget,
        m.state.keys_index == m.state.keys.len(),
        m.state.target_index == 0,
        m.state.sub_elements == 0,
        forall|i: int| 0 <= i < elems.len() ==> is_element(#[trigger] elems[i]),
        forall|i: int| 0 <= i < elems.len() ==> (#[trigger] elems[i]).len() <= usize::MAX as nat,
        elems.len() <= usize::MAX as nat,
        m.count == 0,
    ensures
        run_forwards(m, seq![Event::StartArray] + concat_elements(elems) + seq![Event::EndArray])
            == seq![Event::StartArray, Event::EndArray],
{
    theorem_array_window(m, elems);
    let lo: int = if m.skip < elems.len() {
        m.skip as int
    } else {
        elems.len() as int
    };
    assert(elems.subrange(lo, lo) =~= Seq::<Seq<Event>>::empty());
    assert(seq![Event::StartArray] + Seq::<Event>::empty() + seq![Event::EndArray]
        =~= seq![Event::StartArray, Event::EndArray]);
}

/// The boundary case `skip >= length of the array`: the window lies wholly
/// past the end, and the engine forwards an empty target array.
pub proof fn lemma_skip_past_end(m: SelectorModel, elems: Seq<Seq<Event>>)
    requires
        m.state.placement == Placement::BeforeTarget,
        m.state.keys_index == m.state.keys.len(),
        m.state.target_index == 0,
        m.state.sub_elements == 0,
        forall|i: int| 0 <= i < elems.len() ==> is_element(#[trigger] elems[i]),
        forall|i: int| 0 <= i < elems.len() ==> (#[trigger] elems[i]).len() <= usize::MAX as nat,
        elems.len() <= usize::MAX as nat,
        m.skip >= elems.len(),
    ensures
        run_forwards(m, seq![Event::StartArray] + concat_elements(elems) + seq![Event::EndArray])
            == seq![Event::StartArray, Event::EndArray],
{
    theorem_array_window(m, elems);
    let n = elems.len() as int;
    assert(elems.subrange(n, n) =~= Seq::<Seq<Event>>::empty());
    assert(seq![Event::StartArray] + Seq::<Event>::empty() + seq![Event::EndArray]
        =~= seq![Event::StartArray, Event::EndArray]);
}

/// The descent structure that one object level per key segment puts around
/// the target array: an object opener and the key itself, for each segment
/// in order.
pub open spec fn descent_prefix(keys: Seq<Event>) -> Seq<Event>
    decreases keys.len(),
{
    if keys.len() == 0 {
        Seq::empty()
    } else {
        descent_prefix(keys.drop_last()) + seq![Event::StartObject, keys.last()]
    }
}

/// Descending `k` more key segments — each an object opener followed by the
/// expected key — matches each key in turn without failing, and forwards the
/// descent structure exactly when context is wanted, none of it otherwise.
pub proof fn lemma_descent(m: SelectorModel, k: int)
    requires
        model_wf(m),
        m.state.placement == Placement::BeforeTarget,
        0 <= k,
        m.state.keys_index + k <= m.state.keys.len(),
    ensures
        ({
            let rest = m.state.keys.subrange(
                m.state.keys_index as int,
                m.state.keys_index + k,
            );
            &&& run_ok(m, descent_prefix(rest))
            &&& run_state(m, descent_prefix(rest)) == (SelectorModel {
                state: TraversalModel {
                    keys_index: (m.state.keys_index + k) as nat,
                    ..m.state
                },
                ..m
            })
            &&& run_forwards(m, descent_prefix(rest)) == (if m.no_context {
                Seq::<Event>::empty()
            } else {
                descent_prefix(rest)
            })
        }),
    decreases k,
{
    let ki = m.state.keys_index as int;
    let rest = m.state.keys.subrange(ki, ki + k);
    if k == 0 {
        assert(rest =~= Seq::<Event>::empty());
        assert(run_state(m, Seq::<Event>::empty()) == m);
        assert((SelectorModel {
            state: TraversalModel { keys_index: (m.state.keys_index + 0) as nat, ..m.state },
            ..m
        }) == m);
    } else {
        lemma_descent(m, k - 1);
        let front = m.state.keys.subrange(ki, ki + k - 1);
        let key = m.state.keys[ki + k - 1];
        assert(rest.drop_last() =~= front);
        assert(rest.last() == key);
        let p = run_state(m, descent_prefix(front));
        lemma_run_one(p, Event::StartObject);
        let p2 = select_step(p, Event::StartObject).next;
        lemma_run_one(p2, key);
        assert(seq![Event::StartObject, key] =~= seq![Event::StartObject] + seq![key]);
        lemma_run_append(p, seq![Event::StartObject], seq![key]);
        lemma_run_append(m, descent_prefix(front), seq![Event::StartObject, key]);
        let pair_fwd = run_forwards(p, seq![Event::StartObject, key]);
        if m.no_context {
            assert(pair_fwd =~= Seq::<Event>::empty());
            assert(run_forwards(m, descent_prefix(front)) + pair_fwd =~= Seq::<Event>::empty());
        } else {
            assert(pair_fwd =~= seq![Event::StartObject, key]);
            assert(descent_prefix(front) + pair_fwd =~= descent_prefix(rest));
        }
    }
}

/// Once the target array has closed, the cursor never moves again, and the
/// trailing structure — whatever it is — is forwarded exactly when context is
/// wanted, none of it otherwise.
pub proof fn lemma_after_target_run(m: SelectorModel, evs: Seq<Event>)
    requires
        m.state.placement == Placement::AfterTarget,
    ensures
        run_ok(m, evs),
        run_state(m, evs) == m,
        run_forwards(m, evs) == (if m.no_context {
            Seq::<Event>::empty()
        } else {
            evs
        }),
    decreases evs.len(),
{
    if evs.len() > 0 {
        lemma_after_target_run(m, evs.drop_last());
        if m.no_context {
            assert(run_forwards(m, evs) =~= Seq::<Event>::empty());
        } else {
            assert(run_forwards(m, evs) =~= evs.drop_last() + seq![evs.last()]);
            assert(evs.drop_last() + seq![evs.last()] =~= evs);
        }
    }
}

/// The run-level statement of the context rule, over a whole keyed document:
/// a descent of one object level per key segment, then the target array,
/// then any trailing structure. The scan completes without failure; with
/// context suppressed the output is exactly the windowed target array — no
/// enclosing object key or brace is ever emitted; with context wanted the
/// output is the full original nesting with the target array reduced to its
/// window.
pub proof fn theorem_keyed_scan(m: SelectorModel, elems: Seq<Seq<Event>>, tail: Seq<Event>)
    requires
        model_wf(m),
        m.state.placement == Placement::BeforeTarget,
        m.state.keys_index == 0,
        m.state.target_index == 0,
        m.state.sub_elements == 0,
        forall|i: int| 0 <= i < elems.len() ==> is_element(#[trigger] elems[i]),
        forall|i: int| 0 <= i < elems.len() ==> (#[trigger] elems[i]).len() <= usize::MAX as nat,
        elems.len() <= usize::MAX as nat,
    ensures
        ({
            let path = descent_prefix(m.state.keys);
            let arr = seq![Event::StartArray] + concat_elements(elems) + seq![Event::EndArray];
            let doc = path + arr + tail;
            let lo: int = if m.skip < elems.len() {
                m.skip as int
            } else {
                elems.len() as int
            };
            let hi: int = if m.skip + m.count < elems.len() {
                (m.skip + m.count) as int
            } else {
                elems.len() as int
            };
            let arr_out = seq![Event::StartArray] + concat_elements(elems.subrange(lo, hi))
                + seq![Event::EndArray];
            &&& run_ok(m, doc)
            &&& run_state(m, doc).state.placement == Placement::AfterTarget
            &&& (m.no_context ==> run_forwards(m, doc) == arr_out)
            &&& (!m.no_context ==> run_forwards(m, doc) == path + arr_out + tail)
        }),
{
    let path = descent_prefix(m.state.keys);
    let arr = seq![Event::StartArray] + concat_elements(elems) + seq![Event::EndArray];
    let doc = path + arr + tail;
    let lo: int = if m.skip < elems.len() {
        m.skip as int
    } else {
        elems.len() as int
    };
    let hi: int = if m.skip + m.count < elems.len() {
        (m.skip + m.count) as int
    } else {
        elems.len() as int
    };
    let arr_out = seq![Event::StartArray] + concat_elements(elems.subrange(lo, hi))
        + seq![Event::EndArray];
    lemma_descent(m, m.state.keys.len() as int);
    assert(m.state.keys.subrange(0, m.state.keys.len() as int) =~= m.state.keys);
    let m1 = run_state(m, path);
    theorem_array_window(m1, elems);
    let m2 = run_state(m1, arr);
    lemma_run_preserves_config(m1, arr);
    lemma_after_target_run(m2, tail);
    lemma_run_append(m, path, arr);
    lemma_run_append(m, path + arr, tail);
    assert((path + arr) + tail =~= doc);
    assert(run_state(m, doc) == m2);
    assert(run_ok(m, doc));
    assert(run_forwards(m, doc) == (run_forwards(m, path) + run_forwards(m1, arr))
        + run_forwards(m2, tail));
    assert(run_forwards(m1, arr) == arr_out);
    if m.no_context {
        assert(run_forwards(m, path) == Seq::<Event>::empty());
        assert(run_forwards(m2, tail) == Seq::<Event>::empty());
        assert((Seq::<Event>::empty() + arr_out) + Seq::<Event>::empty() =~= arr_out);
    } else {
        assert(run_forwards(m, path) == path);
        assert(run_forwards(m2, tail) == tail);
        assert((path + arr_out) + tail =~= path + arr_out + tail);
    }
}

/// A scan is a function of the selector's configuration and the token stream
/// alone: two runs from equal selectors over equal streams end in the same
/// cursor and forward the same tokens, so re-running a scan on the same input
/// with the same parameters is identical, byte for byte up to the sink.
pub proof fn lemma_rerun_identical(
    m1: SelectorModel,
    m2: SelectorModel,
    evs1: Seq<Event>,
    evs2: Seq<Event>,
)
    requires
        m1 == m2,
        evs1 == evs2,
    ensures
        run_state(m1, evs1) == run_state(m2, evs2),
        run_ok(m1, evs1) == run_ok(m2, evs2),
        run_forwards(m1, evs1) == run_forwards(m2, evs2),
{
}

} // verus!
