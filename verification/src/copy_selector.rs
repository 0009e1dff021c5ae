//! The decision engine of a scan: a cursor over the key-path descent, the
//! target-array window, and the trailing context, with one decision per token.

use crate::error::CopyError;
use crate::key_path::{Event, KeyPath, OwnedJsonEvent};
use vstd::prelude::*;

verus! {

/// Where the scan stands relative to the target array. Advances only forward:
/// BeforeTarget, then InsideTarget, then AfterTarget.
#[derive(Clone, Copy, Debug, PartialEq, Eq, Structural)]
pub enum Placement {
    BeforeTarget,
    InsideTarget,
    AfterTarget,
}

/// Mathematical model of the traversal cursor.
pub ghost struct TraversalModel {
    /// The key segments of the descent path, each an object key.
    pub keys: Seq<Event>,
    /// The phase of the scan.
    pub placement: Placement,
    /// How many key segments have matched so far.
    pub keys_index: nat,
    /// How many target-array elements have been fully consumed.
    pub target_index: nat,
    /// Nesting depth inside the current composite element; zero at element boundaries.
    pub sub_elements: nat,
}

/// Mathematical model of a whole selector: cursor plus the chosen window.
pub ghost struct SelectorModel {
    pub state: TraversalModel,
    /// How many elements the window holds.
    pub count: nat,
    /// How many elements come before the window.
    pub skip: nat,
    /// Whether structure around the target array is suppressed.
    pub no_context: bool,
}

/// What one decision yields: the advanced model, and either the forwarding
/// verdict or the shape failure.
pub ghost struct StepOutcome {
    pub next: SelectorModel,
    pub verdict: Result<bool, ()>,
}

/// The key segments are object keys and the descent has not run past them.
pub open spec fn model_wf(m: SelectorModel) -> bool {
    &&& forall|i: int| 0 <= i < m.state.keys.len() ==> (#[trigger] m.state.keys[i]) is ObjectKey
    &&& m.state.keys_index <= m.state.keys.len()
}

/// Whether element index `i` lies in the window [skip, skip + count).
pub open spec fn in_window(m: SelectorModel, i: nat) -> bool {
    m.skip <= i && i < m.skip + m.count
}

/// One more, stopped at the machine limit.
pub open spec fn sat_inc(n: nat) -> nat {
    if n < usize::MAX as nat {
        n + 1
    } else {
        n
    }
}

/// The nesting depth after one token: container openers push, container
/// closers pop, and the depth never goes below zero.
pub open spec fn next_sub_elements(sub: nat, ev: Event) -> nat {
    if ev == Event::StartArray || ev == Event::StartObject {
        sat_inc(sub)
    } else if ev == Event::EndArray || ev == Event::EndObject {
        if sub > 0 {
            (sub - 1) as nat
        } else {
            0
        }
    } else {
        sub
    }
}

/// The element counter after one token: it advances exactly when the depth
/// has returned to zero, i.e. when one element has been fully consumed.
pub open spec fn next_target_index(ti: nat, sub_after: nat) -> nat {
    if sub_after == 0 {
        sat_inc(ti)
    } else {
        ti
    }
}

/// The engine's decision on one token: how the cursor advances, and whether
/// the token is forwarded. This is the entire state machine.
pub open spec fn select_step(m: SelectorModel, ev: Event) -> StepOutcome {
    match m.state.placement {
        Placement::BeforeTarget => {
            if m.state.keys_index < m.state.keys.len() {
                if ev == m.state.keys[m.state.keys_index as int] {
                    StepOutcome {
                        next: SelectorModel {
                            state: TraversalModel {
                                keys_index: m.state.keys_index + 1,
                                ..m.state
                            },
                            ..m
                        },
                        verdict: Ok(!m.no_context),
                    }
                } else {
                    StepOutcome { next: m, verdict: Ok(!m.no_context) }
                }
            } else if ev == Event::StartArray {
                StepOutcome {
                    next: SelectorModel {
                        state: TraversalModel { placement: Placement::InsideTarget, ..m.state },
                        ..m
                    },
                    verdict: Ok(true),
                }
            } else {
                StepOutcome { next: m, verdict: Err(()) }
            }
        },
        Placement::InsideTarget => {
            if ev == Event::EndArray && m.state.sub_elements == 0 {
                StepOutcome {
                    next: SelectorModel {
                        state: TraversalModel { placement: Placement::AfterTarget, ..m.state },
                        ..m
                    },
                    verdict: Ok(true),
                }
            } else {
                let sub = next_sub_elements(m.state.sub_elements, ev);
                StepOutcome {
                    next: SelectorModel {
                        state: TraversalModel {
                            sub_elements: sub,
                            target_index: next_target_index(m.state.target_index, sub),
                            ..m.state
                        },
                        ..m
                    },
                    verdict: Ok(in_window(m, m.state.target_index)),
                }
            }
        },
        Placement::AfterTarget => StepOutcome { next: m, verdict: Ok(!m.no_context) },
    }
}

/// The cursor after the engine has judged every token of `evs` in order,
/// starting from `m`. A token that fails the shape check leaves it unchanged.
pub open spec fn run_state(m: SelectorModel, evs: Seq<Event>) -> SelectorModel
    decreases evs.len(),
{
    if evs.len() == 0 {
        m
    } else {
        select_step(run_state(m, evs.drop_last()), evs.last()).next
    }
}

/// Whether no token of `evs` fails the shape check along the run from `m`.
pub open spec fn run_ok(m: SelectorModel, evs: Seq<Event>) -> bool
    decreases evs.len(),
{
    if evs.len() == 0 {
        true
    } else {
        run_ok(m, evs.drop_last()) && !(select_step(
            run_state(m, evs.drop_last()),
            evs.last(),
        ).verdict is Err)
    }
}

/// The subsequence of `evs` that the engine forwards to the sink along the
/// run from `m`.
pub open spec fn run_forwards(m: SelectorModel, evs: Seq<Event>) -> Seq<Event>
    decreases evs.len(),
{
    if evs.len() == 0 {
        Seq::empty()
    } else {
        run_forwards(m, evs.drop_last()) + (if select_step(
            run_state(m, evs.drop_last()),
            evs.last(),
        ).verdict == Ok::<bool, ()>(true) {
            seq![evs.last()]
        } else {
            Seq::<Event>::empty()
        })
    }
}

/// Mutable cursor of one scan: which key segment is expected next, which
/// phase is active, the nesting depth inside the target array, and the index
/// of the next element.
pub struct JsonFileState {
    keys: KeyPath,
    target_placement: Placement,
    target_index: usize,
    keys_index: usize,
    sub_elements: usize,
}

impl View for JsonFileState {
    type V = TraversalModel;

    closed spec fn view(&self) -> TraversalModel {
        TraversalModel {
            keys: self.keys@,
            placement: self.target_placement,
            keys_index: self.keys_index as nat,
            target_index: self.target_index as nat,
            sub_elements: self.sub_elements as nat,
        }
    }
}

impl JsonFileState {
    /// The key segments are object keys and the descent has not run past them.
    pub open spec fn wf(&self) -> bool {
        &&& forall|i: int| 0 <= i < self@.keys.len() ==> (#[trigger] self@.keys[i]) is ObjectKey
        &&& self@.keys_index <= self@.keys.len()
    }

    /// A fresh cursor at the start of the descent.
    pub fn new(keys: KeyPath) -> (r: Self)
        ensures
            r@ == (TraversalModel {
                keys: keys@,
                placement: Placement::BeforeTarget,
                keys_index: 0,
                target_index: 0,
                sub_elements: 0,
            }),
    {
        Self {
            keys,
            target_placement: Placement::BeforeTarget,
            target_index: 0,
            keys_index: 0,
            sub_elements: 0,
        }
    }

    /// Whether the cursor is inside a composite element of the target array.
    pub fn in_sub_element(&self) -> (r: bool)
        ensures
            r == (self@.sub_elements != 0),
    {
        self.sub_elements != 0
    }

    /// Advances the nesting depth for one token inside the target array, and
    /// the element counter when the depth returns to zero.
    fn next_element(&mut self, event: &OwnedJsonEvent)
        ensures
            final(self)@ == (TraversalModel {
                sub_elements: next_sub_elements(old(self)@.sub_elements, event@),
                target_index: next_target_index(
                    old(self)@.target_index,
                    next_sub_elements(old(self)@.sub_elements, event@),
                ),
                ..old(self)@
            }),
    {
        match event {
            OwnedJsonEvent::StartArray | OwnedJsonEvent::StartObject => {
                if self.sub_elements < usize::MAX {
                    self.sub_elements += 1;
                }
            },
            OwnedJsonEvent::EndArray | OwnedJsonEvent::EndObject => {
                if self.sub_elements > 0 {
                    self.sub_elements -= 1;
                }
            },
            _ => {},
        }
        if self.sub_elements == 0 {
            if self.target_index < usize::MAX {
                self.target_index += 1;
            }
        }
    }

    /// The key segment the descent expects next, if any segments remain.
    pub fn current_key(&self) -> (r: Option<OwnedJsonEvent>)
        ensures
            (match r {
                Some(e) => self@.keys_index < self@.keys.len() && e@ == self@.keys[self@.keys_index
                    as int],
                None => self@.keys_index >= self@.keys.len(),
            }),
    {
        let index = self.keys_index;
        if index < self.keys.len() {
            Some(self.keys.index(index).clone())
        } else {
            None
        }
    }

    /// Advances past the current key segment and reports the one after it.
    pub fn next_key(&mut self) -> (r: Option<OwnedJsonEvent>)
        ensures
            old(self)@.keys_index < old(self)@.keys.len() ==> final(self)@ == (TraversalModel {
                keys_index: old(self)@.keys_index + 1,
                ..old(self)@
            }),
            old(self)@.keys_index >= old(self)@.keys.len() ==> *final(self) == *old(self),
            (match r {
                Some(e) => final(self)@.keys_index < final(self)@.keys.len()
                    && e@ == final(self)@.keys[final(self)@.keys_index as int],
                None => final(self)@.keys_index >= final(self)@.keys.len(),
            }),
    {
        if self.keys_index < self.keys.len() {
            self.keys_index += 1;
            self.current_key()
        } else {
            None
        }
    }
}

/// The decision engine of one scan: the traversal cursor plus the immutable
/// window (skip, count) and context flag. One instance serves one document.
pub struct CopySelector {
    count: usize,
    skip: usize,
    no_context: bool,
    json_file_state: JsonFileState,
}

impl View for CopySelector {
    type V = SelectorModel;

    closed spec fn view(&self) -> SelectorModel {
        SelectorModel {
            state: self.json_file_state@,
            count: self.count as nat,
            skip: self.skip as nat,
            no_context: self.no_context,
        }
    }
}

impl CopySelector {
    pub open spec fn wf(&self) -> bool {
        model_wf(self@)
    }

    /// A selector for one scan of one document: descend along `keys`, then
    /// copy the element window [skip, skip + count) of the target array;
    /// `no_context` suppresses all structure around the target array.
    pub fn new(keys: KeyPath, count: usize, skip: usize, no_context: bool) -> (r: Self)
        requires
            keys.wf(),
        ensures
            r@ == (SelectorModel {
                state: TraversalModel {
                    keys: keys@,
                    placement: Placement::BeforeTarget,
                    keys_index: 0,
                    target_index: 0,
                    sub_elements: 0,
                },
                count: count as nat,
                skip: skip as nat,
                no_context,
            }),
            r.wf(),
    {
        let json_file_state = JsonFileState::new(keys);
        Self { count, skip, no_context, json_file_state }
    }

    /// Judges one token: `Ok(true)` to forward it, `Ok(false)` to suppress it,
    /// or the shape failure when the position that must hold the target array
    /// holds something else. The cursor advances exactly as `select_step` says.
    ///
    /// The descent matcher is deliberately depth-unaware: while descending it
    /// compares each incoming token against the expected key wherever that
    /// token stands, without tracking the nesting around it. A key that never
    /// matches is therefore not reported here but at end-of-stream, by the
    /// caller, through the completion predicate.
    pub fn select(&mut self, event: &OwnedJsonEvent) -> (r: Result<bool, CopyError>)
        requires
            old(self).wf(),
        ensures
            final(self).wf(),
            final(self)@ == select_step(old(self)@, event@).next,
            (match r {
                Ok(b) => select_step(old(self)@, event@).verdict == Ok::<bool, ()>(b),
                Err(e) => select_step(old(self)@, event@).verdict == Err::<bool, ()>(()) && e
                    == CopyError::Shape(*event),
            }),
    {
        let allow_context = !self.no_context;
        match self.json_file_state.target_placement {
            Placement::BeforeTarget => {
                if let Some(current_key) = self.json_file_state.current_key() {
                    if current_key == *event {
                        // A matched key names the container being unwrapped:
                        // it is context, shown only when context is wanted.
                        let _ = self.json_file_state.next_key();
                        Ok(allow_context)
                    } else {
                        Ok(allow_context)
                    }
                } else if matches!(event, OwnedJsonEvent::StartArray) {
                    // The target array's own delimiters are always forwarded.
                    self.json_file_state.target_placement = Placement::InsideTarget;
                    Ok(true)
                } else {
                    Err(CopyError::Shape(event.clone()))
                }
            },
            Placement::InsideTarget => {
                if matches!(event, OwnedJsonEvent::EndArray)
                    && !self.json_file_state.in_sub_element() {
                    self.json_file_state.target_placement = Placement::AfterTarget;
                    Ok(true)
                } else {
                    let index = self.json_file_state.target_index;
                    let skipping = index < self.skip || index - self.skip >= self.count;
                    self.json_file_state.next_element(event);
                    Ok(!skipping)
                }
            },
            Placement::AfterTarget => Ok(allow_context),
        }
    }

    /// True once the target array's closing bracket has been seen and
    /// forwarded, i.e. the copy of the window is complete.
    pub fn is_complete(&self) -> (r: bool)
        ensures
            r == (self@.state.placement == Placement::AfterTarget),
    {
        self.json_file_state.target_placement == Placement::AfterTarget
    }
}

} // verus!
