//! The orchestrator of one scan: pull tokens from the source one at a time,
//! ask the selector whether to forward each, hand forwarded tokens to the
//! sink, and judge end-of-stream against the completion predicate.

use crate::copy_selector::{
    run_forwards, run_ok, run_state, select_step, CopySelector, Placement, SelectorModel,
};
use crate::error::CopyError;
use crate::key_path::{Event, OwnedJsonEvent};
use json_event_parser::{JsonReader, JsonWriter};
use vstd::prelude::*;

verus! {

/// The outcomes of driving a fresh streaming parser over `input` to its end:
/// one entry per call, up to and including the first terminal outcome — the
/// end marker on a clean document, or the parser's failure rendered as text.
/// Over a byte slice this stream is a function of the bytes alone.
pub uninterp spec fn source_outcomes(input: Seq<u8>) -> Seq<Result<Event, Seq<char>>>;

/// The bytes the streaming serializer produces for a token stream it accepts
/// in full, from a fresh start; a function of the stream alone.
pub uninterp spec fn sink_bytes(events: Seq<Event>) -> Seq<u8>;

/// The tokens of every outcome before the terminal one.
pub open spec fn source_events(outs: Seq<Result<Event, Seq<char>>>) -> Seq<Event> {
    if outs.len() == 0 {
        Seq::empty()
    } else {
        Seq::new(
            (outs.len() - 1) as nat,
            |i: int|
                match outs[i] {
                    Ok(e) => e,
                    Err(_) => Event::Eof,
                },
        )
    }
}

/// Whether the source ran clean to the end marker.
pub open spec fn source_clean(outs: Seq<Result<Event, Seq<char>>>) -> bool {
    outs.len() >= 1 && outs.last() == Ok::<Event, Seq<char>>(Event::Eof)
}

/// The shape the trusted source promises of its outcome stream: at least one
/// outcome, only plain tokens before the last, and the last either the end
/// marker or a failure.
pub open spec fn outcomes_wf(outs: Seq<Result<Event, Seq<char>>>) -> bool {
    &&& outs.len() >= 1
    &&& forall|i: int|
        0 <= i < outs.len() - 1 ==> ((#[trigger] outs[i]) matches Ok(e) && e != Event::Eof)
    &&& (outs.last() matches Err(_) || outs.last() == Ok::<Event, Seq<char>>(Event::Eof))
}

/// Whether one call's result mirrors one modelled outcome.
pub open spec fn reflects_outcome(
    r: Result<OwnedJsonEvent, String>,
    o: Result<Event, Seq<char>>,
) -> bool {
    match r {
        Ok(ev) => o == Ok::<Event, Seq<char>>(ev@),
        Err(msg) => o == Err::<Event, Seq<char>>(msg@),
    }
}

/// The longest prefix of `toks` that the engine accepts from `m`: every
/// token judged before its first shape failure, all of them when there is
/// none.
pub open spec fn processed_prefix(m: SelectorModel, toks: Seq<Event>) -> Seq<Event>
    decreases toks.len(),
{
    if toks.len() == 0 {
        Seq::empty()
    } else if select_step(m, toks.first()).verdict is Err {
        Seq::empty()
    } else {
        seq![toks.first()] + processed_prefix(
            select_step(m, toks.first()).next,
            toks.drop_first(),
        )
    }
}

/// Whether a scan's result is the one owed for this source stream: success
/// exactly on a clean stream the engine accepts in full with the cursor at
/// AfterTarget; the completion failure exactly on such a stream that ends
/// short of it; the source's failure handed through verbatim once every
/// token before it was accepted; the shape failure naming the first refused
/// token. (A sink failure aborts the scan wherever it strikes; nothing
/// further is owed then.)
pub open spec fn scan_result_owed(
    r: Result<(), CopyError>,
    m: SelectorModel,
    outs: Seq<Result<Event, Seq<char>>>,
) -> bool {
    let toks = source_events(outs);
    let evs = processed_prefix(m, toks);
    match r {
        Ok(()) => evs == toks && source_clean(outs) && run_state(m, toks).state.placement
            == Placement::AfterTarget,
        Err(CopyError::Parse(msg)) => evs == toks && outs.last() == Err::<Event, Seq<char>>(msg@),
        Err(CopyError::Shape(found)) => evs.len() < toks.len() && found@ == toks[evs.len() as int]
            && select_step(run_state(m, evs), toks[evs.len() as int]).verdict is Err,
        Err(CopyError::Completion) => evs == toks && source_clean(outs) && run_state(
            m,
            toks,
        ).state.placement != Placement::AfterTarget,
        Err(CopyError::Sink(_)) => true,
    }
}

/// The raw streaming parser with its reusable token buffer; opaque to the
/// verifier.
#[verifier::external_body]
struct RawSource<'a> {
    reader: JsonReader<&'a [u8]>,
    buffer: Vec<u8>,
}

/// The token source over one byte slice: the raw parser, the bytes it reads,
/// and its position in the outcome stream that `source_outcomes` names.
struct TokenSource<'a> {
    raw: RawSource<'a>,
    input: Ghost<Seq<u8>>,
    pos: Ghost<int>,
}

/// The raw streaming serializer over the byte buffer it owns; opaque to the
/// verifier.
#[verifier::external_body]
struct RawSink {
    writer: JsonWriter<Vec<u8>>,
}

/// The token sink: the raw serializer, the tokens it has accepted, and
/// whether every write so far succeeded — only then do its bytes equal
/// `sink_bytes` of the accepted tokens.
struct TokenSink {
    raw: RawSink,
    written: Ghost<Seq<Event>>,
    clean: Ghost<bool>,
}

/// Relies on json_event_parser::JsonEvent: one arm per token kind, the text
/// copied out of the parser's buffer.
#[verifier::external_body]
fn owned_event(ev: json_event_parser::JsonEvent<'_>) -> (r: OwnedJsonEvent) {
    match ev {
        json_event_parser::JsonEvent::String(s) => OwnedJsonEvent::String(s.to_string()),
        json_event_parser::JsonEvent::Number(s) => OwnedJsonEvent::Number(s.to_string()),
        json_event_parser::JsonEvent::Boolean(b) => OwnedJsonEvent::Boolean(b),
        json_event_parser::JsonEvent::Null => OwnedJsonEvent::Null,
        json_event_parser::JsonEvent::StartArray => OwnedJsonEvent::StartArray,
        json_event_parser::JsonEvent::EndArray => OwnedJsonEvent::EndArray,
        json_event_parser::JsonEvent::StartObject => OwnedJsonEvent::StartObject,
        json_event_parser::JsonEvent::EndObject => OwnedJsonEvent::EndObject,
        json_event_parser::JsonEvent::ObjectKey(s) => OwnedJsonEvent::ObjectKey(s.to_string()),
        json_event_parser::JsonEvent::Eof => OwnedJsonEvent::Eof,
    }
}

/// Relies on json_event_parser::JsonReader::from_reader: a fresh streaming
/// parser over a byte slice, with an empty token buffer.
#[verifier::external_body]
fn raw_source_new(input: &[u8]) -> (r: RawSource<'_>) {
    RawSource { reader: JsonReader::from_reader(input), buffer: Vec::new() }
}

/// Relies on json_event_parser::JsonWriter::from_writer: a fresh streaming
/// serializer over an empty byte buffer that it owns.
#[verifier::external_body]
fn raw_sink_new() -> (r: RawSink) {
    RawSink { writer: JsonWriter::from_writer(Vec::new()) }
}

impl<'a> TokenSource<'a> {
    /// A token source at the start of the outcome stream over `input`.
    fn new(input: &'a [u8]) -> (r: TokenSource<'a>)
        ensures
            r.input@ == input@,
            r.pos@ == 0,
    {
        TokenSource { raw: raw_source_new(input), input: Ghost(input@), pos: Ghost(0int) }
    }

    /// Relies on json_event_parser::JsonReader::read_event, and on what its
    /// source shows of reading a byte slice: the outcomes are a function of
    /// the bytes alone — plain tokens one at a time up to exactly one
    /// terminal outcome, the end marker or the parser's first failure
    /// rendered as text — and each call yields the next of them; past the
    /// terminal outcome nothing is promised.
    #[verifier::external_body]
    fn next_event(&mut self) -> (r: Result<OwnedJsonEvent, String>)
        ensures
            final(self).input == old(self).input,
            final(self).pos@ == old(self).pos@ + 1,
            outcomes_wf(source_outcomes(old(self).input@)),
            0 <= old(self).pos@ < source_outcomes(old(self).input@).len() ==> reflects_outcome(
                r,
                source_outcomes(old(self).input@)[old(self).pos@],
            ),
    {
        match self.raw.reader.read_event(&mut self.raw.buffer) {
            Ok(ev) => Ok(owned_event(ev)),
            Err(e) => Err(format!("{e}")),
        }
    }
}

impl TokenSink {
    /// A fresh token sink: nothing accepted yet, every write so far (none)
    /// successful.
    fn new() -> (r: TokenSink)
        ensures
            r.written@ == Seq::<Event>::empty(),
            r.clean@ == true,
    {
        TokenSink { raw: raw_sink_new(), written: Ghost(Seq::empty()), clean: Ghost(true) }
    }

    /// Relies on json_event_parser::JsonWriter::write_event: on success the
    /// token joins the accepted stream; on failure (a token that cannot stand
    /// at the sink's current position) nothing is written, but the sink's
    /// state may no longer match the accepted stream.
    #[verifier::external_body]
    fn write_event(&mut self, event: &OwnedJsonEvent) -> (r: Result<(), String>)
        ensures
            r is Ok ==> final(self).written@ == old(self).written@.push(event@)
                && final(self).clean@ == old(self).clean@,
            r is Err ==> final(self).written@ == old(self).written@ && final(self).clean@ == false,
    {
        match self.raw.writer.write_event(event.as_json_event()) {
            Ok(()) => Ok(()),
            Err(e) => Err(format!("{e}")),
        }
    }

    /// Relies on json_event_parser::JsonWriter::into_inner: the buffer holds
    /// exactly the serialization of the accepted stream, as long as every
    /// write succeeded — in particular, nothing accepted serializes to
    /// nothing.
    #[verifier::external_body]
    fn into_bytes(self) -> (r: Vec<u8>)
        ensures
            self.clean@ ==> r@ == sink_bytes(self.written@),
            self.written@.len() == 0 ==> r@ == sink_bytes(self.written@) && r@.len() == 0,
    {
        self.raw.writer.into_inner()
    }
}

/// Closes the sink and appends whatever it produced to the output, on success
/// and failure alike (a partial output on failure is the documented
/// best-effort behaviour), handing the outcome through. While the sink is
/// clean, what it produced is exactly the serialization of what it accepted.
fn deliver(sink: TokenSink, out_json: &mut Vec<u8>, outcome: Result<(), CopyError>) -> (r: Result<
    (),
    CopyError,
>)
    ensures
        r == outcome,
        exists|produced: Seq<u8>| final(out_json)@ == old(out_json)@ + produced,
        sink.clean@ ==> final(out_json)@ == old(out_json)@ + sink_bytes(sink.written@),
        sink.written@.len() == 0 ==> final(out_json)@ == old(out_json)@,
{
    let mut bytes = sink.into_bytes();
    let ghost produced: Seq<u8> = bytes@;
    out_json.append(&mut bytes);
    proof {
        assert(out_json@ == old(out_json)@ + produced);
        if produced.len() == 0 {
            assert(old(out_json)@ + produced =~= old(out_json)@);
        }
    }
    outcome
}

/// Runs one whole scan: reads tokens out of `in_json` one at a time, forwards
/// the selected ones to the sink, and appends the sink's bytes to `out_json`.
///
/// Unless the sink refuses a forwarded token, the outcome is fully determined
/// by the starting cursor and the source's outcome stream over the input
/// bytes (`scan_result_owed`): success exactly on a clean stream whose tokens
/// the engine accepts with the cursor reaching AfterTarget, the completion
/// failure exactly on one that ends short of it, the source's failure handed
/// through verbatim, the shape failure naming the first refused token. The
/// final cursor is then the engine's run over the accepted tokens, and the
/// output gains exactly the serialization of what the engine forwarded.
pub fn copy_loop(in_json: &[u8], out_json: &mut Vec<u8>, cs: &mut CopySelector) -> (r: Result<
    (),
    CopyError,
>)
    requires
        old(cs).wf(),
    ensures
        final(cs).wf(),
        !(r matches Err(CopyError::Sink(_))) ==> ({
            let toks = source_events(source_outcomes(in_json@));
            let evs = processed_prefix(old(cs)@, toks);
            &&& scan_result_owed(r, old(cs)@, source_outcomes(in_json@))
            &&& final(cs)@ == run_state(old(cs)@, evs)
            &&& final(out_json)@ == old(out_json)@ + sink_bytes(run_forwards(old(cs)@, evs))
            &&& (run_forwards(old(cs)@, evs).len() == 0 ==> final(out_json)@ == old(out_json)@)
        }),
        exists|evs: Seq<Event>| final(cs)@ == run_state(old(cs)@, evs) && run_ok(old(cs)@, evs),
        exists|produced: Seq<u8>| final(out_json)@ == old(out_json)@ + produced,
        r is Ok ==> final(cs)@.state.placement == Placement::AfterTarget,
        r matches Err(e) ==> (e is Completion ==> final(cs)@.state.placement
            != Placement::AfterTarget),
{
    let mut source = TokenSource::new(in_json);
    let mut sink = TokenSink::new();
    let ghost outs: Seq<Result<Event, Seq<char>>> = source_outcomes(in_json@);
    let ghost toks: Seq<Event> = source_events(outs);
    let ghost mut evs: Seq<Event> = Seq::empty();
    proof {
        assert(toks.take(0) =~= Seq::<Event>::empty());
        assert(toks.skip(0) =~= toks);
        assert(Seq::<Event>::empty() + processed_prefix(cs@, toks) =~= processed_prefix(
            cs@,
            toks,
        ));
    }
    loop
        invariant
            cs.wf(),
            outs == source_outcomes(in_json@),
            source.pos@ > 0 ==> outcomes_wf(outs),
            toks == source_events(outs),
            source.input@ == in_json@,
            0 <= source.pos@ <= toks.len(),
            evs == toks.take(source.pos@),
            cs@ == run_state(old(cs)@, evs),
            run_ok(old(cs)@, evs),
            processed_prefix(old(cs)@, toks) == evs + processed_prefix(
                cs@,
                toks.skip(source.pos@),
            ),
            sink.written@ == run_forwards(old(cs)@, evs),
            sink.clean@,
            out_json@ == old(out_json)@,
        decreases outs.len() - source.pos@,
    {
        let ghost pos = source.pos@;
        let ghost m_before = cs@;
        let event = match source.next_event() {
            Ok(ev) => ev,
            Err(msg) => {
                proof {
                    // only the terminal outcome can be a failure
                    assert(pos == outs.len() - 1);
                    assert(evs =~= toks);
                    assert(toks.skip(pos) =~= Seq::<Event>::empty());
                    assert(evs + Seq::<Event>::empty() =~= evs);
                }
                return deliver(sink, out_json, Err(CopyError::Parse(msg)));
            },
        };
        if matches!(event, OwnedJsonEvent::Eof) {
            proof {
                // only the terminal outcome can be the end marker
                assert(pos == outs.len() - 1);
                assert(evs =~= toks);
                assert(toks.skip(pos) =~= Seq::<Event>::empty());
                assert(evs + Seq::<Event>::empty() =~= evs);
            }
            let outcome: Result<(), CopyError> = if cs.is_complete() {
                Ok(())
            } else {
                Err(CopyError::Completion)
            };
            return deliver(sink, out_json, outcome);
        }
        proof {
            // a plain token stands before the terminal outcome
            assert(outs[pos] == Ok::<Event, Seq<char>>(event@));
            assert(pos < outs.len() - 1);
            assert(toks[pos] == event@);
            assert(toks.skip(pos).first() == toks[pos]);
            assert(toks.skip(pos).drop_first() =~= toks.skip(pos + 1));
        }
        let forward = match cs.select(&event) {
            Ok(b) => b,
            Err(e) => {
                proof {
                    // the engine refused this token: the accepted prefix ends here
                    assert(processed_prefix(m_before, toks.skip(pos))
                        == Seq::<Event>::empty());
                    assert(evs + Seq::<Event>::empty() =~= evs);
                    assert(evs.len() == pos);
                }
                return deliver(sink, out_json, Err(e));
            },
        };
        proof {
            assert(processed_prefix(m_before, toks.skip(pos)) == seq![event@]
                + processed_prefix(cs@, toks.skip(pos + 1)));
            assert(evs + (seq![event@] + processed_prefix(cs@, toks.skip(pos + 1))) =~= evs.push(
                event@,
            ) + processed_prefix(cs@, toks.skip(pos + 1)));
            assert(evs.push(event@).drop_last() =~= evs);
            assert(evs.push(event@).last() == event@);
            assert(toks.take(pos + 1) =~= evs.push(event@));
            let prev = evs;
            evs = evs.push(event@);
            if forward {
                assert(run_forwards(old(cs)@, evs) =~= run_forwards(old(cs)@, prev) + seq![
                    event@,
                ]);
                assert(sink.written@.push(event@) =~= sink.written@ + seq![event@]);
            } else {
                assert(run_forwards(old(cs)@, evs) =~= run_forwards(old(cs)@, prev)
                    + Seq::<Event>::empty());
                assert(run_forwards(old(cs)@, prev) + Seq::<Event>::empty() =~= run_forwards(
                    old(cs)@,
                    prev,
                ));
            }
        }
        if forward {
            if let Err(msg) = sink.write_event(&event) {
                return deliver(sink, out_json, Err(CopyError::Sink(msg)));
            }
        }
    }
}

} // verus!
