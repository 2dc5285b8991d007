//! The log relay: events read from the worker's two output pipes become
//! ordered, tagged log lines. Each line is decoded as UTF-8 — lines that
//! fail to decode are dropped silently, a deliberate lossy policy — and a
//! line from the error stream is marked with an error prefix. Within one
//! stream, emission order equals the order the events arrived in.

use vstd::prelude::*;
use vstd::string::StringExecFns;
use vstd::utf8::{decode_utf8, valid_utf8};

use crate::text::copy_bytes;

verus! {

/// Which of the worker's two output streams a line came from.
#[derive(Clone, Copy, Debug, PartialEq, Eq, Structural)]
pub enum StreamSource {
    Stdout,
    Stderr,
}

/// One event observed on the worker's output pipes: a raw line from one
/// stream, or anything else (termination, pipe errors), which the relay
/// ignores.
#[derive(Clone, Debug)]
pub enum StreamEvent {
    Line(StreamSource, Vec<u8>),
    Other,
}

/// One decoded line, tagged with its source, ready for the emission
/// boundary.
#[derive(Clone, Debug, PartialEq, Eq)]
pub struct LogLine {
    pub source: StreamSource,
    pub text: String,
}

/// The mark put in front of every line of the error stream.
pub open spec fn error_prefix() -> Seq<char> {
    "ERROR: "@
}

/// Relies on `String::from_utf8`: it succeeds exactly on valid UTF-8 input
/// and returns the decoded characters of the given bytes.
#[verifier::external_body]
fn decode_utf8_bytes(bytes: Vec<u8>) -> (r: Option<String>)
    ensures
        r is Some <==> valid_utf8(bytes@),
        r matches Some(s) ==> s@ == decode_utf8(bytes@),
{
    match String::from_utf8(bytes) {
        Ok(s) => Some(s),
        Err(_) => None,
    }
}

/// What the relay emits for one event: the decoded, tagged, possibly
/// prefixed line, or nothing when the event is no line or fails to decode.
pub open spec fn spec_log_line(ev: StreamEvent) -> Option<(StreamSource, Seq<char>)> {
    match ev {
        StreamEvent::Line(src, bytes) => if valid_utf8(bytes@) {
            match src {
                StreamSource::Stdout => Some((src, decode_utf8(bytes@))),
                StreamSource::Stderr => Some((src, error_prefix() + decode_utf8(bytes@))),
            }
        } else {
            None
        },
        StreamEvent::Other => None,
    }
}

/// The model of an emitted line: its source and its characters.
pub open spec fn line_model(l: LogLine) -> (StreamSource, Seq<char>) {
    (l.source, l.text@)
}

/// Relays one event: decode the line, tag it with its source, and mark an
/// error-stream line with the error prefix. Undecodable bytes yield
/// nothing.
pub fn relay_event(ev: &StreamEvent) -> (r: Option<LogLine>)
    ensures
        match spec_log_line(*ev) {
            Some(m) => r matches Some(l) && line_model(l) == m,
            None => r is None,
        },
{
    match ev {
        StreamEvent::Line(src, bytes) => {
            let b = copy_bytes(bytes);
            match decode_utf8_bytes(b) {
                None => None,
                Some(s) => match src {
                    StreamSource::Stdout => Some(LogLine { source: *src, text: s }),
                    StreamSource::Stderr => {
                        let mut t = String::from_str("ERROR: ");
                        t.append(s.as_str());
                        Some(LogLine { source: *src, text: t })
                    },
                },
            }
        },
        StreamEvent::Other => None,
    }
}

/// Everything the relay emits for a run of events, in arrival order.
pub open spec fn spec_relayed(events: Seq<StreamEvent>) -> Seq<(StreamSource, Seq<char>)>
    decreases events.len(),
{
    if events.len() == 0 {
        Seq::empty()
    } else {
        let rest = spec_relayed(events.drop_last());
        match spec_log_line(events.last()) {
            Some(m) => rest.push(m),
            None => rest,
        }
    }
}

/// Relays a run of events in order; the emitted lines are exactly what
/// `spec_relayed` describes, in the same order.
pub fn relay_events(events: &Vec<StreamEvent>) -> (r: Vec<LogLine>)
    ensures
        r@.map_values(|l: LogLine| line_model(l)) == spec_relayed(events@),
{
    let n = events.len();
    let mut out: Vec<LogLine> = Vec::new();
    proof {
        assert(events@.take(0) =~= Seq::<StreamEvent>::empty());
        assert(out@.map_values(|l: LogLine| line_model(l)) =~= spec_relayed(events@.take(0)));
    }
    let mut i: usize = 0;
    while i < n
        invariant
            0 <= i <= n,
            n == events@.len(),
            out@.map_values(|l: LogLine| line_model(l)) == spec_relayed(events@.take(i as int)),
        decreases n - i,
    {
        let ghost prefix = events@.take(i as int);
        let ghost prev = out@;
        match relay_event(&events[i]) {
            Some(l) => {
                out.push(l);
                proof {
                    assert(out@ == prev.push(l));
                    assert(out@.map_values(|x: LogLine| line_model(x)) =~= prev.map_values(
                        |x: LogLine| line_model(x),
                    ).push(line_model(l)));
                }
            },
            None => {},
        }
        proof {
            let longer = events@.take(i + 1);
            assert(longer.drop_last() =~= prefix);
            assert(longer.last() == events@[i as int]);
        }
        i += 1;
    }
    proof {
        assert(events@.take(n as int) =~= events@);
    }
    out
}

/// True of an event that is a line of the given stream.
pub open spec fn is_line_of(ev: StreamEvent, src: StreamSource) -> bool {
    match ev {
        StreamEvent::Line(s, bytes) => s == src,
        StreamEvent::Other => false,
    }
}

/// The events of one stream, in arrival order.
pub open spec fn events_from(events: Seq<StreamEvent>, src: StreamSource) -> Seq<StreamEvent>
    decreases events.len(),
{
    if events.len() == 0 {
        Seq::empty()
    } else {
        let rest = events_from(events.drop_last(), src);
        if is_line_of(events.last(), src) {
            rest.push(events.last())
        } else {
            rest
        }
    }
}

/// The emitted lines of one stream, in emission order.
pub open spec fn models_from(
    models: Seq<(StreamSource, Seq<char>)>,
    src: StreamSource,
) -> Seq<(StreamSource, Seq<char>)>
    decreases models.len(),
{
    if models.len() == 0 {
        Seq::empty()
    } else {
        let rest = models_from(models.drop_last(), src);
        if models.last().0 == src {
            rest.push(models.last())
        } else {
            rest
        }
    }
}

/// Law: per-stream order is preserved and streams do not disturb each
/// other. What the relay emits for one stream, out of any interleaving of
/// events, is exactly what it would emit for that stream's events alone,
/// in the same order.
pub proof fn lemma_per_stream_order(events: Seq<StreamEvent>, src: StreamSource)
    ensures
        models_from(spec_relayed(events), src) == spec_relayed(events_from(events, src)),
    decreases events.len(),
{
    if events.len() == 0 {
    } else {
        let rest = events.drop_last();
        let e = events.last();
        lemma_per_stream_order(rest, src);
        let rr = spec_relayed(rest);
        match spec_log_line(e) {
            Some(m) => {
                assert(spec_relayed(events) == rr.push(m));
                assert(rr.push(m).drop_last() =~= rr);
                assert(rr.push(m).last() == m);
                if is_line_of(e, src) {
                    assert(m.0 == src);
                    assert(models_from(spec_relayed(events), src) == models_from(rr, src).push(m));
                    let fe = events_from(rest, src).push(e);
                    assert(events_from(events, src) == fe);
                    assert(fe.drop_last() =~= events_from(rest, src));
                    assert(fe.last() == e);
                    assert(spec_relayed(fe) == spec_relayed(events_from(rest, src)).push(m));
                } else {
                    assert(m.0 != src);
                    assert(models_from(spec_relayed(events), src) == models_from(rr, src));
                    assert(events_from(events, src) == events_from(rest, src));
                }
            },
            None => {
                assert(spec_relayed(events) == rr);
                if is_line_of(e, src) {
                    let fe = events_from(rest, src).push(e);
                    assert(events_from(events, src) == fe);
                    assert(fe.drop_last() =~= events_from(rest, src));
                    assert(fe.last() == e);
                    assert(spec_relayed(fe) == spec_relayed(events_from(rest, src)));
                } else {
                    assert(events_from(events, src) == events_from(rest, src));
                }
            },
        }
    }
}

} // verus!
