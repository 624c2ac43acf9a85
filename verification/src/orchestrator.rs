//! The fan-in stage of the orchestrator.
//!
//! One session runs per endpoint; all of them publish their outcomes into a
//! single queue, and a single consumer drains that queue in arrival order.
//! Every failure becomes one diagnostic line and is never fatal to the other
//! sessions; every success payload is forwarded to the output sink, unless
//! deduplication is on and the payload was already emitted — first seen
//! wins, and the order of first appearances is preserved.

use vstd::prelude::*;
use crate::session::FailureKind;
use crate::session::SessionOutcome;
use vstd::string::StringExecFns;

verus! {

/// A successful payload tagged with the server it came from: the shape in
/// which sessions publish their results to the consumer.
#[derive(Clone, Debug)]
pub struct ServerResponse {
    pub source_server: String,
    pub response: String,
}

/// The views of a sequence of strings.
pub open spec fn views(v: Seq<String>) -> Seq<Seq<char>> {
    v.map_values(|s: String| s@)
}

/// The success payloads of an outcome stream, in arrival order, duplicates
/// included.
pub open spec fn success_payloads(outs: Seq<SessionOutcome>) -> Seq<Seq<char>>
    decreases outs.len(),
{
    if outs.len() == 0 {
        Seq::empty()
    } else {
        let rest = success_payloads(outs.drop_first());
        match outs[0] {
            SessionOutcome::Success { payload, .. } => seq![payload@] + rest,
            SessionOutcome::Failure { .. } => rest,
        }
    }
}

/// First-seen-wins filtering: keep each payload's first appearance, in
/// order, dropping the ones already in `seen`.
pub open spec fn first_seen(ps: Seq<Seq<char>>, seen: Seq<Seq<char>>) -> Seq<Seq<char>>
    decreases ps.len(),
{
    if ps.len() == 0 {
        Seq::empty()
    } else if seen.contains(ps[0]) {
        first_seen(ps.drop_first(), seen)
    } else {
        seq![ps[0]] + first_seen(ps.drop_first(), seen.push(ps[0]))
    }
}

/// The lines the consumer forwards to the output sink, given the outcomes in
/// arrival order and the payloads already recorded as seen.
pub open spec fn spec_outputs(outs: Seq<SessionOutcome>, dedup: bool, seen: Seq<Seq<char>>) -> Seq<
    Seq<char>,
>
    decreases outs.len(),
{
    if outs.len() == 0 {
        Seq::empty()
    } else {
        match outs[0] {
            SessionOutcome::Success { payload, .. } => {
                if dedup && seen.contains(payload@) {
                    spec_outputs(outs.drop_first(), dedup, seen)
                } else if dedup {
                    seq![payload@] + spec_outputs(outs.drop_first(), dedup, seen.push(payload@))
                } else {
                    seq![payload@] + spec_outputs(outs.drop_first(), dedup, seen)
                }
            },
            SessionOutcome::Failure { .. } => spec_outputs(outs.drop_first(), dedup, seen),
        }
    }
}

impl FailureKind {
    /// A short human-readable description of the failure.
    pub open spec fn spec_message(self) -> Seq<char> {
        match self {
            FailureKind::UrlParseError => "unable to parse websocket url"@,
            FailureKind::ConnectError => "unable to connect to websocket server"@,
            FailureKind::WriteError => "failed to write to websocket"@,
            FailureKind::TransportError => "websocket read error"@,
            FailureKind::TimeoutError => "connection timed out while waiting for a response"@,
            FailureKind::UnsupportedFrame => "received non-text websocket data"@,
            FailureKind::UnsupportedEnvelope => "received unsupported data"@,
        }
    }

    /// Render the description of this failure.
    pub fn message(&self) -> (r: String)
        ensures
            r@ == self.spec_message(),
    {
        match self {
            FailureKind::UrlParseError => String::from_str("unable to parse websocket url"),
            FailureKind::ConnectError => String::from_str("unable to connect to websocket server"),
            FailureKind::WriteError => String::from_str("failed to write to websocket"),
            FailureKind::TransportError => String::from_str("websocket read error"),
            FailureKind::TimeoutError => String::from_str(
                "connection timed out while waiting for a response",
            ),
            FailureKind::UnsupportedFrame => String::from_str("received non-text websocket data"),
            FailureKind::UnsupportedEnvelope => String::from_str("received unsupported data"),
        }
    }
}

/// The diagnostic line owed to the error stream for one failure: its
/// description, then the endpoint it came from.
pub open spec fn spec_diagnostic(endpoint: Seq<char>, kind: FailureKind) -> Seq<char> {
    kind.spec_message() + " -- "@ + endpoint
}

/// Render the diagnostic line for one failure.
pub fn diagnostic_line(endpoint: &String, kind: FailureKind) -> (r: String)
    ensures
        r@ == spec_diagnostic(endpoint@, kind),
{
    let mut r = kind.message();
    r.append(" -- ");
    r.append(endpoint.as_str());
    r
}

/// The diagnostic lines of an outcome stream, in arrival order.
pub open spec fn spec_diags(outs: Seq<SessionOutcome>) -> Seq<Seq<char>>
    decreases outs.len(),
{
    if outs.len() == 0 {
        Seq::empty()
    } else {
        let rest = spec_diags(outs.drop_first());
        match outs[0] {
            SessionOutcome::Failure { endpoint, kind } => seq![spec_diagnostic(endpoint@, kind)]
                + rest,
            SessionOutcome::Success { .. } => rest,
        }
    }
}

/// Does the list of already-emitted payloads hold this one?
fn seen_contains(seen: &Vec<String>, p: &String) -> (b: bool)
    ensures
        b == views(seen@).contains(p@),
{
    let mut i: usize = 0;
    while i < seen.len()
        invariant
            i <= seen@.len(),
            forall|j: int| 0 <= j < i ==> views(seen@)[j] != p@,
        decreases seen@.len() - i,
    {
        let x = &seen[i];
        if x.eq(p) {
            proof {
                assert(views(seen@)[i as int] == p@);
            }
            return true;
        }
        i += 1;
    }
    proof {
        assert(!views(seen@).contains(p@));
    }
    false
}

/// Decide one successful payload: record and forward it, or suppress it as
/// an already-seen duplicate. The seen list only ever grows, and only when
/// deduplication is on.
pub fn consume_step(seen: &mut Vec<String>, payload: &String, dedup: bool) -> (emit: bool)
    ensures
        emit == (!dedup || !views(old(seen)@).contains(payload@)),
        views(final(seen)@) =~= if dedup && !views(old(seen)@).contains(payload@) {
            views(old(seen)@).push(payload@)
        } else {
            views(old(seen)@)
        },
{
    if dedup {
        if seen_contains(seen, payload) {
            false
        } else {
            seen.push(payload.clone());
            proof {
                assert(views(seen@) =~= views(old(seen)@).push(payload@));
            }
            true
        }
    } else {
        true
    }
}

/// Drain a merged outcome stream: the lines owed to the output sink and the
/// diagnostic lines owed to the error stream, both in arrival order.
pub fn drain(outcomes: Vec<SessionOutcome>, dedup: bool) -> (r: (Vec<String>, Vec<String>))
    ensures
        views(r.0@) =~= spec_outputs(outcomes@, dedup, Seq::empty()),
        views(r.1@) =~= spec_diags(outcomes@),
{
    let ghost orig = outcomes@;
    let mut rest = outcomes;
    let mut output: Vec<String> = Vec::new();
    let mut errors: Vec<String> = Vec::new();
    let mut seen: Vec<String> = Vec::new();
    proof {
        assert(views(seen@) =~= Seq::<Seq<char>>::empty());
        assert(views(output@) + spec_outputs(rest@, dedup, views(seen@)) =~= spec_outputs(
            orig,
            dedup,
            Seq::empty(),
        ));
        assert(views(errors@) + spec_diags(rest@) =~= spec_diags(orig));
    }
    #[verifier::loop_isolation(false)]
    loop
        invariant
            spec_outputs(orig, dedup, Seq::empty()) =~= views(output@) + spec_outputs(
                rest@,
                dedup,
                views(seen@),
            ),
            spec_diags(orig) =~= views(errors@) + spec_diags(rest@),
        decreases rest@.len(),
    {
        if rest.len() == 0 {
            proof {
                assert(views(output@) + spec_outputs(rest@, dedup, views(seen@)) =~= views(
                    output@,
                ));
                assert(views(errors@) + spec_diags(rest@) =~= views(errors@));
            }
            return (output, errors);
        }
        let ghost prev = rest@;
        let ghost out_prev = output@;
        let ghost err_prev = errors@;
        let ghost seen_prev = seen@;
        let o = rest.remove(0);
        proof {
            assert(prev.remove(0) =~= prev.drop_first());
        }
        match o {
            SessionOutcome::Success { endpoint: _, payload } => {
                let ghost gp = payload;
                let emit = consume_step(&mut seen, &payload, dedup);
                if emit {
                    output.push(payload);
                }
                proof {
                    assert(prev[0] matches SessionOutcome::Success { payload: q, .. } && q == gp);
                    if emit {
                        assert(views(output@) =~= views(out_prev).push(gp@));
                        assert(views(out_prev) + (seq![gp@] + spec_outputs(
                            prev.drop_first(),
                            dedup,
                            views(seen@),
                        )) =~= views(out_prev).push(gp@) + spec_outputs(
                            prev.drop_first(),
                            dedup,
                            views(seen@),
                        ));
                    }
                }
            },
            SessionOutcome::Failure { endpoint, kind } => {
                let line = diagnostic_line(&endpoint, kind);
                errors.push(line);
                proof {
                    assert(prev[0] matches SessionOutcome::Failure { endpoint: e, kind: k } && e
                        == endpoint && k == kind);
                    assert(views(errors@) =~= views(err_prev).push(
                        spec_diagnostic(endpoint@, kind),
                    ));
                    assert(views(err_prev) + (seq![spec_diagnostic(endpoint@, kind)] + spec_diags(
                        prev.drop_first(),
                    )) =~= views(err_prev).push(spec_diagnostic(endpoint@, kind)) + spec_diags(
                        prev.drop_first(),
                    ));
                }
            },
        }
    }
}

/// A nonempty sequence holds an element exactly when its head is that
/// element or its tail holds it.
proof fn lemma_head_rest_contains<A>(s: Seq<A>, x: A)
    requires
        s.len() > 0,
    ensures
        s.contains(x) <==> (s[0] == x || s.drop_first().contains(x)),
{
    if s.contains(x) {
        let i = choose|i: int| 0 <= i < s.len() && s[i] == x;
        if i > 0 {
            assert(s.drop_first()[i - 1] == x);
        }
    }
    if s.drop_first().contains(x) {
        let i = choose|i: int| 0 <= i < s.drop_first().len() && s.drop_first()[i] == x;
        assert(s[i + 1] == x);
    }
    if s[0] == x {
        assert(s.contains(x)) by {
            assert(s[0] == x);
        }
    }
}

/// With deduplication off, the consumer forwards exactly the stream of
/// success payloads, duplicates included, in arrival order.
pub proof fn lemma_no_dedup_outputs_all(outs: Seq<SessionOutcome>, seen: Seq<Seq<char>>)
    ensures
        spec_outputs(outs, false, seen) =~= success_payloads(outs),
    decreases outs.len(),
{
    if outs.len() > 0 {
        lemma_no_dedup_outputs_all(outs.drop_first(), seen);
    }
}

/// With deduplication on, the consumer forwards exactly the first-seen-wins
/// filtering of the success payload stream: each payload's first arrival, in
/// arrival order, and nothing already recorded as seen.
pub proof fn lemma_dedup_outputs_first_seen(outs: Seq<SessionOutcome>, seen: Seq<Seq<char>>)
    ensures
        spec_outputs(outs, true, seen) =~= first_seen(success_payloads(outs), seen),
    decreases outs.len(),
{
    if outs.len() > 0 {
        match outs[0] {
            SessionOutcome::Success { payload, .. } => {
                let ps = success_payloads(outs);
                let rest = success_payloads(outs.drop_first());
                assert(ps == seq![payload@] + rest);
                assert(ps[0] == payload@);
                assert(ps.drop_first() =~= rest);
                if seen.contains(payload@) {
                    lemma_dedup_outputs_first_seen(outs.drop_first(), seen);
                } else {
                    lemma_dedup_outputs_first_seen(outs.drop_first(), seen.push(payload@));
                }
            },
            SessionOutcome::Failure { .. } => {
                lemma_dedup_outputs_first_seen(outs.drop_first(), seen);
            },
        }
    }
}

/// First-seen-wins filtering emits a payload exactly when it occurs in the
/// stream and was not already seen.
pub proof fn lemma_first_seen_membership(ps: Seq<Seq<char>>, seen: Seq<Seq<char>>, x: Seq<char>)
    ensures
        first_seen(ps, seen).contains(x) <==> (ps.contains(x) && !seen.contains(x)),
    decreases ps.len(),
{
    if ps.len() == 0 {
        assert(!ps.contains(x));
    } else {
        lemma_head_rest_contains(ps, x);
        if seen.contains(ps[0]) {
            lemma_first_seen_membership(ps.drop_first(), seen, x);
        } else {
            let out = first_seen(ps, seen);
            let rest_out = first_seen(ps.drop_first(), seen.push(ps[0]));
            assert(out == seq![ps[0]] + rest_out);
            lemma_head_rest_contains(out, x);
            assert(out[0] == ps[0]);
            assert(out.drop_first() =~= rest_out);
            lemma_first_seen_membership(ps.drop_first(), seen.push(ps[0]), x);
            assert(seen.push(ps[0]).contains(x) <==> (seen.contains(x) || ps[0] == x)) by {
                if seen.contains(x) {
                    let i = choose|i: int| 0 <= i < seen.len() && seen[i] == x;
                    assert(seen.push(ps[0])[i] == x);
                }
                if ps[0] == x {
                    assert(seen.push(ps[0])[seen.len() as int] == x);
                }
                if seen.push(ps[0]).contains(x) {
                    let i = choose|i: int| 0 <= i < seen.push(ps[0]).len() && seen.push(ps[0])[i]
                        == x;
                    if i < seen.len() {
                        assert(seen[i] == x);
                    }
                }
            }
        }
    }
}

/// First-seen-wins filtering never emits the same payload twice.
pub proof fn lemma_first_seen_no_duplicates(ps: Seq<Seq<char>>, seen: Seq<Seq<char>>)
    ensures
        forall|i: int, j: int|
            0 <= i < j < first_seen(ps, seen).len() ==> first_seen(ps, seen)[i] != first_seen(
                ps,
                seen,
            )[j],
    decreases ps.len(),
{
    if ps.len() > 0 {
        if seen.contains(ps[0]) {
            lemma_first_seen_no_duplicates(ps.drop_first(), seen);
            assert(first_seen(ps, seen) == first_seen(ps.drop_first(), seen));
        } else {
            let out = first_seen(ps, seen);
            let rest_out = first_seen(ps.drop_first(), seen.push(ps[0]));
            assert(out == seq![ps[0]] + rest_out);
            lemma_first_seen_no_duplicates(ps.drop_first(), seen.push(ps[0]));
            assert(seen.push(ps[0])[seen.len() as int] == ps[0]);
            assert(seen.push(ps[0]).contains(ps[0]));
            lemma_first_seen_membership(ps.drop_first(), seen.push(ps[0]), ps[0]);
            assert(!rest_out.contains(ps[0]));
            assert forall|i: int, j: int| 0 <= i < j < out.len() implies out[i] != out[j] by {
                if i == 0 {
                    assert(out[0] == ps[0]);
                    assert(out[j] == rest_out[j - 1]);
                    if out[j] == ps[0] {
                        assert(rest_out.contains(ps[0])) by {
                            assert(rest_out[j - 1] == ps[0]);
                        }
                        assert(false);
                    }
                } else {
                    assert(out[i] == rest_out[i - 1]);
                    assert(out[j] == rest_out[j - 1]);
                    assert(rest_out[i - 1] != rest_out[j - 1]);
                }
            }
        }
    }
}

/// The deduplicated output of a drained stream holds each emitted payload
/// exactly once: every success payload appears, and no line repeats.
pub proof fn lemma_dedup_exactly_once(outs: Seq<SessionOutcome>)
    ensures
        forall|x: Seq<char>| #[trigger]
            spec_outputs(outs, true, Seq::empty()).contains(x) <==> success_payloads(
                outs,
            ).contains(x),
        forall|i: int, j: int|
            0 <= i < j < spec_outputs(outs, true, Seq::empty()).len() ==> spec_outputs(
                outs,
                true,
                Seq::empty(),
            )[i] != spec_outputs(outs, true, Seq::empty())[j],
{
    lemma_dedup_outputs_first_seen(outs, Seq::empty());
    lemma_first_seen_no_duplicates(success_payloads(outs), Seq::empty());
    assert forall|x: Seq<char>| #[trigger]
        spec_outputs(outs, true, Seq::empty()).contains(x) <==> success_payloads(
            outs,
        ).contains(x) by {
        lemma_first_seen_membership(success_payloads(outs), Seq::empty(), x);
        assert(!Seq::<Seq<char>>::empty().contains(x));
    }
}

} // verus!
