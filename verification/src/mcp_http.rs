//! The HTTP face of the server: metrics, and the bearer-token guard on the tool-call endpoint.
use subtle::ConstantTimeEq;
use vstd::prelude::*;
use vstd::string::StringExecFns;

use crate::engine::{ids_of, record_ids, Engine, MetricsSnapshot};
use crate::text::{
    begins, chars_of, decimal, lemma_occurs, lemma_still_occurs, occurs, string_of, to_decimal,
};

verus! {

/// One series in the Prometheus text exposition format.
pub open spec fn series(
    name: Seq<char>,
    help: Seq<char>,
    kind: Seq<char>,
    value: int,
) -> Seq<char> {
    "# HELP "@ + name + " "@ + help + "\n# TYPE "@ + name + " "@ + kind + "\n"@ + name + " "@
        + decimal(value) + "\n"@
}

/// All series of a snapshot.
pub open spec fn exposition(m: MetricsSnapshot) -> Seq<char> {
    series(
        "kutsu_calls_active"@,
        "Calls ringing or in progress."@,
        "gauge"@,
        m.active as int,
    ) + series("kutsu_calls_queued"@, "Calls waiting for a channel."@, "gauge"@, m.queued as int)
        + series(
        "kutsu_calls_placed_total"@,
        "Calls placed since start."@,
        "counter"@,
        m.placed_total as int,
    ) + series(
        "kutsu_calls_completed_total"@,
        "Calls completed."@,
        "counter"@,
        m.completed_total as int,
    ) + series("kutsu_calls_failed_total"@, "Calls failed."@, "counter"@, m.failed_total as int)
        + series(
        "kutsu_calls_cancelled_total"@,
        "Calls cancelled."@,
        "counter"@,
        m.cancelled_total as int,
    ) + series(
        "kutsu_channels_cap"@,
        "Max concurrent channels."@,
        "gauge"@,
        m.channels_cap as int,
    )
}

fn push_series(s: &mut String, name: &str, help: &str, kind: &str, value: u64)
    ensures
        final(s)@ == old(s)@ + series(name@, help@, kind@, value as int),
{
    let ghost before = s@;
    let v: String = to_decimal(value);
    s.append("# HELP ");
    s.append(name);
    s.append(" ");
    s.append(help);
    s.append("\n# TYPE ");
    s.append(name);
    s.append(" ");
    s.append(kind);
    s.append("\n");
    s.append(name);
    s.append(" ");
    s.append(v.as_str());
    s.append("\n");
    assert(s@ =~= before + series(name@, help@, kind@, value as int));
}

/// Render an engine's metrics in the Prometheus text exposition format (version 0.0.4).
pub fn render_prometheus(m: &MetricsSnapshot) -> (r: String)
    ensures
        r@ == exposition(*m),
{
    let mut s: String = String::new();
    push_series(
        &mut s,
        "kutsu_calls_active",
        "Calls ringing or in progress.",
        "gauge",
        m.active as u64,
    );
    push_series(
        &mut s,
        "kutsu_calls_queued",
        "Calls waiting for a channel.",
        "gauge",
        m.queued as u64,
    );
    push_series(
        &mut s,
        "kutsu_calls_placed_total",
        "Calls placed since start.",
        "counter",
        m.placed_total,
    );
    push_series(
        &mut s,
        "kutsu_calls_completed_total",
        "Calls completed.",
        "counter",
        m.completed_total,
    );
    push_series(
        &mut s,
        "kutsu_calls_failed_total",
        "Calls failed.",
        "counter",
        m.failed_total,
    );
    push_series(
        &mut s,
        "kutsu_calls_cancelled_total",
        "Calls cancelled.",
        "counter",
        m.cancelled_total,
    );
    push_series(
        &mut s,
        "kutsu_channels_cap",
        "Max concurrent channels.",
        "gauge",
        m.channels_cap as u64,
    );
    assert(s@ =~= exposition(*m));
    s
}

/// `subtle::ConstantTimeEq::ct_eq` of two byte slices, as a `bool`: whether they are of the same
/// length and hold the same bytes, in a time that depends on the lengths alone. Two texts are the
/// same where their UTF-8 bytes are.
#[verifier::external_body]
fn same_in_constant_time(a: &str, b: &str) -> (r: bool)
    ensures
        r == (a@ == b@),
{
    a.as_bytes().ct_eq(b.as_bytes()).into()
}

/// Comparison of a presented bearer token against the configured one, in constant time, so that
/// response timing cannot be used to recover the token. A length difference short-circuits: a
/// token's length is not the secret.
pub fn token_matches(presented: &str, expected: &str) -> (r: bool)
    ensures
        r == (presented@ == expected@),
{
    same_in_constant_time(presented, expected)
}

/// Whether a request passes the guard: it does where no token is configured, and where its
/// `Authorization` header is `Bearer ` and the token.
pub open spec fn admitted(header: Option<&str>, token: Option<&str>) -> bool {
    match token {
        None => true,
        Some(t) => header is Some && header->Some_0@ == "Bearer "@ + t@,
    }
}

/// The text that follows `prefix`, where the text begins with it.
fn strip_prefix(s: &str, prefix: &str) -> (r: Option<String>)
    ensures
        match r {
            Some(t) => s@ == prefix@ + t@,
            None => !begins(s@, prefix@),
        },
{
    let chars: Vec<char> = chars_of(s);
    let head: Vec<char> = chars_of(prefix);
    if chars.len() < head.len() {
        return None;
    }
    let mut i: usize = 0;
    while i < head.len()
        invariant
            i <= head@.len() <= chars@.len(),
            chars@ == s@,
            head@ == prefix@,
            forall|j: int| 0 <= j < i ==> chars@[j] == head@[j],
        decreases head@.len() - i,
    {
        if chars[i] != head[i] {
            assert(s@.subrange(0, prefix@.len() as int)[i as int] != prefix@[i as int]);
            return None;
        }
        i = i + 1;
    }
    let rest: String = string_of(&chars, head.len(), chars.len());
    assert(s@ =~= prefix@ + rest@);
    Some(rest)
}

/// Bearer-token guard: whether a request with this `Authorization` header may pass.
pub fn bearer_guard(header: Option<&str>, token: Option<&str>) -> (r: bool)
    ensures
        r == admitted(header, token),
{
    match token {
        None => true,
        Some(t) => match header {
            None => false,
            Some(h) => match strip_prefix(h, "Bearer ") {
                Some(p) => {
                    let ok: bool = token_matches(p.as_str(), t);
                    let ghost head = "Bearer "@;
                    proof {
                        let k = head.len() as int;
                        assert((head + t@).subrange(k, (head + t@).len() as int) =~= t@);
                        assert((head + p@).subrange(k, (head + p@).len() as int) =~= p@);
                    }
                    ok
                },
                None => {
                    proof {
                        let whole = "Bearer "@ + t@;
                        assert(whole.subrange(0, "Bearer "@.len() as int) =~= "Bearer "@);
                    }
                    false
                },
            },
        },
    }
}

/// Hang up every call on record: a queued one is cancelled, and the running ones, whose tasks are
/// to be told, are returned.
pub fn graceful_teardown(engine: &mut Engine, now_ms: u64) -> (r: Vec<String>)
    requires
        old(engine)@.wf(),
    ensures
        ({
            let ids = record_ids(old(engine)@.records);
            let n = ids.len() as int;
            &&& final(engine)@ == old(engine)@.ends_requested(ids, n, now_ms)
            &&& ids_of(r@) == old(engine)@.to_tell(ids, n, now_ms)
        }),
        final(engine)@.wf(),
{
    engine.end_all(now_ms)
}

/// What a scraper reads of a series: its type, and its value on a line of its own.
pub open spec fn reading(name: Seq<char>, kind: Seq<char>, value: int) -> Seq<char> {
    "\n# TYPE "@ + name + " "@ + kind + "\n"@ + name + " "@ + decimal(value) + "\n"@
}

proof fn lemma_reading(name: Seq<char>, help: Seq<char>, kind: Seq<char>, value: int)
    ensures
        occurs(series(name, help, kind, value), reading(name, kind, value)),
{
    let s = series(name, help, kind, value);
    let head = "# HELP "@ + name + " "@ + help;
    let none = Seq::<char>::empty();
    assert(s =~= head + reading(name, kind, value) + none);
    lemma_occurs(s, head, reading(name, kind, value), none);
}

proof fn lemma_in_a_row(s: Seq<Seq<char>>, r: Seq<Seq<char>>, i: int, n: int)
    requires
        s.len() == r.len(),
        0 <= i < n <= s.len(),
        occurs(s[i], r[i]),
    ensures
        occurs(row(s, n), r[i]),
    decreases n,
{
    if i == n - 1 {
        lemma_still_occurs(row(s, n - 1), s[i], Seq::empty(), r[i]);
    } else {
        lemma_in_a_row(s, r, i, n - 1);
        lemma_still_occurs(Seq::empty(), row(s, n - 1), s[n - 1], r[i]);
    }
}

/// The first `n` texts, end to end.
pub open spec fn row(s: Seq<Seq<char>>, n: int) -> Seq<char>
    decreases n,
{
    if n <= 0 {
        Seq::empty()
    } else {
        row(s, n - 1) + s[n - 1]
    }
}

/// Every figure of a snapshot is exposed under its own name and kind.
pub proof fn every_figure_is_exposed(m: MetricsSnapshot)
    ensures
        occurs(exposition(m), reading("kutsu_calls_active"@, "gauge"@, m.active as int)),
        occurs(exposition(m), reading("kutsu_calls_queued"@, "gauge"@, m.queued as int)),
        occurs(exposition(m), reading("kutsu_calls_placed_total"@, "counter"@, m.placed_total as int)),
        occurs(exposition(m), reading("kutsu_calls_completed_total"@, "counter"@, m.completed_total as int)),
        occurs(exposition(m), reading("kutsu_calls_failed_total"@, "counter"@, m.failed_total as int)),
        occurs(exposition(m), reading("kutsu_calls_cancelled_total"@, "counter"@, m.cancelled_total as int)),
        occurs(exposition(m), reading("kutsu_channels_cap"@, "gauge"@, m.channels_cap as int)),
{
    let s0 = series("kutsu_calls_active"@, "Calls ringing or in progress."@, "gauge"@, m.active as int);
    let r0 = reading("kutsu_calls_active"@, "gauge"@, m.active as int);
    lemma_reading("kutsu_calls_active"@, "Calls ringing or in progress."@, "gauge"@, m.active as int);
    let s1 = series("kutsu_calls_queued"@, "Calls waiting for a channel."@, "gauge"@, m.queued as int);
    let r1 = reading("kutsu_calls_queued"@, "gauge"@, m.queued as int);
    lemma_reading("kutsu_calls_queued"@, "Calls waiting for a channel."@, "gauge"@, m.queued as int);
    let s2 = series("kutsu_calls_placed_total"@, "Calls placed since start."@, "counter"@, m.placed_total as int);
    let r2 = reading("kutsu_calls_placed_total"@, "counter"@, m.placed_total as int);
    lemma_reading("kutsu_calls_placed_total"@, "Calls placed since start."@, "counter"@, m.placed_total as int);
    let s3 = series("kutsu_calls_completed_total"@, "Calls completed."@, "counter"@, m.completed_total as int);
    let r3 = reading("kutsu_calls_completed_total"@, "counter"@, m.completed_total as int);
    lemma_reading("kutsu_calls_completed_total"@, "Calls completed."@, "counter"@, m.completed_total as int);
    let s4 = series("kutsu_calls_failed_total"@, "Calls failed."@, "counter"@, m.failed_total as int);
    let r4 = reading("kutsu_calls_failed_total"@, "counter"@, m.failed_total as int);
    lemma_reading("kutsu_calls_failed_total"@, "Calls failed."@, "counter"@, m.failed_total as int);
    let s5 = series("kutsu_calls_cancelled_total"@, "Calls cancelled."@, "counter"@, m.cancelled_total as int);
    let r5 = reading("kutsu_calls_cancelled_total"@, "counter"@, m.cancelled_total as int);
    lemma_reading("kutsu_calls_cancelled_total"@, "Calls cancelled."@, "counter"@, m.cancelled_total as int);
    let s6 = series("kutsu_channels_cap"@, "Max concurrent channels."@, "gauge"@, m.channels_cap as int);
    let r6 = reading("kutsu_channels_cap"@, "gauge"@, m.channels_cap as int);
    lemma_reading("kutsu_channels_cap"@, "Max concurrent channels."@, "gauge"@, m.channels_cap as int);
    let s = seq![s0, s1, s2, s3, s4, s5, s6];
    let r = seq![r0, r1, r2, r3, r4, r5, r6];
    reveal_with_fuel(row, 8);
    assert(Seq::<char>::empty() + s0 =~= s0);
    assert(row(s, 7) == exposition(m));
    lemma_in_a_row(s, r, 0, 7);
    lemma_in_a_row(s, r, 1, 7);
    lemma_in_a_row(s, r, 2, 7);
    lemma_in_a_row(s, r, 3, 7);
    lemma_in_a_row(s, r, 4, 7);
    lemma_in_a_row(s, r, 5, 7);
    lemma_in_a_row(s, r, 6, 7);
}

/// With a token configured, only the very header that bears it passes; without one, every request
/// does.
pub proof fn only_the_token_is_admitted(header: Option<&str>, h: &str, t: &str)
    ensures
        admitted(header, None),
        !admitted(None, Some(t)),
        admitted(Some(h), Some(t)) <==> h@ == "Bearer "@ + t@,
        admitted(Some(h), Some(t)) ==> begins(h@, "Bearer "@) && h@.len() == 7 + t@.len(),
{
    reveal_strlit("Bearer ");
    assert("Bearer "@.len() == 7);
    if admitted(Some(h), Some(t)) {
        assert(h@.subrange(0, 7) =~= "Bearer "@);
    }
}

} // verus!
