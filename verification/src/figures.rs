//! What a report says, read key by key as a client reads it: under each key, what
//! the key is for.

use crate::api::{ConnId, Nanos, SysSnapshot};
use crate::asking::only_counted;
use crate::effects::{lemma_counted, lemma_named};
use crate::engine::Engine;
use crate::handout::one_more_long;
use crate::load::stat_number;
use crate::model::{state_text, JobState, TubeId};
use crate::proto::{CommandView, JobId, ResponseView};
use crate::reply::{
    all_digits, colon_at, lemma_colon_at, lemma_line_end, line_end, pair_at, plain_number,
    stat_value, trim_back, trim_front, white,
};
use crate::rules::{bump, picked_conns, picked_jobs, ConnSel, JobSel, Model, OpCounts, Out};
use crate::scan::{number, Class};
use crate::sending::digits_spell_the_number;
use crate::settle::orderly;
use crate::stats::{
    job_yaml, line, list_yaml, quoted, seconds, server_yaml, truth, tube_yaml, StatsJobView,
    StatsServer, StatsTubeView,
};
use crate::text::{decimal, padded, zeros};
use vstd::prelude::*;
use vstd::string::StringSliceAdditionalSpecFns;
use vstd::utf8::{encode_utf8, encode_utf8_decode_utf8, is_ascii_chars_encode_utf8};

verus! {

/// Whether `full` is `key`, a colon and a space, with neither a colon nor a line
/// feed in the key.
#[verifier::opaque]
spec fn plain_key(full: Seq<u8>, key: Seq<u8>) -> bool {
    &&& full == key + seq![58u8, 32u8]
    &&& forall|i: int| 0 <= i < key.len() ==> key[i] != 58 && key[i] != 10
}

/// Whether `s` fits on one line.
#[verifier::opaque]
pub open spec fn one_line(s: Seq<u8>) -> bool {
    forall|i: int| 0 <= i < s.len() ==> s[i] != 10
}

/// The byte at `i`, or 0 past the end.
spec fn byte_at(s: Seq<u8>, i: int) -> int {
    if i < s.len() {
        s[i] as int
    } else {
        0
    }
}

/// A number by which keys can be told apart.
#[verifier::opaque]
spec fn mark(s: Seq<u8>) -> int {
    s.len() + 32 * (byte_at(s, 0) + 128 * (byte_at(s, 2) + 128 * (byte_at(s, 6) + 128 * (byte_at(
        s,
        7,
    ) + 128 * byte_at(s, 13)))))
}

/// One line: what stands before the value, the value, and a line feed.
#[verifier::opaque]
spec fn text(full: Seq<u8>, value: Seq<u8>) -> Seq<u8> {
    full + value + "\n".spec_bytes()
}

/// What stands under `key` in the report.
#[verifier::opaque]
spec fn under(report: Seq<u8>, key: Seq<u8>) -> Option<Seq<u8>> {
    stat_value(report, key)
}

/// Where the first line of `a + b` ends, if `a` ends with a line.
proof fn lemma_same_end(a: Seq<u8>, b: Seq<u8>)
    requires
        a.len() > 0,
        a.last() == 10,
    ensures
        0 <= line_end(a) < a.len(),
        line_end(a + b) == line_end(a),
        a[line_end(a)] == 10,
    decreases a.len(),
{
    if a[0] == 10 {
        lemma_line_end(a, 0);
        lemma_line_end(a + b, 0);
    } else {
        let t = a.skip(1);
        assert(t.last() == a.last());
        lemma_same_end(t, b);
        assert((a + b).skip(1) =~= t + b);
        assert((a + b)[0] == a[0]);
    }
}

/// What more lines add to a report.
proof fn lemma_more_lines(a: Seq<u8>, b: Seq<u8>, key: Seq<u8>)
    requires
        a.len() > 0,
        a.last() == 10,
        b.len() > 0,
    ensures
        stat_value(a + b, key) == (match stat_value(a, key) {
            Some(v) => Some(v),
            None => stat_value(b, key),
        }),
    decreases a.len(),
{
    lemma_same_end(a, b);
    let n = line_end(a);
    assert((a + b).take(n) =~= a.take(n));
    let rest = a.skip(n + 1);
    assert((a + b).skip(n + 1) =~= rest + b);
    if rest.len() > 0 {
        assert(rest.last() == a.last());
        lemma_more_lines(rest, b, key);
    } else {
        assert(rest + b =~= b);
        assert(stat_value(rest, key) is None) by {
            lemma_line_end(rest, 0);
            assert(rest.take(0) =~= rest);
            assert(colon_at(rest) == 0);
        }
    }
}

/// What one line says.
proof fn lemma_one_line(full: Seq<u8>, key: Seq<u8>, value: Seq<u8>, text: Seq<u8>, k: Seq<u8>)
    requires
        plain_key(full, key),
        one_line(value),
        text == full + value + seq![10u8],
    ensures
        stat_value(text, k) == (if k == key {
            Some(value)
        } else {
            None::<Seq<u8>>
        }),
{
    reveal(plain_key);
    reveal(one_line);
    let n = (full.len() + value.len()) as int;
    assert forall|i: int| 0 <= i < n implies text[i] != 10 by {
        if i < key.len() {
            assert(text[i] == key[i]);
        } else if i < full.len() {
            assert(text[i] == full[i]);
        } else {
            assert(text[i] == value[i - full.len()]);
        }
    }
    lemma_line_end(text, n);
    let l = text.take(n);
    let c = key.len() as int;
    assert forall|i: int| 0 <= i < c implies !(#[trigger] pair_at(l, i)) by {
        assert(l[i] == key[i]);
    }
    assert(l[c] == full[c] && l[c + 1] == full[c + 1]);
    assert(pair_at(l, c));
    lemma_colon_at(l, c);
    assert(l.take(c) =~= key);
    assert(l.skip(c + 2) =~= value);
    let rest = text.skip(n + 1);
    assert(rest =~= Seq::<u8>::empty());
    lemma_line_end(rest, 0);
    assert(stat_value(rest, k) is None);
}

/// A line ends with a line feed.
proof fn lemma_line_feed()
    ensures
        "\n".spec_bytes() == seq![10u8],
{
    reveal_strlit("\n");
    is_ascii_chars_encode_utf8("\n"@);
    assert("\n".spec_bytes() =~= seq![10u8]);
}

/// Digits fit on one line.
proof fn lemma_digits_line(n: nat)
    ensures
        one_line(decimal(n)),
{
    reveal(one_line);
    digits_spell_the_number(n);
    assert forall|i: int| 0 <= i < decimal(n).len() implies decimal(n)[i] != 10 by {
        assert(Class::Digit.has(decimal(n)[i]));
    }
}

/// A value between quotes fits on one line if it does.
proof fn lemma_quoted_line(s: Seq<u8>)
    requires
        one_line(s),
    ensures
        one_line(quoted(s)),
{
    reveal(one_line);
    reveal_strlit("\"");
    is_ascii_chars_encode_utf8("\""@);
    let q = "\"".spec_bytes();
    assert(q =~= seq![34u8]);
    assert(quoted(s) =~= seq![34u8] + s + seq![34u8]);
}

/// Whether the report ends with a line.
#[verifier::opaque]
spec fn ended(report: Seq<u8>) -> bool {
    report.len() > 0 && report.last() == 10
}

/// The first line of a report has no key.
proof fn lemma_nothing_yet()
    ensures
        ended("---\n".spec_bytes()),
        forall|k: Seq<u8>| (#[trigger] under("---\n".spec_bytes(), k)) is None,
{
    reveal(under);
    reveal(ended);
    reveal_strlit("---\n");
    is_ascii_chars_encode_utf8("---\n"@);
    let h = "---\n".spec_bytes();
    assert(h =~= seq![45u8, 45u8, 45u8, 10u8]);
    lemma_line_end(h, 3);
    let l = h.take(3);
    lemma_colon_at(l, 3);
    let rest = h.skip(4);
    assert(rest =~= Seq::<u8>::empty());
    lemma_line_end(rest, 0);
    assert forall|k: Seq<u8>| (#[trigger] stat_value(h, k)) is None by {
        assert(rest.take(0) =~= rest);
        assert(stat_value(rest, k) is None);
    }
}

/// A line with a key that a report lacks is added to it.
proof fn lemma_fresh_line(report: Seq<u8>, full: Seq<u8>, key: Seq<u8>, value: Seq<u8>)
    requires
        ended(report),
        plain_key(full, key),
        one_line(value),
        under(report, key) is None,
    ensures
        ended(report + text(full, value)),
        under(report + text(full, value), key) == Some(value),
        forall|k: Seq<u8>|
            #![trigger under(report + text(full, value), k)]
            under(report, k) is Some ==> under(report + text(full, value), k) == under(report, k),
        forall|k: Seq<u8>|
            #![trigger under(report + text(full, value), k)]
            under(report, k) is None && mark(k) != mark(key) ==> under(
                report + text(full, value),
                k,
            ) is None,
{
    reveal(ended);
    reveal(under);
    reveal(text);
    lemma_line_feed();
    let l = text(full, value);
    assert(l =~= full + value + seq![10u8]);
    assert forall|k: Seq<u8>| true implies #[trigger] stat_value(report + l, k) == (
    match stat_value(report, k) {
        Some(v) => Some(v),
        None => if k == key {
            Some(value)
        } else {
            None
        },
    }) by {
        lemma_more_lines(report, l, k);
        lemma_one_line(full, key, value, l, k);
    }
    assert((report + l).last() == l.last());
}

/// 7 lines with keys that a report lacks are added to it.
proof fn lemma_fresh_lines_7(
    report: Seq<u8>,
    f0: Seq<u8>,
    k0: Seq<u8>,
    v0: Seq<u8>,
    f1: Seq<u8>,
    k1: Seq<u8>,
    v1: Seq<u8>,
    f2: Seq<u8>,
    k2: Seq<u8>,
    v2: Seq<u8>,
    f3: Seq<u8>,
    k3: Seq<u8>,
    v3: Seq<u8>,
    f4: Seq<u8>,
    k4: Seq<u8>,
    v4: Seq<u8>,
    f5: Seq<u8>,
    k5: Seq<u8>,
    v5: Seq<u8>,
    f6: Seq<u8>,
    k6: Seq<u8>,
    v6: Seq<u8>,
)
    requires
        ended(report),
        plain_key(f0, k0),
        one_line(v0),
        under(report, k0) is None,
        plain_key(f1, k1),
        one_line(v1),
        under(report, k1) is None,
        mark(k0) != mark(k1),
        plain_key(f2, k2),
        one_line(v2),
        under(report, k2) is None,
        mark(k0) != mark(k2),
        mark(k1) != mark(k2),
        plain_key(f3, k3),
        one_line(v3),
        under(report, k3) is None,
        mark(k0) != mark(k3),
        mark(k1) != mark(k3),
        mark(k2) != mark(k3),
        plain_key(f4, k4),
        one_line(v4),
        under(report, k4) is None,
        mark(k0) != mark(k4),
        mark(k1) != mark(k4),
        mark(k2) != mark(k4),
        mark(k3) != mark(k4),
        plain_key(f5, k5),
        one_line(v5),
        under(report, k5) is None,
        mark(k0) != mark(k5),
        mark(k1) != mark(k5),
        mark(k2) != mark(k5),
        mark(k3) != mark(k5),
        mark(k4) != mark(k5),
        plain_key(f6, k6),
        one_line(v6),
        under(report, k6) is None,
        mark(k0) != mark(k6),
        mark(k1) != mark(k6),
        mark(k2) != mark(k6),
        mark(k3) != mark(k6),
        mark(k4) != mark(k6),
        mark(k5) != mark(k6),
    ensures
        ({
            let r = report + text(f0, v0) + text(f1, v1) + text(f2, v2) + text(f3, v3) + text(f4, v4) + text(f5, v5) + text(f6, v6);
            &&& ended(r)
            &&& under(r, k0) == Some(v0)
            &&& under(r, k1) == Some(v1)
            &&& under(r, k2) == Some(v2)
            &&& under(r, k3) == Some(v3)
            &&& under(r, k4) == Some(v4)
            &&& under(r, k5) == Some(v5)
            &&& under(r, k6) == Some(v6)
            &&& forall|k: Seq<u8>| under(report, k) is Some ==> #[trigger] under(r, k) == under(report, k)
            &&& forall|k: Seq<u8>| under(report, k) is None && mark(k) != mark(k0) && mark(k) != mark(k1) && mark(k) != mark(k2) && mark(k) != mark(k3) && mark(k) != mark(k4) && mark(k) != mark(k5) && mark(k) != mark(k6) ==> (#[trigger] under(r, k)) is None
        }),
{
    let r = report;
    lemma_fresh_line(r, f0, k0, v0);
    let r = r + text(f0, v0);
    lemma_fresh_line(r, f1, k1, v1);
    let r = r + text(f1, v1);
    lemma_fresh_line(r, f2, k2, v2);
    let r = r + text(f2, v2);
    lemma_fresh_line(r, f3, k3, v3);
    let r = r + text(f3, v3);
    lemma_fresh_line(r, f4, k4, v4);
    let r = r + text(f4, v4);
    lemma_fresh_line(r, f5, k5, v5);
    let r = r + text(f5, v5);
    lemma_fresh_line(r, f6, k6, v6);
    let r = r + text(f6, v6);
}

/// 2 lines with keys that a report lacks are added to it.
proof fn lemma_fresh_lines_2(
    report: Seq<u8>,
    f0: Seq<u8>,
    k0: Seq<u8>,
    v0: Seq<u8>,
    f1: Seq<u8>,
    k1: Seq<u8>,
    v1: Seq<u8>,
)
    requires
        ended(report),
        plain_key(f0, k0),
        one_line(v0),
        under(report, k0) is None,
        plain_key(f1, k1),
        one_line(v1),
        under(report, k1) is None,
        mark(k0) != mark(k1),
    ensures
        ({
            let r = report + text(f0, v0) + text(f1, v1);
            &&& ended(r)
            &&& under(r, k0) == Some(v0)
            &&& under(r, k1) == Some(v1)
            &&& forall|k: Seq<u8>| under(report, k) is Some ==> #[trigger] under(r, k) == under(report, k)
            &&& forall|k: Seq<u8>| under(report, k) is None && mark(k) != mark(k0) && mark(k) != mark(k1) ==> (#[trigger] under(r, k)) is None
        }),
{
    let r = report;
    lemma_fresh_line(r, f0, k0, v0);
    let r = r + text(f0, v0);
    lemma_fresh_line(r, f1, k1, v1);
    let r = r + text(f1, v1);
}

/// The keys of a stats-job report.
proof fn lemma_job_keys()
    ensures
        plain_key("id: ".spec_bytes(), "id".spec_bytes()),
        mark("id".spec_bytes()) == 3362,
        plain_key("tube: ".spec_bytes(), "tube".spec_bytes()),
        mark("tube".spec_bytes()) == 405124,
        plain_key("state: ".spec_bytes(), "state".spec_bytes()),
        mark("state".spec_bytes()) == 400997,
        plain_key("pri: ".spec_bytes(), "pri".spec_bytes()),
        mark("pri".spec_bytes()) == 433667,
        plain_key("age: ".spec_bytes(), "age".spec_bytes()),
        mark("age".spec_bytes()) == 416803,
        plain_key("delay: ".spec_bytes(), "delay".spec_bytes()),
        mark("delay".spec_bytes()) == 445573,
        plain_key("ttr: ".spec_bytes(), "ttr".spec_bytes()),
        mark("ttr".spec_bytes()) == 470659,
        plain_key("time-left: ".spec_bytes(), "time-left".spec_bytes()),
        mark("time-left".spec_bytes()) == 6898507401,
        plain_key("file: ".spec_bytes(), "file".spec_bytes()),
        mark("file".spec_bytes()) == 445636,
        plain_key("reserves: ".spec_bytes(), "reserves".spec_bytes()),
        mark("reserves".spec_bytes()) == 7770947144,
        plain_key("timeouts: ".spec_bytes(), "timeouts".spec_bytes()),
        mark("timeouts".spec_bytes()) == 7778786952,
        plain_key("releases: ".spec_bytes(), "releases".spec_bytes()),
        mark("releases".spec_bytes()) == 7770918472,
        plain_key("buries: ".spec_bytes(), "buries".spec_bytes()),
        mark("buries".spec_bytes()) == 470086,
        plain_key("kicks: ".spec_bytes(), "kicks".spec_bytes()),
        mark("kicks".spec_bytes()) == 408933,
{
    reveal(plain_key);
    reveal(mark);
    reveal_strlit("id");
    reveal_strlit("id: ");
    is_ascii_chars_encode_utf8("id"@);
    is_ascii_chars_encode_utf8("id: "@);
    assert("id: ".spec_bytes() =~= "id".spec_bytes() + seq![58u8, 32u8]);
    reveal_strlit("tube");
    reveal_strlit("tube: ");
    is_ascii_chars_encode_utf8("tube"@);
    is_ascii_chars_encode_utf8("tube: "@);
    assert("tube: ".spec_bytes() =~= "tube".spec_bytes() + seq![58u8, 32u8]);
    reveal_strlit("state");
    reveal_strlit("state: ");
    is_ascii_chars_encode_utf8("state"@);
    is_ascii_chars_encode_utf8("state: "@);
    assert("state: ".spec_bytes() =~= "state".spec_bytes() + seq![58u8, 32u8]);
    reveal_strlit("pri");
    reveal_strlit("pri: ");
    is_ascii_chars_encode_utf8("pri"@);
    is_ascii_chars_encode_utf8("pri: "@);
    assert("pri: ".spec_bytes() =~= "pri".spec_bytes() + seq![58u8, 32u8]);
    reveal_strlit("age");
    reveal_strlit("age: ");
    is_ascii_chars_encode_utf8("age"@);
    is_ascii_chars_encode_utf8("age: "@);
    assert("age: ".spec_bytes() =~= "age".spec_bytes() + seq![58u8, 32u8]);
    reveal_strlit("delay");
    reveal_strlit("delay: ");
    is_ascii_chars_encode_utf8("delay"@);
    is_ascii_chars_encode_utf8("delay: "@);
    assert("delay: ".spec_bytes() =~= "delay".spec_bytes() + seq![58u8, 32u8]);
    reveal_strlit("ttr");
    reveal_strlit("ttr: ");
    is_ascii_chars_encode_utf8("ttr"@);
    is_ascii_chars_encode_utf8("ttr: "@);
    assert("ttr: ".spec_bytes() =~= "ttr".spec_bytes() + seq![58u8, 32u8]);
    reveal_strlit("time-left");
    reveal_strlit("time-left: ");
    is_ascii_chars_encode_utf8("time-left"@);
    is_ascii_chars_encode_utf8("time-left: "@);
    assert("time-left: ".spec_bytes() =~= "time-left".spec_bytes() + seq![58u8, 32u8]);
    reveal_strlit("file");
    reveal_strlit("file: ");
    is_ascii_chars_encode_utf8("file"@);
    is_ascii_chars_encode_utf8("file: "@);
    assert("file: ".spec_bytes() =~= "file".spec_bytes() + seq![58u8, 32u8]);
    reveal_strlit("reserves");
    reveal_strlit("reserves: ");
    is_ascii_chars_encode_utf8("reserves"@);
    is_ascii_chars_encode_utf8("reserves: "@);
    assert("reserves: ".spec_bytes() =~= "reserves".spec_bytes() + seq![58u8, 32u8]);
    reveal_strlit("timeouts");
    reveal_strlit("timeouts: ");
    is_ascii_chars_encode_utf8("timeouts"@);
    is_ascii_chars_encode_utf8("timeouts: "@);
    assert("timeouts: ".spec_bytes() =~= "timeouts".spec_bytes() + seq![58u8, 32u8]);
    reveal_strlit("releases");
    reveal_strlit("releases: ");
    is_ascii_chars_encode_utf8("releases"@);
    is_ascii_chars_encode_utf8("releases: "@);
    assert("releases: ".spec_bytes() =~= "releases".spec_bytes() + seq![58u8, 32u8]);
    reveal_strlit("buries");
    reveal_strlit("buries: ");
    is_ascii_chars_encode_utf8("buries"@);
    is_ascii_chars_encode_utf8("buries: "@);
    assert("buries: ".spec_bytes() =~= "buries".spec_bytes() + seq![58u8, 32u8]);
    reveal_strlit("kicks");
    reveal_strlit("kicks: ");
    is_ascii_chars_encode_utf8("kicks"@);
    is_ascii_chars_encode_utf8("kicks: "@);
    assert("kicks: ".spec_bytes() =~= "kicks".spec_bytes() + seq![58u8, 32u8]);
}

/// As `job_report_reads_back`.
proof fn lemma_job_report(s: StatsJobView)
    requires
        one_line(s.tube),
        one_line(s.state),
    ensures
        ({
            let r = job_yaml(s);
            &&& under(r, "id".spec_bytes()) == Some(decimal(s.id as nat))
            &&& under(r, "tube".spec_bytes()) == Some(quoted(s.tube))
            &&& under(r, "state".spec_bytes()) == Some(s.state)
            &&& under(r, "pri".spec_bytes()) == Some(decimal(s.pri as nat))
            &&& under(r, "age".spec_bytes()) == Some(decimal(s.age as nat))
            &&& under(r, "delay".spec_bytes()) == Some(decimal(s.delay as nat))
            &&& under(r, "ttr".spec_bytes()) == Some(decimal(s.ttr as nat))
            &&& under(r, "time-left".spec_bytes()) == Some(decimal(s.time_left as nat))
            &&& under(r, "file".spec_bytes()) == Some(decimal(s.file as nat))
            &&& under(r, "reserves".spec_bytes()) == Some(decimal(s.reserves as nat))
            &&& under(r, "timeouts".spec_bytes()) == Some(decimal(s.timeouts as nat))
            &&& under(r, "releases".spec_bytes()) == Some(decimal(s.releases as nat))
            &&& under(r, "buries".spec_bytes()) == Some(decimal(s.buries as nat))
            &&& under(r, "kicks".spec_bytes()) == Some(decimal(s.kicks as nat))
        }),
{
    reveal(job_yaml);
    lemma_job_keys();
    lemma_nothing_yet();
    let r = "---\n".spec_bytes();
    lemma_digits_line(s.id as nat);
    lemma_quoted_line(s.tube);
    lemma_digits_line(s.pri as nat);
    lemma_digits_line(s.age as nat);
    lemma_digits_line(s.delay as nat);
    lemma_digits_line(s.ttr as nat);
    lemma_digits_line(s.time_left as nat);
    lemma_digits_line(s.file as nat);
    lemma_digits_line(s.reserves as nat);
    lemma_digits_line(s.timeouts as nat);
    lemma_digits_line(s.releases as nat);
    lemma_digits_line(s.buries as nat);
    lemma_digits_line(s.kicks as nat);
    lemma_fresh_lines_7(
        r,
        "id: ".spec_bytes(),
        "id".spec_bytes(),
        decimal(s.id as nat),
        "tube: ".spec_bytes(),
        "tube".spec_bytes(),
        quoted(s.tube),
        "state: ".spec_bytes(),
        "state".spec_bytes(),
        s.state,
        "pri: ".spec_bytes(),
        "pri".spec_bytes(),
        decimal(s.pri as nat),
        "age: ".spec_bytes(),
        "age".spec_bytes(),
        decimal(s.age as nat),
        "delay: ".spec_bytes(),
        "delay".spec_bytes(),
        decimal(s.delay as nat),
        "ttr: ".spec_bytes(),
        "ttr".spec_bytes(),
        decimal(s.ttr as nat),
    );
    let r = r + text("id: ".spec_bytes(), decimal(s.id as nat));
    let r = r + text("tube: ".spec_bytes(), quoted(s.tube));
    let r = r + text("state: ".spec_bytes(), s.state);
    let r = r + text("pri: ".spec_bytes(), decimal(s.pri as nat));
    let r = r + text("age: ".spec_bytes(), decimal(s.age as nat));
    let r = r + text("delay: ".spec_bytes(), decimal(s.delay as nat));
    let r = r + text("ttr: ".spec_bytes(), decimal(s.ttr as nat));
    lemma_fresh_lines_7(
        r,
        "time-left: ".spec_bytes(),
        "time-left".spec_bytes(),
        decimal(s.time_left as nat),
        "file: ".spec_bytes(),
        "file".spec_bytes(),
        decimal(s.file as nat),
        "reserves: ".spec_bytes(),
        "reserves".spec_bytes(),
        decimal(s.reserves as nat),
        "timeouts: ".spec_bytes(),
        "timeouts".spec_bytes(),
        decimal(s.timeouts as nat),
        "releases: ".spec_bytes(),
        "releases".spec_bytes(),
        decimal(s.releases as nat),
        "buries: ".spec_bytes(),
        "buries".spec_bytes(),
        decimal(s.buries as nat),
        "kicks: ".spec_bytes(),
        "kicks".spec_bytes(),
        decimal(s.kicks as nat),
    );
    let r = r + text("time-left: ".spec_bytes(), decimal(s.time_left as nat));
    let r = r + text("file: ".spec_bytes(), decimal(s.file as nat));
    let r = r + text("reserves: ".spec_bytes(), decimal(s.reserves as nat));
    let r = r + text("timeouts: ".spec_bytes(), decimal(s.timeouts as nat));
    let r = r + text("releases: ".spec_bytes(), decimal(s.releases as nat));
    let r = r + text("buries: ".spec_bytes(), decimal(s.buries as nat));
    let r = r + text("kicks: ".spec_bytes(), decimal(s.kicks as nat));
    reveal(text);
}

/// Read key by key, the payload of stats-job says under each key what the key is for.
pub proof fn job_report_reads_back(s: StatsJobView)
    requires
        one_line(s.tube),
        one_line(s.state),
    ensures
        ({
            let r = job_yaml(s);
            &&& stat_value(r, "id".spec_bytes()) == Some(decimal(s.id as nat))
            &&& stat_value(r, "tube".spec_bytes()) == Some(quoted(s.tube))
            &&& stat_value(r, "state".spec_bytes()) == Some(s.state)
            &&& stat_value(r, "pri".spec_bytes()) == Some(decimal(s.pri as nat))
            &&& stat_value(r, "age".spec_bytes()) == Some(decimal(s.age as nat))
            &&& stat_value(r, "delay".spec_bytes()) == Some(decimal(s.delay as nat))
            &&& stat_value(r, "ttr".spec_bytes()) == Some(decimal(s.ttr as nat))
            &&& stat_value(r, "time-left".spec_bytes()) == Some(decimal(s.time_left as nat))
            &&& stat_value(r, "file".spec_bytes()) == Some(decimal(s.file as nat))
            &&& stat_value(r, "reserves".spec_bytes()) == Some(decimal(s.reserves as nat))
            &&& stat_value(r, "timeouts".spec_bytes()) == Some(decimal(s.timeouts as nat))
            &&& stat_value(r, "releases".spec_bytes()) == Some(decimal(s.releases as nat))
            &&& stat_value(r, "buries".spec_bytes()) == Some(decimal(s.buries as nat))
            &&& stat_value(r, "kicks".spec_bytes()) == Some(decimal(s.kicks as nat))
        }),
{
    lemma_job_report(s);
    reveal(under);
}

/// The keys of a stats-tube report.
proof fn lemma_tube_keys()
    ensures
        plain_key("name: ".spec_bytes(), "name".spec_bytes()),
        mark("name".spec_bytes()) == 449988,
        plain_key("current-jobs-urgent: ".spec_bytes(), "current-jobs-urgent".spec_bytes()),
        mark("current-jobs-urgent".spec_bytes()) == 1008103533683,
        plain_key("current-jobs-ready: ".spec_bytes(), "current-jobs-ready".spec_bytes()),
        mark("current-jobs-ready".spec_bytes()) == 982333729906,
        plain_key("current-jobs-reserved: ".spec_bytes(), "current-jobs-reserved".spec_bytes()),
        mark("current-jobs-reserved".spec_bytes()) == 982333729909,
        plain_key("current-jobs-delayed: ".spec_bytes(), "current-jobs-delayed".spec_bytes()),
        mark("current-jobs-delayed".spec_bytes()) == 862074645620,
        plain_key("current-jobs-buried: ".spec_bytes(), "current-jobs-buried".spec_bytes()),
        mark("current-jobs-buried".spec_bytes()) == 844894776435,
        plain_key("total-jobs: ".spec_bytes(), "total-jobs".spec_bytes()),
        mark("total-jobs".spec_bytes()) == 7505137290,
        plain_key("current-using: ".spec_bytes(), "current-using".spec_bytes()),
        mark("current-using".spec_bytes()) == 3081186413,
        plain_key("current-watching: ".spec_bytes(), "current-watching".spec_bytes()),
        mark("current-watching".spec_bytes()) == 905024318576,
        plain_key("current-waiting: ".spec_bytes(), "current-waiting".spec_bytes()),
        mark("current-waiting".spec_bytes()) == 947973991535,
        plain_key("cmd-delete: ".spec_bytes(), "cmd-delete".spec_bytes()),
        mark("cmd-delete".spec_bytes()) == 6835031146,
        plain_key("cmd-pause-tube: ".spec_bytes(), "cmd-pause-tube".spec_bytes()),
        mark("cmd-pause-tube".spec_bytes()) == 875362667630,
        plain_key("pause: ".spec_bytes(), "pause".spec_bytes()),
        mark("pause".spec_bytes()) == 482821,
        plain_key("pause-time-left: ".spec_bytes(), "pause-time-left".spec_bytes()),
        mark("pause-time-left".spec_bytes()) == 883281059343,
{
    reveal(plain_key);
    reveal(mark);
    reveal_strlit("name");
    reveal_strlit("name: ");
    is_ascii_chars_encode_utf8("name"@);
    is_ascii_chars_encode_utf8("name: "@);
    assert("name: ".spec_bytes() =~= "name".spec_bytes() + seq![58u8, 32u8]);
    reveal_strlit("current-jobs-urgent");
    reveal_strlit("current-jobs-urgent: ");
    is_ascii_chars_encode_utf8("current-jobs-urgent"@);
    is_ascii_chars_encode_utf8("current-jobs-urgent: "@);
    assert("current-jobs-urgent: ".spec_bytes() =~= "current-jobs-urgent".spec_bytes() + seq![58u8, 32u8]);
    reveal_strlit("current-jobs-ready");
    reveal_strlit("current-jobs-ready: ");
    is_ascii_chars_encode_utf8("current-jobs-ready"@);
    is_ascii_chars_encode_utf8("current-jobs-ready: "@);
    assert("current-jobs-ready: ".spec_bytes() =~= "current-jobs-ready".spec_bytes() + seq![58u8, 32u8]);
    reveal_strlit("current-jobs-reserved");
    reveal_strlit("current-jobs-reserved: ");
    is_ascii_chars_encode_utf8("current-jobs-reserved"@);
    is_ascii_chars_encode_utf8("current-jobs-reserved: "@);
    assert("current-jobs-reserved: ".spec_bytes() =~= "current-jobs-reserved".spec_bytes() + seq![58u8, 32u8]);
    reveal_strlit("current-jobs-delayed");
    reveal_strlit("current-jobs-delayed: ");
    is_ascii_chars_encode_utf8("current-jobs-delayed"@);
    is_ascii_chars_encode_utf8("current-jobs-delayed: "@);
    assert("current-jobs-delayed: ".spec_bytes() =~= "current-jobs-delayed".spec_bytes() + seq![58u8, 32u8]);
    reveal_strlit("current-jobs-buried");
    reveal_strlit("current-jobs-buried: ");
    is_ascii_chars_encode_utf8("current-jobs-buried"@);
    is_ascii_chars_encode_utf8("current-jobs-buried: "@);
    assert("current-jobs-buried: ".spec_bytes() =~= "current-jobs-buried".spec_bytes() + seq![58u8, 32u8]);
    reveal_strlit("total-jobs");
    reveal_strlit("total-jobs: ");
    is_ascii_chars_encode_utf8("total-jobs"@);
    is_ascii_chars_encode_utf8("total-jobs: "@);
    assert("total-jobs: ".spec_bytes() =~= "total-jobs".spec_bytes() + seq![58u8, 32u8]);
    reveal_strlit("current-using");
    reveal_strlit("current-using: ");
    is_ascii_chars_encode_utf8("current-using"@);
    is_ascii_chars_encode_utf8("current-using: "@);
    assert("current-using: ".spec_bytes() =~= "current-using".spec_bytes() + seq![58u8, 32u8]);
    reveal_strlit("current-watching");
    reveal_strlit("current-watching: ");
    is_ascii_chars_encode_utf8("current-watching"@);
    is_ascii_chars_encode_utf8("current-watching: "@);
    assert("current-watching: ".spec_bytes() =~= "current-watching".spec_bytes() + seq![58u8, 32u8]);
    reveal_strlit("current-waiting");
    reveal_strlit("current-waiting: ");
    is_ascii_chars_encode_utf8("current-waiting"@);
    is_ascii_chars_encode_utf8("current-waiting: "@);
    assert("current-waiting: ".spec_bytes() =~= "current-waiting".spec_bytes() + seq![58u8, 32u8]);
    reveal_strlit("cmd-delete");
    reveal_strlit("cmd-delete: ");
    is_ascii_chars_encode_utf8("cmd-delete"@);
    is_ascii_chars_encode_utf8("cmd-delete: "@);
    assert("cmd-delete: ".spec_bytes() =~= "cmd-delete".spec_bytes() + seq![58u8, 32u8]);
    reveal_strlit("cmd-pause-tube");
    reveal_strlit("cmd-pause-tube: ");
    is_ascii_chars_encode_utf8("cmd-pause-tube"@);
    is_ascii_chars_encode_utf8("cmd-pause-tube: "@);
    assert("cmd-pause-tube: ".spec_bytes() =~= "cmd-pause-tube".spec_bytes() + seq![58u8, 32u8]);
    reveal_strlit("pause");
    reveal_strlit("pause: ");
    is_ascii_chars_encode_utf8("pause"@);
    is_ascii_chars_encode_utf8("pause: "@);
    assert("pause: ".spec_bytes() =~= "pause".spec_bytes() + seq![58u8, 32u8]);
    reveal_strlit("pause-time-left");
    reveal_strlit("pause-time-left: ");
    is_ascii_chars_encode_utf8("pause-time-left"@);
    is_ascii_chars_encode_utf8("pause-time-left: "@);
    assert("pause-time-left: ".spec_bytes() =~= "pause-time-left".spec_bytes() + seq![58u8, 32u8]);
}

/// As `tube_report_reads_back`.
proof fn lemma_tube_report(s: StatsTubeView)
    requires
        one_line(s.name),
    ensures
        ({
            let r = tube_yaml(s);
            &&& under(r, "name".spec_bytes()) == Some(quoted(s.name))
            &&& under(r, "current-jobs-urgent".spec_bytes()) == Some(decimal(s.current_jobs_urgent as nat))
            &&& under(r, "current-jobs-ready".spec_bytes()) == Some(decimal(s.current_jobs_ready as nat))
            &&& under(r, "current-jobs-reserved".spec_bytes()) == Some(decimal(s.current_jobs_reserved as nat))
            &&& under(r, "current-jobs-delayed".spec_bytes()) == Some(decimal(s.current_jobs_delayed as nat))
            &&& under(r, "current-jobs-buried".spec_bytes()) == Some(decimal(s.current_jobs_buried as nat))
            &&& under(r, "total-jobs".spec_bytes()) == Some(decimal(s.total_jobs as nat))
            &&& under(r, "current-using".spec_bytes()) == Some(decimal(s.current_using as nat))
            &&& under(r, "current-watching".spec_bytes()) == Some(decimal(s.current_watching as nat))
            &&& under(r, "current-waiting".spec_bytes()) == Some(decimal(s.current_waiting as nat))
            &&& under(r, "cmd-delete".spec_bytes()) == Some(decimal(s.cmd_delete as nat))
            &&& under(r, "cmd-pause-tube".spec_bytes()) == Some(decimal(s.cmd_pause_tube as nat))
            &&& under(r, "pause".spec_bytes()) == Some(decimal(s.pause as nat))
            &&& under(r, "pause-time-left".spec_bytes()) == Some(decimal(s.pause_time_left as nat))
        }),
{
    reveal(tube_yaml);
    lemma_tube_keys();
    lemma_nothing_yet();
    let r = "---\n".spec_bytes();
    lemma_quoted_line(s.name);
    lemma_digits_line(s.current_jobs_urgent as nat);
    lemma_digits_line(s.current_jobs_ready as nat);
    lemma_digits_line(s.current_jobs_reserved as nat);
    lemma_digits_line(s.current_jobs_delayed as nat);
    lemma_digits_line(s.current_jobs_buried as nat);
    lemma_digits_line(s.total_jobs as nat);
    lemma_digits_line(s.current_using as nat);
    lemma_digits_line(s.current_watching as nat);
    lemma_digits_line(s.current_waiting as nat);
    lemma_digits_line(s.cmd_delete as nat);
    lemma_digits_line(s.cmd_pause_tube as nat);
    lemma_digits_line(s.pause as nat);
    lemma_digits_line(s.pause_time_left as nat);
    lemma_fresh_lines_7(
        r,
        "name: ".spec_bytes(),
        "name".spec_bytes(),
        quoted(s.name),
        "current-jobs-urgent: ".spec_bytes(),
        "current-jobs-urgent".spec_bytes(),
        decimal(s.current_jobs_urgent as nat),
        "current-jobs-ready: ".spec_bytes(),
        "current-jobs-ready".spec_bytes(),
        decimal(s.current_jobs_ready as nat),
        "current-jobs-reserved: ".spec_bytes(),
        "current-jobs-reserved".spec_bytes(),
        decimal(s.current_jobs_reserved as nat),
        "current-jobs-delayed: ".spec_bytes(),
        "current-jobs-delayed".spec_bytes(),
        decimal(s.current_jobs_delayed as nat),
        "current-jobs-buried: ".spec_bytes(),
        "current-jobs-buried".spec_bytes(),
        decimal(s.current_jobs_buried as nat),
        "total-jobs: ".spec_bytes(),
        "total-jobs".spec_bytes(),
        decimal(s.total_jobs as nat),
    );
    let r = r + text("name: ".spec_bytes(), quoted(s.name));
    let r = r + text("current-jobs-urgent: ".spec_bytes(), decimal(s.current_jobs_urgent as nat));
    let r = r + text("current-jobs-ready: ".spec_bytes(), decimal(s.current_jobs_ready as nat));
    let r = r + text("current-jobs-reserved: ".spec_bytes(), decimal(s.current_jobs_reserved as nat));
    let r = r + text("current-jobs-delayed: ".spec_bytes(), decimal(s.current_jobs_delayed as nat));
    let r = r + text("current-jobs-buried: ".spec_bytes(), decimal(s.current_jobs_buried as nat));
    let r = r + text("total-jobs: ".spec_bytes(), decimal(s.total_jobs as nat));
    lemma_fresh_lines_7(
        r,
        "current-using: ".spec_bytes(),
        "current-using".spec_bytes(),
        decimal(s.current_using as nat),
        "current-watching: ".spec_bytes(),
        "current-watching".spec_bytes(),
        decimal(s.current_watching as nat),
        "current-waiting: ".spec_bytes(),
        "current-waiting".spec_bytes(),
        decimal(s.current_waiting as nat),
        "cmd-delete: ".spec_bytes(),
        "cmd-delete".spec_bytes(),
        decimal(s.cmd_delete as nat),
        "cmd-pause-tube: ".spec_bytes(),
        "cmd-pause-tube".spec_bytes(),
        decimal(s.cmd_pause_tube as nat),
        "pause: ".spec_bytes(),
        "pause".spec_bytes(),
        decimal(s.pause as nat),
        "pause-time-left: ".spec_bytes(),
        "pause-time-left".spec_bytes(),
        decimal(s.pause_time_left as nat),
    );
    let r = r + text("current-using: ".spec_bytes(), decimal(s.current_using as nat));
    let r = r + text("current-watching: ".spec_bytes(), decimal(s.current_watching as nat));
    let r = r + text("current-waiting: ".spec_bytes(), decimal(s.current_waiting as nat));
    let r = r + text("cmd-delete: ".spec_bytes(), decimal(s.cmd_delete as nat));
    let r = r + text("cmd-pause-tube: ".spec_bytes(), decimal(s.cmd_pause_tube as nat));
    let r = r + text("pause: ".spec_bytes(), decimal(s.pause as nat));
    let r = r + text("pause-time-left: ".spec_bytes(), decimal(s.pause_time_left as nat));
    reveal(text);
}

/// Read key by key, the payload of stats-tube says under each key what the key is for.
pub proof fn tube_report_reads_back(s: StatsTubeView)
    requires
        one_line(s.name),
    ensures
        ({
            let r = tube_yaml(s);
            &&& stat_value(r, "name".spec_bytes()) == Some(quoted(s.name))
            &&& stat_value(r, "current-jobs-urgent".spec_bytes()) == Some(decimal(s.current_jobs_urgent as nat))
            &&& stat_value(r, "current-jobs-ready".spec_bytes()) == Some(decimal(s.current_jobs_ready as nat))
            &&& stat_value(r, "current-jobs-reserved".spec_bytes()) == Some(decimal(s.current_jobs_reserved as nat))
            &&& stat_value(r, "current-jobs-delayed".spec_bytes()) == Some(decimal(s.current_jobs_delayed as nat))
            &&& stat_value(r, "current-jobs-buried".spec_bytes()) == Some(decimal(s.current_jobs_buried as nat))
            &&& stat_value(r, "total-jobs".spec_bytes()) == Some(decimal(s.total_jobs as nat))
            &&& stat_value(r, "current-using".spec_bytes()) == Some(decimal(s.current_using as nat))
            &&& stat_value(r, "current-watching".spec_bytes()) == Some(decimal(s.current_watching as nat))
            &&& stat_value(r, "current-waiting".spec_bytes()) == Some(decimal(s.current_waiting as nat))
            &&& stat_value(r, "cmd-delete".spec_bytes()) == Some(decimal(s.cmd_delete as nat))
            &&& stat_value(r, "cmd-pause-tube".spec_bytes()) == Some(decimal(s.cmd_pause_tube as nat))
            &&& stat_value(r, "pause".spec_bytes()) == Some(decimal(s.pause as nat))
            &&& stat_value(r, "pause-time-left".spec_bytes()) == Some(decimal(s.pause_time_left as nat))
        }),
{
    lemma_tube_report(s);
    reveal(under);
}

/// Seconds and microseconds fit on one line.
proof fn lemma_seconds_line(t: (u64, u64))
    ensures
        one_line(seconds(t)),
{
    reveal(one_line);
    reveal_strlit(".");
    is_ascii_chars_encode_utf8("."@);
    assert(".".spec_bytes() =~= seq![46u8]);
    lemma_digits_line(t.0 as nat);
    lemma_digits_line(t.1 as nat);
    let p = crate::text::padded(t.1 as nat, 6);
    assert(one_line(p)) by {
        let d = decimal(t.1 as nat);
        if d.len() < 6 {
            let z = crate::text::zeros((6 - d.len()) as nat);
            assert(p == z + d);
        }
    }
    assert(seconds(t) =~= decimal(t.0 as nat) + seq![46u8] + p);
}

/// `true` and `false` fit on one line.
proof fn lemma_truth_line(b: bool)
    ensures
        one_line(truth(b)),
{
    reveal(one_line);
    reveal_strlit("true");
    reveal_strlit("false");
    is_ascii_chars_encode_utf8("true"@);
    is_ascii_chars_encode_utf8("false"@);
}

/// The keys of a stats report, some of them.
proof fn lemma_server_keys_a()
    ensures
        plain_key("current-jobs-urgent: ".spec_bytes(), "current-jobs-urgent".spec_bytes()),
        mark("current-jobs-urgent".spec_bytes()) == 1008103533683,
        plain_key("current-jobs-ready: ".spec_bytes(), "current-jobs-ready".spec_bytes()),
        mark("current-jobs-ready".spec_bytes()) == 982333729906,
        plain_key("current-jobs-reserved: ".spec_bytes(), "current-jobs-reserved".spec_bytes()),
        mark("current-jobs-reserved".spec_bytes()) == 982333729909,
        plain_key("current-jobs-delayed: ".spec_bytes(), "current-jobs-delayed".spec_bytes()),
        mark("current-jobs-delayed".spec_bytes()) == 862074645620,
        plain_key("current-jobs-buried: ".spec_bytes(), "current-jobs-buried".spec_bytes()),
        mark("current-jobs-buried".spec_bytes()) == 844894776435,
        plain_key("cmd-put: ".spec_bytes(), "cmd-put".spec_bytes()),
        mark("cmd-put".spec_bytes()) == 61230183,
        plain_key("cmd-peek: ".spec_bytes(), "cmd-peek".spec_bytes()),
        mark("cmd-peek".spec_bytes()) == 7234014312,
        plain_key("cmd-peek-ready: ".spec_bytes(), "cmd-peek-ready".spec_bytes()),
        mark("cmd-peek-ready".spec_bytes()) == 1046616099950,
        plain_key("cmd-peek-delayed: ".spec_bytes(), "cmd-peek-delayed".spec_bytes()),
        mark("cmd-peek-delayed".spec_bytes()) == 1046616099952,
        plain_key("cmd-peek-buried: ".spec_bytes(), "cmd-peek-buried".spec_bytes()),
        mark("cmd-peek-buried".spec_bytes()) == 874817408111,
        plain_key("cmd-reserve: ".spec_bytes(), "cmd-reserve".spec_bytes()),
        mark("cmd-reserve".spec_bytes()) == 6838701163,
        plain_key("cmd-reserve-with-timeout: ".spec_bytes(), "cmd-reserve-with-timeout".spec_bytes()),
        mark("cmd-reserve-with-timeout".spec_bytes()) == 908781833336,
        plain_key("cmd-delete: ".spec_bytes(), "cmd-delete".spec_bytes()),
        mark("cmd-delete".spec_bytes()) == 6835031146,
        plain_key("cmd-release: ".spec_bytes(), "cmd-release".spec_bytes()),
        mark("cmd-release".spec_bytes()) == 6835031147,
{
    reveal(plain_key);
    reveal(mark);
    reveal_strlit("current-jobs-urgent");
    reveal_strlit("current-jobs-urgent: ");
    is_ascii_chars_encode_utf8("current-jobs-urgent"@);
    is_ascii_chars_encode_utf8("current-jobs-urgent: "@);
    assert("current-jobs-urgent: ".spec_bytes() =~= "current-jobs-urgent".spec_bytes() + seq![58u8, 32u8]);
    reveal_strlit("current-jobs-ready");
    reveal_strlit("current-jobs-ready: ");
    is_ascii_chars_encode_utf8("current-jobs-ready"@);
    is_ascii_chars_encode_utf8("current-jobs-ready: "@);
    assert("current-jobs-ready: ".spec_bytes() =~= "current-jobs-ready".spec_bytes() + seq![58u8, 32u8]);
    reveal_strlit("current-jobs-reserved");
    reveal_strlit("current-jobs-reserved: ");
    is_ascii_chars_encode_utf8("current-jobs-reserved"@);
    is_ascii_chars_encode_utf8("current-jobs-reserved: "@);
    assert("current-jobs-reserved: ".spec_bytes() =~= "current-jobs-reserved".spec_bytes() + seq![58u8, 32u8]);
    reveal_strlit("current-jobs-delayed");
    reveal_strlit("current-jobs-delayed: ");
    is_ascii_chars_encode_utf8("current-jobs-delayed"@);
    is_ascii_chars_encode_utf8("current-jobs-delayed: "@);
    assert("current-jobs-delayed: ".spec_bytes() =~= "current-jobs-delayed".spec_bytes() + seq![58u8, 32u8]);
    reveal_strlit("current-jobs-buried");
    reveal_strlit("current-jobs-buried: ");
    is_ascii_chars_encode_utf8("current-jobs-buried"@);
    is_ascii_chars_encode_utf8("current-jobs-buried: "@);
    assert("current-jobs-buried: ".spec_bytes() =~= "current-jobs-buried".spec_bytes() + seq![58u8, 32u8]);
    reveal_strlit("cmd-put");
    reveal_strlit("cmd-put: ");
    is_ascii_chars_encode_utf8("cmd-put"@);
    is_ascii_chars_encode_utf8("cmd-put: "@);
    assert("cmd-put: ".spec_bytes() =~= "cmd-put".spec_bytes() + seq![58u8, 32u8]);
    reveal_strlit("cmd-peek");
    reveal_strlit("cmd-peek: ");
    is_ascii_chars_encode_utf8("cmd-peek"@);
    is_ascii_chars_encode_utf8("cmd-peek: "@);
    assert("cmd-peek: ".spec_bytes() =~= "cmd-peek".spec_bytes() + seq![58u8, 32u8]);
    reveal_strlit("cmd-peek-ready");
    reveal_strlit("cmd-peek-ready: ");
    is_ascii_chars_encode_utf8("cmd-peek-ready"@);
    is_ascii_chars_encode_utf8("cmd-peek-ready: "@);
    assert("cmd-peek-ready: ".spec_bytes() =~= "cmd-peek-ready".spec_bytes() + seq![58u8, 32u8]);
    reveal_strlit("cmd-peek-delayed");
    reveal_strlit("cmd-peek-delayed: ");
    is_ascii_chars_encode_utf8("cmd-peek-delayed"@);
    is_ascii_chars_encode_utf8("cmd-peek-delayed: "@);
    assert("cmd-peek-delayed: ".spec_bytes() =~= "cmd-peek-delayed".spec_bytes() + seq![58u8, 32u8]);
    reveal_strlit("cmd-peek-buried");
    reveal_strlit("cmd-peek-buried: ");
    is_ascii_chars_encode_utf8("cmd-peek-buried"@);
    is_ascii_chars_encode_utf8("cmd-peek-buried: "@);
    assert("cmd-peek-buried: ".spec_bytes() =~= "cmd-peek-buried".spec_bytes() + seq![58u8, 32u8]);
    reveal_strlit("cmd-reserve");
    reveal_strlit("cmd-reserve: ");
    is_ascii_chars_encode_utf8("cmd-reserve"@);
    is_ascii_chars_encode_utf8("cmd-reserve: "@);
    assert("cmd-reserve: ".spec_bytes() =~= "cmd-reserve".spec_bytes() + seq![58u8, 32u8]);
    reveal_strlit("cmd-reserve-with-timeout");
    reveal_strlit("cmd-reserve-with-timeout: ");
    is_ascii_chars_encode_utf8("cmd-reserve-with-timeout"@);
    is_ascii_chars_encode_utf8("cmd-reserve-with-timeout: "@);
    assert("cmd-reserve-with-timeout: ".spec_bytes() =~= "cmd-reserve-with-timeout".spec_bytes() + seq![58u8, 32u8]);
    reveal_strlit("cmd-delete");
    reveal_strlit("cmd-delete: ");
    is_ascii_chars_encode_utf8("cmd-delete"@);
    is_ascii_chars_encode_utf8("cmd-delete: "@);
    assert("cmd-delete: ".spec_bytes() =~= "cmd-delete".spec_bytes() + seq![58u8, 32u8]);
    reveal_strlit("cmd-release");
    reveal_strlit("cmd-release: ");
    is_ascii_chars_encode_utf8("cmd-release"@);
    is_ascii_chars_encode_utf8("cmd-release: "@);
    assert("cmd-release: ".spec_bytes() =~= "cmd-release".spec_bytes() + seq![58u8, 32u8]);
}

/// The keys of a stats report, some of them.
proof fn lemma_server_keys_b()
    ensures
        plain_key("cmd-use: ".spec_bytes(), "cmd-use".spec_bytes()),
        mark("cmd-use".spec_bytes()) == 53365863,
        plain_key("cmd-watch: ".spec_bytes(), "cmd-watch".spec_bytes()),
        mark("cmd-watch".spec_bytes()) == 6705007721,
        plain_key("cmd-ignore: ".spec_bytes(), "cmd-ignore".spec_bytes()),
        mark("cmd-ignore".spec_bytes()) == 7507168362,
        plain_key("cmd-bury: ".spec_bytes(), "cmd-bury".spec_bytes()),
        mark("cmd-bury".spec_bytes()) == 8180354152,
        plain_key("cmd-kick: ".spec_bytes(), "cmd-kick".spec_bytes()),
        mark("cmd-kick".spec_bytes()) == 7232965736,
        plain_key("cmd-touch: ".spec_bytes(), "cmd-touch".spec_bytes()),
        mark("cmd-touch".spec_bytes()) == 6705532009,
        plain_key("cmd-stats: ".spec_bytes(), "cmd-stats".spec_bytes()),
        mark("cmd-stats".spec_bytes()) == 7835896937,
        plain_key("cmd-stats-job: ".spec_bytes(), "cmd-stats-job".spec_bytes()),
        mark("cmd-stats-job".spec_bytes()) == 7835896941,
        plain_key("cmd-stats-tube: ".spec_bytes(), "cmd-stats-tube".spec_bytes()),
        mark("cmd-stats-tube".spec_bytes()) == 875419290734,
        plain_key("cmd-list-tubes: ".spec_bytes(), "cmd-list-tubes".spec_bytes()),
        mark("cmd-list-tubes".spec_bytes()) == 995687812206,
        plain_key("cmd-list-tube-used: ".spec_bytes(), "cmd-list-tube-used".spec_bytes()),
        mark("cmd-list-tube-used".spec_bytes()) == 394392390770,
        plain_key("cmd-list-tubes-watched: ".spec_bytes(), "cmd-list-tubes-watched".spec_bytes()),
        mark("cmd-list-tubes-watched".spec_bytes()) == 995687812214,
        plain_key("cmd-pause-tube: ".spec_bytes(), "cmd-pause-tube".spec_bytes()),
        mark("cmd-pause-tube".spec_bytes()) == 875362667630,
        plain_key("job-timeouts: ".spec_bytes(), "job-timeouts".spec_bytes()),
        mark("job-timeouts".spec_bytes()) == 6835547468,
{
    reveal(plain_key);
    reveal(mark);
    reveal_strlit("cmd-use");
    reveal_strlit("cmd-use: ");
    is_ascii_chars_encode_utf8("cmd-use"@);
    is_ascii_chars_encode_utf8("cmd-use: "@);
    assert("cmd-use: ".spec_bytes() =~= "cmd-use".spec_bytes() + seq![58u8, 32u8]);
    reveal_strlit("cmd-watch");
    reveal_strlit("cmd-watch: ");
    is_ascii_chars_encode_utf8("cmd-watch"@);
    is_ascii_chars_encode_utf8("cmd-watch: "@);
    assert("cmd-watch: ".spec_bytes() =~= "cmd-watch".spec_bytes() + seq![58u8, 32u8]);
    reveal_strlit("cmd-ignore");
    reveal_strlit("cmd-ignore: ");
    is_ascii_chars_encode_utf8("cmd-ignore"@);
    is_ascii_chars_encode_utf8("cmd-ignore: "@);
    assert("cmd-ignore: ".spec_bytes() =~= "cmd-ignore".spec_bytes() + seq![58u8, 32u8]);
    reveal_strlit("cmd-bury");
    reveal_strlit("cmd-bury: ");
    is_ascii_chars_encode_utf8("cmd-bury"@);
    is_ascii_chars_encode_utf8("cmd-bury: "@);
    assert("cmd-bury: ".spec_bytes() =~= "cmd-bury".spec_bytes() + seq![58u8, 32u8]);
    reveal_strlit("cmd-kick");
    reveal_strlit("cmd-kick: ");
    is_ascii_chars_encode_utf8("cmd-kick"@);
    is_ascii_chars_encode_utf8("cmd-kick: "@);
    assert("cmd-kick: ".spec_bytes() =~= "cmd-kick".spec_bytes() + seq![58u8, 32u8]);
    reveal_strlit("cmd-touch");
    reveal_strlit("cmd-touch: ");
    is_ascii_chars_encode_utf8("cmd-touch"@);
    is_ascii_chars_encode_utf8("cmd-touch: "@);
    assert("cmd-touch: ".spec_bytes() =~= "cmd-touch".spec_bytes() + seq![58u8, 32u8]);
    reveal_strlit("cmd-stats");
    reveal_strlit("cmd-stats: ");
    is_ascii_chars_encode_utf8("cmd-stats"@);
    is_ascii_chars_encode_utf8("cmd-stats: "@);
    assert("cmd-stats: ".spec_bytes() =~= "cmd-stats".spec_bytes() + seq![58u8, 32u8]);
    reveal_strlit("cmd-stats-job");
    reveal_strlit("cmd-stats-job: ");
    is_ascii_chars_encode_utf8("cmd-stats-job"@);
    is_ascii_chars_encode_utf8("cmd-stats-job: "@);
    assert("cmd-stats-job: ".spec_bytes() =~= "cmd-stats-job".spec_bytes() + seq![58u8, 32u8]);
    reveal_strlit("cmd-stats-tube");
    reveal_strlit("cmd-stats-tube: ");
    is_ascii_chars_encode_utf8("cmd-stats-tube"@);
    is_ascii_chars_encode_utf8("cmd-stats-tube: "@);
    assert("cmd-stats-tube: ".spec_bytes() =~= "cmd-stats-tube".spec_bytes() + seq![58u8, 32u8]);
    reveal_strlit("cmd-list-tubes");
    reveal_strlit("cmd-list-tubes: ");
    is_ascii_chars_encode_utf8("cmd-list-tubes"@);
    is_ascii_chars_encode_utf8("cmd-list-tubes: "@);
    assert("cmd-list-tubes: ".spec_bytes() =~= "cmd-list-tubes".spec_bytes() + seq![58u8, 32u8]);
    reveal_strlit("cmd-list-tube-used");
    reveal_strlit("cmd-list-tube-used: ");
    is_ascii_chars_encode_utf8("cmd-list-tube-used"@);
    is_ascii_chars_encode_utf8("cmd-list-tube-used: "@);
    assert("cmd-list-tube-used: ".spec_bytes() =~= "cmd-list-tube-used".spec_bytes() + seq![58u8, 32u8]);
    reveal_strlit("cmd-list-tubes-watched");
    reveal_strlit("cmd-list-tubes-watched: ");
    is_ascii_chars_encode_utf8("cmd-list-tubes-watched"@);
    is_ascii_chars_encode_utf8("cmd-list-tubes-watched: "@);
    assert("cmd-list-tubes-watched: ".spec_bytes() =~= "cmd-list-tubes-watched".spec_bytes() + seq![58u8, 32u8]);
    reveal_strlit("cmd-pause-tube");
    reveal_strlit("cmd-pause-tube: ");
    is_ascii_chars_encode_utf8("cmd-pause-tube"@);
    is_ascii_chars_encode_utf8("cmd-pause-tube: "@);
    assert("cmd-pause-tube: ".spec_bytes() =~= "cmd-pause-tube".spec_bytes() + seq![58u8, 32u8]);
    reveal_strlit("job-timeouts");
    reveal_strlit("job-timeouts: ");
    is_ascii_chars_encode_utf8("job-timeouts"@);
    is_ascii_chars_encode_utf8("job-timeouts: "@);
    assert("job-timeouts: ".spec_bytes() =~= "job-timeouts".spec_bytes() + seq![58u8, 32u8]);
}

/// The keys of a stats report, some of them.
proof fn lemma_server_keys_c()
    ensures
        plain_key("total-jobs: ".spec_bytes(), "total-jobs".spec_bytes()),
        mark("total-jobs".spec_bytes()) == 7505137290,
        plain_key("max-job-size: ".spec_bytes(), "max-job-size".spec_bytes()),
        mark("max-job-size".spec_bytes()) == 3071774124,
        plain_key("current-tubes: ".spec_bytes(), "current-tubes".spec_bytes()),
        mark("current-tubes".spec_bytes()) == 3081186413,
        plain_key("current-connections: ".spec_bytes(), "current-connections".spec_bytes()),
        mark("current-connections".spec_bytes()) == 853484711027,
        plain_key("current-producers: ".spec_bytes(), "current-producers".spec_bytes()),
        mark("current-producers".spec_bytes()) == 853484711025,
        plain_key("current-workers: ".spec_bytes(), "current-workers".spec_bytes()),
        mark("current-workers".spec_bytes()) == 982333729903,
        plain_key("current-waiting: ".spec_bytes(), "current-waiting".spec_bytes()),
        mark("current-waiting".spec_bytes()) == 947973991535,
        plain_key("total-connections: ".spec_bytes(), "total-connections".spec_bytes()),
        mark("total-connections".spec_bytes()) == 909444599441,
        plain_key("pid: ".spec_bytes(), "pid".spec_bytes()),
        mark("pid".spec_bytes()) == 413187,
        plain_key("version: ".spec_bytes(), "version".spec_bytes()),
        mark("version".spec_bytes()) == 58142407,
        plain_key("rusage-utime: ".spec_bytes(), "rusage-utime".spec_bytes()),
        mark("rusage-utime".spec_bytes()) == 7875804748,
        plain_key("rusage-stime: ".spec_bytes(), "rusage-stime".spec_bytes()),
        mark("rusage-stime".spec_bytes()) == 7741587020,
        plain_key("uptime: ".spec_bytes(), "uptime".spec_bytes()),
        mark("uptime".spec_bytes()) == 478886,
        plain_key("binlog-oldest-index: ".spec_bytes(), "binlog-oldest-index".spec_bytes()),
        mark("binlog-oldest-index".spec_bytes()) == 394020187219,
{
    reveal(plain_key);
    reveal(mark);
    reveal_strlit("total-jobs");
    reveal_strlit("total-jobs: ");
    is_ascii_chars_encode_utf8("total-jobs"@);
    is_ascii_chars_encode_utf8("total-jobs: "@);
    assert("total-jobs: ".spec_bytes() =~= "total-jobs".spec_bytes() + seq![58u8, 32u8]);
    reveal_strlit("max-job-size");
    reveal_strlit("max-job-size: ");
    is_ascii_chars_encode_utf8("max-job-size"@);
    is_ascii_chars_encode_utf8("max-job-size: "@);
    assert("max-job-size: ".spec_bytes() =~= "max-job-size".spec_bytes() + seq![58u8, 32u8]);
    reveal_strlit("current-tubes");
    reveal_strlit("current-tubes: ");
    is_ascii_chars_encode_utf8("current-tubes"@);
    is_ascii_chars_encode_utf8("current-tubes: "@);
    assert("current-tubes: ".spec_bytes() =~= "current-tubes".spec_bytes() + seq![58u8, 32u8]);
    reveal_strlit("current-connections");
    reveal_strlit("current-connections: ");
    is_ascii_chars_encode_utf8("current-connections"@);
    is_ascii_chars_encode_utf8("current-connections: "@);
    assert("current-connections: ".spec_bytes() =~= "current-connections".spec_bytes() + seq![58u8, 32u8]);
    reveal_strlit("current-producers");
    reveal_strlit("current-producers: ");
    is_ascii_chars_encode_utf8("current-producers"@);
    is_ascii_chars_encode_utf8("current-producers: "@);
    assert("current-producers: ".spec_bytes() =~= "current-producers".spec_bytes() + seq![58u8, 32u8]);
    reveal_strlit("current-workers");
    reveal_strlit("current-workers: ");
    is_ascii_chars_encode_utf8("current-workers"@);
    is_ascii_chars_encode_utf8("current-workers: "@);
    assert("current-workers: ".spec_bytes() =~= "current-workers".spec_bytes() + seq![58u8, 32u8]);
    reveal_strlit("current-waiting");
    reveal_strlit("current-waiting: ");
    is_ascii_chars_encode_utf8("current-waiting"@);
    is_ascii_chars_encode_utf8("current-waiting: "@);
    assert("current-waiting: ".spec_bytes() =~= "current-waiting".spec_bytes() + seq![58u8, 32u8]);
    reveal_strlit("total-connections");
    reveal_strlit("total-connections: ");
    is_ascii_chars_encode_utf8("total-connections"@);
    is_ascii_chars_encode_utf8("total-connections: "@);
    assert("total-connections: ".spec_bytes() =~= "total-connections".spec_bytes() + seq![58u8, 32u8]);
    reveal_strlit("pid");
    reveal_strlit("pid: ");
    is_ascii_chars_encode_utf8("pid"@);
    is_ascii_chars_encode_utf8("pid: "@);
    assert("pid: ".spec_bytes() =~= "pid".spec_bytes() + seq![58u8, 32u8]);
    reveal_strlit("version");
    reveal_strlit("version: ");
    is_ascii_chars_encode_utf8("version"@);
    is_ascii_chars_encode_utf8("version: "@);
    assert("version: ".spec_bytes() =~= "version".spec_bytes() + seq![58u8, 32u8]);
    reveal_strlit("rusage-utime");
    reveal_strlit("rusage-utime: ");
    is_ascii_chars_encode_utf8("rusage-utime"@);
    is_ascii_chars_encode_utf8("rusage-utime: "@);
    assert("rusage-utime: ".spec_bytes() =~= "rusage-utime".spec_bytes() + seq![58u8, 32u8]);
    reveal_strlit("rusage-stime");
    reveal_strlit("rusage-stime: ");
    is_ascii_chars_encode_utf8("rusage-stime"@);
    is_ascii_chars_encode_utf8("rusage-stime: "@);
    assert("rusage-stime: ".spec_bytes() =~= "rusage-stime".spec_bytes() + seq![58u8, 32u8]);
    reveal_strlit("uptime");
    reveal_strlit("uptime: ");
    is_ascii_chars_encode_utf8("uptime"@);
    is_ascii_chars_encode_utf8("uptime: "@);
    assert("uptime: ".spec_bytes() =~= "uptime".spec_bytes() + seq![58u8, 32u8]);
    reveal_strlit("binlog-oldest-index");
    reveal_strlit("binlog-oldest-index: ");
    is_ascii_chars_encode_utf8("binlog-oldest-index"@);
    is_ascii_chars_encode_utf8("binlog-oldest-index: "@);
    assert("binlog-oldest-index: ".spec_bytes() =~= "binlog-oldest-index".spec_bytes() + seq![58u8, 32u8]);
}

/// The keys of a stats report, some of them.
proof fn lemma_server_keys_d()
    ensures
        plain_key("binlog-current-index: ".spec_bytes(), "binlog-current-index".spec_bytes()),
        mark("binlog-current-index".spec_bytes()) == 1003100236884,
        plain_key("binlog-records-migrated: ".spec_bytes(), "binlog-records-migrated".spec_bytes()),
        mark("binlog-records-migrated".spec_bytes()) == 995516935255,
        plain_key("binlog-records-written: ".spec_bytes(), "binlog-records-written".spec_bytes()),
        mark("binlog-records-written".spec_bytes()) == 995516935254,
        plain_key("binlog-max-size: ".spec_bytes(), "binlog-max-size".spec_bytes()),
        mark("binlog-max-size".spec_bytes()) == 1055310933071,
        plain_key("draining: ".spec_bytes(), "draining".spec_bytes()),
        mark("draining".spec_bytes()) == 6970285192,
        plain_key("id: ".spec_bytes(), "id".spec_bytes()),
        mark("id".spec_bytes()) == 3362,
        plain_key("hostname: ".spec_bytes(), "hostname".spec_bytes()),
        mark("hostname".spec_bytes()) == 6835617032,
        plain_key("os: ".spec_bytes(), "os".spec_bytes()),
        mark("os".spec_bytes()) == 3554,
        plain_key("platform: ".spec_bytes(), "platform".spec_bytes()),
        mark("platform".spec_bytes()) == 7375035912,
{
    reveal(plain_key);
    reveal(mark);
    reveal_strlit("binlog-current-index");
    reveal_strlit("binlog-current-index: ");
    is_ascii_chars_encode_utf8("binlog-current-index"@);
    is_ascii_chars_encode_utf8("binlog-current-index: "@);
    assert("binlog-current-index: ".spec_bytes() =~= "binlog-current-index".spec_bytes() + seq![58u8, 32u8]);
    reveal_strlit("binlog-records-migrated");
    reveal_strlit("binlog-records-migrated: ");
    is_ascii_chars_encode_utf8("binlog-records-migrated"@);
    is_ascii_chars_encode_utf8("binlog-records-migrated: "@);
    assert("binlog-records-migrated: ".spec_bytes() =~= "binlog-records-migrated".spec_bytes() + seq![58u8, 32u8]);
    reveal_strlit("binlog-records-written");
    reveal_strlit("binlog-records-written: ");
    is_ascii_chars_encode_utf8("binlog-records-written"@);
    is_ascii_chars_encode_utf8("binlog-records-written: "@);
    assert("binlog-records-written: ".spec_bytes() =~= "binlog-records-written".spec_bytes() + seq![58u8, 32u8]);
    reveal_strlit("binlog-max-size");
    reveal_strlit("binlog-max-size: ");
    is_ascii_chars_encode_utf8("binlog-max-size"@);
    is_ascii_chars_encode_utf8("binlog-max-size: "@);
    assert("binlog-max-size: ".spec_bytes() =~= "binlog-max-size".spec_bytes() + seq![58u8, 32u8]);
    reveal_strlit("draining");
    reveal_strlit("draining: ");
    is_ascii_chars_encode_utf8("draining"@);
    is_ascii_chars_encode_utf8("draining: "@);
    assert("draining: ".spec_bytes() =~= "draining".spec_bytes() + seq![58u8, 32u8]);
    reveal_strlit("id");
    reveal_strlit("id: ");
    is_ascii_chars_encode_utf8("id"@);
    is_ascii_chars_encode_utf8("id: "@);
    assert("id: ".spec_bytes() =~= "id".spec_bytes() + seq![58u8, 32u8]);
    reveal_strlit("hostname");
    reveal_strlit("hostname: ");
    is_ascii_chars_encode_utf8("hostname"@);
    is_ascii_chars_encode_utf8("hostname: "@);
    assert("hostname: ".spec_bytes() =~= "hostname".spec_bytes() + seq![58u8, 32u8]);
    reveal_strlit("os");
    reveal_strlit("os: ");
    is_ascii_chars_encode_utf8("os"@);
    is_ascii_chars_encode_utf8("os: "@);
    assert("os: ".spec_bytes() =~= "os".spec_bytes() + seq![58u8, 32u8]);
    reveal_strlit("platform");
    reveal_strlit("platform: ");
    is_ascii_chars_encode_utf8("platform"@);
    is_ascii_chars_encode_utf8("platform: "@);
    assert("platform: ".spec_bytes() =~= "platform".spec_bytes() + seq![58u8, 32u8]);
}

/// The payload of stats up to the first part of it.
#[verifier::opaque]
spec fn server_a(s: StatsServer) -> Seq<u8> {
    "---\n".spec_bytes()
        + line("current-jobs-urgent: ", decimal(s.current_jobs_urgent as nat))
        + line("current-jobs-ready: ", decimal(s.current_jobs_ready as nat))
        + line("current-jobs-reserved: ", decimal(s.current_jobs_reserved as nat))
        + line("current-jobs-delayed: ", decimal(s.current_jobs_delayed as nat))
        + line("current-jobs-buried: ", decimal(s.current_jobs_buried as nat))
        + line("cmd-put: ", decimal(s.cmd_put as nat))
        + line("cmd-peek: ", decimal(s.cmd_peek as nat))
        + line("cmd-peek-ready: ", decimal(s.cmd_peek_ready as nat))
        + line("cmd-peek-delayed: ", decimal(s.cmd_peek_delayed as nat))
        + line("cmd-peek-buried: ", decimal(s.cmd_peek_buried as nat))
        + line("cmd-reserve: ", decimal(s.cmd_reserve as nat))
        + line("cmd-reserve-with-timeout: ", decimal(s.cmd_reserve_with_timeout as nat))
        + line("cmd-delete: ", decimal(s.cmd_delete as nat))
        + line("cmd-release: ", decimal(s.cmd_release as nat))
}

/// What that part says.
#[verifier::spinoff_prover]
#[verifier::rlimit(60)]
proof fn lemma_server_a(s: StatsServer)
    requires
        one_line(encode_utf8(s.version@)),
        one_line(encode_utf8(s.id@)),
        one_line(encode_utf8(s.hostname@)),
        one_line(encode_utf8(s.os@)),
        one_line(encode_utf8(s.platform@)),
    ensures
        ended(server_a(s)),
        under(server_a(s), "current-jobs-urgent".spec_bytes()) == Some(decimal(s.current_jobs_urgent as nat)),
        under(server_a(s), "current-jobs-ready".spec_bytes()) == Some(decimal(s.current_jobs_ready as nat)),
        under(server_a(s), "current-jobs-reserved".spec_bytes()) == Some(decimal(s.current_jobs_reserved as nat)),
        under(server_a(s), "current-jobs-delayed".spec_bytes()) == Some(decimal(s.current_jobs_delayed as nat)),
        under(server_a(s), "current-jobs-buried".spec_bytes()) == Some(decimal(s.current_jobs_buried as nat)),
        under(server_a(s), "cmd-put".spec_bytes()) == Some(decimal(s.cmd_put as nat)),
        under(server_a(s), "cmd-peek".spec_bytes()) == Some(decimal(s.cmd_peek as nat)),
        under(server_a(s), "cmd-peek-ready".spec_bytes()) == Some(decimal(s.cmd_peek_ready as nat)),
        under(server_a(s), "cmd-peek-delayed".spec_bytes()) == Some(decimal(s.cmd_peek_delayed as nat)),
        under(server_a(s), "cmd-peek-buried".spec_bytes()) == Some(decimal(s.cmd_peek_buried as nat)),
        under(server_a(s), "cmd-reserve".spec_bytes()) == Some(decimal(s.cmd_reserve as nat)),
        under(server_a(s), "cmd-reserve-with-timeout".spec_bytes()) == Some(decimal(s.cmd_reserve_with_timeout as nat)),
        under(server_a(s), "cmd-delete".spec_bytes()) == Some(decimal(s.cmd_delete as nat)),
        under(server_a(s), "cmd-release".spec_bytes()) == Some(decimal(s.cmd_release as nat)),
        under(server_a(s), "cmd-use".spec_bytes()) is None,
        under(server_a(s), "cmd-watch".spec_bytes()) is None,
        under(server_a(s), "cmd-ignore".spec_bytes()) is None,
        under(server_a(s), "cmd-bury".spec_bytes()) is None,
        under(server_a(s), "cmd-kick".spec_bytes()) is None,
        under(server_a(s), "cmd-touch".spec_bytes()) is None,
        under(server_a(s), "cmd-stats".spec_bytes()) is None,
        under(server_a(s), "cmd-stats-job".spec_bytes()) is None,
        under(server_a(s), "cmd-stats-tube".spec_bytes()) is None,
        under(server_a(s), "cmd-list-tubes".spec_bytes()) is None,
        under(server_a(s), "cmd-list-tube-used".spec_bytes()) is None,
        under(server_a(s), "cmd-list-tubes-watched".spec_bytes()) is None,
        under(server_a(s), "cmd-pause-tube".spec_bytes()) is None,
        under(server_a(s), "job-timeouts".spec_bytes()) is None,
        under(server_a(s), "total-jobs".spec_bytes()) is None,
        under(server_a(s), "max-job-size".spec_bytes()) is None,
        under(server_a(s), "current-tubes".spec_bytes()) is None,
        under(server_a(s), "current-connections".spec_bytes()) is None,
        under(server_a(s), "current-producers".spec_bytes()) is None,
        under(server_a(s), "current-workers".spec_bytes()) is None,
        under(server_a(s), "current-waiting".spec_bytes()) is None,
        under(server_a(s), "total-connections".spec_bytes()) is None,
        under(server_a(s), "pid".spec_bytes()) is None,
        under(server_a(s), "version".spec_bytes()) is None,
        under(server_a(s), "rusage-utime".spec_bytes()) is None,
        under(server_a(s), "rusage-stime".spec_bytes()) is None,
        under(server_a(s), "uptime".spec_bytes()) is None,
        under(server_a(s), "binlog-oldest-index".spec_bytes()) is None,
        under(server_a(s), "binlog-current-index".spec_bytes()) is None,
        under(server_a(s), "binlog-records-migrated".spec_bytes()) is None,
        under(server_a(s), "binlog-records-written".spec_bytes()) is None,
        under(server_a(s), "binlog-max-size".spec_bytes()) is None,
        under(server_a(s), "draining".spec_bytes()) is None,
        under(server_a(s), "id".spec_bytes()) is None,
        under(server_a(s), "hostname".spec_bytes()) is None,
        under(server_a(s), "os".spec_bytes()) is None,
        under(server_a(s), "platform".spec_bytes()) is None,
{
    lemma_server_keys_a();
    lemma_server_keys_b();
    lemma_server_keys_c();
    lemma_server_keys_d();
    lemma_nothing_yet();
    lemma_digits_line(s.current_jobs_urgent as nat);
    lemma_digits_line(s.current_jobs_ready as nat);
    lemma_digits_line(s.current_jobs_reserved as nat);
    lemma_digits_line(s.current_jobs_delayed as nat);
    lemma_digits_line(s.current_jobs_buried as nat);
    lemma_digits_line(s.cmd_put as nat);
    lemma_digits_line(s.cmd_peek as nat);
    lemma_digits_line(s.cmd_peek_ready as nat);
    lemma_digits_line(s.cmd_peek_delayed as nat);
    lemma_digits_line(s.cmd_peek_buried as nat);
    lemma_digits_line(s.cmd_reserve as nat);
    lemma_digits_line(s.cmd_reserve_with_timeout as nat);
    lemma_digits_line(s.cmd_delete as nat);
    lemma_digits_line(s.cmd_release as nat);
    let r = "---\n".spec_bytes();
    lemma_fresh_lines_7(
        r,
        "current-jobs-urgent: ".spec_bytes(),
        "current-jobs-urgent".spec_bytes(),
        decimal(s.current_jobs_urgent as nat),
        "current-jobs-ready: ".spec_bytes(),
        "current-jobs-ready".spec_bytes(),
        decimal(s.current_jobs_ready as nat),
        "current-jobs-reserved: ".spec_bytes(),
        "current-jobs-reserved".spec_bytes(),
        decimal(s.current_jobs_reserved as nat),
        "current-jobs-delayed: ".spec_bytes(),
        "current-jobs-delayed".spec_bytes(),
        decimal(s.current_jobs_delayed as nat),
        "current-jobs-buried: ".spec_bytes(),
        "current-jobs-buried".spec_bytes(),
        decimal(s.current_jobs_buried as nat),
        "cmd-put: ".spec_bytes(),
        "cmd-put".spec_bytes(),
        decimal(s.cmd_put as nat),
        "cmd-peek: ".spec_bytes(),
        "cmd-peek".spec_bytes(),
        decimal(s.cmd_peek as nat),
    );
    let r = r + text("current-jobs-urgent: ".spec_bytes(), decimal(s.current_jobs_urgent as nat));
    let r = r + text("current-jobs-ready: ".spec_bytes(), decimal(s.current_jobs_ready as nat));
    let r = r + text("current-jobs-reserved: ".spec_bytes(), decimal(s.current_jobs_reserved as nat));
    let r = r + text("current-jobs-delayed: ".spec_bytes(), decimal(s.current_jobs_delayed as nat));
    let r = r + text("current-jobs-buried: ".spec_bytes(), decimal(s.current_jobs_buried as nat));
    let r = r + text("cmd-put: ".spec_bytes(), decimal(s.cmd_put as nat));
    let r = r + text("cmd-peek: ".spec_bytes(), decimal(s.cmd_peek as nat));
    lemma_fresh_lines_7(
        r,
        "cmd-peek-ready: ".spec_bytes(),
        "cmd-peek-ready".spec_bytes(),
        decimal(s.cmd_peek_ready as nat),
        "cmd-peek-delayed: ".spec_bytes(),
        "cmd-peek-delayed".spec_bytes(),
        decimal(s.cmd_peek_delayed as nat),
        "cmd-peek-buried: ".spec_bytes(),
        "cmd-peek-buried".spec_bytes(),
        decimal(s.cmd_peek_buried as nat),
        "cmd-reserve: ".spec_bytes(),
        "cmd-reserve".spec_bytes(),
        decimal(s.cmd_reserve as nat),
        "cmd-reserve-with-timeout: ".spec_bytes(),
        "cmd-reserve-with-timeout".spec_bytes(),
        decimal(s.cmd_reserve_with_timeout as nat),
        "cmd-delete: ".spec_bytes(),
        "cmd-delete".spec_bytes(),
        decimal(s.cmd_delete as nat),
        "cmd-release: ".spec_bytes(),
        "cmd-release".spec_bytes(),
        decimal(s.cmd_release as nat),
    );
    let r = r + text("cmd-peek-ready: ".spec_bytes(), decimal(s.cmd_peek_ready as nat));
    let r = r + text("cmd-peek-delayed: ".spec_bytes(), decimal(s.cmd_peek_delayed as nat));
    let r = r + text("cmd-peek-buried: ".spec_bytes(), decimal(s.cmd_peek_buried as nat));
    let r = r + text("cmd-reserve: ".spec_bytes(), decimal(s.cmd_reserve as nat));
    let r = r + text("cmd-reserve-with-timeout: ".spec_bytes(), decimal(s.cmd_reserve_with_timeout as nat));
    let r = r + text("cmd-delete: ".spec_bytes(), decimal(s.cmd_delete as nat));
    let r = r + text("cmd-release: ".spec_bytes(), decimal(s.cmd_release as nat));
    assert(r == server_a(s)) by {
        reveal(text);
        reveal(server_a);
    }
}

/// The payload of stats up to the next part of it.
#[verifier::opaque]
spec fn server_b(s: StatsServer) -> Seq<u8> {
    server_a(s)
        + line("cmd-use: ", decimal(s.cmd_use as nat))
        + line("cmd-watch: ", decimal(s.cmd_watch as nat))
        + line("cmd-ignore: ", decimal(s.cmd_ignore as nat))
        + line("cmd-bury: ", decimal(s.cmd_bury as nat))
        + line("cmd-kick: ", decimal(s.cmd_kick as nat))
        + line("cmd-touch: ", decimal(s.cmd_touch as nat))
        + line("cmd-stats: ", decimal(s.cmd_stats as nat))
        + line("cmd-stats-job: ", decimal(s.cmd_stats_job as nat))
        + line("cmd-stats-tube: ", decimal(s.cmd_stats_tube as nat))
        + line("cmd-list-tubes: ", decimal(s.cmd_list_tubes as nat))
        + line("cmd-list-tube-used: ", decimal(s.cmd_list_tube_used as nat))
        + line("cmd-list-tubes-watched: ", decimal(s.cmd_list_tubes_watched as nat))
        + line("cmd-pause-tube: ", decimal(s.cmd_pause_tube as nat))
        + line("job-timeouts: ", decimal(s.job_timeouts as nat))
}

/// What that part says.
#[verifier::spinoff_prover]
#[verifier::rlimit(60)]
proof fn lemma_server_b(s: StatsServer)
    requires
        one_line(encode_utf8(s.version@)),
        one_line(encode_utf8(s.id@)),
        one_line(encode_utf8(s.hostname@)),
        one_line(encode_utf8(s.os@)),
        one_line(encode_utf8(s.platform@)),
    ensures
        ended(server_b(s)),
        under(server_b(s), "current-jobs-urgent".spec_bytes()) == Some(decimal(s.current_jobs_urgent as nat)),
        under(server_b(s), "current-jobs-ready".spec_bytes()) == Some(decimal(s.current_jobs_ready as nat)),
        under(server_b(s), "current-jobs-reserved".spec_bytes()) == Some(decimal(s.current_jobs_reserved as nat)),
        under(server_b(s), "current-jobs-delayed".spec_bytes()) == Some(decimal(s.current_jobs_delayed as nat)),
        under(server_b(s), "current-jobs-buried".spec_bytes()) == Some(decimal(s.current_jobs_buried as nat)),
        under(server_b(s), "cmd-put".spec_bytes()) == Some(decimal(s.cmd_put as nat)),
        under(server_b(s), "cmd-peek".spec_bytes()) == Some(decimal(s.cmd_peek as nat)),
        under(server_b(s), "cmd-peek-ready".spec_bytes()) == Some(decimal(s.cmd_peek_ready as nat)),
        under(server_b(s), "cmd-peek-delayed".spec_bytes()) == Some(decimal(s.cmd_peek_delayed as nat)),
        under(server_b(s), "cmd-peek-buried".spec_bytes()) == Some(decimal(s.cmd_peek_buried as nat)),
        under(server_b(s), "cmd-reserve".spec_bytes()) == Some(decimal(s.cmd_reserve as nat)),
        under(server_b(s), "cmd-reserve-with-timeout".spec_bytes()) == Some(decimal(s.cmd_reserve_with_timeout as nat)),
        under(server_b(s), "cmd-delete".spec_bytes()) == Some(decimal(s.cmd_delete as nat)),
        under(server_b(s), "cmd-release".spec_bytes()) == Some(decimal(s.cmd_release as nat)),
        under(server_b(s), "cmd-use".spec_bytes()) == Some(decimal(s.cmd_use as nat)),
        under(server_b(s), "cmd-watch".spec_bytes()) == Some(decimal(s.cmd_watch as nat)),
        under(server_b(s), "cmd-ignore".spec_bytes()) == Some(decimal(s.cmd_ignore as nat)),
        under(server_b(s), "cmd-bury".spec_bytes()) == Some(decimal(s.cmd_bury as nat)),
        under(server_b(s), "cmd-kick".spec_bytes()) == Some(decimal(s.cmd_kick as nat)),
        under(server_b(s), "cmd-touch".spec_bytes()) == Some(decimal(s.cmd_touch as nat)),
        under(server_b(s), "cmd-stats".spec_bytes()) == Some(decimal(s.cmd_stats as nat)),
        under(server_b(s), "cmd-stats-job".spec_bytes()) == Some(decimal(s.cmd_stats_job as nat)),
        under(server_b(s), "cmd-stats-tube".spec_bytes()) == Some(decimal(s.cmd_stats_tube as nat)),
        under(server_b(s), "cmd-list-tubes".spec_bytes()) == Some(decimal(s.cmd_list_tubes as nat)),
        under(server_b(s), "cmd-list-tube-used".spec_bytes()) == Some(decimal(s.cmd_list_tube_used as nat)),
        under(server_b(s), "cmd-list-tubes-watched".spec_bytes()) == Some(decimal(s.cmd_list_tubes_watched as nat)),
        under(server_b(s), "cmd-pause-tube".spec_bytes()) == Some(decimal(s.cmd_pause_tube as nat)),
        under(server_b(s), "job-timeouts".spec_bytes()) == Some(decimal(s.job_timeouts as nat)),
        under(server_b(s), "total-jobs".spec_bytes()) is None,
        under(server_b(s), "max-job-size".spec_bytes()) is None,
        under(server_b(s), "current-tubes".spec_bytes()) is None,
        under(server_b(s), "current-connections".spec_bytes()) is None,
        under(server_b(s), "current-producers".spec_bytes()) is None,
        under(server_b(s), "current-workers".spec_bytes()) is None,
        under(server_b(s), "current-waiting".spec_bytes()) is None,
        under(server_b(s), "total-connections".spec_bytes()) is None,
        under(server_b(s), "pid".spec_bytes()) is None,
        under(server_b(s), "version".spec_bytes()) is None,
        under(server_b(s), "rusage-utime".spec_bytes()) is None,
        under(server_b(s), "rusage-stime".spec_bytes()) is None,
        under(server_b(s), "uptime".spec_bytes()) is None,
        under(server_b(s), "binlog-oldest-index".spec_bytes()) is None,
        under(server_b(s), "binlog-current-index".spec_bytes()) is None,
        under(server_b(s), "binlog-records-migrated".spec_bytes()) is None,
        under(server_b(s), "binlog-records-written".spec_bytes()) is None,
        under(server_b(s), "binlog-max-size".spec_bytes()) is None,
        under(server_b(s), "draining".spec_bytes()) is None,
        under(server_b(s), "id".spec_bytes()) is None,
        under(server_b(s), "hostname".spec_bytes()) is None,
        under(server_b(s), "os".spec_bytes()) is None,
        under(server_b(s), "platform".spec_bytes()) is None,
{
    lemma_server_keys_a();
    lemma_server_keys_b();
    lemma_server_keys_c();
    lemma_server_keys_d();
    lemma_server_a(s);
    lemma_digits_line(s.cmd_use as nat);
    lemma_digits_line(s.cmd_watch as nat);
    lemma_digits_line(s.cmd_ignore as nat);
    lemma_digits_line(s.cmd_bury as nat);
    lemma_digits_line(s.cmd_kick as nat);
    lemma_digits_line(s.cmd_touch as nat);
    lemma_digits_line(s.cmd_stats as nat);
    lemma_digits_line(s.cmd_stats_job as nat);
    lemma_digits_line(s.cmd_stats_tube as nat);
    lemma_digits_line(s.cmd_list_tubes as nat);
    lemma_digits_line(s.cmd_list_tube_used as nat);
    lemma_digits_line(s.cmd_list_tubes_watched as nat);
    lemma_digits_line(s.cmd_pause_tube as nat);
    lemma_digits_line(s.job_timeouts as nat);
    let r = server_a(s);
    lemma_fresh_lines_7(
        r,
        "cmd-use: ".spec_bytes(),
        "cmd-use".spec_bytes(),
        decimal(s.cmd_use as nat),
        "cmd-watch: ".spec_bytes(),
        "cmd-watch".spec_bytes(),
        decimal(s.cmd_watch as nat),
        "cmd-ignore: ".spec_bytes(),
        "cmd-ignore".spec_bytes(),
        decimal(s.cmd_ignore as nat),
        "cmd-bury: ".spec_bytes(),
        "cmd-bury".spec_bytes(),
        decimal(s.cmd_bury as nat),
        "cmd-kick: ".spec_bytes(),
        "cmd-kick".spec_bytes(),
        decimal(s.cmd_kick as nat),
        "cmd-touch: ".spec_bytes(),
        "cmd-touch".spec_bytes(),
        decimal(s.cmd_touch as nat),
        "cmd-stats: ".spec_bytes(),
        "cmd-stats".spec_bytes(),
        decimal(s.cmd_stats as nat),
    );
    let r = r + text("cmd-use: ".spec_bytes(), decimal(s.cmd_use as nat));
    let r = r + text("cmd-watch: ".spec_bytes(), decimal(s.cmd_watch as nat));
    let r = r + text("cmd-ignore: ".spec_bytes(), decimal(s.cmd_ignore as nat));
    let r = r + text("cmd-bury: ".spec_bytes(), decimal(s.cmd_bury as nat));
    let r = r + text("cmd-kick: ".spec_bytes(), decimal(s.cmd_kick as nat));
    let r = r + text("cmd-touch: ".spec_bytes(), decimal(s.cmd_touch as nat));
    let r = r + text("cmd-stats: ".spec_bytes(), decimal(s.cmd_stats as nat));
    lemma_fresh_lines_7(
        r,
        "cmd-stats-job: ".spec_bytes(),
        "cmd-stats-job".spec_bytes(),
        decimal(s.cmd_stats_job as nat),
        "cmd-stats-tube: ".spec_bytes(),
        "cmd-stats-tube".spec_bytes(),
        decimal(s.cmd_stats_tube as nat),
        "cmd-list-tubes: ".spec_bytes(),
        "cmd-list-tubes".spec_bytes(),
        decimal(s.cmd_list_tubes as nat),
        "cmd-list-tube-used: ".spec_bytes(),
        "cmd-list-tube-used".spec_bytes(),
        decimal(s.cmd_list_tube_used as nat),
        "cmd-list-tubes-watched: ".spec_bytes(),
        "cmd-list-tubes-watched".spec_bytes(),
        decimal(s.cmd_list_tubes_watched as nat),
        "cmd-pause-tube: ".spec_bytes(),
        "cmd-pause-tube".spec_bytes(),
        decimal(s.cmd_pause_tube as nat),
        "job-timeouts: ".spec_bytes(),
        "job-timeouts".spec_bytes(),
        decimal(s.job_timeouts as nat),
    );
    let r = r + text("cmd-stats-job: ".spec_bytes(), decimal(s.cmd_stats_job as nat));
    let r = r + text("cmd-stats-tube: ".spec_bytes(), decimal(s.cmd_stats_tube as nat));
    let r = r + text("cmd-list-tubes: ".spec_bytes(), decimal(s.cmd_list_tubes as nat));
    let r = r + text("cmd-list-tube-used: ".spec_bytes(), decimal(s.cmd_list_tube_used as nat));
    let r = r + text("cmd-list-tubes-watched: ".spec_bytes(), decimal(s.cmd_list_tubes_watched as nat));
    let r = r + text("cmd-pause-tube: ".spec_bytes(), decimal(s.cmd_pause_tube as nat));
    let r = r + text("job-timeouts: ".spec_bytes(), decimal(s.job_timeouts as nat));
    assert(r == server_b(s)) by {
        reveal(text);
        reveal(server_b);
    }
}

/// The payload of stats up to the third part of it.
#[verifier::opaque]
spec fn server_c(s: StatsServer) -> Seq<u8> {
    server_b(s)
        + line("total-jobs: ", decimal(s.total_jobs as nat))
        + line("max-job-size: ", decimal(s.max_job_size as nat))
        + line("current-tubes: ", decimal(s.current_tubes as nat))
        + line("current-connections: ", decimal(s.current_connections as nat))
        + line("current-producers: ", decimal(s.current_producers as nat))
        + line("current-workers: ", decimal(s.current_workers as nat))
        + line("current-waiting: ", decimal(s.current_waiting as nat))
        + line("total-connections: ", decimal(s.total_connections as nat))
        + line("pid: ", decimal(s.pid as nat))
        + line("version: ", quoted(encode_utf8(s.version@)))
        + line("rusage-utime: ", seconds(s.rusage_utime))
        + line("rusage-stime: ", seconds(s.rusage_stime))
        + line("uptime: ", decimal(s.uptime as nat))
        + line("binlog-oldest-index: ", decimal(s.binlog_oldest_index as nat))
}

/// What that part says.
#[verifier::spinoff_prover]
#[verifier::rlimit(60)]
proof fn lemma_server_c(s: StatsServer)
    requires
        one_line(encode_utf8(s.version@)),
        one_line(encode_utf8(s.id@)),
        one_line(encode_utf8(s.hostname@)),
        one_line(encode_utf8(s.os@)),
        one_line(encode_utf8(s.platform@)),
    ensures
        ended(server_c(s)),
        under(server_c(s), "current-jobs-urgent".spec_bytes()) == Some(decimal(s.current_jobs_urgent as nat)),
        under(server_c(s), "current-jobs-ready".spec_bytes()) == Some(decimal(s.current_jobs_ready as nat)),
        under(server_c(s), "current-jobs-reserved".spec_bytes()) == Some(decimal(s.current_jobs_reserved as nat)),
        under(server_c(s), "current-jobs-delayed".spec_bytes()) == Some(decimal(s.current_jobs_delayed as nat)),
        under(server_c(s), "current-jobs-buried".spec_bytes()) == Some(decimal(s.current_jobs_buried as nat)),
        under(server_c(s), "cmd-put".spec_bytes()) == Some(decimal(s.cmd_put as nat)),
        under(server_c(s), "cmd-peek".spec_bytes()) == Some(decimal(s.cmd_peek as nat)),
        under(server_c(s), "cmd-peek-ready".spec_bytes()) == Some(decimal(s.cmd_peek_ready as nat)),
        under(server_c(s), "cmd-peek-delayed".spec_bytes()) == Some(decimal(s.cmd_peek_delayed as nat)),
        under(server_c(s), "cmd-peek-buried".spec_bytes()) == Some(decimal(s.cmd_peek_buried as nat)),
        under(server_c(s), "cmd-reserve".spec_bytes()) == Some(decimal(s.cmd_reserve as nat)),
        under(server_c(s), "cmd-reserve-with-timeout".spec_bytes()) == Some(decimal(s.cmd_reserve_with_timeout as nat)),
        under(server_c(s), "cmd-delete".spec_bytes()) == Some(decimal(s.cmd_delete as nat)),
        under(server_c(s), "cmd-release".spec_bytes()) == Some(decimal(s.cmd_release as nat)),
        under(server_c(s), "cmd-use".spec_bytes()) == Some(decimal(s.cmd_use as nat)),
        under(server_c(s), "cmd-watch".spec_bytes()) == Some(decimal(s.cmd_watch as nat)),
        under(server_c(s), "cmd-ignore".spec_bytes()) == Some(decimal(s.cmd_ignore as nat)),
        under(server_c(s), "cmd-bury".spec_bytes()) == Some(decimal(s.cmd_bury as nat)),
        under(server_c(s), "cmd-kick".spec_bytes()) == Some(decimal(s.cmd_kick as nat)),
        under(server_c(s), "cmd-touch".spec_bytes()) == Some(decimal(s.cmd_touch as nat)),
        under(server_c(s), "cmd-stats".spec_bytes()) == Some(decimal(s.cmd_stats as nat)),
        under(server_c(s), "cmd-stats-job".spec_bytes()) == Some(decimal(s.cmd_stats_job as nat)),
        under(server_c(s), "cmd-stats-tube".spec_bytes()) == Some(decimal(s.cmd_stats_tube as nat)),
        under(server_c(s), "cmd-list-tubes".spec_bytes()) == Some(decimal(s.cmd_list_tubes as nat)),
        under(server_c(s), "cmd-list-tube-used".spec_bytes()) == Some(decimal(s.cmd_list_tube_used as nat)),
        under(server_c(s), "cmd-list-tubes-watched".spec_bytes()) == Some(decimal(s.cmd_list_tubes_watched as nat)),
        under(server_c(s), "cmd-pause-tube".spec_bytes()) == Some(decimal(s.cmd_pause_tube as nat)),
        under(server_c(s), "job-timeouts".spec_bytes()) == Some(decimal(s.job_timeouts as nat)),
        under(server_c(s), "total-jobs".spec_bytes()) == Some(decimal(s.total_jobs as nat)),
        under(server_c(s), "max-job-size".spec_bytes()) == Some(decimal(s.max_job_size as nat)),
        under(server_c(s), "current-tubes".spec_bytes()) == Some(decimal(s.current_tubes as nat)),
        under(server_c(s), "current-connections".spec_bytes()) == Some(decimal(s.current_connections as nat)),
        under(server_c(s), "current-producers".spec_bytes()) == Some(decimal(s.current_producers as nat)),
        under(server_c(s), "current-workers".spec_bytes()) == Some(decimal(s.current_workers as nat)),
        under(server_c(s), "current-waiting".spec_bytes()) == Some(decimal(s.current_waiting as nat)),
        under(server_c(s), "total-connections".spec_bytes()) == Some(decimal(s.total_connections as nat)),
        under(server_c(s), "pid".spec_bytes()) == Some(decimal(s.pid as nat)),
        under(server_c(s), "version".spec_bytes()) == Some(quoted(encode_utf8(s.version@))),
        under(server_c(s), "rusage-utime".spec_bytes()) == Some(seconds(s.rusage_utime)),
        under(server_c(s), "rusage-stime".spec_bytes()) == Some(seconds(s.rusage_stime)),
        under(server_c(s), "uptime".spec_bytes()) == Some(decimal(s.uptime as nat)),
        under(server_c(s), "binlog-oldest-index".spec_bytes()) == Some(decimal(s.binlog_oldest_index as nat)),
        under(server_c(s), "binlog-current-index".spec_bytes()) is None,
        under(server_c(s), "binlog-records-migrated".spec_bytes()) is None,
        under(server_c(s), "binlog-records-written".spec_bytes()) is None,
        under(server_c(s), "binlog-max-size".spec_bytes()) is None,
        under(server_c(s), "draining".spec_bytes()) is None,
        under(server_c(s), "id".spec_bytes()) is None,
        under(server_c(s), "hostname".spec_bytes()) is None,
        under(server_c(s), "os".spec_bytes()) is None,
        under(server_c(s), "platform".spec_bytes()) is None,
{
    lemma_server_keys_a();
    lemma_server_keys_b();
    lemma_server_keys_c();
    lemma_server_keys_d();
    lemma_server_b(s);
    lemma_digits_line(s.total_jobs as nat);
    lemma_digits_line(s.max_job_size as nat);
    lemma_digits_line(s.current_tubes as nat);
    lemma_digits_line(s.current_connections as nat);
    lemma_digits_line(s.current_producers as nat);
    lemma_digits_line(s.current_workers as nat);
    lemma_digits_line(s.current_waiting as nat);
    lemma_digits_line(s.total_connections as nat);
    lemma_digits_line(s.pid as nat);
    lemma_quoted_line(encode_utf8(s.version@));
    lemma_seconds_line(s.rusage_utime);
    lemma_seconds_line(s.rusage_stime);
    lemma_digits_line(s.uptime as nat);
    lemma_digits_line(s.binlog_oldest_index as nat);
    let r = server_b(s);
    lemma_fresh_lines_7(
        r,
        "total-jobs: ".spec_bytes(),
        "total-jobs".spec_bytes(),
        decimal(s.total_jobs as nat),
        "max-job-size: ".spec_bytes(),
        "max-job-size".spec_bytes(),
        decimal(s.max_job_size as nat),
        "current-tubes: ".spec_bytes(),
        "current-tubes".spec_bytes(),
        decimal(s.current_tubes as nat),
        "current-connections: ".spec_bytes(),
        "current-connections".spec_bytes(),
        decimal(s.current_connections as nat),
        "current-producers: ".spec_bytes(),
        "current-producers".spec_bytes(),
        decimal(s.current_producers as nat),
        "current-workers: ".spec_bytes(),
        "current-workers".spec_bytes(),
        decimal(s.current_workers as nat),
        "current-waiting: ".spec_bytes(),
        "current-waiting".spec_bytes(),
        decimal(s.current_waiting as nat),
    );
    let r = r + text("total-jobs: ".spec_bytes(), decimal(s.total_jobs as nat));
    let r = r + text("max-job-size: ".spec_bytes(), decimal(s.max_job_size as nat));
    let r = r + text("current-tubes: ".spec_bytes(), decimal(s.current_tubes as nat));
    let r = r + text("current-connections: ".spec_bytes(), decimal(s.current_connections as nat));
    let r = r + text("current-producers: ".spec_bytes(), decimal(s.current_producers as nat));
    let r = r + text("current-workers: ".spec_bytes(), decimal(s.current_workers as nat));
    let r = r + text("current-waiting: ".spec_bytes(), decimal(s.current_waiting as nat));
    lemma_fresh_lines_7(
        r,
        "total-connections: ".spec_bytes(),
        "total-connections".spec_bytes(),
        decimal(s.total_connections as nat),
        "pid: ".spec_bytes(),
        "pid".spec_bytes(),
        decimal(s.pid as nat),
        "version: ".spec_bytes(),
        "version".spec_bytes(),
        quoted(encode_utf8(s.version@)),
        "rusage-utime: ".spec_bytes(),
        "rusage-utime".spec_bytes(),
        seconds(s.rusage_utime),
        "rusage-stime: ".spec_bytes(),
        "rusage-stime".spec_bytes(),
        seconds(s.rusage_stime),
        "uptime: ".spec_bytes(),
        "uptime".spec_bytes(),
        decimal(s.uptime as nat),
        "binlog-oldest-index: ".spec_bytes(),
        "binlog-oldest-index".spec_bytes(),
        decimal(s.binlog_oldest_index as nat),
    );
    let r = r + text("total-connections: ".spec_bytes(), decimal(s.total_connections as nat));
    let r = r + text("pid: ".spec_bytes(), decimal(s.pid as nat));
    let r = r + text("version: ".spec_bytes(), quoted(encode_utf8(s.version@)));
    let r = r + text("rusage-utime: ".spec_bytes(), seconds(s.rusage_utime));
    let r = r + text("rusage-stime: ".spec_bytes(), seconds(s.rusage_stime));
    let r = r + text("uptime: ".spec_bytes(), decimal(s.uptime as nat));
    let r = r + text("binlog-oldest-index: ".spec_bytes(), decimal(s.binlog_oldest_index as nat));
    assert(r == server_c(s)) by {
        reveal(text);
        reveal(server_c);
    }
}

/// The payload of stats up to the last part of it.
#[verifier::opaque]
spec fn server_d(s: StatsServer) -> Seq<u8> {
    server_c(s)
        + line("binlog-current-index: ", decimal(s.binlog_current_index as nat))
        + line("binlog-records-migrated: ", decimal(s.binlog_records_migrated as nat))
        + line("binlog-records-written: ", decimal(s.binlog_records_written as nat))
        + line("binlog-max-size: ", decimal(s.binlog_max_size as nat))
        + line("draining: ", truth(s.draining))
        + line("id: ", encode_utf8(s.id@))
        + line("hostname: ", quoted(encode_utf8(s.hostname@)))
        + line("os: ", quoted(encode_utf8(s.os@)))
        + line("platform: ", quoted(encode_utf8(s.platform@)))
}

/// What that part says.
#[verifier::spinoff_prover]
#[verifier::rlimit(60)]
proof fn lemma_server_d(s: StatsServer)
    requires
        one_line(encode_utf8(s.version@)),
        one_line(encode_utf8(s.id@)),
        one_line(encode_utf8(s.hostname@)),
        one_line(encode_utf8(s.os@)),
        one_line(encode_utf8(s.platform@)),
    ensures
        ended(server_d(s)),
        under(server_d(s), "current-jobs-urgent".spec_bytes()) == Some(decimal(s.current_jobs_urgent as nat)),
        under(server_d(s), "current-jobs-ready".spec_bytes()) == Some(decimal(s.current_jobs_ready as nat)),
        under(server_d(s), "current-jobs-reserved".spec_bytes()) == Some(decimal(s.current_jobs_reserved as nat)),
        under(server_d(s), "current-jobs-delayed".spec_bytes()) == Some(decimal(s.current_jobs_delayed as nat)),
        under(server_d(s), "current-jobs-buried".spec_bytes()) == Some(decimal(s.current_jobs_buried as nat)),
        under(server_d(s), "cmd-put".spec_bytes()) == Some(decimal(s.cmd_put as nat)),
        under(server_d(s), "cmd-peek".spec_bytes()) == Some(decimal(s.cmd_peek as nat)),
        under(server_d(s), "cmd-peek-ready".spec_bytes()) == Some(decimal(s.cmd_peek_ready as nat)),
        under(server_d(s), "cmd-peek-delayed".spec_bytes()) == Some(decimal(s.cmd_peek_delayed as nat)),
        under(server_d(s), "cmd-peek-buried".spec_bytes()) == Some(decimal(s.cmd_peek_buried as nat)),
        under(server_d(s), "cmd-reserve".spec_bytes()) == Some(decimal(s.cmd_reserve as nat)),
        under(server_d(s), "cmd-reserve-with-timeout".spec_bytes()) == Some(decimal(s.cmd_reserve_with_timeout as nat)),
        under(server_d(s), "cmd-delete".spec_bytes()) == Some(decimal(s.cmd_delete as nat)),
        under(server_d(s), "cmd-release".spec_bytes()) == Some(decimal(s.cmd_release as nat)),
        under(server_d(s), "cmd-use".spec_bytes()) == Some(decimal(s.cmd_use as nat)),
        under(server_d(s), "cmd-watch".spec_bytes()) == Some(decimal(s.cmd_watch as nat)),
        under(server_d(s), "cmd-ignore".spec_bytes()) == Some(decimal(s.cmd_ignore as nat)),
        under(server_d(s), "cmd-bury".spec_bytes()) == Some(decimal(s.cmd_bury as nat)),
        under(server_d(s), "cmd-kick".spec_bytes()) == Some(decimal(s.cmd_kick as nat)),
        under(server_d(s), "cmd-touch".spec_bytes()) == Some(decimal(s.cmd_touch as nat)),
        under(server_d(s), "cmd-stats".spec_bytes()) == Some(decimal(s.cmd_stats as nat)),
        under(server_d(s), "cmd-stats-job".spec_bytes()) == Some(decimal(s.cmd_stats_job as nat)),
        under(server_d(s), "cmd-stats-tube".spec_bytes()) == Some(decimal(s.cmd_stats_tube as nat)),
        under(server_d(s), "cmd-list-tubes".spec_bytes()) == Some(decimal(s.cmd_list_tubes as nat)),
        under(server_d(s), "cmd-list-tube-used".spec_bytes()) == Some(decimal(s.cmd_list_tube_used as nat)),
        under(server_d(s), "cmd-list-tubes-watched".spec_bytes()) == Some(decimal(s.cmd_list_tubes_watched as nat)),
        under(server_d(s), "cmd-pause-tube".spec_bytes()) == Some(decimal(s.cmd_pause_tube as nat)),
        under(server_d(s), "job-timeouts".spec_bytes()) == Some(decimal(s.job_timeouts as nat)),
        under(server_d(s), "total-jobs".spec_bytes()) == Some(decimal(s.total_jobs as nat)),
        under(server_d(s), "max-job-size".spec_bytes()) == Some(decimal(s.max_job_size as nat)),
        under(server_d(s), "current-tubes".spec_bytes()) == Some(decimal(s.current_tubes as nat)),
        under(server_d(s), "current-connections".spec_bytes()) == Some(decimal(s.current_connections as nat)),
        under(server_d(s), "current-producers".spec_bytes()) == Some(decimal(s.current_producers as nat)),
        under(server_d(s), "current-workers".spec_bytes()) == Some(decimal(s.current_workers as nat)),
        under(server_d(s), "current-waiting".spec_bytes()) == Some(decimal(s.current_waiting as nat)),
        under(server_d(s), "total-connections".spec_bytes()) == Some(decimal(s.total_connections as nat)),
        under(server_d(s), "pid".spec_bytes()) == Some(decimal(s.pid as nat)),
        under(server_d(s), "version".spec_bytes()) == Some(quoted(encode_utf8(s.version@))),
        under(server_d(s), "rusage-utime".spec_bytes()) == Some(seconds(s.rusage_utime)),
        under(server_d(s), "rusage-stime".spec_bytes()) == Some(seconds(s.rusage_stime)),
        under(server_d(s), "uptime".spec_bytes()) == Some(decimal(s.uptime as nat)),
        under(server_d(s), "binlog-oldest-index".spec_bytes()) == Some(decimal(s.binlog_oldest_index as nat)),
        under(server_d(s), "binlog-current-index".spec_bytes()) == Some(decimal(s.binlog_current_index as nat)),
        under(server_d(s), "binlog-records-migrated".spec_bytes()) == Some(decimal(s.binlog_records_migrated as nat)),
        under(server_d(s), "binlog-records-written".spec_bytes()) == Some(decimal(s.binlog_records_written as nat)),
        under(server_d(s), "binlog-max-size".spec_bytes()) == Some(decimal(s.binlog_max_size as nat)),
        under(server_d(s), "draining".spec_bytes()) == Some(truth(s.draining)),
        under(server_d(s), "id".spec_bytes()) == Some(encode_utf8(s.id@)),
        under(server_d(s), "hostname".spec_bytes()) == Some(quoted(encode_utf8(s.hostname@))),
        under(server_d(s), "os".spec_bytes()) == Some(quoted(encode_utf8(s.os@))),
        under(server_d(s), "platform".spec_bytes()) == Some(quoted(encode_utf8(s.platform@))),
{
    lemma_server_keys_a();
    lemma_server_keys_b();
    lemma_server_keys_c();
    lemma_server_keys_d();
    lemma_server_c(s);
    lemma_digits_line(s.binlog_current_index as nat);
    lemma_digits_line(s.binlog_records_migrated as nat);
    lemma_digits_line(s.binlog_records_written as nat);
    lemma_digits_line(s.binlog_max_size as nat);
    lemma_truth_line(s.draining);
    lemma_quoted_line(encode_utf8(s.hostname@));
    lemma_quoted_line(encode_utf8(s.os@));
    lemma_quoted_line(encode_utf8(s.platform@));
    let r = server_c(s);
    lemma_fresh_lines_7(
        r,
        "binlog-current-index: ".spec_bytes(),
        "binlog-current-index".spec_bytes(),
        decimal(s.binlog_current_index as nat),
        "binlog-records-migrated: ".spec_bytes(),
        "binlog-records-migrated".spec_bytes(),
        decimal(s.binlog_records_migrated as nat),
        "binlog-records-written: ".spec_bytes(),
        "binlog-records-written".spec_bytes(),
        decimal(s.binlog_records_written as nat),
        "binlog-max-size: ".spec_bytes(),
        "binlog-max-size".spec_bytes(),
        decimal(s.binlog_max_size as nat),
        "draining: ".spec_bytes(),
        "draining".spec_bytes(),
        truth(s.draining),
        "id: ".spec_bytes(),
        "id".spec_bytes(),
        encode_utf8(s.id@),
        "hostname: ".spec_bytes(),
        "hostname".spec_bytes(),
        quoted(encode_utf8(s.hostname@)),
    );
    let r = r + text("binlog-current-index: ".spec_bytes(), decimal(s.binlog_current_index as nat));
    let r = r + text("binlog-records-migrated: ".spec_bytes(), decimal(s.binlog_records_migrated as nat));
    let r = r + text("binlog-records-written: ".spec_bytes(), decimal(s.binlog_records_written as nat));
    let r = r + text("binlog-max-size: ".spec_bytes(), decimal(s.binlog_max_size as nat));
    let r = r + text("draining: ".spec_bytes(), truth(s.draining));
    let r = r + text("id: ".spec_bytes(), encode_utf8(s.id@));
    let r = r + text("hostname: ".spec_bytes(), quoted(encode_utf8(s.hostname@)));
    lemma_fresh_lines_2(
        r,
        "os: ".spec_bytes(),
        "os".spec_bytes(),
        quoted(encode_utf8(s.os@)),
        "platform: ".spec_bytes(),
        "platform".spec_bytes(),
        quoted(encode_utf8(s.platform@)),
    );
    let r = r + text("os: ".spec_bytes(), quoted(encode_utf8(s.os@)));
    let r = r + text("platform: ".spec_bytes(), quoted(encode_utf8(s.platform@)));
    assert(r == server_d(s)) by {
        reveal(text);
        reveal(server_d);
    }
}

/// Read key by key, the payload of stats says under each key what the key is for.
pub proof fn server_report_reads_back(s: StatsServer)
    requires
        one_line(encode_utf8(s.version@)),
        one_line(encode_utf8(s.id@)),
        one_line(encode_utf8(s.hostname@)),
        one_line(encode_utf8(s.os@)),
        one_line(encode_utf8(s.platform@)),
    ensures
        ({
            let r = server_yaml(s);
            &&& stat_value(r, "current-jobs-urgent".spec_bytes()) == Some(decimal(s.current_jobs_urgent as nat))
            &&& stat_value(r, "current-jobs-ready".spec_bytes()) == Some(decimal(s.current_jobs_ready as nat))
            &&& stat_value(r, "current-jobs-reserved".spec_bytes()) == Some(decimal(s.current_jobs_reserved as nat))
            &&& stat_value(r, "current-jobs-delayed".spec_bytes()) == Some(decimal(s.current_jobs_delayed as nat))
            &&& stat_value(r, "current-jobs-buried".spec_bytes()) == Some(decimal(s.current_jobs_buried as nat))
            &&& stat_value(r, "cmd-put".spec_bytes()) == Some(decimal(s.cmd_put as nat))
            &&& stat_value(r, "cmd-peek".spec_bytes()) == Some(decimal(s.cmd_peek as nat))
            &&& stat_value(r, "cmd-peek-ready".spec_bytes()) == Some(decimal(s.cmd_peek_ready as nat))
            &&& stat_value(r, "cmd-peek-delayed".spec_bytes()) == Some(decimal(s.cmd_peek_delayed as nat))
            &&& stat_value(r, "cmd-peek-buried".spec_bytes()) == Some(decimal(s.cmd_peek_buried as nat))
            &&& stat_value(r, "cmd-reserve".spec_bytes()) == Some(decimal(s.cmd_reserve as nat))
            &&& stat_value(r, "cmd-reserve-with-timeout".spec_bytes()) == Some(decimal(s.cmd_reserve_with_timeout as nat))
            &&& stat_value(r, "cmd-delete".spec_bytes()) == Some(decimal(s.cmd_delete as nat))
            &&& stat_value(r, "cmd-release".spec_bytes()) == Some(decimal(s.cmd_release as nat))
            &&& stat_value(r, "cmd-use".spec_bytes()) == Some(decimal(s.cmd_use as nat))
            &&& stat_value(r, "cmd-watch".spec_bytes()) == Some(decimal(s.cmd_watch as nat))
            &&& stat_value(r, "cmd-ignore".spec_bytes()) == Some(decimal(s.cmd_ignore as nat))
            &&& stat_value(r, "cmd-bury".spec_bytes()) == Some(decimal(s.cmd_bury as nat))
            &&& stat_value(r, "cmd-kick".spec_bytes()) == Some(decimal(s.cmd_kick as nat))
            &&& stat_value(r, "cmd-touch".spec_bytes()) == Some(decimal(s.cmd_touch as nat))
            &&& stat_value(r, "cmd-stats".spec_bytes()) == Some(decimal(s.cmd_stats as nat))
            &&& stat_value(r, "cmd-stats-job".spec_bytes()) == Some(decimal(s.cmd_stats_job as nat))
            &&& stat_value(r, "cmd-stats-tube".spec_bytes()) == Some(decimal(s.cmd_stats_tube as nat))
            &&& stat_value(r, "cmd-list-tubes".spec_bytes()) == Some(decimal(s.cmd_list_tubes as nat))
            &&& stat_value(r, "cmd-list-tube-used".spec_bytes()) == Some(decimal(s.cmd_list_tube_used as nat))
            &&& stat_value(r, "cmd-list-tubes-watched".spec_bytes()) == Some(decimal(s.cmd_list_tubes_watched as nat))
            &&& stat_value(r, "cmd-pause-tube".spec_bytes()) == Some(decimal(s.cmd_pause_tube as nat))
            &&& stat_value(r, "job-timeouts".spec_bytes()) == Some(decimal(s.job_timeouts as nat))
            &&& stat_value(r, "total-jobs".spec_bytes()) == Some(decimal(s.total_jobs as nat))
            &&& stat_value(r, "max-job-size".spec_bytes()) == Some(decimal(s.max_job_size as nat))
            &&& stat_value(r, "current-tubes".spec_bytes()) == Some(decimal(s.current_tubes as nat))
            &&& stat_value(r, "current-connections".spec_bytes()) == Some(decimal(s.current_connections as nat))
            &&& stat_value(r, "current-producers".spec_bytes()) == Some(decimal(s.current_producers as nat))
            &&& stat_value(r, "current-workers".spec_bytes()) == Some(decimal(s.current_workers as nat))
            &&& stat_value(r, "current-waiting".spec_bytes()) == Some(decimal(s.current_waiting as nat))
            &&& stat_value(r, "total-connections".spec_bytes()) == Some(decimal(s.total_connections as nat))
            &&& stat_value(r, "pid".spec_bytes()) == Some(decimal(s.pid as nat))
            &&& stat_value(r, "version".spec_bytes()) == Some(quoted(encode_utf8(s.version@)))
            &&& stat_value(r, "rusage-utime".spec_bytes()) == Some(seconds(s.rusage_utime))
            &&& stat_value(r, "rusage-stime".spec_bytes()) == Some(seconds(s.rusage_stime))
            &&& stat_value(r, "uptime".spec_bytes()) == Some(decimal(s.uptime as nat))
            &&& stat_value(r, "binlog-oldest-index".spec_bytes()) == Some(decimal(s.binlog_oldest_index as nat))
            &&& stat_value(r, "binlog-current-index".spec_bytes()) == Some(decimal(s.binlog_current_index as nat))
            &&& stat_value(r, "binlog-records-migrated".spec_bytes()) == Some(decimal(s.binlog_records_migrated as nat))
            &&& stat_value(r, "binlog-records-written".spec_bytes()) == Some(decimal(s.binlog_records_written as nat))
            &&& stat_value(r, "binlog-max-size".spec_bytes()) == Some(decimal(s.binlog_max_size as nat))
            &&& stat_value(r, "draining".spec_bytes()) == Some(truth(s.draining))
            &&& stat_value(r, "id".spec_bytes()) == Some(encode_utf8(s.id@))
            &&& stat_value(r, "hostname".spec_bytes()) == Some(quoted(encode_utf8(s.hostname@)))
            &&& stat_value(r, "os".spec_bytes()) == Some(quoted(encode_utf8(s.os@)))
            &&& stat_value(r, "platform".spec_bytes()) == Some(quoted(encode_utf8(s.platform@)))
        }),
{
    lemma_server_d(s);
    assert(server_yaml(s) == server_d(s)) by {
        reveal(server_yaml);
        reveal(server_a);
        reveal(server_b);
        reveal(server_c);
        reveal(server_d);
    }
    reveal(under);
}

/// A number's digits are read as the number.
proof fn lemma_plain_number(n: nat, max: nat)
    requires
        n <= max,
    ensures
        plain_number(decimal(n), max) == Some(n),
{
    digits_spell_the_number(n);
    let d = decimal(n);
    assert(Class::Digit.has(d[0]));
    assert(all_digits(d));
}

/// A number in a report is read back as that number.
pub proof fn figures_are_read_as_numbers(report: Seq<u8>, key: Seq<u8>, n: nat)
    requires
        stat_value(report, key) == Some(decimal(n)),
        n <= u64::MAX,
    ensures
        stat_number(report, key) == Some(n),
{
    digits_spell_the_number(n);
    let d = decimal(n);
    let c = Seq::new(d.len(), |i: int| d[i] as char);
    assert forall|i: int| 0 <= i < d.len() implies 48 <= #[trigger] d[i] <= 57 by {
        assert(Class::Digit.has(d[i]));
    }
    assert forall|i: int| 0 <= i < c.len() implies '\0' <= #[trigger] c[i] <= '\u{7f}' && c[i] as u8
        == d[i] && !white(c[i]) by {
        let b = d[i];
        assert(48 <= b <= 57);
        assert(c[i] == b as char);
    }
    is_ascii_chars_encode_utf8(c);
    assert(encode_utf8(c) =~= d);
    encode_utf8_decode_utf8(c);
    assert(trim_front(c) == c);
    assert(trim_back(c) == c);
    lemma_plain_number(n, u64::MAX as nat);
}

/// The names of the states fit on one line.
proof fn lemma_state_line(s: JobState)
    ensures
        one_line(state_text(s)),
{
    reveal(one_line);
    reveal_strlit("ready");
    reveal_strlit("reserved");
    reveal_strlit("delayed");
    reveal_strlit("buried");
    is_ascii_chars_encode_utf8("ready"@);
    is_ascii_chars_encode_utf8("reserved"@);
    is_ascii_chars_encode_utf8("delayed"@);
    is_ascii_chars_encode_utf8("buried"@);
}

/// Whole seconds from `a` to `b`, none if `b` comes first.
pub open spec fn seconds_from(a: Nanos, b: Nanos) -> nat {
    if b > a {
        ((b - a) / 1_000_000_000) as nat
    } else {
        0
    }
}

/// Whether the report holds the number `n` under `key`.
pub open spec fn says_number(report: Seq<u8>, key: &str, n: nat) -> bool {
    stat_value(report, key.spec_bytes()) == Some(decimal(n))
}

/// stats-job: read key by key, the reply tells what the job is: its number, tube,
/// state, priority, age, delay, time to run, what is left of its delay or of its
/// reservation, and how often it was reserved, timed out, was released, buried
/// and kicked. Nothing changes.
pub proof fn stats_job_tells_of_the_job(
    m: Model,
    now: Nanos,
    c: ConnId,
    id: JobId,
    sys: SysSnapshot,
    out: Out,
)
    requires
        m.conns.contains_key(c),
        m.jobs.contains_key(id) ==> one_line(m.tube(m.jobs[id].tube).name),
    ensures
        ({
            let (n, o) = m.handle(now, c, CommandView::StatsJob(id), sys, out);
            let j = m.jobs[id];
            let r = o.last().1->OkBody_0;
            &&& one_more_long(m.ops.cmd_stats_job, n.ops.cmd_stats_job)
            &&& only_counted(m, n)
            &&& !m.jobs.contains_key(id) ==> o == out.push((c, ResponseView::NotFound))
            &&& m.jobs.contains_key(id) ==> {
                &&& o == out.push((c, ResponseView::OkBody(r)))
                &&& says_number(r, "id", id as nat)
                &&& stat_value(r, "tube".spec_bytes()) == Some(quoted(m.tube(j.tube).name))
                &&& stat_value(r, "state".spec_bytes()) == Some(
                    match j.state {
                        JobState::Ready => "ready".spec_bytes(),
                        JobState::Reserved => "reserved".spec_bytes(),
                        JobState::Delayed => "delayed".spec_bytes(),
                        JobState::Buried => "buried".spec_bytes(),
                    },
                )
                &&& says_number(r, "pri", j.pri as nat)
                &&& says_number(r, "age", seconds_from(j.created_at, now))
                &&& says_number(r, "delay", j.delay as nat)
                &&& says_number(r, "ttr", j.ttr as nat)
                &&& says_number(
                    r,
                    "time-left",
                    if j.state == JobState::Reserved || j.state == JobState::Delayed {
                        seconds_from(now, j.deadline_at)
                    } else {
                        0
                    },
                )
                &&& says_number(r, "file", j.file as nat)
                &&& says_number(r, "reserves", j.reserve_ct as nat)
                &&& says_number(r, "timeouts", j.timeout_ct as nat)
                &&& says_number(r, "releases", j.release_ct as nat)
                &&& says_number(r, "buries", j.bury_ct as nat)
                &&& says_number(r, "kicks", j.kick_ct as nat)
            }
        }),
{
    if m.jobs.contains_key(id) {
        let k = Model {
            ops: OpCounts { cmd_stats_job: bump(m.ops.cmd_stats_job), ..m.ops },
            ..m
        };
        let s = k.job_stats(id, now);
        lemma_state_line(m.jobs[id].state);
        assert(k.tube(m.jobs[id].tube) == m.tube(m.jobs[id].tube));
        job_report_reads_back(s);
        let j = m.jobs[id];
        assert(s.age as nat == seconds_from(j.created_at, now));
        assert(s.time_left as nat == (if j.state == JobState::Reserved || j.state
            == JobState::Delayed {
            seconds_from(now, j.deadline_at)
        } else {
            0
        }));
    }
}

/// How many jobs of tube `t` there are in state `s`.
pub open spec fn jobs_in(m: Model, t: TubeId, s: JobState) -> nat {
    m.jobs.dom().filter(|id: JobId| m.jobs[id].tube == t && m.jobs[id].state == s).len()
}

/// How many jobs there are in state `s`.
pub open spec fn all_jobs_in(m: Model, s: JobState) -> nat {
    m.jobs.dom().filter(|id: JobId| m.jobs[id].state == s).len()
}

/// stats-tube: read key by key, the reply tells of the tube of that name how many
/// of its jobs are in each state and how many of the ready ones have a priority
/// below 1024, how many connections use it, watch it and wait on it, what was
/// counted of it, and how long it is paused and for how much longer. Nothing
/// changes.
pub proof fn stats_tube_tells_of_the_tube(
    e: Engine,
    now: Nanos,
    c: ConnId,
    t: TubeId,
    sys: SysSnapshot,
    out: Out,
)
    requires
        e.wf(),
        e@.conns.contains_key(c),
        e@.live(t),
        one_line(e@.tube(t).name),
    ensures
        ({
            let m = e@;
            let v = m.tube(t);
            let (n, o) = m.handle(now, c, CommandView::StatsTube(v.name), sys, out);
            let r = o.last().1->OkBody_0;
            &&& one_more_long(m.ops.cmd_stats_tube, n.ops.cmd_stats_tube)
            &&& only_counted(m, n)
            &&& o == out.push((c, ResponseView::OkBody(r)))
            &&& stat_value(r, "name".spec_bytes()) == Some(quoted(v.name))
            &&& says_number(
                r,
                "current-jobs-urgent",
                m.jobs.dom().filter(
                    |id: JobId|
                        m.jobs[id].tube == t && m.jobs[id].state == JobState::Ready
                            && m.jobs[id].pri < 1024,
                ).len(),
            )
            &&& says_number(r, "current-jobs-ready", jobs_in(m, t, JobState::Ready))
            &&& says_number(r, "current-jobs-reserved", jobs_in(m, t, JobState::Reserved))
            &&& says_number(r, "current-jobs-delayed", jobs_in(m, t, JobState::Delayed))
            &&& says_number(r, "current-jobs-buried", jobs_in(m, t, JobState::Buried))
            &&& says_number(r, "total-jobs", v.total_jobs_ct as nat)
            &&& says_number(
                r,
                "current-using",
                m.conns.dom().filter(|d: ConnId| m.conns[d].use_tube == t).len(),
            )
            &&& says_number(
                r,
                "current-watching",
                m.conns.dom().filter(|d: ConnId| m.conns[d].watch.items.contains(t)).len(),
            )
            &&& says_number(
                r,
                "current-waiting",
                m.conns.dom().filter(
                    |d: ConnId| m.conns[d].waiting && m.conns[d].watch.items.contains(t),
                ).len(),
            )
            &&& says_number(r, "cmd-delete", v.total_delete_ct as nat)
            &&& says_number(r, "cmd-pause-tube", v.pause_ct as nat)
            &&& says_number(r, "pause", (v.pause / 1_000_000_000) as nat)
            &&& says_number(
                r,
                "pause-time-left",
                if v.pause > 0 {
                    seconds_from(now, v.unpause_at)
                } else {
                    0
                },
            )
        }),
{
    let m = e@;
    let v = m.tube(t);
    e.engine_is_orderly();
    let k = Model { ops: OpCounts { cmd_stats_tube: bump(m.ops.cmd_stats_tube), ..m.ops }, ..m };
    lemma_counted(m, k);
    assert(k.live(t) && k.tube(t) == v);
    lemma_named(k, t);
    let s = k.tube_stats(t, now);
    tube_report_reads_back(s);
    e.tube_counts_fit(t);
    let (jobs, conns) = (m.jobs, m.conns);
    assert(picked_jobs(jobs, JobSel::UrgentIn(t)) =~= jobs.dom().filter(
        |id: JobId|
            jobs[id].tube == t && jobs[id].state == JobState::Ready && jobs[id].pri < 1024,
    ));
    assert(picked_jobs(jobs, JobSel::ReadyIn(t)) =~= jobs.dom().filter(
        |id: JobId| jobs[id].tube == t && jobs[id].state == JobState::Ready,
    ));
    assert(picked_jobs(jobs, JobSel::ReservedIn(t)) =~= jobs.dom().filter(
        |id: JobId| jobs[id].tube == t && jobs[id].state == JobState::Reserved,
    ));
    assert(picked_jobs(jobs, JobSel::DelayedIn(t)) =~= jobs.dom().filter(
        |id: JobId| jobs[id].tube == t && jobs[id].state == JobState::Delayed,
    ));
    assert(v.buried.to_set() =~= jobs.dom().filter(
        |id: JobId| jobs[id].tube == t && jobs[id].state == JobState::Buried,
    )) by {
        assert forall|id: JobId| v.buried.to_set().contains(id) == jobs.dom().filter(
            |id: JobId| jobs[id].tube == t && jobs[id].state == JobState::Buried,
        ).contains(id) by {
            assert(m.tube(t).buried.contains(id) <==> m.jobs.contains_key(id) && m.jobs[id].state
                == JobState::Buried && m.jobs[id].tube == t);
        }
    }
    v.buried.unique_seq_to_set();
    assert(v.waiting.items.to_set() =~= conns.dom().filter(
        |d: ConnId| conns[d].waiting && conns[d].watch.items.contains(t),
    )) by {
        assert forall|d: ConnId| v.waiting.items.to_set().contains(d) == conns.dom().filter(
            |d: ConnId| conns[d].waiting && conns[d].watch.items.contains(t),
        ).contains(d) by {
            assert(m.tube(t).waiting.items.contains(d) <==> m.conns.contains_key(d)
                && m.conns[d].waiting && m.conns[d].watch.items.contains(t));
        }
    }
    v.waiting.items.unique_seq_to_set();
    assert(picked_conns(conns, ConnSel::Uses(t)) =~= conns.dom().filter(
        |d: ConnId| conns[d].use_tube == t,
    ));
    assert(picked_conns(conns, ConnSel::Watches(t)) =~= conns.dom().filter(
        |d: ConnId| conns[d].watch.items.contains(t),
    ));
}

/// The names that a list holds: what follows a dash and a space on each line.
pub open spec fn listed_names(s: Seq<u8>) -> Seq<Seq<u8>>
    decreases s.len(),
{
    let n = line_end(s);
    if s.len() == 0 || n < 0 || n > s.len() {
        Seq::empty()
    } else {
        let l = s.take(n);
        let rest = if n < s.len() {
            listed_names(s.skip(n + 1))
        } else {
            Seq::empty()
        };
        if l.len() >= 2 && l[0] == 45 && l[1] == 32 {
            seq![l.skip(2)] + rest
        } else {
            rest
        }
    }
}

/// The names of a list and of another that follows it.
proof fn lemma_lists_join(a: Seq<u8>, b: Seq<u8>)
    requires
        a.len() > 0,
        a.last() == 10,
    ensures
        listed_names(a + b) == listed_names(a) + listed_names(b),
    decreases a.len(),
{
    lemma_same_end(a, b);
    let n = line_end(a);
    assert((a + b).take(n) =~= a.take(n));
    let rest = a.skip(n + 1);
    assert((a + b).skip(n + 1) =~= rest + b);
    if rest.len() > 0 {
        assert(rest.last() == a.last());
        lemma_lists_join(rest, b);
        let l = a.take(n);
        if l.len() >= 2 && l[0] == 45 && l[1] == 32 {
            assert(seq![l.skip(2)] + (listed_names(rest) + listed_names(b)) =~= seq![l.skip(2)]
                + listed_names(rest) + listed_names(b));
        }
    } else {
        assert(rest + b =~= b);
        assert(listed_names(rest) =~= Seq::<Seq<u8>>::empty());
        assert(listed_names(a + b) =~= listed_names(a) + listed_names(b));
    }
}

/// A list names what it was made of, in that order.
pub proof fn a_list_reads_back(names: Seq<Seq<u8>>)
    requires
        forall|i: int| 0 <= i < names.len() ==> one_line(#[trigger] names[i]),
    ensures
        listed_names(list_yaml(names)) == names,
        list_yaml(names).len() > 0,
        list_yaml(names).last() == 10,
    decreases names.len(),
{
    lemma_line_feed();
    if names.len() == 0 {
        reveal_strlit("---\n");
        is_ascii_chars_encode_utf8("---\n"@);
        let h = "---\n".spec_bytes();
        assert(h =~= seq![45u8, 45u8, 45u8, 10u8]);
        lemma_line_end(h, 3);
        assert(h.skip(4) =~= Seq::<u8>::empty());
        assert(listed_names(h.skip(4)) =~= Seq::<Seq<u8>>::empty());
        assert(h.take(3)[1] == 45);
        assert(listed_names(h) =~= names);
    } else {
        let front = names.drop_last();
        assert forall|i: int| 0 <= i < front.len() implies one_line(#[trigger] front[i]) by {
            assert(front[i] == names[i]);
        }
        a_list_reads_back(front);
        reveal_strlit("- ");
        is_ascii_chars_encode_utf8("- "@);
        let name = names.last();
        let l = line("- ", name);
        assert("- ".spec_bytes() =~= seq![45u8, 32u8]);
        assert(l =~= seq![45u8, 32u8] + name + seq![10u8]);
        lemma_lists_join(list_yaml(front), l);
        let n = (name.len() + 2) as int;
        assert(one_line(name)) by {
            assert(names[names.len() - 1] == name);
        }
        assert forall|i: int| 0 <= i < n implies l[i] != 10 by {
            reveal(one_line);
            if i >= 2 {
                assert(l[i] == name[i - 2]);
            }
        }
        lemma_line_end(l, n);
        assert(l.take(n).skip(2) =~= name);
        assert(l.skip(n + 1) =~= Seq::<u8>::empty());
        assert(listed_names(l.skip(n + 1)) =~= Seq::<Seq<u8>>::empty());
        assert(listed_names(l) =~= seq![name]);
        assert(front + seq![name] =~= names);
        assert((list_yaml(front) + l).last() == l.last());
    }
}

/// list-tubes: the reply names every tube that exists, once, in the order of the
/// list. Nothing changes.
pub proof fn list_tubes_names_every_tube(
    m: Model,
    now: Nanos,
    c: ConnId,
    sys: SysSnapshot,
    out: Out,
)
    requires
        orderly(m),
        m.conns.contains_key(c),
        forall|t: TubeId| #[trigger] m.live(t) ==> one_line(m.tube(t).name),
    ensures
        ({
            let (n, o) = m.handle(now, c, CommandView::ListTubes, sys, out);
            let r = o.last().1->OkBody_0;
            let names = listed_names(r);
            &&& o == out.push((c, ResponseView::OkBody(r)))
            &&& names.len() == m.order.items.len()
            &&& names.no_duplicates()
            &&& forall|i: int|
                0 <= i < names.len() ==> #[trigger] names[i] == m.tube(m.order.items[i]).name
            &&& forall|t: TubeId| #[trigger] m.live(t) ==> names.contains(m.tube(t).name)
            &&& one_more_long(m.ops.cmd_list_tubes, n.ops.cmd_list_tubes)
            &&& only_counted(m, n)
        }),
{
    let k = Model { ops: OpCounts { cmd_list_tubes: bump(m.ops.cmd_list_tubes), ..m.ops }, ..m };
    let items = m.order.items;
    let names = k.names_of(items);
    assert forall|i: int| 0 <= i < names.len() implies one_line(#[trigger] names[i]) && names[i]
        == m.tube(items[i]).name && m.live(items[i]) by {
        assert(items.contains(items[i]));
        assert(m.live(items[i]));
        assert(k.tube(items[i]) == m.tube(items[i]));
    }
    a_list_reads_back(names);
    assert forall|t: TubeId| #[trigger] m.live(t) implies names.contains(m.tube(t).name) by {
        assert(items.contains(t));
        let i = items.index_of(t);
        assert(names[i] == m.tube(t).name);
    }
}

/// list-tubes-watched: the reply names the tubes that the connection watches, in
/// the order of its list. Nothing changes.
pub proof fn list_tubes_watched_names_them(
    m: Model,
    now: Nanos,
    c: ConnId,
    sys: SysSnapshot,
    out: Out,
)
    requires
        orderly(m),
        m.conns.contains_key(c),
        forall|t: TubeId| #[trigger] m.live(t) ==> one_line(m.tube(t).name),
    ensures
        ({
            let (n, o) = m.handle(now, c, CommandView::ListTubesWatched, sys, out);
            let r = o.last().1->OkBody_0;
            let names = listed_names(r);
            let watched = m.conns[c].watch.items;
            &&& o == out.push((c, ResponseView::OkBody(r)))
            &&& names.len() == watched.len()
            &&& forall|i: int|
                0 <= i < names.len() ==> #[trigger] names[i] == m.tube(watched[i]).name
            &&& one_more_long(m.ops.cmd_list_tubes_watched, n.ops.cmd_list_tubes_watched)
            &&& only_counted(m, n)
        }),
{
    let k = Model {
        ops: OpCounts { cmd_list_tubes_watched: bump(m.ops.cmd_list_tubes_watched), ..m.ops },
        ..m
    };
    let items = m.conns[c].watch.items;
    let names = k.names_of(items);
    assert forall|i: int| 0 <= i < names.len() implies one_line(#[trigger] names[i]) && names[i]
        == m.tube(items[i]).name by {
        assert(items.contains(items[i]));
        assert(m.live(items[i]));
        assert(k.tube(items[i]) == m.tube(items[i]));
    }
    a_list_reads_back(names);
}

/// stats: read key by key, the reply tells how many jobs are in each state and how
/// many of the ready ones have a priority below 1024, how often each command was
/// given (this one included), what was counted of all jobs and connections, how
/// many tubes and connections there are and how many of these put, reserve and
/// wait, for how many whole seconds the server has run, how it is set up, and
/// what the host says of itself. Nothing else changes.
#[verifier::rlimit(60)]
pub proof fn stats_tells_of_the_server(
    e: Engine,
    now: Nanos,
    c: ConnId,
    sys: SysSnapshot,
    out: Out,
)
    requires
        e.wf(),
        e@.conns.contains_key(c),
        one_line(encode_utf8(sys.version@)),
        one_line(encode_utf8(sys.id@)),
        one_line(encode_utf8(sys.hostname@)),
        one_line(encode_utf8(sys.os@)),
        one_line(encode_utf8(sys.platform@)),
    ensures
        ({
            let m = e@;
            let (n, o) = m.handle(now, c, CommandView::Stats, sys, out);
            let r = o.last().1->OkBody_0;
            &&& o == out.push((c, ResponseView::OkBody(r)))
            &&& one_more_long(m.ops.cmd_stats, n.ops.cmd_stats)
            &&& n == (Model { ops: OpCounts { cmd_stats: n.ops.cmd_stats, ..m.ops }, ..m })
            &&& says_number(
                r,
                "current-jobs-urgent",
                m.jobs.dom().filter(
                    |id: JobId| m.jobs[id].state == JobState::Ready && m.jobs[id].pri < 1024,
                ).len(),
            )
            &&& says_number(r, "current-jobs-ready", all_jobs_in(m, JobState::Ready))
            &&& says_number(r, "current-jobs-reserved", all_jobs_in(m, JobState::Reserved))
            &&& says_number(r, "current-jobs-delayed", all_jobs_in(m, JobState::Delayed))
            &&& says_number(r, "current-jobs-buried", all_jobs_in(m, JobState::Buried))
            &&& says_number(r, "cmd-put", n.ops.cmd_put as nat)
            &&& says_number(r, "cmd-peek", n.ops.cmd_peek as nat)
            &&& says_number(r, "cmd-peek-ready", n.ops.cmd_peek_ready as nat)
            &&& says_number(r, "cmd-peek-delayed", n.ops.cmd_peek_delayed as nat)
            &&& says_number(r, "cmd-peek-buried", n.ops.cmd_peek_buried as nat)
            &&& says_number(r, "cmd-reserve", n.ops.cmd_reserve as nat)
            &&& says_number(r, "cmd-reserve-with-timeout", n.ops.cmd_reserve_with_timeout as nat)
            &&& says_number(r, "cmd-delete", n.ops.cmd_delete as nat)
            &&& says_number(r, "cmd-release", n.ops.cmd_release as nat)
            &&& says_number(r, "cmd-use", n.ops.cmd_use as nat)
            &&& says_number(r, "cmd-watch", n.ops.cmd_watch as nat)
            &&& says_number(r, "cmd-ignore", n.ops.cmd_ignore as nat)
            &&& says_number(r, "cmd-bury", n.ops.cmd_bury as nat)
            &&& says_number(r, "cmd-kick", n.ops.cmd_kick as nat)
            &&& says_number(r, "cmd-touch", n.ops.cmd_touch as nat)
            &&& says_number(r, "cmd-stats", n.ops.cmd_stats as nat)
            &&& says_number(r, "cmd-stats-job", n.ops.cmd_stats_job as nat)
            &&& says_number(r, "cmd-stats-tube", n.ops.cmd_stats_tube as nat)
            &&& says_number(r, "cmd-list-tubes", n.ops.cmd_list_tubes as nat)
            &&& says_number(r, "cmd-list-tube-used", n.ops.cmd_list_tube_used as nat)
            &&& says_number(r, "cmd-list-tubes-watched", n.ops.cmd_list_tubes_watched as nat)
            &&& says_number(r, "cmd-pause-tube", n.ops.cmd_pause_tube as nat)
            &&& says_number(r, "job-timeouts", m.timeout_ct as nat)
            &&& says_number(r, "total-jobs", m.total_jobs_ct as nat)
            &&& says_number(r, "max-job-size", m.cfg.max_job_size as nat)
            &&& says_number(r, "current-tubes", m.order.items.len())
            &&& says_number(r, "current-connections", m.conns.dom().len())
            &&& says_number(
                r,
                "current-producers",
                m.conns.dom().filter(|d: ConnId| m.conns[d].is_producer).len(),
            )
            &&& says_number(
                r,
                "current-workers",
                m.conns.dom().filter(|d: ConnId| m.conns[d].is_worker).len(),
            )
            &&& says_number(
                r,
                "current-waiting",
                m.conns.dom().filter(|d: ConnId| m.conns[d].waiting).len(),
            )
            &&& says_number(r, "total-connections", m.tot_conns as nat)
            &&& says_number(r, "pid", sys.pid as nat)
            &&& stat_value(r, "version".spec_bytes()) == Some(quoted(encode_utf8(sys.version@)))
            &&& stat_value(r, "rusage-utime".spec_bytes()) == Some(seconds(sys.rusage_utime))
            &&& stat_value(r, "rusage-stime".spec_bytes()) == Some(seconds(sys.rusage_stime))
            &&& says_number(r, "uptime", seconds_from(m.start, now))
            &&& says_number(r, "binlog-oldest-index", m.binlog.oldest_index as nat)
            &&& says_number(r, "binlog-current-index", m.binlog.current_index as nat)
            &&& says_number(r, "binlog-records-migrated", m.binlog.records_migrated as nat)
            &&& says_number(r, "binlog-records-written", m.binlog.records_written as nat)
            &&& says_number(r, "binlog-max-size", m.cfg.binlog_max_size as nat)
            &&& stat_value(r, "draining".spec_bytes()) == Some(
                if m.draining {
                    "true".spec_bytes()
                } else {
                    "false".spec_bytes()
                },
            )
            &&& stat_value(r, "id".spec_bytes()) == Some(encode_utf8(sys.id@))
            &&& stat_value(r, "hostname".spec_bytes()) == Some(quoted(encode_utf8(sys.hostname@)))
            &&& stat_value(r, "os".spec_bytes()) == Some(quoted(encode_utf8(sys.os@)))
            &&& stat_value(r, "platform".spec_bytes()) == Some(quoted(encode_utf8(sys.platform@)))
        }),
{
    let m = e@;
    let k = Model { ops: OpCounts { cmd_stats: bump(m.ops.cmd_stats), ..m.ops }, ..m };
    let s = k.server_stats(now, sys);
    server_report_reads_back(s);
    e.server_counts_fit();
    let (jobs, conns) = (m.jobs, m.conns);
    assert(picked_jobs(jobs, JobSel::Urgent) =~= jobs.dom().filter(
        |id: JobId| jobs[id].state == JobState::Ready && jobs[id].pri < 1024,
    ));
    assert(picked_jobs(jobs, JobSel::Ready) =~= jobs.dom().filter(
        |id: JobId| jobs[id].state == JobState::Ready,
    ));
    assert(picked_jobs(jobs, JobSel::Reserved) =~= jobs.dom().filter(
        |id: JobId| jobs[id].state == JobState::Reserved,
    ));
    assert(picked_jobs(jobs, JobSel::Delayed) =~= jobs.dom().filter(
        |id: JobId| jobs[id].state == JobState::Delayed,
    ));
    assert(picked_jobs(jobs, JobSel::Buried) =~= jobs.dom().filter(
        |id: JobId| jobs[id].state == JobState::Buried,
    ));
    assert(picked_conns(conns, ConnSel::Producer) =~= conns.dom().filter(
        |d: ConnId| conns[d].is_producer,
    ));
    assert(picked_conns(conns, ConnSel::Worker) =~= conns.dom().filter(
        |d: ConnId| conns[d].is_worker,
    ));
    assert(picked_conns(conns, ConnSel::Waiting) =~= conns.dom().filter(
        |d: ConnId| conns[d].waiting,
    ));
    assert(s.uptime as nat == seconds_from(m.start, now));
}

/// A time is spelt as its whole seconds, a dot, and its microseconds in six digits;
/// a text in quotes begins and ends with one and is otherwise the text.
pub proof fn times_and_texts_are_spelt(t: (u64, u64), text: Seq<u8>)
    requires
        t.1 < 1_000_000,
    ensures
        ({
            let s = seconds(t);
            let k = s.len() - 7;
            &&& k >= 1
            &&& number(s.take(k)) == t.0
            &&& s[k] == 46
            &&& number(s.skip(k + 1)) == t.1
            &&& forall|i: int| k < i < s.len() ==> 48 <= #[trigger] s[i] <= 57
            &&& quoted(text) == seq![34u8] + text + seq![34u8]
        }),
{
    reveal_strlit(".");
    is_ascii_chars_encode_utf8("."@);
    reveal_strlit("\"");
    is_ascii_chars_encode_utf8("\""@);
    let (a, b) = (decimal(t.0 as nat), decimal(t.1 as nat));
    digits_spell_the_number(t.0 as nat);
    digits_spell_the_number(t.1 as nat);
    assert(b.len() <= 6) by {
        reveal_with_fuel(decimal, 7);
    }
    let p = padded(t.1 as nat, 6);
    let z = zeros((6 - b.len()) as nat);
    assert(p =~= z + b);
    lemma_zeros_before(b, (6 - b.len()) as nat);
    let s = seconds(t);
    assert(".".spec_bytes() =~= seq![46u8]);
    assert(s.take(a.len() as int) =~= a);
    assert(s.skip(a.len() as int + 1) =~= p);
    assert forall|i: int| a.len() < i < s.len() implies 48 <= #[trigger] s[i] <= 57 by {
        let j = i - a.len() - 1;
        assert(s[i] == p[j]);
        if j >= z.len() {
            assert(Class::Digit.has(b[j - z.len()]));
        }
    }
    assert("\"".spec_bytes() =~= seq![34u8]);
}

/// Zeros before a number leave it as it is.
proof fn lemma_zeros_before(d: Seq<u8>, n: nat)
    ensures
        number(zeros(n) + d) == number(d),
    decreases d.len(), n,
{
    let s = zeros(n) + d;
    if d.len() > 0 {
        assert(s.drop_last() =~= zeros(n) + d.drop_last());
        assert(s.last() == d.last());
        lemma_zeros_before(d.drop_last(), n);
    } else if n > 0 {
        assert(s.drop_last() =~= zeros((n - 1) as nat) + d);
        assert(s.last() == 48);
        lemma_zeros_before(d, (n - 1) as nat);
    } else {
        assert(s =~= d);
    }
}

} // verus!
