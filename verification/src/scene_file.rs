//! The persisted formats: the scene description (override records
//! included) and the per-trial score cache, as canonical text over
//! fixed-point integers.  Writing and reading are both verified, and
//! reading back what was written reproduces the data exactly; the
//! round-trip laws accompany each format.
//!
//! The schema stores every fixed-point quantity as a whole count of
//! thousandths.

use vstd::prelude::*;
use crate::text::{dec_digits, i64_chars, is_digit, spec_parse_u64, spec_parse_i64, parse_u64,
    parse_i64, render_u64_into, render_i64_into, lemma_parse_render_u64, lemma_parse_render_i64,
    lemma_dec_digits_shape, digit_char, digit_val};
use crate::stats::QualityStats;
use crate::score_map::SortedMap;

verus! {

/// Whether `lit` occurs at position `i`.
pub open spec fn lit_at(s: Seq<char>, i: int, lit: Seq<char>) -> bool {
    0 <= i && i + lit.len() <= s.len() && s.subrange(i, i + lit.len() as int) == lit
}

/// Splitting a known concatenation at its seam.
pub proof fn lemma_subrange_concat(s: Seq<char>, i: int, a: Seq<char>, b: Seq<char>)
    requires
        0 <= i,
        i + a.len() + b.len() <= s.len(),
        s.subrange(i, i + a.len() + b.len() as int) == a + b,
    ensures
        s.subrange(i, i + a.len() as int) == a,
        s.subrange(i + a.len() as int, i + a.len() + b.len() as int) == b,
{
    let ab = a + b;
    assert(s.subrange(i, i + a.len() as int) =~= a) by {
        assert forall|k: int| 0 <= k < a.len() implies s.subrange(i, i + a.len() as int)[k]
            == a[k] by {
            assert(s.subrange(i, i + ab.len() as int)[k] == ab[k]);
        }
    }
    assert(s.subrange(i + a.len() as int, i + a.len() + b.len() as int) =~= b) by {
        assert forall|k: int| 0 <= k < b.len() implies s.subrange(
            i + a.len() as int,
            i + a.len() + b.len() as int,
        )[k] == b[k] by {
            assert(s.subrange(i, i + ab.len() as int)[k + a.len()] == ab[k + a.len()]);
        }
    }
}

/// Compare the text at `i` with a literal.
pub fn expect_lit(s: &str, i: usize, lit: &str) -> (r: Option<usize>)
    requires
        i <= s@.len(),
        s@.len() <= usize::MAX,
    ensures
        match r {
            Some(j) => lit_at(s@, i as int, lit@) && j == i + lit@.len(),
            None => !lit_at(s@, i as int, lit@),
        },
{
    let n = s.unicode_len();
    let m = lit.unicode_len();
    if m > n - i {
        return None;
    }
    let mut k: usize = 0;
    while k < m
        invariant
            k <= m,
            m == lit@.len(),
            n == s@.len(),
            i + m <= n,
            forall|t: int| 0 <= t < k ==> s@[i + t] == lit@[t],
        decreases m - k,
    {
        if s.get_char(i + k) != lit.get_char(k) {
            proof {
                assert(s@.subrange(i as int, i as int + m as int)[k as int] != lit@[k as int]);
            }
            return None;
        }
        k += 1;
    }
    proof {
        assert(s@.subrange(i as int, i as int + m as int) =~= lit@);
    }
    Some(i + m)
}

/// The rendering of a string value: quotes around its characters, which
/// must not themselves contain a quote.
pub open spec fn ser_string(c: Seq<char>) -> Seq<char> {
    seq!['"'] + c + seq!['"']
}

/// A clean string value: no quote and no backslash, so it needs no escapes.
pub open spec fn string_clean(c: Seq<char>) -> bool {
    forall|k: int| 0 <= k < c.len() ==> c[k] != '"' && c[k] != '\\'
}

/// A string body: the characters up to the closing quote.
pub open spec fn parse_str_chars(s: Seq<char>, i: int) -> Option<(Seq<char>, int)>
    decreases s.len() - i,
{
    if 0 <= i < s.len() {
        if s[i] == '"' {
            Some((Seq::empty(), i + 1))
        } else {
            match parse_str_chars(s, i + 1) {
                Some((t, j)) => Some((seq![s[i]] + t, j)),
                None => None,
            }
        }
    } else {
        None
    }
}

/// A quoted string.
pub open spec fn spec_parse_string(s: Seq<char>, i: int) -> Option<(Seq<char>, int)> {
    if 0 <= i < s.len() && s[i] == '"' {
        parse_str_chars(s, i + 1)
    } else {
        None
    }
}

/// Read a quoted string.
pub fn parse_string(s: &str, i: usize) -> (r: Option<(String, usize)>)
    requires
        i <= s@.len(),
        s@.len() <= usize::MAX,
    ensures
        match r {
            Some((v, j)) => spec_parse_string(s@, i as int) == Some((v@, j as int)) && i < j
                <= s@.len(),
            None => spec_parse_string(s@, i as int) is None,
        },
{
    let n = s.unicode_len();
    if i >= n || s.get_char(i) != '"' {
        return None;
    }
    let mut acc = String::new();
    let mut j: usize = i + 1;
    loop
        invariant
            i + 1 <= j <= n,
            n == s@.len() <= usize::MAX,
            s@[i as int] == '"',
            match parse_str_chars(s@, j as int) {
                Some((t, e)) => parse_str_chars(s@, i as int + 1) == Some((acc@ + t, e)),
                None => parse_str_chars(s@, i as int + 1) is None,
            },
        decreases n - j,
    {
        if j >= n {
            proof {
                assert(parse_str_chars(s@, j as int) is None);
            }
            return None;
        }
        let c = s.get_char(j);
        if c == '"' {
            proof {
                assert(parse_str_chars(s@, j as int) == Some(
                    (Seq::<char>::empty(), j as int + 1),
                ));
                assert(acc@ + Seq::<char>::empty() =~= acc@);
                assert(parse_str_chars(s@, i as int + 1) == Some((acc@, j as int + 1)));
                assert(spec_parse_string(s@, i as int) == Some((acc@, j as int + 1)));
            }
            return Some((acc, j + 1));
        }
        proof {
            match parse_str_chars(s@, j as int + 1) {
                Some((t, e)) => {
                    assert(parse_str_chars(s@, j as int) == Some((seq![s@[j as int]] + t, e)));
                    assert(acc@.push(c) + t =~= acc@ + (seq![s@[j as int]] + t));
                },
                None => {},
            }
        }
        crate::text::push_char(&mut acc, c);
        j += 1;
    }
}

/// Parsing the rendering of a clean string recovers it.
pub proof fn lemma_parse_ser_string(c: Seq<char>, s: Seq<char>, i: int)
    requires
        string_clean(c),
        lit_at(s, i, ser_string(c)),
    ensures
        spec_parse_string(s, i) == Some((c, i + c.len() + 2)),
{
    assert(s[i] == ser_string(c)[0]) by {
        assert(s.subrange(i, i + ser_string(c).len() as int)[0] == ser_string(c)[0]);
    }
    assert(s[i] == '"');
    assert(ser_string(c) =~= seq!['"'] + (c + seq!['"']));
    lemma_subrange_concat(s, i, seq!['"'], c + seq!['"']);
    lemma_parse_str_body(c, s, i + 1);
}

proof fn lemma_parse_str_body(c: Seq<char>, s: Seq<char>, i: int)
    requires
        string_clean(c),
        0 <= i,
        i + c.len() + 1 <= s.len(),
        s.subrange(i, i + c.len() + 1 as int) == c + seq!['"'],
    ensures
        parse_str_chars(s, i) == Some((c, i + c.len() + 1)),
    decreases c.len(),
{
    if c.len() == 0 {
        assert(s[i] == (c + seq!['"'])[0]) by {
            assert(s.subrange(i, i + 1 as int)[0] == (c + seq!['"'])[0]);
        }
        assert(s[i] == '"');
    } else {
        assert(s[i] == (c + seq!['"'])[0]) by {
            assert(s.subrange(i, i + c.len() + 1 as int)[0] == (c + seq!['"'])[0]);
        }
        assert(s[i] == c[0]);
        assert(s[i] != '"');
        let c2 = c.drop_first();
        assert(s.subrange(i + 1, i + 1 + c2.len() + 1 as int) =~= c2 + seq!['"']) by {
            assert forall|k: int| 0 <= k < c2.len() + 1 implies s.subrange(
                i + 1,
                i + 1 + c2.len() + 1 as int,
            )[k] == (c2 + seq!['"'])[k] by {
                assert(s.subrange(i, i + c.len() + 1 as int)[k + 1] == (c + seq!['"'])[k + 1]);
                assert((c + seq!['"'])[k + 1] == (c2 + seq!['"'])[k]);
                assert(s.subrange(i + 1, i + 1 + c2.len() + 1 as int)[k] == s[i + 1 + k]);
            }
        }
        lemma_parse_str_body(c2, s, i + 1);
        assert(seq![c[0]] + c2 =~= c);
    }
}

/// The rendering of one statistics record.
pub open spec fn ser_stats(st: QualityStats) -> Seq<char> {
    "{\"mean\":"@ + i64_chars(st.mean_milli as int) + ",\"median\":"@ + i64_chars(
        st.median_milli as int,
    ) + ",\"std_dev\":"@ + i64_chars(st.std_dev_milli as int) + ",\"percentile_5th\":"@
        + i64_chars(st.percentile_5th_milli as int) + ",\"percentile_95th\":"@ + i64_chars(
        st.percentile_95th_milli as int,
    ) + "}"@
}

/// Append the rendering of one statistics record.
pub fn ser_stats_into(st: &QualityStats, out: &mut String)
    ensures
        final(out)@ == old(out)@ + ser_stats(*st),
{
    out.append("{\"mean\":");
    render_i64_into(st.mean_milli, out);
    out.append(",\"median\":");
    render_i64_into(st.median_milli, out);
    out.append(",\"std_dev\":");
    render_i64_into(st.std_dev_milli, out);
    out.append(",\"percentile_5th\":");
    render_i64_into(st.percentile_5th_milli, out);
    out.append(",\"percentile_95th\":");
    render_i64_into(st.percentile_95th_milli, out);
    out.append("}");
    proof {
        assert(final(out)@ =~= old(out)@ + ser_stats(*st));
    }
}

/// Read one statistics record.
pub open spec fn spec_parse_stats(s: Seq<char>, i: int) -> Option<(QualityStats, int)> {
    if lit_at(s, i, "{\"mean\":"@) {
        match spec_parse_i64(s, i + 8) {
            Some((mean, j1)) => if lit_at(s, j1, ",\"median\":"@) {
                match spec_parse_i64(s, j1 + 10) {
                    Some((median, j2)) => if lit_at(s, j2, ",\"std_dev\":"@) {
                        match spec_parse_i64(s, j2 + 11) {
                            Some((sd, j3)) => if lit_at(s, j3, ",\"percentile_5th\":"@) {
                                match spec_parse_i64(s, j3 + 18) {
                                    Some((p5, j4)) => if lit_at(s, j4, ",\"percentile_95th\":"@) {
                                        match spec_parse_i64(s, j4 + 19) {
                                            Some((p95, j5)) => if lit_at(s, j5, "}"@) {
                                                Some(
                                                    (
                                                        QualityStats {
                                                            mean_milli: mean,
                                                            median_milli: median,
                                                            std_dev_milli: sd,
                                                            percentile_5th_milli: p5,
                                                            percentile_95th_milli: p95,
                                                        },
                                                        j5 + 1,
                                                    ),
                                                )
                                            } else {
                                                None
                                            },
                                            None => None,
                                        }
                                    } else {
                                        None
                                    },
                                    None => None,
                                }
                            } else {
                                None
                            },
                            None => None,
                        }
                    } else {
                        None
                    },
                    None => None,
                }
            } else {
                None
            },
            None => None,
        }
    } else {
        None
    }
}

/// Read one statistics record.
pub fn parse_stats(s: &str, i: usize) -> (r: Option<(QualityStats, usize)>)
    requires
        i <= s@.len(),
        s@.len() <= usize::MAX,
    ensures
        match r {
            Some((v, j)) => spec_parse_stats(s@, i as int) == Some((v, j as int)) && i < j
                <= s@.len(),
            None => spec_parse_stats(s@, i as int) is None,
        },
{
    proof {
        reveal_strlit("{\"mean\":");
        reveal_strlit(",\"median\":");
        reveal_strlit(",\"std_dev\":");
        reveal_strlit(",\"percentile_5th\":");
        reveal_strlit(",\"percentile_95th\":");
        reveal_strlit("}");
    }
    let i1 = match expect_lit(s, i, "{\"mean\":") {
        Some(j) => j,
        None => {
            return None;
        },
    };
    let (mean, j1) = match parse_i64(s, i1) {
        Some(p) => p,
        None => {
            return None;
        },
    };
    let j1b = match expect_lit(s, j1, ",\"median\":") {
        Some(j) => j,
        None => {
            return None;
        },
    };
    let (median, j2) = match parse_i64(s, j1b) {
        Some(p) => p,
        None => {
            return None;
        },
    };
    let j2b = match expect_lit(s, j2, ",\"std_dev\":") {
        Some(j) => j,
        None => {
            return None;
        },
    };
    let (sd, j3) = match parse_i64(s, j2b) {
        Some(p) => p,
        None => {
            return None;
        },
    };
    let j3b = match expect_lit(s, j3, ",\"percentile_5th\":") {
        Some(j) => j,
        None => {
            return None;
        },
    };
    let (p5, j4) = match parse_i64(s, j3b) {
        Some(p) => p,
        None => {
            return None;
        },
    };
    let j4b = match expect_lit(s, j4, ",\"percentile_95th\":") {
        Some(j) => j,
        None => {
            return None;
        },
    };
    let (p95, j5) = match parse_i64(s, j4b) {
        Some(p) => p,
        None => {
            return None;
        },
    };
    let j6 = match expect_lit(s, j5, "}") {
        Some(j) => j,
        None => {
            return None;
        },
    };
    Some(
        (
            QualityStats {
                mean_milli: mean,
                median_milli: median,
                std_dev_milli: sd,
                percentile_5th_milli: p5,
                percentile_95th_milli: p95,
            },
            j6,
        ),
    )
}

/// A number's rendering is never followed by a digit in these schemas, so a
/// greedy number parse stops exactly at its end.  The keys and separators
/// all start with non-digits.
#[verifier::rlimit(100)]
pub proof fn lemma_parse_ser_stats(st: QualityStats, s: Seq<char>, i: int)
    requires
        lit_at(s, i, ser_stats(st)),
    ensures
        spec_parse_stats(s, i) == Some((st, i + ser_stats(st).len())),
{
    let w = ser_stats(st);
    let a1 = "{\"mean\":"@;
    let n1 = i64_chars(st.mean_milli as int);
    let a2 = ",\"median\":"@;
    let n2 = i64_chars(st.median_milli as int);
    let a3 = ",\"std_dev\":"@;
    let n3 = i64_chars(st.std_dev_milli as int);
    let a4 = ",\"percentile_5th\":"@;
    let n4 = i64_chars(st.percentile_5th_milli as int);
    let a5 = ",\"percentile_95th\":"@;
    let n5 = i64_chars(st.percentile_95th_milli as int);
    let a6 = "}"@;
    reveal_strlit("{\"mean\":");
    reveal_strlit(",\"median\":");
    reveal_strlit(",\"std_dev\":");
    reveal_strlit(",\"percentile_5th\":");
    reveal_strlit(",\"percentile_95th\":");
    reveal_strlit("}");
    let p0 = i;
    assert(w =~= a1 + (n1 + (a2 + (n2 + (a3 + (n3 + (a4 + (n4 + (a5 + (n5 + a6))))))))));
    lemma_chain_split(s, p0, a1, n1 + (a2 + (n2 + (a3 + (n3 + (a4 + (n4 + (a5 + (n5 + a6)))))))));
    let p1 = p0 + a1.len() as int;
    lemma_chain_split(s, p1, n1, a2 + (n2 + (a3 + (n3 + (a4 + (n4 + (a5 + (n5 + a6))))))));
    let p2 = p1 + n1.len() as int;
    lemma_chain_split(s, p2, a2, n2 + (a3 + (n3 + (a4 + (n4 + (a5 + (n5 + a6)))))));
    let p3 = p2 + a2.len() as int;
    lemma_chain_split(s, p3, n2, a3 + (n3 + (a4 + (n4 + (a5 + (n5 + a6))))));
    let p4 = p3 + n2.len() as int;
    lemma_chain_split(s, p4, a3, n3 + (a4 + (n4 + (a5 + (n5 + a6)))));
    let p5 = p4 + a3.len() as int;
    lemma_chain_split(s, p5, n3, a4 + (n4 + (a5 + (n5 + a6))));
    let p6 = p5 + n3.len() as int;
    lemma_chain_split(s, p6, a4, n4 + (a5 + (n5 + a6)));
    let p7 = p6 + a4.len() as int;
    lemma_chain_split(s, p7, n4, a5 + (n5 + a6));
    let p8 = p7 + n4.len() as int;
    lemma_chain_split(s, p8, a5, n5 + a6);
    let p9 = p8 + a5.len() as int;
    lemma_chain_split(s, p9, n5, a6);
    let p10 = p9 + n5.len() as int;
    lemma_not_digit(',');
    lemma_not_digit('}');
    lemma_num_then_lit(st.mean_milli, s, p1, a2);
    lemma_num_then_lit(st.median_milli, s, p3, a3);
    lemma_num_then_lit(st.std_dev_milli, s, p5, a4);
    lemma_num_then_lit(st.percentile_5th_milli, s, p7, a5);
    lemma_num_then_lit(st.percentile_95th_milli, s, p9, a6);
}

/// The model of a statistics map: its entries in ascending key order.
pub open spec fn keys_ascending<V>(m: Seq<(u64, V)>) -> bool {
    forall|a: int, b: int| 0 <= a < b < m.len() ==> (#[trigger] m[a]).0 < (#[trigger] m[b]).0
}

/// One `"key":stats` entry.
pub open spec fn ser_qs_entry(e: (u64, QualityStats)) -> Seq<char> {
    seq!['"'] + dec_digits(e.0 as int) + "\":"@ + ser_stats(e.1)
}

pub open spec fn ser_qs_rest(m: Seq<(u64, QualityStats)>) -> Seq<char>
    decreases m.len(),
{
    if m.len() == 0 {
        Seq::empty()
    } else {
        ","@ + ser_qs_entry(m.first()) + ser_qs_rest(m.drop_first())
    }
}

/// A statistics map: entries in ascending key order inside braces.
pub open spec fn ser_qs(m: Seq<(u64, QualityStats)>) -> Seq<char> {
    if m.len() == 0 {
        "{}"@
    } else {
        "{"@ + ser_qs_entry(m.first()) + ser_qs_rest(m.drop_first()) + "}"@
    }
}

pub open spec fn spec_parse_qs_entry(s: Seq<char>, i: int) -> Option<((u64, QualityStats), int)> {
    if lit_at(s, i, "\""@) {
        match spec_parse_u64(s, i + 1) {
            Some((k, j)) => if lit_at(s, j, "\":"@) {
                match spec_parse_stats(s, j + 2) {
                    Some((st, j2)) => Some(((k, st), j2)),
                    None => None,
                }
            } else {
                None
            },
            None => None,
        }
    } else {
        None
    }
}

/// The remaining entries of a map, each preceded by a comma, keys strictly
/// ascending, ending at the closing brace.
pub open spec fn spec_parse_qs_rest(
    s: Seq<char>,
    i: int,
    prev: u64,
    acc: Seq<(u64, QualityStats)>,
) -> Option<(Seq<(u64, QualityStats)>, int)>
    decreases s.len() - i,
{
    if lit_at(s, i, "}"@) {
        Some((acc, i + 1))
    } else if lit_at(s, i, ","@) && i < s.len() {
        match spec_parse_qs_entry(s, i + 1) {
            Some((e, j)) => if e.0 > prev {
                let j2 = if j > i { j } else { i + 1 };
                if j2 <= s.len() {
                    spec_parse_qs_rest(s, j2, e.0, acc.push(e))
                } else {
                    None
                }
            } else {
                None
            },
            None => None,
        }
    } else {
        None
    }
}

pub open spec fn spec_parse_qs(s: Seq<char>, i: int) -> Option<(Seq<(u64, QualityStats)>, int)> {
    if lit_at(s, i, "{"@) {
        if lit_at(s, i + 1, "}"@) {
            Some((Seq::empty(), i + 2))
        } else {
            match spec_parse_qs_entry(s, i + 1) {
                Some((e, j)) => spec_parse_qs_rest(s, j, e.0, seq![e]),
                None => None,
            }
        }
    } else {
        None
    }
}

/// Append a statistics map.
pub fn ser_qs_into(m: &SortedMap<QualityStats>, out: &mut String)
    ensures
        final(out)@ == old(out)@ + ser_qs(m@),
{
    let n = m.len();
    if n == 0 {
        out.append("{}");
        return ;
    }
    out.append("{");
    let e0 = m.entry_at(0);
    ser_qs_entry_into(e0, out);
    let mut i: usize = 1;
    let ghost rest0 = m@.drop_first();
    proof {
        assert(old(out)@ + ("{"@ + ser_qs_entry(m@.first())) =~= old(out)@ + "{"@ + ser_qs_entry(
            m@.first(),
        ));
    }
    while i < n
        invariant
            1 <= i <= n,
            n == m@.len(),
            out@ == old(out)@ + "{"@ + ser_qs_entry(m@.first()) + ser_qs_partial(
                m@.drop_first(),
                i - 1,
            ),
        decreases n - i,
    {
        out.append(",");
        let e = m.entry_at(i);
        ser_qs_entry_into(e, out);
        proof {
            lemma_ser_qs_partial_step(m@.drop_first(), i - 1);
            assert(m@.drop_first()[i - 1] == m@[i as int]);
        }
        i += 1;
    }
    out.append("}");
    proof {
        lemma_ser_qs_partial_full(m@.drop_first());
        assert(final(out)@ =~= old(out)@ + ser_qs(m@));
    }
}

/// The comma-prefixed renderings of the first `k` remaining entries.
pub open spec fn ser_qs_partial(m: Seq<(u64, QualityStats)>, k: int) -> Seq<char>
    decreases k,
{
    if k <= 0 {
        Seq::empty()
    } else {
        ser_qs_partial(m, k - 1) + ","@ + ser_qs_entry(m[k - 1])
    }
}

proof fn lemma_ser_qs_partial_step(m: Seq<(u64, QualityStats)>, k: int)
    requires
        0 <= k,
    ensures
        ser_qs_partial(m, k + 1) == ser_qs_partial(m, k) + ","@ + ser_qs_entry(m[k]),
{
}

/// The partial rendering over the whole remainder is the rest-rendering.
proof fn lemma_ser_qs_partial_full(m: Seq<(u64, QualityStats)>)
    ensures
        ser_qs_partial(m, m.len() as int) == ser_qs_rest(m),
    decreases m.len(),
{
    if m.len() == 0 {
        assert(ser_qs_partial(m, 0) =~= ser_qs_rest(m));
    } else {
        lemma_ser_qs_partial_full(m.drop_first());
        lemma_ser_qs_partial_prefix(m, m.len() as int - 1);
        assert(ser_qs_rest(m) == ","@ + ser_qs_entry(m.first()) + ser_qs_rest(m.drop_first()));
        assert(ser_qs_partial(m, m.len() as int) =~= ser_qs_rest(m));
    }
}

/// Shifting a partial rendering across `drop_first`.
proof fn lemma_ser_qs_partial_prefix(m: Seq<(u64, QualityStats)>, k: int)
    requires
        0 <= k < m.len(),
    ensures
        ser_qs_partial(m, k + 1) == ","@ + ser_qs_entry(m.first()) + ser_qs_partial(
            m.drop_first(),
            k,
        ),
    decreases k,
{
    if k == 0 {
        assert(ser_qs_partial(m, 0) =~= Seq::<char>::empty());
        assert(ser_qs_partial(m.drop_first(), 0) =~= Seq::<char>::empty());
        assert(m[0] == m.first());
        assert(ser_qs_partial(m, 1) =~= ","@ + ser_qs_entry(m.first()) + ser_qs_partial(
            m.drop_first(),
            0,
        ));
    } else {
        lemma_ser_qs_partial_prefix(m, k - 1);
        assert(m.drop_first()[k - 1] == m[k]);
        assert(ser_qs_partial(m, k + 1) =~= ","@ + ser_qs_entry(m.first()) + ser_qs_partial(
            m.drop_first(),
            k,
        ));
    }
}

/// Append one map entry.
fn ser_qs_entry_into(e: &(u64, QualityStats), out: &mut String)
    ensures
        final(out)@ == old(out)@ + ser_qs_entry(*e),
{
    proof {
        reveal_strlit("\"");
        reveal_strlit("\":");
    }
    out.append("\"");
    render_u64_into(e.0, out);
    out.append("\":");
    ser_stats_into(&e.1, out);
    proof {
        assert("\""@ =~= seq!['"']);
        assert(final(out)@ =~= old(out)@ + ser_qs_entry(*e));
    }
}

/// Read one map entry.
fn parse_qs_entry(s: &str, i: usize) -> (r: Option<((u64, QualityStats), usize)>)
    requires
        i <= s@.len(),
        s@.len() <= usize::MAX,
    ensures
        match r {
            Some((e, j)) => spec_parse_qs_entry(s@, i as int) == Some((e, j as int)) && i < j
                <= s@.len(),
            None => spec_parse_qs_entry(s@, i as int) is None,
        },
{
    proof {
        reveal_strlit("\"");
        reveal_strlit("\":");
    }
    let i1 = match expect_lit(s, i, "\"") {
        Some(j) => j,
        None => {
            return None;
        },
    };
    let (k, j) = match parse_u64(s, i1) {
        Some(p) => p,
        None => {
            return None;
        },
    };
    let j1 = match expect_lit(s, j, "\":") {
        Some(p) => p,
        None => {
            return None;
        },
    };
    let (st, j2) = match parse_stats(s, j1) {
        Some(p) => p,
        None => {
            return None;
        },
    };
    Some(((k, st), j2))
}

/// Read a statistics map.
pub fn parse_qs(s: &str, i: usize) -> (r: Option<(SortedMap<QualityStats>, usize)>)
    requires
        i <= s@.len(),
        s@.len() <= usize::MAX,
    ensures
        match r {
            Some((m, j)) => spec_parse_qs(s@, i as int) == Some((m@, j as int)) && i < j
                <= s@.len() && m.wf(),
            None => spec_parse_qs(s@, i as int) is None,
        },
{
    proof {
        reveal_strlit("{");
        reveal_strlit("}");
        reveal_strlit(",");
    }
    let i1 = match expect_lit(s, i, "{") {
        Some(j) => j,
        None => {
            return None;
        },
    };
    match expect_lit(s, i1, "}") {
        Some(j) => {
            let m = SortedMap::<QualityStats>::new();
            return Some((m, j));
        },
        None => {},
    }
    let (e0, j0) = match parse_qs_entry(s, i1) {
        Some(p) => p,
        None => {
            return None;
        },
    };
    let mut m = SortedMap::<QualityStats>::new();
    m.push_max(e0.0, e0.1);
    let mut prev: u64 = e0.0;
    let mut j: usize = j0;
    proof {
        assert(m@ =~= seq![e0]);
    }
    loop
        invariant
            j <= s@.len(),
            s@.len() <= usize::MAX,
            m.wf(),
            m@.len() > 0,
            m@.last().0 == prev,
            i < j,
            spec_parse_qs(s@, i as int) == spec_parse_qs_rest(s@, j as int, prev, m@),
        decreases s@.len() - j,
    {
        proof {
            reveal_strlit("}");
            reveal_strlit(",");
        }
        match expect_lit(s, j, "}") {
            Some(j2) => {
                return Some((m, j2));
            },
            None => {},
        }
        let jc = match expect_lit(s, j, ",") {
            Some(j2) => j2,
            None => {
                return None;
            },
        };
        proof {
            assert(j < s@.len()) by {
                assert(lit_at(s@, j as int, ","@));
            }
        }
        let (e, j2) = match parse_qs_entry(s, jc) {
            Some(p) => p,
            None => {
                return None;
            },
        };
        if e.0 <= prev {
            return None;
        }
        m.push_max(e.0, e.1);
        prev = e.0;
        j = j2;
    }
}

/// Parsing a rendered map recovers it.
pub proof fn lemma_parse_ser_qs(m: Seq<(u64, QualityStats)>, s: Seq<char>, i: int)
    requires
        keys_ascending(m),
        lit_at(s, i, ser_qs(m)),
    ensures
        spec_parse_qs(s, i) == Some((m, i + ser_qs(m).len())),
{
    reveal_strlit("{");
    reveal_strlit("}");
    reveal_strlit("{}");
    reveal_strlit(",");
    if m.len() == 0 {
        assert("{}"@ =~= "{"@ + "}"@);
        lemma_chain_split(s, i, "{"@, "}"@);
        assert(lit_at(s, i, "{"@));
        assert(lit_at(s, i + 1, "}"@));
        assert(m =~= Seq::<(u64, QualityStats)>::empty());
    } else {
        assert(ser_qs(m) =~= "{"@ + (ser_qs_entry(m.first()) + (ser_qs_rest(m.drop_first())
            + "}"@)));
        lemma_chain_split(s, i, "{"@, ser_qs_entry(m.first()) + (ser_qs_rest(m.drop_first())
            + "}"@));
        lemma_chain_split(
            s,
            i + 1,
            ser_qs_entry(m.first()),
            ser_qs_rest(m.drop_first()) + "}"@,
        );
        lemma_parse_ser_qs_entry(m.first(), s, i + 1);
        // The first byte after the opening brace is a quote, not a brace.
        assert(!lit_at(s, i + 1, "}"@)) by {
            assert(s[i + 1] == ser_qs_entry(m.first())[0]) by {
                assert(s.subrange(
                    i + 1,
                    i + 1 + ser_qs_entry(m.first()).len() as int,
                )[0] == ser_qs_entry(m.first())[0]);
            }
            assert(ser_qs_entry(m.first())[0] == '"');
            if lit_at(s, i + 1, "}"@) {
                assert(s[i + 1] == '}');
            }
        }
        let p = i + 1 + ser_qs_entry(m.first()).len() as int;
        assert(seq![m.first()] =~= m.subrange(0, 1));
        assert(m.subrange(1, m.len() as int) =~= m.drop_first());
        lemma_parse_ser_qs_rest(m, 0, s, p);
    }
}

/// Entry round trip.
proof fn lemma_parse_ser_qs_entry(e: (u64, QualityStats), s: Seq<char>, i: int)
    requires
        lit_at(s, i, ser_qs_entry(e)),
    ensures
        spec_parse_qs_entry(s, i) == Some((e, i + ser_qs_entry(e).len())),
{
    reveal_strlit("\"");
    reveal_strlit("\":");
    let d = dec_digits(e.0 as int);
    assert(ser_qs_entry(e) =~= seq!['"'] + (d + ("\":"@ + ser_stats(e.1))));
    assert(seq!['"'] =~= "\""@);
    lemma_chain_split(s, i, "\""@, d + ("\":"@ + ser_stats(e.1)));
    lemma_chain_split(s, i + 1, d, "\":"@ + ser_stats(e.1));
    lemma_chain_split(s, i + 1 + d.len() as int, "\":"@, ser_stats(e.1));
    assert(s[i + 1 + d.len()] == '"') by {
        assert(s.subrange(i + 1 + d.len() as int, i + 1 + d.len() + 2 as int)[0] == "\":"@[0]);
    }
    lemma_not_digit('"');
    lemma_parse_render_u64(e.0, s, i + 1);
    lemma_parse_ser_stats(e.1, s, i + 1 + d.len() + 2);
}

/// Rest-of-map round trip: from entry index `k` onward.
proof fn lemma_parse_ser_qs_rest(m: Seq<(u64, QualityStats)>, k: int, s: Seq<char>, i: int)
    requires
        keys_ascending(m),
        0 <= k < m.len(),
        lit_at(s, i, ser_qs_rest(m.subrange(k + 1, m.len() as int)) + "}"@),
    ensures
        spec_parse_qs_rest(s, i, m[k].0, m.subrange(0, k + 1)) == Some(
            (m, i + ser_qs_rest(m.subrange(k + 1, m.len() as int)).len() + 1),
        ),
    decreases m.len() - k,
{
    reveal_strlit("}");
    reveal_strlit(",");
    let rest = m.subrange(k + 1, m.len() as int);
    if rest.len() == 0 {
        assert(ser_qs_rest(rest) =~= Seq::<char>::empty());
        assert(Seq::<char>::empty() + "}"@ =~= "}"@);
        assert(lit_at(s, i, "}"@));
        assert(m.subrange(0, k + 1) =~= m);
    } else {
        let e = rest.first();
        assert(e == m[k + 1]);
        assert(ser_qs_rest(rest) == ","@ + ser_qs_entry(e) + ser_qs_rest(rest.drop_first()));
        assert(ser_qs_rest(rest) + "}"@ =~= ","@ + (ser_qs_entry(e) + (ser_qs_rest(
            rest.drop_first(),
        ) + "}"@)));
        lemma_chain_split(s, i, ","@, ser_qs_entry(e) + (ser_qs_rest(rest.drop_first()) + "}"@));
        lemma_chain_split(s, i + 1, ser_qs_entry(e), ser_qs_rest(rest.drop_first()) + "}"@);
        lemma_parse_ser_qs_entry(e, s, i + 1);
        // Not the closing brace: a comma sits here.
        assert(!lit_at(s, i, "}"@)) by {
            assert(s[i] == ","@[0]) by {
                assert(s.subrange(i, i + 1 as int)[0] == ","@[0]);
            }
            if lit_at(s, i, "}"@) {
                assert(s[i] == '}');
            }
        }
        assert(e.0 > m[k].0);
        let j = i + 1 + ser_qs_entry(e).len() as int;
        assert(rest.drop_first() =~= m.subrange(k + 2, m.len() as int));
        assert(m.subrange(0, k + 1).push(e) =~= m.subrange(0, k + 2));
        lemma_parse_ser_qs_rest(m, k + 1, s, j);
    }
}

/// None of the schema's separators is a digit.
pub proof fn lemma_not_digit(c: char)
    requires
        c == ',' || c == '}' || c == ']' || c == '"' || c == '{' || c == '[' || c == ':' || c
            == 'n' || c == ' ' || c == '\n',
    ensures
        !is_digit(c),
{
    if is_digit(c) {
        let d = digit_val(c);
        assert(0 <= d < 10 && c == digit_char(d));
    }
}

/// A literal prefix of a tail region splits off.
pub proof fn lemma_chain_split(s: Seq<char>, i: int, a: Seq<char>, b: Seq<char>)
    requires
        lit_at(s, i, a + b),
    ensures
        lit_at(s, i, a),
        lit_at(s, i + a.len() as int, b),
{
    lemma_subrange_concat(s, i, a, b);
}

/// A signed number followed by a literal that starts with a non-digit
/// parses to exactly the number.
pub proof fn lemma_num_then_lit(v: i64, s: Seq<char>, i: int, follow: Seq<char>)
    requires
        lit_at(s, i, i64_chars(v as int)),
        lit_at(s, i + i64_chars(v as int).len() as int, follow),
        follow.len() > 0,
        !is_digit(follow[0]),
    ensures
        spec_parse_i64(s, i) == Some((v, i + i64_chars(v as int).len())),
{
    let e = i + i64_chars(v as int).len() as int;
    assert(s[e] == follow[0]) by {
        assert(s.subrange(e, e + follow.len() as int)[0] == follow[0]);
    }
    lemma_parse_render_i64(v, s, i);
}

/// The model of an override record: encoder name, pass count, parameter
/// strings, grain setting and the two structural settings.
pub type ZoneModel = (Seq<char>, u8, Seq<Seq<char>>, Option<u16>, u8, u8);

/// The model of one scene.
pub type SceneModel = (Option<Seq<(u64, QualityStats)>>, Option<i64>, u32, u32, Option<ZoneModel>);

/// The model of a whole scene description.
pub type InfoModel = (Seq<SceneModel>, u32);

pub open spec fn zone_model(z: crate::scenes::ZoneOverrides) -> ZoneModel {
    (
        z.encoder@,
        z.passes,
        z.video_params@.map_values(|p: String| p@),
        z.photon_noise,
        z.extra_split_sec,
        z.min_scene_len,
    )
}

pub open spec fn scene_model(s: crate::scenes::Scene) -> SceneModel {
    (
        match s.quantizer_scores {
            Some(m) => Some(m@),
            None => None,
        },
        s.final_quantizer_milli,
        s.start_frame,
        s.end_frame,
        match s.zone_overrides {
            Some(z) => Some(zone_model(z)),
            None => None,
        },
    )
}

pub open spec fn info_model(info: crate::scenes::ScenesInfo) -> InfoModel {
    (info.scenes@.map_values(|s: crate::scenes::Scene| scene_model(s)), info.frames)
}

/// Comma-separated string list body.
pub open spec fn ser_strlist_rest(l: Seq<Seq<char>>) -> Seq<char>
    decreases l.len(),
{
    if l.len() == 0 {
        Seq::empty()
    } else {
        ","@ + ser_string(l.first()) + ser_strlist_rest(l.drop_first())
    }
}

pub open spec fn ser_strlist(l: Seq<Seq<char>>) -> Seq<char> {
    if l.len() == 0 {
        Seq::empty()
    } else {
        ser_string(l.first()) + ser_strlist_rest(l.drop_first())
    }
}

/// The first part of an override record: encoder name, pass count, and the
/// opening of the parameter list.
pub open spec fn zone_head(z: ZoneModel) -> Seq<char> {
    "{\"encoder\":"@ + ser_string(z.0) + ",\"passes\":"@ + dec_digits(z.1 as int)
        + ",\"video_params\":["@
}

/// The closing part of an override record: grain setting and the two
/// structural settings.
pub open spec fn zone_tail(z: ZoneModel) -> Seq<char> {
    "],\"photon_noise\":"@ + (match z.3 {
        Some(v) => dec_digits(v as int),
        None => "null"@,
    }) + ",\"extra_split_sec\":"@ + dec_digits(z.4 as int) + ",\"min_scene_len\":"@ + dec_digits(
        z.5 as int,
    ) + "}"@
}

/// The rendering of an override record.
pub open spec fn ser_zone(z: ZoneModel) -> Seq<char> {
    zone_head(z) + ser_strlist(z.2) + zone_tail(z)
}

/// A record whose strings carry no quote or backslash, so the rendering
/// needs no escapes and reads back exactly.
pub open spec fn zone_clean(z: ZoneModel) -> bool {
    &&& string_clean(z.0)
    &&& forall|k: int| 0 <= k < z.2.len() ==> string_clean(#[trigger] z.2[k])
}

/// The parameter strings after the first, each preceded by a comma, ending
/// at the closing bracket (left unconsumed).
pub open spec fn spec_parse_strlist_rest(s: Seq<char>, i: int, acc: Seq<Seq<char>>) -> Option<
    (Seq<Seq<char>>, int),
>
    decreases s.len() - i,
{
    if lit_at(s, i, "]"@) {
        Some((acc, i))
    } else if lit_at(s, i, ","@) && i < s.len() {
        match spec_parse_string(s, i + 1) {
            Some((v, j)) => {
                let j2 = if j > i {
                    j
                } else {
                    i + 1
                };
                if j2 <= s.len() {
                    spec_parse_strlist_rest(s, j2, acc.push(v))
                } else {
                    None
                }
            },
            None => None,
        }
    } else {
        None
    }
}

/// The whole parameter list, ending at the closing bracket (left
/// unconsumed).
pub open spec fn spec_parse_strlist(s: Seq<char>, i: int) -> Option<(Seq<Seq<char>>, int)> {
    if lit_at(s, i, "]"@) {
        Some((Seq::empty(), i))
    } else {
        match spec_parse_string(s, i) {
            Some((v, j)) => spec_parse_strlist_rest(s, j, seq![v]),
            None => None,
        }
    }
}

/// Read one override record.
pub open spec fn spec_parse_zone(s: Seq<char>, i: int) -> Option<(ZoneModel, int)> {
    let z1 = "{\"encoder\":"@;
    if lit_at(s, i, z1) {
        match spec_parse_string(s, i + z1.len() as int) {
            Some((enc, p1)) => {
                let z2 = ",\"passes\":"@;
                if lit_at(s, p1, z2) {
                    match spec_parse_u64(s, p1 + z2.len() as int) {
                        Some((passes, p2)) => if passes <= u8::MAX {
                            let z3 = ",\"video_params\":["@;
                            if lit_at(s, p2, z3) {
                                match spec_parse_strlist(s, p2 + z3.len() as int) {
                                    Some((params, p3)) => {
                                        let z4 = "],\"photon_noise\":"@;
                                        if lit_at(s, p3, z4) {
                                            let pp = p3 + z4.len() as int;
                                            let ph_r: Option<(Option<u16>, int)> = if lit_at(
                                                s,
                                                pp,
                                                "null"@,
                                            ) {
                                                Some((None, pp + 4))
                                            } else {
                                                match spec_parse_u64(s, pp) {
                                                    Some((v, j)) => if v <= u16::MAX {
                                                        Some((Some(v as u16), j))
                                                    } else {
                                                        None
                                                    },
                                                    None => None,
                                                }
                                            };
                                            match ph_r {
                                                Some((ph, p4)) => {
                                                    let z5 = ",\"extra_split_sec\":"@;
                                                    if lit_at(s, p4, z5) {
                                                        match spec_parse_u64(
                                                            s,
                                                            p4 + z5.len() as int,
                                                        ) {
                                                            Some((ex, p5)) => if ex <= u8::MAX {
                                                                let z6 = ",\"min_scene_len\":"@;
                                                                if lit_at(s, p5, z6) {
                                                                    match spec_parse_u64(
                                                                        s,
                                                                        p5 + z6.len() as int,
                                                                    ) {
                                                                        Some((mn, p6)) => if mn
                                                                            <= u8::MAX && lit_at(
                                                                            s,
                                                                            p6,
                                                                            "}"@,
                                                                        ) {
                                                                            Some(
                                                                                (
                                                                                    (
                                                                                        enc,
                                                                                        passes as u8,
                                                                                        params,
                                                                                        ph,
                                                                                        ex as u8,
                                                                                        mn as u8,
                                                                                    ),
                                                                                    p6 + 1,
                                                                                ),
                                                                            )
                                                                        } else {
                                                                            None
                                                                        },
                                                                        None => None,
                                                                    }
                                                                } else {
                                                                    None
                                                                }
                                                            } else {
                                                                None
                                                            },
                                                            None => None,
                                                        }
                                                    } else {
                                                        None
                                                    }
                                                },
                                                None => None,
                                            }
                                        } else {
                                            None
                                        }
                                    },
                                    None => None,
                                }
                            } else {
                                None
                            }
                        } else {
                            None
                        },
                        None => None,
                    }
                } else {
                    None
                }
            },
            None => None,
        }
    } else {
        None
    }
}

/// The rendering of one scene: its head (statistics and final quantizer)
/// followed by its tail (boundaries and the override record).
pub open spec fn ser_scene(sm: SceneModel) -> Seq<char> {
    scene_head(sm) + scene_tail(sm)
}

/// Comma-separated scene list body.
pub open spec fn ser_scenes_rest(l: Seq<SceneModel>) -> Seq<char>
    decreases l.len(),
{
    if l.len() == 0 {
        Seq::empty()
    } else {
        ","@ + ser_scene(l.first()) + ser_scenes_rest(l.drop_first())
    }
}

pub open spec fn ser_scenes(l: Seq<SceneModel>) -> Seq<char> {
    if l.len() == 0 {
        Seq::empty()
    } else {
        ser_scene(l.first()) + ser_scenes_rest(l.drop_first())
    }
}

/// The rendering of a whole scene description.
pub open spec fn ser_info(m: InfoModel) -> Seq<char> {
    "{\"scenes\":["@ + ser_scenes(m.0) + "],\"frames\":"@ + dec_digits(m.1 as int) + "}"@
}

/// Append a string list body.
fn ser_strlist_into(l: &Vec<String>, out: &mut String)
    ensures
        final(out)@ == old(out)@ + ser_strlist(l@.map_values(|p: String| p@)),
{
    let ghost lm = l@.map_values(|p: String| p@);
    let n = l.len();
    if n == 0 {
        proof {
            assert(old(out)@ + ser_strlist(lm) =~= old(out)@);
        }
        return ;
    }
    ser_string_into(&l[0], out);
    let mut i: usize = 1;
    while i < n
        invariant
            1 <= i <= n,
            n == l@.len(),
            lm == l@.map_values(|p: String| p@),
            out@ == old(out)@ + ser_string(lm.first()) + ser_strlist_partial(
                lm.drop_first(),
                i - 1,
            ),
        decreases n - i,
    {
        out.append(",");
        ser_string_into(&l[i], out);
        proof {
            assert(lm.drop_first()[i - 1] == lm[i as int]);
            assert(out@ =~= old(out)@ + ser_string(lm.first()) + ser_strlist_partial(
                lm.drop_first(),
                i as int,
            ));
        }
        i += 1;
    }
    proof {
        lemma_ser_strlist_partial_full(lm.drop_first());
        assert(final(out)@ =~= old(out)@ + ser_strlist(lm));
    }
}

pub open spec fn ser_strlist_partial(l: Seq<Seq<char>>, k: int) -> Seq<char>
    decreases k,
{
    if k <= 0 {
        Seq::empty()
    } else {
        ser_strlist_partial(l, k - 1) + ","@ + ser_string(l[k - 1])
    }
}

proof fn lemma_ser_strlist_partial_full(l: Seq<Seq<char>>)
    ensures
        ser_strlist_partial(l, l.len() as int) == ser_strlist_rest(l),
    decreases l.len(),
{
    if l.len() == 0 {
        assert(ser_strlist_partial(l, 0) =~= ser_strlist_rest(l));
    } else {
        lemma_ser_strlist_partial_full(l.drop_first());
        lemma_ser_strlist_partial_prefix(l, l.len() as int - 1);
        assert(ser_strlist_partial(l, l.len() as int) =~= ser_strlist_rest(l));
    }
}

proof fn lemma_ser_strlist_partial_prefix(l: Seq<Seq<char>>, k: int)
    requires
        0 <= k < l.len(),
    ensures
        ser_strlist_partial(l, k + 1) == ","@ + ser_string(l.first()) + ser_strlist_partial(
            l.drop_first(),
            k,
        ),
    decreases k,
{
    if k == 0 {
        assert(ser_strlist_partial(l, 0) =~= Seq::<char>::empty());
        assert(ser_strlist_partial(l.drop_first(), 0) =~= Seq::<char>::empty());
        assert(l[0] == l.first());
        assert(ser_strlist_partial(l, 1) =~= ","@ + ser_string(l.first()) + ser_strlist_partial(
            l.drop_first(),
            0,
        ));
    } else {
        lemma_ser_strlist_partial_prefix(l, k - 1);
        assert(l.drop_first()[k - 1] == l[k]);
        assert(ser_strlist_partial(l, k + 1) =~= ","@ + ser_string(l.first())
            + ser_strlist_partial(l.drop_first(), k));
    }
}

/// Append one quoted string.
fn ser_string_into(p: &String, out: &mut String)
    ensures
        final(out)@ == old(out)@ + ser_string(p@),
{
    proof {
        reveal_strlit("\"");
    }
    out.append("\"");
    out.append(p.as_str());
    out.append("\"");
    proof {
        assert("\""@ =~= seq!['"']);
        assert(final(out)@ =~= old(out)@ + ser_string(p@));
    }
}

/// Append the opening part of an override record.
fn ser_zone_head_into(z: &crate::scenes::ZoneOverrides, out: &mut String)
    ensures
        final(out)@ == old(out)@ + zone_head(zone_model(*z)),
{
    out.append("{\"encoder\":");
    ser_string_into(&z.encoder, out);
    out.append(",\"passes\":");
    render_u64_into(z.passes as u64, out);
    out.append(",\"video_params\":[");
    proof {
        assert(final(out)@ =~= old(out)@ + zone_head(zone_model(*z)));
    }
}

/// Append the closing part of an override record.
fn ser_zone_tail_into(z: &crate::scenes::ZoneOverrides, out: &mut String)
    ensures
        final(out)@ == old(out)@ + zone_tail(zone_model(*z)),
{
    out.append("],\"photon_noise\":");
    match z.photon_noise {
        Some(v) => {
            render_u64_into(v as u64, out);
        },
        None => {
            out.append("null");
        },
    }
    out.append(",\"extra_split_sec\":");
    render_u64_into(z.extra_split_sec as u64, out);
    out.append(",\"min_scene_len\":");
    render_u64_into(z.min_scene_len as u64, out);
    out.append("}");
    proof {
        assert(final(out)@ =~= old(out)@ + zone_tail(zone_model(*z)));
    }
}

/// Append an override record.
fn ser_zone_into(z: &crate::scenes::ZoneOverrides, out: &mut String)
    ensures
        final(out)@ == old(out)@ + ser_zone(zone_model(*z)),
{
    ser_zone_head_into(z, out);
    ser_strlist_into(&z.video_params, out);
    ser_zone_tail_into(z, out);
    proof {
        assert(final(out)@ =~= old(out)@ + ser_zone(zone_model(*z)));
    }
}

/// The first half of a scene's rendering: statistics and final quantizer.
pub open spec fn scene_head(sm: SceneModel) -> Seq<char> {
    "{\"quantizer_scores\":"@ + (match sm.0 {
        Some(m) => ser_qs(m),
        None => "null"@,
    }) + ",\"final_quantizer\":"@ + (match sm.1 {
        Some(v) => i64_chars(v as int),
        None => "null"@,
    })
}

/// The rendered override value of a scene.
pub open spec fn scene_zone_text(sm4: Option<ZoneModel>) -> Seq<char> {
    match sm4 {
        Some(z) => ser_zone(z),
        None => "null"@,
    }
}

/// The second half: boundaries and the override record.
pub open spec fn scene_tail(sm: SceneModel) -> Seq<char> {
    ",\"start_frame\":"@ + dec_digits(sm.2 as int) + ",\"end_frame\":"@ + dec_digits(
        sm.3 as int,
    ) + ",\"zone_overrides\":"@ + scene_zone_text(sm.4) + "}"@
}

#[verifier::rlimit(100)]
fn ser_scene_head_into(s: &crate::scenes::Scene, out: &mut String)
    ensures
        final(out)@ == old(out)@ + scene_head(scene_model(*s)),
{
    out.append("{\"quantizer_scores\":");
    match &s.quantizer_scores {
        Some(m) => {
            ser_qs_into(m, out);
        },
        None => {
            out.append("null");
        },
    }
    out.append(",\"final_quantizer\":");
    match s.final_quantizer_milli {
        Some(v) => {
            render_i64_into(v, out);
        },
        None => {
            out.append("null");
        },
    }
    proof {
        assert(final(out)@ =~= old(out)@ + scene_head(scene_model(*s)));
    }
}

#[verifier::rlimit(100)]
fn ser_scene_tail_into(s: &crate::scenes::Scene, out: &mut String)
    ensures
        final(out)@ == old(out)@ + scene_tail(scene_model(*s)),
{
    out.append(",\"start_frame\":");
    render_u64_into(s.start_frame as u64, out);
    out.append(",\"end_frame\":");
    render_u64_into(s.end_frame as u64, out);
    out.append(",\"zone_overrides\":");
    match &s.zone_overrides {
        Some(z) => {
            ser_zone_into(z, out);
        },
        None => {
            out.append("null");
        },
    }
    out.append("}");
    proof {
        assert(final(out)@ =~= old(out)@ + scene_tail(scene_model(*s)));
    }
}

/// Append one scene.
#[verifier::rlimit(100)]
fn ser_scene_into(s: &crate::scenes::Scene, out: &mut String)
    ensures
        final(out)@ == old(out)@ + ser_scene(scene_model(*s)),
{
    ser_scene_head_into(s, out);
    ser_scene_tail_into(s, out);
    proof {
        assert(scene_head(scene_model(*s)) + scene_tail(scene_model(*s)) =~= ser_scene(
            scene_model(*s),
        ));
        assert(final(out)@ =~= old(out)@ + ser_scene(scene_model(*s)));
    }
}

/// Write a whole scene description.
pub fn write_scenes_info(info: &crate::scenes::ScenesInfo) -> (out: String)
    ensures
        out@ == ser_info(info_model(*info)),
{
    let ghost sm = info.scenes@.map_values(|s: crate::scenes::Scene| scene_model(s));
    let mut out = String::new();
    out.append("{\"scenes\":[");
    let n = info.scenes.len();
    if n > 0 {
        ser_scene_into(&info.scenes[0], &mut out);
        let mut i: usize = 1;
        while i < n
            invariant
                1 <= i <= n,
                n == info.scenes@.len(),
                sm == info.scenes@.map_values(|s: crate::scenes::Scene| scene_model(s)),
                out@ == "{\"scenes\":["@ + ser_scene(sm.first()) + ser_scenes_partial(
                    sm.drop_first(),
                    i - 1,
                ),
            decreases n - i,
        {
            out.append(",");
            ser_scene_into(&info.scenes[i], &mut out);
            proof {
                assert(sm.drop_first()[i - 1] == sm[i as int]);
                assert(out@ =~= "{\"scenes\":["@ + ser_scene(sm.first()) + ser_scenes_partial(
                    sm.drop_first(),
                    i as int,
                ));
            }
            i += 1;
        }
        proof {
            lemma_ser_scenes_partial_full(sm.drop_first());
        }
    }
    out.append("],\"frames\":");
    render_u64_into(info.frames as u64, &mut out);
    out.append("}");
    proof {
        if sm.len() == 0 {
            assert(ser_scenes(sm) =~= Seq::<char>::empty());
        }
        assert(out@ =~= ser_info(info_model(*info)));
    }
    out
}

pub open spec fn ser_scenes_partial(l: Seq<SceneModel>, k: int) -> Seq<char>
    decreases k,
{
    if k <= 0 {
        Seq::empty()
    } else {
        ser_scenes_partial(l, k - 1) + ","@ + ser_scene(l[k - 1])
    }
}

proof fn lemma_ser_scenes_partial_full(l: Seq<SceneModel>)
    ensures
        ser_scenes_partial(l, l.len() as int) == ser_scenes_rest(l),
    decreases l.len(),
{
    if l.len() == 0 {
        assert(ser_scenes_partial(l, 0) =~= ser_scenes_rest(l));
    } else {
        lemma_ser_scenes_partial_full(l.drop_first());
        lemma_ser_scenes_partial_prefix(l, l.len() as int - 1);
        assert(ser_scenes_partial(l, l.len() as int) =~= ser_scenes_rest(l));
    }
}

proof fn lemma_ser_scenes_partial_prefix(l: Seq<SceneModel>, k: int)
    requires
        0 <= k < l.len(),
    ensures
        ser_scenes_partial(l, k + 1) == ","@ + ser_scene(l.first()) + ser_scenes_partial(
            l.drop_first(),
            k,
        ),
    decreases k,
{
    if k == 0 {
        assert(ser_scenes_partial(l, 0) =~= Seq::<char>::empty());
        assert(ser_scenes_partial(l.drop_first(), 0) =~= Seq::<char>::empty());
        assert(l[0] == l.first());
        assert(ser_scenes_partial(l, 1) =~= ","@ + ser_scene(l.first()) + ser_scenes_partial(
            l.drop_first(),
            0,
        ));
    } else {
        lemma_ser_scenes_partial_prefix(l, k - 1);
        assert(l.drop_first()[k - 1] == l[k]);
        assert(ser_scenes_partial(l, k + 1) =~= ","@ + ser_scene(l.first()) + ser_scenes_partial(
            l.drop_first(),
            k,
        ));
    }
}

/// Read one scene, override record included.
pub open spec fn spec_parse_scene(s: Seq<char>, i: int) -> Option<(SceneModel, int)> {
    let l1 = "{\"quantizer_scores\":"@;
    if lit_at(s, i, l1) {
        let p1 = i + l1.len() as int;
        let qs_r: Option<(Option<Seq<(u64, QualityStats)>>, int)> = if lit_at(s, p1, "null"@) {
            Some((None, p1 + 4))
        } else {
            match spec_parse_qs(s, p1) {
                Some((m, j)) => Some((Some(m), j)),
                None => None,
            }
        };
        match qs_r {
            Some((qs, p2)) => {
                let l2 = ",\"final_quantizer\":"@;
                if lit_at(s, p2, l2) {
                    let p3 = p2 + l2.len() as int;
                    let fq_r: Option<(Option<i64>, int)> = if lit_at(s, p3, "null"@) {
                        Some((None, p3 + 4))
                    } else {
                        match spec_parse_i64(s, p3) {
                            Some((v, j)) => Some((Some(v), j)),
                            None => None,
                        }
                    };
                    match fq_r {
                        Some((fq, p4)) => {
                            let l3 = ",\"start_frame\":"@;
                            if lit_at(s, p4, l3) {
                                match spec_parse_u64(s, p4 + l3.len() as int) {
                                    Some((sf, p5)) => if sf <= u32::MAX {
                                        let l4 = ",\"end_frame\":"@;
                                        if lit_at(s, p5, l4) {
                                            match spec_parse_u64(s, p5 + l4.len() as int) {
                                                Some((ef, p6)) => if ef <= u32::MAX {
                                                    let l5 = ",\"zone_overrides\":"@;
                                                    if lit_at(s, p6, l5) {
                                                        let pz = p6 + l5.len() as int;
                                                        let zr: Option<
                                                            (Option<ZoneModel>, int),
                                                        > = if lit_at(s, pz, "null"@) {
                                                            Some((None, pz + 4))
                                                        } else {
                                                            match spec_parse_zone(s, pz) {
                                                                Some((z, j)) => Some(
                                                                    (Some(z), j),
                                                                ),
                                                                None => None,
                                                            }
                                                        };
                                                        match zr {
                                                            Some((zv, p7)) => if lit_at(
                                                                s,
                                                                p7,
                                                                "}"@,
                                                            ) {
                                                                Some(
                                                                    (
                                                                        (
                                                                            qs,
                                                                            fq,
                                                                            sf as u32,
                                                                            ef as u32,
                                                                            zv,
                                                                        ),
                                                                        p7 + 1,
                                                                    ),
                                                                )
                                                            } else {
                                                                None
                                                            },
                                                            None => None,
                                                        }
                                                    } else {
                                                        None
                                                    }
                                                } else {
                                                    None
                                                },
                                                None => None,
                                            }
                                        } else {
                                            None
                                        }
                                    } else {
                                        None
                                    },
                                    None => None,
                                }
                            } else {
                                None
                            }
                        },
                        None => None,
                    }
                } else {
                    None
                }
            },
            None => None,
        }
    } else {
        None
    }
}

/// Read the parameter strings after the first, up to (not including) the
/// closing bracket.
fn parse_strlist_tail(s: &str, j0: usize, params: &mut Vec<String>) -> (r: Option<usize>)
    requires
        j0 <= s@.len(),
        s@.len() <= usize::MAX,
    ensures
        match r {
            Some(p2) => spec_parse_strlist_rest(
                s@,
                j0 as int,
                old(params)@.map_values(|x: String| x@),
            ) == Some((final(params)@.map_values(|x: String| x@), p2 as int)) && j0 <= p2
                <= s@.len(),
            None => spec_parse_strlist_rest(
                s@,
                j0 as int,
                old(params)@.map_values(|x: String| x@),
            ) is None,
        },
{
    let mut j: usize = j0;
    loop
        invariant
            j0 <= j <= s@.len(),
            s@.len() <= usize::MAX,
            spec_parse_strlist_rest(s@, j0 as int, old(params)@.map_values(|x: String| x@))
                == spec_parse_strlist_rest(s@, j as int, params@.map_values(|x: String| x@)),
        decreases s@.len() - j,
    {
        proof {
            reveal_strlit("]");
            reveal_strlit(",");
        }
        match expect_lit(s, j, "]") {
            Some(_) => {
                return Some(j);
            },
            None => {},
        }
        match expect_lit(s, j, ",") {
            Some(_) => {},
            None => {
                return None;
            },
        }
        proof {
            assert(j < s@.len()) by {
                assert(lit_at(s@, j as int, ","@));
            }
        }
        let (v, j2) = match parse_string(s, j + 1) {
            Some(p) => p,
            None => {
                return None;
            },
        };
        proof {
            assert(params@.push(v).map_values(|x: String| x@) =~= params@.map_values(
                |x: String| x@,
            ).push(v@));
        }
        params.push(v);
        j = j2;
    }
}

/// Read one override record.
pub fn parse_zone(s: &str, i: usize) -> (r: Option<(crate::scenes::ZoneOverrides, usize)>)
    requires
        i <= s@.len(),
        s@.len() <= usize::MAX,
    ensures
        match r {
            Some((v, j)) => spec_parse_zone(s@, i as int) == Some((zone_model(v), j as int)) && i
                < j <= s@.len(),
            None => spec_parse_zone(s@, i as int) is None,
        },
{
    proof {
        reveal_strlit("null");
        reveal_strlit("]");
        reveal_strlit("}");
        reveal_strlit("{\"encoder\":");
    }
    let i1 = match expect_lit(s, i, "{\"encoder\":") {
        Some(j) => j,
        None => {
            return None;
        },
    };
    let (enc, p1) = match parse_string(s, i1) {
        Some(p) => p,
        None => {
            return None;
        },
    };
    let p1b = match expect_lit(s, p1, ",\"passes\":") {
        Some(j) => j,
        None => {
            return None;
        },
    };
    let (passes, p2) = match parse_u64(s, p1b) {
        Some(p) => p,
        None => {
            return None;
        },
    };
    if passes > u8::MAX as u64 {
        return None;
    }
    let p2b = match expect_lit(s, p2, ",\"video_params\":[") {
        Some(j) => j,
        None => {
            return None;
        },
    };
    let mut params: Vec<String> = Vec::new();
    let p3: usize;
    match expect_lit(s, p2b, "]") {
        Some(_) => {
            p3 = p2b;
            proof {
                assert(params@.map_values(|x: String| x@) =~= Seq::<Seq<char>>::empty());
            }
        },
        None => {
            let (v0, j0) = match parse_string(s, p2b) {
                Some(p) => p,
                None => {
                    return None;
                },
            };
            params.push(v0);
            proof {
                assert(params@.map_values(|x: String| x@) =~= seq![v0@]);
            }
            p3 = match parse_strlist_tail(s, j0, &mut params) {
                Some(p) => p,
                None => {
                    return None;
                },
            };
        },
    }
    let p3b = match expect_lit(s, p3, "],\"photon_noise\":") {
        Some(j) => j,
        None => {
            return None;
        },
    };
    let (ph, p4): (Option<u16>, usize) = match expect_lit(s, p3b, "null") {
        Some(j) => (None, j),
        None => {
            match parse_u64(s, p3b) {
                Some((v, j)) => {
                    if v > u16::MAX as u64 {
                        return None;
                    }
                    (Some(v as u16), j)
                },
                None => {
                    return None;
                },
            }
        },
    };
    let p4b = match expect_lit(s, p4, ",\"extra_split_sec\":") {
        Some(j) => j,
        None => {
            return None;
        },
    };
    let (ex, p5) = match parse_u64(s, p4b) {
        Some(p) => p,
        None => {
            return None;
        },
    };
    if ex > u8::MAX as u64 {
        return None;
    }
    let p5b = match expect_lit(s, p5, ",\"min_scene_len\":") {
        Some(j) => j,
        None => {
            return None;
        },
    };
    let (mn, p6) = match parse_u64(s, p5b) {
        Some(p) => p,
        None => {
            return None;
        },
    };
    if mn > u8::MAX as u64 {
        return None;
    }
    let p7 = match expect_lit(s, p6, "}") {
        Some(j) => j,
        None => {
            return None;
        },
    };
    let z = crate::scenes::ZoneOverrides {
        encoder: enc,
        passes: passes as u8,
        video_params: params,
        photon_noise: ph,
        extra_split_sec: ex as u8,
        min_scene_len: mn as u8,
    };
    proof {
        let m = zone_model(z);
        assert(m.0 == z.encoder@);
        assert(m.2 =~= z.video_params@.map_values(|x: String| x@));
        assert(spec_parse_zone(s@, i as int) == Some((m, p7 as int)));
    }
    Some((z, p7))
}

/// Read one scene.
pub fn parse_scene(s: &str, i: usize) -> (r: Option<(crate::scenes::Scene, usize)>)
    requires
        i <= s@.len(),
        s@.len() <= usize::MAX,
    ensures
        match r {
            Some((v, j)) => spec_parse_scene(s@, i as int) == Some((scene_model(v), j as int))
                && i < j <= s@.len() && v.wf(),
            None => spec_parse_scene(s@, i as int) is None,
        },
{
    proof {
        reveal_strlit("null");
        reveal_strlit("}");
    }
    let p1 = match expect_lit(s, i, "{\"quantizer_scores\":") {
        Some(j) => j,
        None => {
            return None;
        },
    };
    let (qs, p2): (Option<SortedMap<QualityStats>>, usize) = match expect_lit(s, p1, "null") {
        Some(j) => (None, j),
        None => {
            match parse_qs(s, p1) {
                Some((m, j)) => (Some(m), j),
                None => {
                    return None;
                },
            }
        },
    };
    let p3 = match expect_lit(s, p2, ",\"final_quantizer\":") {
        Some(j) => j,
        None => {
            return None;
        },
    };
    let (fq, p4): (Option<i64>, usize) = match expect_lit(s, p3, "null") {
        Some(j) => (None, j),
        None => {
            match parse_i64(s, p3) {
                Some((v, j)) => (Some(v), j),
                None => {
                    return None;
                },
            }
        },
    };
    let p4b = match expect_lit(s, p4, ",\"start_frame\":") {
        Some(j) => j,
        None => {
            return None;
        },
    };
    let (sf, p5) = match parse_u64(s, p4b) {
        Some(p) => p,
        None => {
            return None;
        },
    };
    if sf > u32::MAX as u64 {
        return None;
    }
    let p5b = match expect_lit(s, p5, ",\"end_frame\":") {
        Some(j) => j,
        None => {
            return None;
        },
    };
    let (ef, p6) = match parse_u64(s, p5b) {
        Some(p) => p,
        None => {
            return None;
        },
    };
    if ef > u32::MAX as u64 {
        return None;
    }
    let pz = match expect_lit(s, p6, ",\"zone_overrides\":") {
        Some(j) => j,
        None => {
            return None;
        },
    };
    let (zv, p7): (Option<crate::scenes::ZoneOverrides>, usize) = match expect_lit(s, pz, "null") {
        Some(j) => (None, j),
        None => {
            match parse_zone(s, pz) {
                Some((z, j)) => (Some(z), j),
                None => {
                    return None;
                },
            }
        },
    };
    let p8 = match expect_lit(s, p7, "}") {
        Some(j) => j,
        None => {
            return None;
        },
    };
    let sc = crate::scenes::Scene {
        quantizer_scores: qs,
        final_quantizer_milli: fq,
        start_frame: sf as u32,
        end_frame: ef as u32,
        zone_overrides: zv,
    };
    Some((sc, p8))
}

/// Read a whole scene description; the text must hold nothing else.
pub open spec fn spec_parse_info(s: Seq<char>) -> Option<InfoModel> {
    let l1 = "{\"scenes\":["@;
    if lit_at(s, 0, l1) {
        let p1 = l1.len() as int;
        let body: Option<(Seq<SceneModel>, int)> = if lit_at(s, p1, "]"@) {
            Some((Seq::empty(), p1))
        } else {
            match spec_parse_scene(s, p1) {
                Some((sc, j)) => spec_parse_scenes_rest(s, j, seq![sc]),
                None => None,
            }
        };
        match body {
            Some((scenes, p2)) => {
                let l2 = "],\"frames\":"@;
                if lit_at(s, p2, l2) {
                    match spec_parse_u64(s, p2 + l2.len() as int) {
                        Some((f, p3)) => if f <= u32::MAX && lit_at(s, p3, "}"@) && p3 + 1
                            == s.len() {
                            Some((scenes, f as u32))
                        } else {
                            None
                        },
                        None => None,
                    }
                } else {
                    None
                }
            },
            None => None,
        }
    } else {
        None
    }
}

/// The scenes after the first, each preceded by a comma, ending at the
/// closing bracket (which is left unconsumed).
pub open spec fn spec_parse_scenes_rest(s: Seq<char>, i: int, acc: Seq<SceneModel>) -> Option<
    (Seq<SceneModel>, int),
>
    decreases s.len() - i,
{
    if lit_at(s, i, "]"@) {
        Some((acc, i))
    } else if lit_at(s, i, ","@) && i < s.len() {
        match spec_parse_scene(s, i + 1) {
            Some((sc, j)) => {
                let j2 = if j > i { j } else { i + 1 };
                if j2 <= s.len() {
                    spec_parse_scenes_rest(s, j2, acc.push(sc))
                } else {
                    None
                }
            },
            None => None,
        }
    } else {
        None
    }
}

/// Read a whole scene description.
pub fn read_scenes_info(s: &str) -> (r: Option<crate::scenes::ScenesInfo>)
    requires
        s@.len() <= usize::MAX,
    ensures
        match r {
            Some(info) => spec_parse_info(s@) == Some(info_model(info)) && info.wf(),
            None => spec_parse_info(s@) is None,
        },
{
    proof {
        reveal_strlit("]");
        reveal_strlit("}");
    }
    let p1 = match expect_lit(s, 0, "{\"scenes\":[") {
        Some(j) => j,
        None => {
            return None;
        },
    };
    let mut scenes: Vec<crate::scenes::Scene> = Vec::new();
    let p2: usize;
    match expect_lit(s, p1, "]") {
        Some(_) => {
            p2 = p1;
            proof {
                assert(scenes@.map_values(|x: crate::scenes::Scene| scene_model(x)) =~= Seq::<
                    SceneModel,
                >::empty());
            }
        },
        None => {
            let (sc0, j0) = match parse_scene(s, p1) {
                Some(p) => p,
                None => {
                    return None;
                },
            };
            scenes.push(sc0);
            proof {
                assert(scenes@.map_values(|x: crate::scenes::Scene| scene_model(x)) =~= seq![
                    scene_model(sc0),
                ]);
            }
            p2 = match parse_scenes_tail(s, j0, &mut scenes) {
                Some(p) => p,
                None => {
                    return None;
                },
            };
        },
    }
    let p3 = match expect_lit(s, p2, "],\"frames\":") {
        Some(j) => j,
        None => {
            return None;
        },
    };
    let (f, p4) = match parse_u64(s, p3) {
        Some(p) => p,
        None => {
            return None;
        },
    };
    if f > u32::MAX as u64 {
        return None;
    }
    let p5 = match expect_lit(s, p4, "}") {
        Some(j) => j,
        None => {
            return None;
        },
    };
    let n = s.unicode_len();
    if p5 != n {
        return None;
    }
    let info = crate::scenes::ScenesInfo { scenes, frames: f as u32 };
    proof {
        assert(info_model(info).0 =~= info.scenes@.map_values(
            |x: crate::scenes::Scene| scene_model(x),
        ));
    }
    Some(info)
}

/// Read the scenes after the first, up to (not including) the closing
/// bracket.
fn parse_scenes_tail(s: &str, j0: usize, scenes: &mut Vec<crate::scenes::Scene>) -> (r: Option<
    usize,
>)
    requires
        j0 <= s@.len(),
        s@.len() <= usize::MAX,
        forall|k: int| 0 <= k < old(scenes)@.len() ==> (#[trigger] old(scenes)@[k]).wf(),
    ensures
        match r {
            Some(p2) => spec_parse_scenes_rest(
                s@,
                j0 as int,
                old(scenes)@.map_values(|x: crate::scenes::Scene| scene_model(x)),
            ) == Some(
                (final(scenes)@.map_values(|x: crate::scenes::Scene| scene_model(x)), p2 as int),
            ) && p2 <= s@.len() && (forall|k: int|
                0 <= k < final(scenes)@.len() ==> (#[trigger] final(scenes)@[k]).wf()),
            None => spec_parse_scenes_rest(
                s@,
                j0 as int,
                old(scenes)@.map_values(|x: crate::scenes::Scene| scene_model(x)),
            ) is None,
        },
{
    let mut j: usize = j0;
    loop
        invariant
            j <= s@.len(),
            s@.len() <= usize::MAX,
            forall|k: int| 0 <= k < scenes@.len() ==> (#[trigger] scenes@[k]).wf(),
            spec_parse_scenes_rest(
                s@,
                j0 as int,
                old(scenes)@.map_values(|x: crate::scenes::Scene| scene_model(x)),
            ) == spec_parse_scenes_rest(
                s@,
                j as int,
                scenes@.map_values(|x: crate::scenes::Scene| scene_model(x)),
            ),
        decreases s@.len() - j,
    {
        proof {
            reveal_strlit("]");
            reveal_strlit(",");
        }
        match expect_lit(s, j, "]") {
            Some(_) => {
                return Some(j);
            },
            None => {},
        }
        match expect_lit(s, j, ",") {
            Some(_) => {},
            None => {
                return None;
            },
        }
        proof {
            assert(j < s@.len()) by {
                assert(lit_at(s@, j as int, ","@));
            }
        }
        let (sc, j2) = match parse_scene(s, j + 1) {
            Some(p) => p,
            None => {
                return None;
            },
        };
        proof {
            assert(scenes@.push(sc).map_values(|x: crate::scenes::Scene| scene_model(x))
                =~= scenes@.map_values(|x: crate::scenes::Scene| scene_model(x)).push(
                scene_model(sc),
            ));
        }
        scenes.push(sc);
        j = j2;
    }
}

/// How the scene-list parse in progress relates to the specification: the
/// whole body parse equals the parse from the current position with the
/// scenes seen so far.
pub open spec fn spec_body_rel(s: Seq<char>, p1: int, j: int, scenes: Seq<crate::scenes::Scene>) -> bool {
    ({
        let acc = scenes.map_values(|x: crate::scenes::Scene| scene_model(x));
        (match spec_parse_scene(s, p1) {
            Some((sc0, j0)) => spec_parse_scenes_rest(s, j0, seq![sc0]),
            None => None,
        }) == spec_parse_scenes_rest(s, j, acc) && acc.len() > 0
    })
}

/// A scene model the reader can reproduce: statistics keys ascending and
/// every override-record string free of quotes and backslashes, so the
/// rendering needs no escapes.
pub open spec fn scene_model_readable(sm: SceneModel) -> bool {
    &&& match sm.4 {
        Some(z) => zone_clean(z),
        None => true,
    }
    &&& match sm.0 {
        Some(m) => keys_ascending(m),
        None => true,
    }
}

/// An unsigned number followed by a non-digit parses to exactly the number.
pub proof fn lemma_unum_then_lit(v: u64, s: Seq<char>, i: int, follow: Seq<char>)
    requires
        lit_at(s, i, dec_digits(v as int)),
        lit_at(s, i + dec_digits(v as int).len() as int, follow),
        follow.len() > 0,
        !is_digit(follow[0]),
    ensures
        spec_parse_u64(s, i) == Some((v, i + dec_digits(v as int).len())),
{
    let e = i + dec_digits(v as int).len() as int;
    assert(s[e] == follow[0]) by {
        assert(s.subrange(e, e + follow.len() as int)[0] == follow[0]);
    }
    lemma_parse_render_u64(v, s, i);
}

/// The statistics value of a scene's rendering parses to its model.
#[verifier::rlimit(100)]
proof fn lemma_scene_qs_value(sm0: Option<Seq<(u64, QualityStats)>>, s: Seq<char>, p1: int)
    requires
        match sm0 {
            Some(m) => keys_ascending(m),
            None => true,
        },
        lit_at(s, p1, scene_qs_text(sm0)),
    ensures
        (if lit_at(s, p1, "null"@) {
            Some((None::<Seq<(u64, QualityStats)>>, p1 + 4))
        } else {
            match spec_parse_qs(s, p1) {
                Some((m, j)) => Some((Some(m), j)),
                None => None,
            }
        }) == Some((sm0, p1 + scene_qs_text(sm0).len())),
{
    reveal_strlit("null");
    reveal_strlit("{");
    reveal_strlit("{}");
    reveal_strlit("}");
    match sm0 {
        None => {
            assert(lit_at(s, p1, "null"@));
        },
        Some(m) => {
            let qsv = ser_qs(m);
            assert(s[p1] == qsv[0]) by {
                assert(s.subrange(p1, p1 + qsv.len() as int)[0] == qsv[0]);
            }
            assert(qsv[0] == '{') by {
                if m.len() == 0 {
                    assert(qsv == "{}"@);
                } else {
                    assert(qsv[0] == ("{"@ + (ser_qs_entry(m.first()) + (ser_qs_rest(
                        m.drop_first(),
                    ) + "}"@)))[0]) by {
                        assert(qsv =~= "{"@ + (ser_qs_entry(m.first()) + (ser_qs_rest(
                            m.drop_first(),
                        ) + "}"@)));
                    }
                }
            }
            assert(!lit_at(s, p1, "null"@)) by {
                if lit_at(s, p1, "null"@) {
                    assert(s.subrange(p1, p1 + 4)[0] == 'n');
                }
            }
            lemma_parse_ser_qs(m, s, p1);
        },
    }
}

/// The rendered statistics value of a scene.
pub open spec fn scene_qs_text(sm0: Option<Seq<(u64, QualityStats)>>) -> Seq<char> {
    match sm0 {
        Some(m) => ser_qs(m),
        None => "null"@,
    }
}

/// The rendered final-quantizer value of a scene.
pub open spec fn scene_fq_text(sm1: Option<i64>) -> Seq<char> {
    match sm1 {
        Some(v) => i64_chars(v as int),
        None => "null"@,
    }
}

/// The final-quantizer value of a scene's rendering parses to its model.
#[verifier::rlimit(100)]
proof fn lemma_scene_fq_value(sm1: Option<i64>, s: Seq<char>, p3: int, follow: Seq<char>)
    requires
        lit_at(s, p3, scene_fq_text(sm1)),
        lit_at(s, p3 + scene_fq_text(sm1).len() as int, follow),
        follow.len() > 0,
        !is_digit(follow[0]),
    ensures
        (if lit_at(s, p3, "null"@) {
            Some((None::<i64>, p3 + 4))
        } else {
            match spec_parse_i64(s, p3) {
                Some((v, j)) => Some((Some(v), j)),
                None => None,
            }
        }) == Some((sm1, p3 + scene_fq_text(sm1).len())),
{
    reveal_strlit("null");
    match sm1 {
        None => {
            assert(lit_at(s, p3, "null"@));
        },
        Some(v) => {
            let fqv = i64_chars(v as int);
            assert(s[p3] == fqv[0]) by {
                assert(s.subrange(p3, p3 + fqv.len() as int)[0] == fqv[0]);
            }
            assert(!lit_at(s, p3, "null"@)) by {
                if lit_at(s, p3, "null"@) {
                    assert(s.subrange(p3, p3 + 4)[0] == 'n');
                    assert(s[p3] == 'n');
                    if v < 0 {
                        assert(fqv[0] == '-');
                    } else {
                        lemma_dec_digits_shape(v as int);
                        assert(is_digit(fqv[0]));
                        lemma_not_digit('n');
                    }
                }
            }
            lemma_num_then_lit(v, s, p3, follow);
        },
    }
}

/// Parsing the rendering of a readable scene recovers it.
#[verifier::rlimit(100)]
pub proof fn lemma_parse_ser_scene(sm: SceneModel, s: Seq<char>, i: int)
    requires
        scene_model_readable(sm),
        lit_at(s, i, ser_scene(sm)),
    ensures
        spec_parse_scene(s, i) == Some((sm, i + ser_scene(sm).len())),
{
    reveal_strlit(",");
    reveal_strlit(",\"start_frame\":");
    reveal_strlit(",\"end_frame\":");
    reveal_strlit(",\"zone_overrides\":");
    reveal_strlit("}");
    let l1 = "{\"quantizer_scores\":"@;
    let qsv = scene_qs_text(sm.0);
    let l2 = ",\"final_quantizer\":"@;
    let fqv = scene_fq_text(sm.1);
    let l3 = ",\"start_frame\":"@;
    let sfv = dec_digits(sm.2 as int);
    let l4 = ",\"end_frame\":"@;
    let efv = dec_digits(sm.3 as int);
    let l5 = ",\"zone_overrides\":"@;
    lemma_chain_split(s, i, scene_head(sm), scene_tail(sm));
    let t = i + scene_head(sm).len() as int;
    lemma_scene_head_layout(sm, s, i);
    lemma_scene_tail_layout(sm, s, t);
    let p1 = i + l1.len() as int;
    let p3 = p1 + qsv.len() + l2.len() as int;
    let p4b = t + l3.len() as int;
    let p5b = p4b + sfv.len() + l4.len() as int;
    let pz = p5b + efv.len() + l5.len() as int;
    let p7 = pz + scene_zone_text(sm.4).len() as int;
    lemma_not_digit(',');
    lemma_not_digit('n');
    lemma_scene_qs_value(sm.0, s, p1);
    lemma_scene_fq_value(sm.1, s, p3, l3);
    lemma_unum_then_lit(sm.2 as u64, s, p4b, l4);
    lemma_unum_then_lit(sm.3 as u64, s, p5b, l5);
    lemma_scene_zone_value(sm.4, s, pz);
    assert(lit_at(s, p7, "}"@));
}

/// Where each piece of a scene's head sits.
#[verifier::rlimit(100)]
proof fn lemma_scene_head_layout(sm: SceneModel, s: Seq<char>, i: int)
    requires
        lit_at(s, i, scene_head(sm)),
    ensures
        lit_at(s, i, "{\"quantizer_scores\":"@),
        lit_at(s, i + ("{\"quantizer_scores\":"@).len() as int, scene_qs_text(sm.0)),
        lit_at(
            s,
            i + ("{\"quantizer_scores\":"@).len() + scene_qs_text(sm.0).len() as int,
            ",\"final_quantizer\":"@,
        ),
        lit_at(
            s,
            i + ("{\"quantizer_scores\":"@).len() + scene_qs_text(sm.0).len() + (
            ",\"final_quantizer\":"@).len() as int,
            scene_fq_text(sm.1),
        ),
        scene_head(sm).len() == ("{\"quantizer_scores\":"@).len() + scene_qs_text(sm.0).len() + (
        ",\"final_quantizer\":"@).len() + scene_fq_text(sm.1).len(),
{
    let l1 = "{\"quantizer_scores\":"@;
    let qsv = scene_qs_text(sm.0);
    let l2 = ",\"final_quantizer\":"@;
    let fqv = scene_fq_text(sm.1);
    assert(scene_head(sm) =~= l1 + (qsv + (l2 + fqv)));
    lemma_chain_split(s, i, l1, qsv + (l2 + fqv));
    lemma_chain_split(s, i + l1.len() as int, qsv, l2 + fqv);
    lemma_chain_split(s, i + l1.len() + qsv.len() as int, l2, fqv);
}

/// Where each piece of a scene's tail sits.
#[verifier::rlimit(100)]
proof fn lemma_scene_tail_layout(sm: SceneModel, s: Seq<char>, t: int)
    requires
        lit_at(s, t, scene_tail(sm)),
    ensures
        lit_at(s, t, ",\"start_frame\":"@),
        lit_at(s, t + (",\"start_frame\":"@).len() as int, dec_digits(sm.2 as int)),
        lit_at(
            s,
            t + (",\"start_frame\":"@).len() + dec_digits(sm.2 as int).len() as int,
            ",\"end_frame\":"@,
        ),
        lit_at(
            s,
            t + (",\"start_frame\":"@).len() + dec_digits(sm.2 as int).len() + (
            ",\"end_frame\":"@).len() as int,
            dec_digits(sm.3 as int),
        ),
        lit_at(
            s,
            t + (",\"start_frame\":"@).len() + dec_digits(sm.2 as int).len() + (
            ",\"end_frame\":"@).len() + dec_digits(sm.3 as int).len() as int,
            ",\"zone_overrides\":"@,
        ),
        lit_at(
            s,
            t + (",\"start_frame\":"@).len() + dec_digits(sm.2 as int).len() + (
            ",\"end_frame\":"@).len() + dec_digits(sm.3 as int).len() + (
            ",\"zone_overrides\":"@).len() as int,
            scene_zone_text(sm.4),
        ),
        lit_at(
            s,
            t + (",\"start_frame\":"@).len() + dec_digits(sm.2 as int).len() + (
            ",\"end_frame\":"@).len() + dec_digits(sm.3 as int).len() + (
            ",\"zone_overrides\":"@).len() + scene_zone_text(sm.4).len() as int,
            "}"@,
        ),
        scene_tail(sm).len() == (",\"start_frame\":"@).len() + dec_digits(sm.2 as int).len() + (
        ",\"end_frame\":"@).len() + dec_digits(sm.3 as int).len() + (
        ",\"zone_overrides\":"@).len() + scene_zone_text(sm.4).len() + 1,
{
    reveal_strlit(",\"zone_overrides\":");
    reveal_strlit("}");
    let l3 = ",\"start_frame\":"@;
    let sfv = dec_digits(sm.2 as int);
    let l4 = ",\"end_frame\":"@;
    let efv = dec_digits(sm.3 as int);
    let l5 = ",\"zone_overrides\":"@;
    let zv = scene_zone_text(sm.4);
    assert(scene_tail(sm) =~= l3 + (sfv + (l4 + (efv + (l5 + (zv + "}"@))))));
    lemma_chain_split(s, t, l3, sfv + (l4 + (efv + (l5 + (zv + "}"@)))));
    lemma_chain_split(s, t + l3.len() as int, sfv, l4 + (efv + (l5 + (zv + "}"@))));
    lemma_chain_split(s, t + l3.len() + sfv.len() as int, l4, efv + (l5 + (zv + "}"@)));
    lemma_chain_split(s, t + l3.len() + sfv.len() + l4.len() as int, efv, l5 + (zv + "}"@));
    lemma_chain_split(s, t + l3.len() + sfv.len() + l4.len() + efv.len() as int, l5, zv + "}"@);
    lemma_chain_split(
        s,
        t + l3.len() + sfv.len() + l4.len() + efv.len() + l5.len() as int,
        zv,
        "}"@,
    );
}

/// List-tail round trip: the parameter strings after index `k`.
#[verifier::rlimit(100)]
proof fn lemma_parse_ser_strlist_rest(l: Seq<Seq<char>>, k: int, s: Seq<char>, i: int)
    requires
        forall|t: int| 0 <= t < l.len() ==> string_clean(#[trigger] l[t]),
        0 <= k < l.len(),
        lit_at(s, i, ser_strlist_rest(l.subrange(k + 1, l.len() as int)) + "]"@),
    ensures
        spec_parse_strlist_rest(s, i, l.subrange(0, k + 1)) == Some(
            (l, i + ser_strlist_rest(l.subrange(k + 1, l.len() as int)).len()),
        ),
    decreases l.len() - k,
{
    reveal_strlit("]");
    reveal_strlit(",");
    let rest = l.subrange(k + 1, l.len() as int);
    if rest.len() == 0 {
        assert(ser_strlist_rest(rest) =~= Seq::<char>::empty());
        assert(Seq::<char>::empty() + "]"@ =~= "]"@);
        assert(lit_at(s, i, "]"@));
        assert(l.subrange(0, k + 1) =~= l);
    } else {
        let e = rest.first();
        assert(e == l[k + 1]);
        assert(string_clean(e));
        assert(ser_strlist_rest(rest) == ","@ + ser_string(e) + ser_strlist_rest(
            rest.drop_first(),
        ));
        assert(ser_strlist_rest(rest) + "]"@ =~= ","@ + (ser_string(e) + (ser_strlist_rest(
            rest.drop_first(),
        ) + "]"@)));
        lemma_chain_split(s, i, ","@, ser_string(e) + (ser_strlist_rest(rest.drop_first())
            + "]"@));
        lemma_chain_split(s, i + 1, ser_string(e), ser_strlist_rest(rest.drop_first()) + "]"@);
        lemma_parse_ser_string(e, s, i + 1);
        assert(!lit_at(s, i, "]"@)) by {
            assert(s[i] == ","@[0]) by {
                assert(s.subrange(i, i + 1 as int)[0] == ","@[0]);
            }
            if lit_at(s, i, "]"@) {
                assert(s[i] == ']');
            }
        }
        let j = i + 1 + ser_string(e).len() as int;
        assert(rest.drop_first() =~= l.subrange(k + 2, l.len() as int));
        assert(l.subrange(0, k + 1).push(e) =~= l.subrange(0, k + 2));
        lemma_parse_ser_strlist_rest(l, k + 1, s, j);
    }
}

/// Whole-list round trip: the rendering of a parameter list, followed by
/// the closing bracket, parses to exactly the list.
#[verifier::rlimit(100)]
proof fn lemma_parse_ser_strlist(l: Seq<Seq<char>>, s: Seq<char>, p: int)
    requires
        forall|t: int| 0 <= t < l.len() ==> string_clean(#[trigger] l[t]),
        lit_at(s, p, ser_strlist(l)),
        lit_at(s, p + ser_strlist(l).len() as int, "]"@),
    ensures
        spec_parse_strlist(s, p) == Some((l, p + ser_strlist(l).len())),
{
    reveal_strlit("]");
    if l.len() == 0 {
        assert(ser_strlist(l) =~= Seq::<char>::empty());
        assert(lit_at(s, p, "]"@));
        assert(l =~= Seq::<Seq<char>>::empty());
    } else {
        let e = l.first();
        assert(ser_strlist(l) == ser_string(e) + ser_strlist_rest(l.drop_first()));
        lemma_chain_split(s, p, ser_string(e), ser_strlist_rest(l.drop_first()));
        let j = p + ser_string(e).len() as int;
        lemma_chain_join(
            s,
            j,
            ser_strlist_rest(l.drop_first()),
            "]"@,
        );
        assert(string_clean(e));
        lemma_parse_ser_string(e, s, p);
        assert(!lit_at(s, p, "]"@)) by {
            assert(s[p] == ser_string(e)[0]) by {
                assert(s.subrange(p, p + ser_string(e).len() as int)[0] == ser_string(e)[0]);
            }
            assert(ser_string(e)[0] == '"');
            if lit_at(s, p, "]"@) {
                assert(s.subrange(p, p + 1 as int)[0] == ']');
            }
        }
        assert(seq![e] =~= l.subrange(0, 1));
        assert(l.drop_first() =~= l.subrange(1, l.len() as int));
        lemma_parse_ser_strlist_rest(l, 0, s, j);
    }
}

/// Where each piece of an override record's head sits.
#[verifier::rlimit(100)]
proof fn lemma_zone_head_layout(z: ZoneModel, s: Seq<char>, i: int)
    requires
        lit_at(s, i, zone_head(z)),
    ensures
        lit_at(s, i, "{\"encoder\":"@),
        lit_at(s, i + ("{\"encoder\":"@).len() as int, ser_string(z.0)),
        lit_at(
            s,
            i + ("{\"encoder\":"@).len() + ser_string(z.0).len() as int,
            ",\"passes\":"@,
        ),
        lit_at(
            s,
            i + ("{\"encoder\":"@).len() + ser_string(z.0).len() + (",\"passes\":"@).len() as int,
            dec_digits(z.1 as int),
        ),
        lit_at(
            s,
            i + ("{\"encoder\":"@).len() + ser_string(z.0).len() + (",\"passes\":"@).len()
                + dec_digits(z.1 as int).len() as int,
            ",\"video_params\":["@,
        ),
        zone_head(z).len() == ("{\"encoder\":"@).len() + ser_string(z.0).len() + (
        ",\"passes\":"@).len() + dec_digits(z.1 as int).len() + (",\"video_params\":["@).len(),
{
    let z1 = "{\"encoder\":"@;
    let sv = ser_string(z.0);
    let z2 = ",\"passes\":"@;
    let d1 = dec_digits(z.1 as int);
    let z3 = ",\"video_params\":["@;
    assert(zone_head(z) =~= z1 + (sv + (z2 + (d1 + z3))));
    lemma_chain_split(s, i, z1, sv + (z2 + (d1 + z3)));
    lemma_chain_split(s, i + z1.len() as int, sv, z2 + (d1 + z3));
    lemma_chain_split(s, i + z1.len() + sv.len() as int, z2, d1 + z3);
    lemma_chain_split(s, i + z1.len() + sv.len() + z2.len() as int, d1, z3);
}

/// Where each piece of an override record's closing part sits.
#[verifier::rlimit(100)]
proof fn lemma_zone_tail_layout(z: ZoneModel, s: Seq<char>, t: int)
    requires
        lit_at(s, t, zone_tail(z)),
    ensures
        lit_at(s, t, "],\"photon_noise\":"@),
        lit_at(s, t + ("],\"photon_noise\":"@).len() as int, zone_photon_text(z.3)),
        lit_at(
            s,
            t + ("],\"photon_noise\":"@).len() + zone_photon_text(z.3).len() as int,
            ",\"extra_split_sec\":"@,
        ),
        lit_at(
            s,
            t + ("],\"photon_noise\":"@).len() + zone_photon_text(z.3).len() + (
            ",\"extra_split_sec\":"@).len() as int,
            dec_digits(z.4 as int),
        ),
        lit_at(
            s,
            t + ("],\"photon_noise\":"@).len() + zone_photon_text(z.3).len() + (
            ",\"extra_split_sec\":"@).len() + dec_digits(z.4 as int).len() as int,
            ",\"min_scene_len\":"@,
        ),
        lit_at(
            s,
            t + ("],\"photon_noise\":"@).len() + zone_photon_text(z.3).len() + (
            ",\"extra_split_sec\":"@).len() + dec_digits(z.4 as int).len() + (
            ",\"min_scene_len\":"@).len() as int,
            dec_digits(z.5 as int),
        ),
        lit_at(
            s,
            t + ("],\"photon_noise\":"@).len() + zone_photon_text(z.3).len() + (
            ",\"extra_split_sec\":"@).len() + dec_digits(z.4 as int).len() + (
            ",\"min_scene_len\":"@).len() + dec_digits(z.5 as int).len() as int,
            "}"@,
        ),
        zone_tail(z).len() == ("],\"photon_noise\":"@).len() + zone_photon_text(z.3).len() + (
        ",\"extra_split_sec\":"@).len() + dec_digits(z.4 as int).len() + (
        ",\"min_scene_len\":"@).len() + dec_digits(z.5 as int).len() + 1,
{
    reveal_strlit("}");
    let z4 = "],\"photon_noise\":"@;
    let pv = zone_photon_text(z.3);
    let z5 = ",\"extra_split_sec\":"@;
    let d2 = dec_digits(z.4 as int);
    let z6 = ",\"min_scene_len\":"@;
    let d3 = dec_digits(z.5 as int);
    assert(zone_tail(z) =~= z4 + (pv + (z5 + (d2 + (z6 + (d3 + "}"@))))));
    lemma_chain_split(s, t, z4, pv + (z5 + (d2 + (z6 + (d3 + "}"@)))));
    lemma_chain_split(s, t + z4.len() as int, pv, z5 + (d2 + (z6 + (d3 + "}"@))));
    lemma_chain_split(s, t + z4.len() + pv.len() as int, z5, d2 + (z6 + (d3 + "}"@)));
    lemma_chain_split(s, t + z4.len() + pv.len() + z5.len() as int, d2, z6 + (d3 + "}"@));
    lemma_chain_split(s, t + z4.len() + pv.len() + z5.len() + d2.len() as int, z6, d3 + "}"@);
    lemma_chain_split(
        s,
        t + z4.len() + pv.len() + z5.len() + d2.len() + z6.len() as int,
        d3,
        "}"@,
    );
}

/// The rendered grain value of an override record.
pub open spec fn zone_photon_text(ph: Option<u16>) -> Seq<char> {
    match ph {
        Some(v) => dec_digits(v as int),
        None => "null"@,
    }
}

/// Parsing the rendering of a clean override record recovers it.
#[verifier::rlimit(100)]
proof fn lemma_parse_ser_zone(z: ZoneModel, s: Seq<char>, i: int)
    requires
        zone_clean(z),
        lit_at(s, i, ser_zone(z)),
    ensures
        spec_parse_zone(s, i) == Some((z, i + ser_zone(z).len())),
{
    reveal_strlit(",");
    reveal_strlit("]");
    reveal_strlit("null");
    reveal_strlit(",\"video_params\":[");
    reveal_strlit("],\"photon_noise\":");
    reveal_strlit(",\"extra_split_sec\":");
    reveal_strlit(",\"min_scene_len\":");
    reveal_strlit("}");
    let z1 = "{\"encoder\":"@;
    let z2 = ",\"passes\":"@;
    let z3 = ",\"video_params\":["@;
    let z4 = "],\"photon_noise\":"@;
    let z5 = ",\"extra_split_sec\":"@;
    let z6 = ",\"min_scene_len\":"@;
    assert(ser_zone(z) =~= zone_head(z) + (ser_strlist(z.2) + zone_tail(z)));
    lemma_chain_split(s, i, zone_head(z), ser_strlist(z.2) + zone_tail(z));
    let ph = i + zone_head(z).len() as int;
    lemma_chain_split(s, ph, ser_strlist(z.2), zone_tail(z));
    let t = ph + ser_strlist(z.2).len() as int;
    lemma_zone_head_layout(z, s, i);
    lemma_zone_tail_layout(z, s, t);
    lemma_not_digit(',');
    lemma_not_digit(']');
    lemma_not_digit('n');
    lemma_not_digit('}');
    let ps = i + z1.len() as int;
    lemma_parse_ser_string(z.0, s, ps);
    let pd1 = ps + ser_string(z.0).len() + z2.len() as int;
    lemma_unum_then_lit(z.1 as u64, s, pd1, z3);
    // The parameter list ends where the closing bracket of the following
    // literal begins.
    assert(lit_at(s, t, "]"@)) by {
        assert(s.subrange(t, t + 1 as int) =~= "]"@) by {
            assert(s.subrange(t, t + z4.len() as int)[0] == z4[0]);
        }
    }
    lemma_parse_ser_strlist(z.2, s, ph);
    // The grain value.
    let pp = t + z4.len() as int;
    match z.3 {
        None => {
            assert(lit_at(s, pp, "null"@));
        },
        Some(v) => {
            let pv = dec_digits(v as int);
            assert(s[pp] == pv[0]) by {
                assert(s.subrange(pp, pp + pv.len() as int)[0] == pv[0]);
            }
            assert(!lit_at(s, pp, "null"@)) by {
                if lit_at(s, pp, "null"@) {
                    assert(s.subrange(pp, pp + 4)[0] == 'n');
                    lemma_dec_digits_shape(v as int);
                    assert(is_digit(pv[0]));
                }
            }
            lemma_unum_then_lit(v as u64, s, pp, z5);
        },
    }
    let pd2 = pp + zone_photon_text(z.3).len() + z5.len() as int;
    lemma_unum_then_lit(z.4 as u64, s, pd2, z6);
    let pd3 = pd2 + dec_digits(z.4 as int).len() + z6.len() as int;
    lemma_unum_then_lit(z.5 as u64, s, pd3, "}"@);
}

/// The override value of a scene's rendering parses to its model.
#[verifier::rlimit(100)]
proof fn lemma_scene_zone_value(sm4: Option<ZoneModel>, s: Seq<char>, pz: int)
    requires
        match sm4 {
            Some(z) => zone_clean(z),
            None => true,
        },
        lit_at(s, pz, scene_zone_text(sm4)),
    ensures
        (if lit_at(s, pz, "null"@) {
            Some((None::<ZoneModel>, pz + 4))
        } else {
            match spec_parse_zone(s, pz) {
                Some((z, j)) => Some((Some(z), j)),
                None => None,
            }
        }) == Some((sm4, pz + scene_zone_text(sm4).len())),
{
    reveal_strlit("null");
    reveal_strlit("{\"encoder\":");
    match sm4 {
        None => {
            assert(lit_at(s, pz, "null"@));
        },
        Some(z) => {
            let zt = ser_zone(z);
            assert(s[pz] == zt[0]) by {
                assert(s.subrange(pz, pz + zt.len() as int)[0] == zt[0]);
            }
            assert(zt[0] == '{') by {
                assert(zt =~= "{\"encoder\":"@ + (ser_string(z.0) + (",\"passes\":"@
                    + (dec_digits(z.1 as int) + (",\"video_params\":["@ + (ser_strlist(z.2)
                    + zone_tail(z)))))));
                assert(zt[0] == "{\"encoder\":"@[0]);
            }
            assert(!lit_at(s, pz, "null"@)) by {
                if lit_at(s, pz, "null"@) {
                    assert(s.subrange(pz, pz + 4)[0] == 'n');
                }
            }
            lemma_parse_ser_zone(z, s, pz);
        },
    }
}

/// List-tail round trip: the scenes after index `k`.
#[verifier::rlimit(100)]
proof fn lemma_parse_ser_scenes_rest(l: Seq<SceneModel>, k: int, s: Seq<char>, i: int)
    requires
        forall|t: int| 0 <= t < l.len() ==> scene_model_readable(#[trigger] l[t]),
        0 <= k < l.len(),
        lit_at(s, i, ser_scenes_rest(l.subrange(k + 1, l.len() as int)) + "]"@),
    ensures
        spec_parse_scenes_rest(s, i, l.subrange(0, k + 1)) == Some(
            (l, i + ser_scenes_rest(l.subrange(k + 1, l.len() as int)).len()),
        ),
    decreases l.len() - k,
{
    reveal_strlit("]");
    reveal_strlit(",");
    let rest = l.subrange(k + 1, l.len() as int);
    if rest.len() == 0 {
        assert(ser_scenes_rest(rest) =~= Seq::<char>::empty());
        assert(Seq::<char>::empty() + "]"@ =~= "]"@);
        assert(lit_at(s, i, "]"@));
        assert(l.subrange(0, k + 1) =~= l);
    } else {
        let e = rest.first();
        assert(e == l[k + 1]);
        assert(scene_model_readable(e));
        assert(ser_scenes_rest(rest) == ","@ + ser_scene(e) + ser_scenes_rest(rest.drop_first()));
        assert(ser_scenes_rest(rest) + "]"@ =~= ","@ + (ser_scene(e) + (ser_scenes_rest(
            rest.drop_first(),
        ) + "]"@)));
        lemma_chain_split(s, i, ","@, ser_scene(e) + (ser_scenes_rest(rest.drop_first()) + "]"@));
        lemma_chain_split(s, i + 1, ser_scene(e), ser_scenes_rest(rest.drop_first()) + "]"@);
        lemma_parse_ser_scene(e, s, i + 1);
        assert(!lit_at(s, i, "]"@)) by {
            assert(s[i] == ","@[0]) by {
                assert(s.subrange(i, i + 1 as int)[0] == ","@[0]);
            }
            if lit_at(s, i, "]"@) {
                assert(s[i] == ']');
            }
        }
        let j = i + 1 + ser_scene(e).len() as int;
        assert(rest.drop_first() =~= l.subrange(k + 2, l.len() as int));
        assert(l.subrange(0, k + 1).push(e) =~= l.subrange(0, k + 2));
        lemma_parse_ser_scenes_rest(l, k + 1, s, j);
    }
}

/// Joining two adjacent literal regions.
pub proof fn lemma_chain_join(s: Seq<char>, i: int, a: Seq<char>, b: Seq<char>)
    requires
        lit_at(s, i, a),
        lit_at(s, i + a.len() as int, b),
    ensures
        lit_at(s, i, a + b),
{
    assert(s.subrange(i, i + (a + b).len() as int) =~= a + b) by {
        assert forall|k: int| 0 <= k < a.len() + b.len() implies s.subrange(
            i,
            i + (a + b).len() as int,
        )[k] == (a + b)[k] by {
            if k < a.len() {
                assert(s.subrange(i, i + a.len() as int)[k] == a[k]);
            } else {
                assert(s.subrange(i + a.len() as int, i + a.len() + b.len() as int)[k - a.len()]
                    == b[k - a.len()]);
            }
        }
    }
}

/// Body round trip: the scene list between the brackets.
#[verifier::rlimit(100)]
proof fn lemma_parse_ser_scenes_body(l: Seq<SceneModel>, s: Seq<char>, p1: int)
    requires
        forall|t: int| 0 <= t < l.len() ==> scene_model_readable(#[trigger] l[t]),
        lit_at(s, p1, ser_scenes(l)),
        lit_at(s, p1 + ser_scenes(l).len() as int, "]"@),
    ensures
        (if lit_at(s, p1, "]"@) {
            Some((Seq::<SceneModel>::empty(), p1))
        } else {
            match spec_parse_scene(s, p1) {
                Some((sc, j)) => spec_parse_scenes_rest(s, j, seq![sc]),
                None => None,
            }
        }) == Some((l, p1 + ser_scenes(l).len())),
{
    reveal_strlit("{\"quantizer_scores\":");
    reveal_strlit("]");
    if l.len() == 0 {
        assert(ser_scenes(l) =~= Seq::<char>::empty());
        assert(lit_at(s, p1, "]"@));
        assert(l =~= Seq::<SceneModel>::empty());
    } else {
        let f0 = l.first();
        assert(ser_scenes(l) == ser_scene(f0) + ser_scenes_rest(l.drop_first()));
        lemma_chain_split(s, p1, ser_scene(f0), ser_scenes_rest(l.drop_first()));
        let pf = p1 + ser_scene(f0).len() as int;
        lemma_chain_join(s, pf, ser_scenes_rest(l.drop_first()), "]"@);
        assert(scene_model_readable(f0));
        lemma_parse_ser_scene(f0, s, p1);
        // The list is not empty, so no bracket sits right after the header.
        assert(!lit_at(s, p1, "]"@)) by {
            assert(s[p1] == ser_scene(f0)[0]) by {
                assert(s.subrange(p1, p1 + ser_scene(f0).len() as int)[0] == ser_scene(f0)[0]);
            }
            assert(ser_scene(f0)[0] == '{') by {
                assert(ser_scene(f0)[0] == "{\"quantizer_scores\":"@[0]);
            }
            if lit_at(s, p1, "]"@) {
                assert(s.subrange(p1, p1 + 1 as int)[0] == ']');
            }
        }
        assert(seq![f0] =~= l.subrange(0, 1));
        assert(l.drop_first() =~= l.subrange(1, l.len() as int));
        lemma_parse_ser_scenes_rest(l, 0, s, pf);
    }
}

/// The frames key begins with the list's closing bracket.
proof fn lemma_l2_starts_bracket(s: Seq<char>, p2: int)
    requires
        lit_at(s, p2, "],\"frames\":"@),
    ensures
        lit_at(s, p2, "]"@),
{
    reveal_strlit("],\"frames\":");
    reveal_strlit("]");
    assert(s.subrange(p2, p2 + 1 as int) =~= "]"@) by {
        assert(s.subrange(p2, p2 + 11 as int)[0] == "],\"frames\":"@[0]);
    }
}

/// The layout of a rendered description: where each piece sits.
#[verifier::rlimit(100)]
proof fn lemma_info_layout(m: InfoModel)
    ensures
        lit_at(ser_info(m), 0, "{\"scenes\":["@),
        lit_at(ser_info(m), ("{\"scenes\":["@).len() as int, ser_scenes(m.0)),
        lit_at(
            ser_info(m),
            ("{\"scenes\":["@).len() + ser_scenes(m.0).len() as int,
            "],\"frames\":"@,
        ),
        lit_at(
            ser_info(m),
            ("{\"scenes\":["@).len() + ser_scenes(m.0).len() + ("],\"frames\":"@).len() as int,
            dec_digits(m.1 as int),
        ),
        lit_at(
            ser_info(m),
            ("{\"scenes\":["@).len() + ser_scenes(m.0).len() + ("],\"frames\":"@).len()
                + dec_digits(m.1 as int).len() as int,
            "}"@,
        ),
        ser_info(m).len() == ("{\"scenes\":["@).len() + ser_scenes(m.0).len() + (
        "],\"frames\":"@).len() + dec_digits(m.1 as int).len() + 1,
{
    reveal_strlit("}");
    let s = ser_info(m);
    let l1 = "{\"scenes\":["@;
    let body = ser_scenes(m.0);
    let l2 = "],\"frames\":"@;
    let fr = dec_digits(m.1 as int);
    assert(s =~= l1 + (body + (l2 + (fr + "}"@))));
    assert(lit_at(s, 0, l1 + (body + (l2 + (fr + "}"@))))) by {
        assert(s.subrange(0, s.len() as int) =~= s);
    }
    lemma_chain_split(s, 0, l1, body + (l2 + (fr + "}"@)));
    let p1 = l1.len() as int;
    lemma_chain_split(s, p1, body, l2 + (fr + "}"@));
    let p2 = p1 + body.len() as int;
    lemma_chain_split(s, p2, l2, fr + "}"@);
    let p3 = p2 + l2.len() as int;
    lemma_chain_split(s, p3, fr, "}"@);
}

/// Writing a scene description and reading the text back yields exactly the
/// same scene boundaries, statistics and solved quantizers: the scene-file
/// schema is lossless.
#[verifier::rlimit(100)]
pub proof fn lemma_scene_file_round_trip(m: InfoModel)
    requires
        forall|t: int| 0 <= t < m.0.len() ==> scene_model_readable(#[trigger] m.0[t]),
    ensures
        spec_parse_info(ser_info(m)) == Some(m),
{
    reveal_strlit("}");
    let s = ser_info(m);
    let l1 = "{\"scenes\":["@;
    let body = ser_scenes(m.0);
    let l2 = "],\"frames\":"@;
    let fr = dec_digits(m.1 as int);
    lemma_info_layout(m);
    let p1 = l1.len() as int;
    let p2 = p1 + body.len() as int;
    let p3 = p2 + l2.len() as int;
    let p4 = p3 + fr.len() as int;
    lemma_l2_starts_bracket(s, p2);
    lemma_not_digit('}');
    lemma_unum_then_lit(m.1 as u64, s, p3, "}"@);
    lemma_parse_ser_scenes_body(m.0, s, p1);
}

/// One line of the score cache: canonical frame index, a space, the score
/// in thousandths, a newline.
pub open spec fn ser_cache_entry(e: (u64, i64)) -> Seq<char> {
    dec_digits(e.0 as int) + " "@ + i64_chars(e.1 as int) + "\n"@
}

/// The score-cache text: one line per entry, ascending frame order.
pub open spec fn ser_cache(m: Seq<(u64, i64)>) -> Seq<char>
    decreases m.len(),
{
    if m.len() == 0 {
        Seq::empty()
    } else {
        ser_cache_entry(m.first()) + ser_cache(m.drop_first())
    }
}

/// Read cache lines from `i` to the end of the text, keys strictly above
/// `prev` and ascending.
pub open spec fn spec_parse_cache_rest(
    s: Seq<char>,
    i: int,
    prev: Option<u64>,
    acc: Seq<(u64, i64)>,
) -> Option<Seq<(u64, i64)>>
    decreases s.len() - i,
{
    if i == s.len() {
        Some(acc)
    } else if 0 <= i < s.len() {
        match spec_parse_u64(s, i) {
            Some((k, j)) => if (match prev {
                Some(p) => k > p,
                None => true,
            }) && lit_at(s, j, " "@) {
                match spec_parse_i64(s, j + 1) {
                    Some((v, j2)) => if lit_at(s, j2, "\n"@) {
                        let j3 = if j2 + 1 > i {
                            j2 + 1
                        } else {
                            i + 1
                        };
                        if j3 <= s.len() {
                            spec_parse_cache_rest(s, j3, Some(k), acc.push((k, v)))
                        } else {
                            None
                        }
                    } else {
                        None
                    },
                    None => None,
                }
            } else {
                None
            },
            None => None,
        }
    } else {
        None
    }
}

/// Read a whole score-cache text.
pub open spec fn spec_parse_cache(s: Seq<char>) -> Option<Seq<(u64, i64)>> {
    spec_parse_cache_rest(s, 0, None, Seq::empty())
}

/// Write a scoring round as cache text.
pub fn write_score_cache(m: &SortedMap<i64>) -> (out: String)
    ensures
        out@ == ser_cache(m@),
{
    let ghost entries = m@;
    let mut out = String::new();
    let n = m.len();
    let mut i: usize = 0;
    proof {
        reveal_strlit(" ");
        reveal_strlit("\n");
        assert(ser_cache_partial(entries, 0) =~= Seq::<char>::empty());
    }
    while i < n
        invariant
            i <= n,
            n == entries.len(),
            entries == m@,
            out@ == ser_cache_partial(entries, i as int),
        decreases n - i,
    {
        let e = m.entry_at(i);
        render_u64_into(e.0, &mut out);
        out.append(" ");
        render_i64_into(e.1, &mut out);
        out.append("\n");
        proof {
            lemma_ser_cache_partial_step(entries, i as int);
            assert(out@ =~= ser_cache_partial(entries, i as int + 1));
        }
        i += 1;
    }
    proof {
        lemma_ser_cache_partial_full(entries);
    }
    out
}

/// The rendering of the first `k` entries.
pub open spec fn ser_cache_partial(m: Seq<(u64, i64)>, k: int) -> Seq<char>
    decreases k,
{
    if k <= 0 {
        Seq::empty()
    } else {
        ser_cache_partial(m, k - 1) + ser_cache_entry(m[k - 1])
    }
}

proof fn lemma_ser_cache_partial_step(m: Seq<(u64, i64)>, k: int)
    requires
        0 <= k,
    ensures
        ser_cache_partial(m, k + 1) == ser_cache_partial(m, k) + ser_cache_entry(m[k]),
{
}

proof fn lemma_ser_cache_partial_full(m: Seq<(u64, i64)>)
    ensures
        ser_cache_partial(m, m.len() as int) == ser_cache(m),
    decreases m.len(),
{
    if m.len() == 0 {
        assert(ser_cache_partial(m, 0) =~= ser_cache(m));
    } else {
        lemma_ser_cache_partial_full(m.drop_first());
        lemma_ser_cache_partial_prefix(m, m.len() as int - 1);
        assert(ser_cache_partial(m, m.len() as int) =~= ser_cache(m));
    }
}

proof fn lemma_ser_cache_partial_prefix(m: Seq<(u64, i64)>, k: int)
    requires
        0 <= k < m.len(),
    ensures
        ser_cache_partial(m, k + 1) == ser_cache_entry(m.first()) + ser_cache_partial(
            m.drop_first(),
            k,
        ),
    decreases k,
{
    if k == 0 {
        assert(ser_cache_partial(m, 0) =~= Seq::<char>::empty());
        assert(ser_cache_partial(m.drop_first(), 0) =~= Seq::<char>::empty());
        assert(m[0] == m.first());
        assert(ser_cache_partial(m, 1) =~= ser_cache_entry(m.first()) + ser_cache_partial(
            m.drop_first(),
            0,
        ));
    } else {
        lemma_ser_cache_partial_prefix(m, k - 1);
        assert(m.drop_first()[k - 1] == m[k]);
        assert(ser_cache_partial(m, k + 1) =~= ser_cache_entry(m.first()) + ser_cache_partial(
            m.drop_first(),
            k,
        ));
    }
}

/// Read a whole score-cache text; the text must hold nothing else, and the
/// frame indices must ascend.
pub fn read_score_cache(s: &str) -> (r: Option<SortedMap<i64>>)
    requires
        s@.len() <= usize::MAX,
    ensures
        match r {
            Some(m) => spec_parse_cache(s@) == Some(m@) && m.wf(),
            None => spec_parse_cache(s@) is None,
        },
{
    proof {
        reveal_strlit(" ");
        reveal_strlit("\n");
    }
    let n = s.unicode_len();
    let mut m = SortedMap::<i64>::new();
    let mut i: usize = 0;
    let mut prev: Option<u64> = None;
    loop
        invariant
            i <= n,
            n == s@.len() <= usize::MAX,
            m.wf(),
            m@.len() > 0 ==> prev == Some(m@.last().0),
            m@.len() == 0 ==> prev is None,
            spec_parse_cache(s@) == spec_parse_cache_rest(s@, i as int, prev, m@),
        decreases n - i,
    {
        proof {
            reveal_strlit(" ");
            reveal_strlit("\n");
        }
        if i == n {
            return Some(m);
        }
        let (k, j) = match parse_u64(s, i) {
            Some(p) => p,
            None => {
                return None;
            },
        };
        match prev {
            Some(p) => {
                if k <= p {
                    return None;
                }
            },
            None => {},
        }
        let jb = match expect_lit(s, j, " ") {
            Some(p) => p,
            None => {
                return None;
            },
        };
        let (v, j2) = match parse_i64(s, jb) {
            Some(p) => p,
            None => {
                return None;
            },
        };
        let j3 = match expect_lit(s, j2, "\n") {
            Some(p) => p,
            None => {
                return None;
            },
        };
        m.push_max(k, v);
        prev = Some(k);
        i = j3;
    }
}

/// Writing a scoring round and reading the text back yields exactly the
/// same frame-to-score mapping: the cache schema is lossless.
pub proof fn lemma_score_cache_round_trip(m: Seq<(u64, i64)>)
    requires
        keys_ascending(m),
    ensures
        spec_parse_cache(ser_cache(m)) == Some(m),
{
    let s = ser_cache(m);
    assert(m.subrange(0, m.len() as int) =~= m);
    assert(lit_at(s, 0, ser_cache(m.subrange(0, m.len() as int)))) by {
        assert(s.subrange(0, s.len() as int) =~= s);
    }
    lemma_parse_ser_cache_rest(m, 0, s, 0, None, Seq::empty());
    assert(Seq::<(u64, i64)>::empty() + m =~= m);
}

/// Cache-tail round trip: the entries from index `k` onward.
#[verifier::rlimit(100)]
proof fn lemma_parse_ser_cache_rest(
    m: Seq<(u64, i64)>,
    k: int,
    s: Seq<char>,
    i: int,
    prev: Option<u64>,
    acc: Seq<(u64, i64)>,
)
    requires
        keys_ascending(m),
        0 <= k <= m.len(),
        lit_at(s, i, ser_cache(m.subrange(k, m.len() as int))),
        i + ser_cache(m.subrange(k, m.len() as int)).len() == s.len(),
        match prev {
            Some(p) => k < m.len() ==> m[k].0 > p,
            None => true,
        },
    ensures
        spec_parse_cache_rest(s, i, prev, acc) == Some(acc + m.subrange(k, m.len() as int)),
    decreases m.len() - k,
{
    reveal_strlit(" ");
    reveal_strlit("\n");
    let rest = m.subrange(k, m.len() as int);
    if rest.len() == 0 {
        assert(ser_cache(rest) =~= Seq::<char>::empty());
        assert(i == s.len());
        assert(acc + rest =~= acc);
    } else {
        let e = rest.first();
        assert(e == m[k]);
        assert(ser_cache(rest) == ser_cache_entry(e) + ser_cache(rest.drop_first()));
        assert(ser_cache_entry(e) + ser_cache(rest.drop_first()) =~= dec_digits(e.0 as int) + (
        " "@ + (i64_chars(e.1 as int) + ("\n"@ + ser_cache(rest.drop_first())))));
        lemma_chain_split(
            s,
            i,
            dec_digits(e.0 as int),
            " "@ + (i64_chars(e.1 as int) + ("\n"@ + ser_cache(rest.drop_first()))),
        );
        let pa = i + dec_digits(e.0 as int).len() as int;
        lemma_chain_split(s, pa, " "@, i64_chars(e.1 as int) + ("\n"@ + ser_cache(
            rest.drop_first(),
        )));
        let pb = pa + 1;
        lemma_chain_split(s, pb, i64_chars(e.1 as int), "\n"@ + ser_cache(rest.drop_first()));
        let pc = pb + i64_chars(e.1 as int).len() as int;
        lemma_chain_split(s, pc, "\n"@, ser_cache(rest.drop_first()));
        lemma_not_digit(' ');
        lemma_not_digit('\n');
        lemma_unum_then_lit(e.0, s, i, " "@);
        lemma_num_then_lit(e.1, s, pb, "\n"@);
        assert(i < s.len()) by {
            lemma_dec_digits_shape(e.0 as int);
        }
        assert(rest.drop_first() =~= m.subrange(k + 1, m.len() as int));
        assert(acc.push(e) + m.subrange(k + 1, m.len() as int) =~= acc + rest);
        lemma_parse_ser_cache_rest(m, k + 1, s, pc + 1, Some(e.0), acc.push(e));
    }
}

} // verus!
