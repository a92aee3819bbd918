//! Small shared helpers: epoch-millisecond dates, SQL-literal escaping, and
//! the address/owner normalization the parcel layer's `LIKE` queries need.

use vstd::prelude::*;

use crate::text::{
    all_ascii, ascii_upper_seq, chars_of, collapse_whitespace, dec, dec_u64, join,
    all_words, is_word, lemma_collapse_upper_fixed, lemma_upper_idempotent, lemma_words_are_words,
    lemma_words_ascii, pad_left,
    pad_left_chars, string_of, to_upper, unicode_upper, words,
};

verus! {

/// A leap year of the proleptic Gregorian calendar.
pub open spec fn is_leap(y: int) -> bool {
    (y % 4 == 0 && y % 100 != 0) || y % 400 == 0
}

pub open spec fn days_in_month(y: int, m: int) -> int {
    if m == 2 {
        if is_leap(y) {
            29
        } else {
            28
        }
    } else if m == 4 || m == 6 || m == 9 || m == 11 {
        30
    } else {
        31
    }
}

/// Days in the months of year `y` that come before month `m`.
pub open spec fn days_before_month(y: int, m: int) -> int {
    let base: int = if m == 1 {
        0
    } else if m == 2 {
        31
    } else if m == 3 {
        59
    } else if m == 4 {
        90
    } else if m == 5 {
        120
    } else if m == 6 {
        151
    } else if m == 7 {
        181
    } else if m == 8 {
        212
    } else if m == 9 {
        243
    } else if m == 10 {
        273
    } else if m == 11 {
        304
    } else {
        334
    };
    if m > 2 && is_leap(y) {
        base + 1
    } else {
        base
    }
}

/// The number of leap years among the years `1..=x` (for negative `x`, minus
/// the number among `x+1..=0`), so that `leaps_through(y) - leaps_through(y - 1)`
/// is 1 exactly when `y` is a leap year.
pub open spec fn leaps_through(x: int) -> int {
    x / 4 - x / 100 + x / 400
}

/// Days from 1970-01-01 to the first of January of year `y` (negative
/// before 1970).
pub open spec fn days_before_year(y: int) -> int {
    365 * (y - 1970) + leaps_through(y - 1) - leaps_through(1969)
}

/// Days from 1970-01-01 to the given date.
pub open spec fn days_from_civil(y: int, m: int, d: int) -> int {
    days_before_year(y) + days_before_month(y, m) + d - 1
}

/// A real calendar date.
pub open spec fn valid_date(y: int, m: int, d: int) -> bool {
    1 <= m <= 12 && 1 <= d <= days_in_month(y, m)
}

proof fn lemma_div_step4(x: int)
    ensures
        x / 4 - (x - 1) / 4 == if x % 4 == 0 {
            1int
        } else {
            0int
        },
{
}

proof fn lemma_div_step100(x: int)
    ensures
        x / 100 - (x - 1) / 100 == if x % 100 == 0 {
            1int
        } else {
            0int
        },
{
}

proof fn lemma_div_step400(x: int)
    ensures
        x / 400 - (x - 1) / 400 == if x % 400 == 0 {
            1int
        } else {
            0int
        },
{
}

/// `leaps_through` counts exactly the leap years.
pub proof fn lemma_leaps_through_step(y: int)
    ensures
        leaps_through(y) - leaps_through(y - 1) == if is_leap(y) {
            1int
        } else {
            0int
        },
{
    lemma_div_step4(y);
    lemma_div_step100(y);
    lemma_div_step400(y);
    lemma_mod_chain(y);
}

proof fn lemma_mod_chain(y: int)
    ensures
        y % 400 == 0 ==> y % 100 == 0,
        y % 100 == 0 ==> y % 4 == 0,
{
    if y % 400 == 0 {
        let k = y / 400;
        assert(y == k * 400);
        assert(y == (k * 4) * 100) by (nonlinear_arith)
            requires
                y == k * 400,
        ;
        vstd::arithmetic::div_mod::lemma_mod_multiples_basic(k * 4, 100);
    }
    if y % 100 == 0 {
        let k = y / 100;
        assert(y == k * 100);
        assert(y == (k * 25) * 4) by (nonlinear_arith)
            requires
                y == k * 100,
        ;
        vstd::arithmetic::div_mod::lemma_mod_multiples_basic(k * 25, 4);
    }
}

/// Each year contributes its own length to `days_before_year`.
pub proof fn lemma_year_length(y: int)
    ensures
        days_before_year(y + 1) - days_before_year(y) == if is_leap(y) {
            366int
        } else {
            365int
        },
{
    lemma_leaps_through_step(y);
}

/// Days from the 1st of March of shifted year 0 to the 1st of March of
/// shifted year `x`, in a calendar whose years run March to February.
spec fn shifted_year_start(x: int) -> int {
    365 * x + x / 4 - x / 100 + x / 400
}

/// Days of a March-based year before its month `mp` (0 = March, 11 = February).
spec fn shifted_month_start(mp: int) -> int {
    if mp == 0 {
        0
    } else if mp == 1 {
        31
    } else if mp == 2 {
        61
    } else if mp == 3 {
        92
    } else if mp == 4 {
        122
    } else if mp == 5 {
        153
    } else if mp == 6 {
        184
    } else if mp == 7 {
        214
    } else if mp == 8 {
        245
    } else if mp == 9 {
        275
    } else if mp == 10 {
        306
    } else {
        337
    }
}

/// The shifted year `x` (March of `x` to February of `x + 1`) is 366 days
/// long exactly when `x + 1` is a leap year.
proof fn lemma_shifted_year_length(x: int)
    requires
        0 <= x < 400,
    ensures
        shifted_year_start(x + 1) - shifted_year_start(x) == if is_leap(x + 1) {
            366int
        } else {
            365int
        },
{
    lemma_leaps_through_step(x + 1);
}

/// Splits a day of a 400-year era into its shifted year and day of that year.
proof fn lemma_era_split(doe: int, c: int, r1: int, q: int, r2: int, yy: int)
    requires
        0 <= doe < 146097,
        c == if doe / 36524 > 3 {
            3
        } else {
            doe / 36524
        },
        r1 == doe - 36524 * c,
        q == r1 / 1461,
        r2 == r1 - 1461 * q,
        yy == if r2 / 365 > 3 {
            3
        } else {
            r2 / 365
        },
    ensures
        0 <= c <= 3,
        0 <= q <= 24,
        0 <= yy <= 3,
        0 <= 100 * c + 4 * q + yy < 400,
        shifted_year_start(100 * c + 4 * q + yy) == 36524 * c + 1461 * q + 365 * yy,
        0 <= r2 - 365 * yy,
        r2 - 365 * yy < shifted_year_start(100 * c + 4 * q + yy + 1) - shifted_year_start(
            100 * c + 4 * q + yy,
        ),
{
    let yoe = 100 * c + 4 * q + yy;
    assert(0 <= r1 <= 36524);
    assert(c < 3 ==> r1 < 36524);
    assert(0 <= q <= 24);
    assert(0 <= r2 < 1461);
    assert(q == 24 && c < 3 ==> r2 < 1460);
    assert(yoe / 4 == 25 * c + q);
    assert(yoe / 100 == c);
    assert(yoe / 400 == 0);
    lemma_shifted_year_length(yoe);
    if r2 - 365 * yy == 365 {
        assert(yy == 3 && r2 == 1460);
        assert((yoe + 1) % 4 == 0);
        if q == 24 {
            assert(c == 3);
            assert(yoe + 1 == 400);
        } else {
            assert((yoe + 1) % 100 != 0);
        }
    }
}

/// Maps a day of a March-based year to its month (0 = March) and day.
proof fn lemma_month_split(doy: int, long: bool)
    requires
        0 <= doy < if long {
            366int
        } else {
            365int
        },
    ensures
        ({
            let mp = (5 * doy + 2) / 153;
            let d = doy - (153 * mp + 2) / 5 + 1;
            &&& 0 <= mp <= 11
            &&& (153 * mp + 2) / 5 == shifted_month_start(mp)
            &&& 1 <= d
            &&& d <= if mp == 11 {
                if long {
                    29int
                } else {
                    28int
                }
            } else if mp == 1 || mp == 3 || mp == 6 || mp == 8 {
                30int
            } else {
                31int
            }
        }),
{
}

/// Puts the era, year of era, and month/day of the March-based year back
/// together as a civil date.
proof fn lemma_civil_assemble(z: int, era: int, yoe: int, doy: int, mp: int, d: int)
    requires
        0 <= yoe < 400,
        0 <= doy < shifted_year_start(yoe + 1) - shifted_year_start(yoe),
        z == era * 146_097 + shifted_year_start(yoe) + doy - 719_468,
        0 <= mp <= 11,
        doy == shifted_month_start(mp) + d - 1,
        1 <= d,
        d <= if mp == 11 {
            if is_leap(yoe + 1) {
                29int
            } else {
                28int
            }
        } else if mp == 1 || mp == 3 || mp == 6 || mp == 8 {
            30int
        } else {
            31int
        },
    ensures
        ({
            let m = if mp < 10 {
                mp + 3
            } else {
                mp - 9
            };
            let y = if m <= 2 {
                yoe + era * 400 + 1
            } else {
                yoe + era * 400
            };
            valid_date(y, m, d) && days_from_civil(y, m, d) == z
        }),
{
    let yb = yoe + era * 400;
    vstd::arithmetic::div_mod::lemma_hoist_over_denominator(yoe, 100 * era, 4);
    vstd::arithmetic::div_mod::lemma_hoist_over_denominator(yoe, 4 * era, 100);
    vstd::arithmetic::div_mod::lemma_hoist_over_denominator(yoe, era, 400);
    assert(shifted_year_start(yb) == era * 146_097 + shifted_year_start(yoe));
    lemma_leaps_through_step(yb);
    lemma_leaps_through_step(yb + 1);
    lemma_leap_period(yoe + 1, era);
    assert(yoe + 1 + 400 * era == yb + 1);
    assert(is_leap(yb + 1) == is_leap(yoe + 1));
}

/// The civil date `z` days after 1970-01-01: Howard Hinnant's
/// `civil_from_days`, counting in March-based 400-year eras.
#[verifier::spinoff_prover]
#[verifier::rlimit(40)]
fn civil_from_days(z: i64) -> (r: (i64, u32, u32))
    requires
        -1_000_000_000_000_000 <= z <= 1_000_000_000_000_000,
    ensures
        valid_date(r.0 as int, r.1 as int, r.2 as int),
        days_from_civil(r.0 as int, r.1 as int, r.2 as int) == z,
{
    let zz: i64 = z + 719_468;
    let era: i64 = if zz >= 0 {
        zz / 146_097
    } else {
        -((-zz + 146_096) / 146_097)
    };
    assert(era == zz as int / 146_097);
    assert(-10_000_000_000_000 <= era <= 10_000_000_000_000);
    let doe: i64 = zz - era * 146_097;
    assert(0 <= doe < 146_097);
    let c0: i64 = doe / 36_524;
    let c: i64 = if c0 > 3 {
        3
    } else {
        c0
    };
    let r1: i64 = doe - 36_524 * c;
    let q: i64 = r1 / 1461;
    let r2: i64 = r1 - 1461 * q;
    let y4: i64 = r2 / 365;
    let yy: i64 = if y4 > 3 {
        3
    } else {
        y4
    };
    proof {
        lemma_era_split(doe as int, c as int, r1 as int, q as int, r2 as int, yy as int);
    }
    let yoe: i64 = 100 * c + 4 * q + yy;
    let doy: i64 = r2 - 365 * yy;
    proof {
        lemma_shifted_year_length(yoe as int);
        lemma_month_split(doy as int, is_leap(yoe + 1));
    }
    let mp: i64 = (5 * doy + 2) / 153;
    let d: i64 = doy - (153 * mp + 2) / 5 + 1;
    let m: i64 = if mp < 10 {
        mp + 3
    } else {
        mp - 9
    };
    let y0: i64 = yoe + era * 400;
    let y: i64 = if m <= 2 {
        y0 + 1
    } else {
        y0
    };
    proof {
        lemma_civil_assemble(z as int, era as int, yoe as int, doy as int, mp as int, d as int);
    }
    (y, m as u32, d as u32)
}

/// Leap years repeat every 400 years.
proof fn lemma_leap_period(x: int, k: int)
    ensures
        is_leap(x + 400 * k) == is_leap(x),
{
    vstd::arithmetic::div_mod::lemma_fundamental_div_mod(x, 4);
    vstd::arithmetic::div_mod::lemma_fundamental_div_mod_converse(
        x + 400 * k,
        4,
        x / 4 + 100 * k,
        x % 4,
    );
    vstd::arithmetic::div_mod::lemma_fundamental_div_mod(x, 100);
    vstd::arithmetic::div_mod::lemma_fundamental_div_mod_converse(
        x + 400 * k,
        100,
        x / 100 + 4 * k,
        x % 100,
    );
    vstd::arithmetic::div_mod::lemma_fundamental_div_mod(x, 400);
    vstd::arithmetic::div_mod::lemma_fundamental_div_mod_converse(
        x + 400 * k,
        400,
        x / 400 + k,
        x % 400,
    );
}

/// A later year starts later, by at least 365 days a year.
pub proof fn lemma_days_before_year_grows(a: int, b: int)
    requires
        a <= b,
    ensures
        days_before_year(b) - days_before_year(a) >= 365 * (b - a),
    decreases b - a,
{
    if a < b {
        lemma_year_length(a);
        lemma_days_before_year_grows(a + 1, b);
    }
}

proof fn lemma_day_of_year_bounds(y: int, m: int, d: int)
    requires
        valid_date(y, m, d),
    ensures
        0 <= days_before_month(y, m) + d - 1 < days_before_year(y + 1) - days_before_year(y),
{
    lemma_year_length(y);
}

/// Distinct calendar dates fall on distinct days: the date a day count
/// denotes is unique.
pub proof fn lemma_days_from_civil_injective(y1: int, m1: int, d1: int, y2: int, m2: int, d2: int)
    requires
        valid_date(y1, m1, d1),
        valid_date(y2, m2, d2),
        days_from_civil(y1, m1, d1) == days_from_civil(y2, m2, d2),
    ensures
        y1 == y2 && m1 == m2 && d1 == d2,
{
    lemma_day_of_year_bounds(y1, m1, d1);
    lemma_day_of_year_bounds(y2, m2, d2);
    if y1 < y2 {
        lemma_days_before_year_grows(y1 + 1, y2);
    } else if y2 < y1 {
        lemma_days_before_year_grows(y2 + 1, y1);
    }
    assert(y1 == y2);
}

/// A year as `{:04}` renders it: zero-padded to four places, the sign
/// counting as one of them.
pub open spec fn year_text(y: int) -> Seq<char> {
    if y < 0 {
        seq!['-'] + pad_left(dec((-y) as nat), 3, '0')
    } else {
        pad_left(dec(y as nat), 4, '0')
    }
}

/// `YYYY-MM-DD`.
pub open spec fn iso_text(y: int, m: int, d: int) -> Seq<char> {
    year_text(y) + seq!['-'] + pad_left(dec(m as nat), 2, '0') + seq!['-'] + pad_left(
        dec(d as nat),
        2,
        '0',
    )
}

/// The day since 1970-01-01 in which an epoch-millisecond timestamp falls.
pub open spec fn day_of_ms(ms: int) -> int {
    ms / 86_400_000
}

/// The calendar date `z` days after 1970-01-01.
pub open spec fn civil_of(z: int) -> (int, int, int) {
    choose|t: (int, int, int)| valid_date(t.0, t.1, t.2) && days_from_civil(t.0, t.1, t.2) == z
}

/// What `iso_from_epoch_ms` gives for a timestamp: nothing for 0, else the
/// ISO date of the day the timestamp falls in.
pub open spec fn iso_of_ms(ms: int) -> Option<Seq<char>> {
    if ms == 0 {
        None
    } else {
        let t = civil_of(day_of_ms(ms));
        Some(iso_text(t.0, t.1, t.2))
    }
}

fn iso_of(y: i64, m: u32, d: u32) -> (r: String)
    ensures
        r@ == iso_text(y as int, m as int, d as int),
{
    let mut out: Vec<char> = Vec::new();
    if y < 0 {
        out.push('-');
        let digits = dec_u64((-(y as i128)) as u64);
        let mut p = pad_left_chars(&digits, 3, '0');
        out.append(&mut p);
    } else {
        let digits = dec_u64(y as u64);
        let mut p = pad_left_chars(&digits, 4, '0');
        out.append(&mut p);
    }
    out.push('-');
    let md = dec_u64(m as u64);
    let mut mp = pad_left_chars(&md, 2, '0');
    out.append(&mut mp);
    out.push('-');
    let dd = dec_u64(d as u64);
    let mut dp = pad_left_chars(&dd, 2, '0');
    out.append(&mut dp);
    proof {
        assert(out@ =~= iso_text(y as int, m as int, d as int));
    }
    string_of(&out)
}

/// Parcel-layer dates arrive as epoch **milliseconds**; render them as ISO
/// `YYYY-MM-DD`. Epoch 0 means "no date" in this dataset rather than
/// 1970-01-01, so it yields `None`.
pub fn iso_from_epoch_ms(ms: i64) -> (r: Option<String>)
    ensures
        ms == 0 ==> r is None,
        ms != 0 ==> (r matches Some(s) && exists|y: int, m: int, d: int|
            valid_date(y, m, d) && days_from_civil(y, m, d) == day_of_ms(ms as int) && s@
                == iso_text(y, m, d)),
        r matches Some(s) ==> iso_of_ms(ms as int) == Some(s@),
        r is None ==> iso_of_ms(ms as int) is None,
{
    if ms == 0 {
        return None;
    }
    let day: i64 = if ms >= 0 {
        ms / 86_400_000
    } else {
        -((-(ms + 1)) / 86_400_000) - 1
    };
    assert(day == day_of_ms(ms as int));
    let (y, m, d) = civil_from_days(day);
    let s = iso_of(y, m, d);
    assert(valid_date(y as int, m as int, d as int) && days_from_civil(y as int, m as int, d as int)
        == day_of_ms(ms as int) && s@ == iso_text(y as int, m as int, d as int));
    proof {
        let t = civil_of(day_of_ms(ms as int));
        assert(valid_date(t.0, t.1, t.2) && days_from_civil(t.0, t.1, t.2) == day_of_ms(ms as int));
        lemma_days_from_civil_injective(t.0, t.1, t.2, y as int, m as int, d as int);
    }
    Some(s)
}

/// A value with every `'` doubled, as SQL string literals require.
pub open spec fn sql_escaped(s: Seq<char>) -> Seq<char>
    decreases s.len(),
{
    if s.len() == 0 {
        seq![]
    } else {
        let head = if s[0] == '\'' {
            seq!['\'', '\'']
        } else {
            seq![s[0]]
        };
        head + sql_escaped(s.drop_first())
    }
}

/// Reads back a SQL literal's body: each `''` stands for one `'`.
pub open spec fn sql_unescaped(t: Seq<char>) -> Seq<char>
    decreases t.len(),
{
    if t.len() == 0 {
        seq![]
    } else if t.len() >= 2 && t[0] == '\'' && t[1] == '\'' {
        seq!['\''] + sql_unescaped(t.skip(2))
    } else {
        seq![t[0]] + sql_unescaped(t.drop_first())
    }
}

/// Every `'` in `t` is one of a doubled pair, so `t` placed between quotes is
/// a single SQL string literal: nothing in it can end the literal early.
pub open spec fn quotes_paired(t: Seq<char>) -> bool
    decreases t.len(),
{
    if t.len() == 0 {
        true
    } else if t[0] == '\'' {
        t.len() >= 2 && t[1] == '\'' && quotes_paired(t.skip(2))
    } else {
        quotes_paired(t.drop_first())
    }
}

proof fn lemma_sql_escaped_concat(a: Seq<char>, b: Seq<char>)
    ensures
        sql_escaped(a + b) == sql_escaped(a) + sql_escaped(b),
    decreases a.len(),
{
    if a.len() == 0 {
        assert(a + b =~= b);
        assert(sql_escaped(a) + sql_escaped(b) =~= sql_escaped(b));
    } else {
        assert((a + b).drop_first() =~= a.drop_first() + b);
        lemma_sql_escaped_concat(a.drop_first(), b);
        assert((a + b)[0] == a[0]);
    }
}

/// Escape a value for embedding in a `where` clause between single quotes.
/// The layer is read-only and anonymous, but a stray apostrophe (`O'BRIEN`)
/// would still break the query, so single quotes are doubled.
pub fn sql_escape(value: &str) -> (r: String)
    ensures
        r@ == sql_escaped(value@),
{
    let cs = chars_of(value);
    let mut out: Vec<char> = Vec::new();
    let mut i: usize = 0;
    while i < cs.len()
        invariant
            i <= cs@.len(),
            out@ == sql_escaped(cs@.take(i as int)),
        decreases cs.len() - i,
    {
        let c = cs[i];
        proof {
            assert(cs@.take(i + 1) =~= cs@.take(i as int) + seq![c]);
            lemma_sql_escaped_concat(cs@.take(i as int), seq![c]);
            assert(seq![c].drop_first() =~= Seq::<char>::empty());
            assert(sql_escaped(Seq::<char>::empty()) =~= Seq::<char>::empty());
        }
        if c == '\'' {
            out.push('\'');
            out.push('\'');
        } else {
            out.push(c);
        }
        proof {
            assert(sql_escaped(seq![c]) =~= (if c == '\'' {
                seq!['\'', '\'']
            } else {
                seq![c]
            }));
        }
        i = i + 1;
    }
    proof {
        assert(cs@.take(cs@.len() as int) =~= cs@);
    }
    string_of(&out)
}

/// Escaping loses nothing: reading the escaped text back gives the value.
pub proof fn lemma_sql_escape_round_trip(s: Seq<char>)
    ensures
        sql_unescaped(sql_escaped(s)) == s,
    decreases s.len(),
{
    if s.len() > 0 {
        lemma_sql_escape_round_trip(s.drop_first());
        let rest = sql_escaped(s.drop_first());
        if s[0] == '\'' {
            let t = seq!['\'', '\''] + rest;
            assert(t.skip(2) =~= rest);
            assert(seq!['\''] + s.drop_first() =~= s);
        } else {
            let t = seq![s[0]] + rest;
            assert(t.drop_first() =~= rest);
            assert(seq![s[0]] + s.drop_first() =~= s);
        }
    }
}

/// Escaped text never holds a lone quote, so whatever the value, it stays
/// inside the literal it is quoted in.
pub proof fn lemma_sql_escape_stays_inside_literal(s: Seq<char>)
    ensures
        quotes_paired(sql_escaped(s)),
    decreases s.len(),
{
    if s.len() > 0 {
        lemma_sql_escape_stays_inside_literal(s.drop_first());
        let rest = sql_escaped(s.drop_first());
        if s[0] == '\'' {
            let t = seq!['\'', '\''] + rest;
            assert(t.skip(2) =~= rest);
        } else {
            let t = seq![s[0]] + rest;
            assert(t.drop_first() =~= rest);
        }
    }
}

/// What a search text is compared as: its words separated by single spaces,
/// then upper-cased.
pub open spec fn normalized(raw: Seq<char>) -> Seq<char> {
    unicode_upper(join(words(raw), seq![' ']))
}

/// Normalize a user's search text for a `LIKE` comparison: the county stores
/// situs addresses and owner names uppercase, and stray whitespace is common
/// when pasting. Collapses internal runs of whitespace to single spaces.
pub fn normalize_query(raw: &str) -> (r: String)
    ensures
        r@ == normalized(raw@),
        all_ascii(raw@) ==> r@ == ascii_upper_seq(join(words(raw@), seq![' '])),
        r@.len() == 0 <==> words(raw@).len() == 0,
{
    let cs = chars_of(raw);
    let collapsed = collapse_whitespace(&cs);
    let joined = string_of(&collapsed);
    proof {
        lemma_words_ascii(raw@);
        lemma_words_are_words(raw@);
        lemma_join_words_empty(words(raw@));
    }
    to_upper(joined.as_str())
}

/// Words joined by spaces give nothing exactly when there are no words.
proof fn lemma_join_words_empty(ws: Seq<Seq<char>>)
    requires
        all_words(ws),
    ensures
        join(ws, seq![' ']).len() == 0 <==> ws.len() == 0,
    decreases ws.len(),
{
    if ws.len() == 1 {
        assert(is_word(ws[0]));
    } else if ws.len() > 1 {
        assert(is_word(ws.last()));
    }
}

/// Normalizing ASCII text twice gives what normalizing it once gave: the
/// once-normalized text is ASCII again, and normalizing it changes nothing.
pub proof fn lemma_normalize_idempotent(raw: Seq<char>)
    requires
        all_ascii(raw),
    ensures
        all_ascii(ascii_upper_seq(join(words(raw), seq![' ']))),
        ({
            let once = ascii_upper_seq(join(words(raw), seq![' ']));
            ascii_upper_seq(join(words(once), seq![' '])) == once
        }),
{
    lemma_words_ascii(raw);
    lemma_upper_idempotent(join(words(raw), seq![' ']));
    lemma_collapse_upper_fixed(raw);
}

} // verus!
