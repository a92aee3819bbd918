//! Money as the output contract has it: a string decimal with exactly two
//! places and a currency code — never a float.

use vstd::prelude::*;

use crate::text::{all_digits, chars_of, digit, is_digit, string_of, trim, trim_chars};

verus! {

/// An amount of money: `amount` is a decimal string such as `"425000.00"`.
#[derive(Debug)]
pub struct Money {
    pub amount: String,
    pub currency: String,
}

/// `s` with every `,` removed.
pub open spec fn without_commas(s: Seq<char>) -> Seq<char>
    decreases s.len(),
{
    if s.len() == 0 {
        seq![]
    } else if s.last() == ',' {
        without_commas(s.drop_last())
    } else {
        without_commas(s.drop_last()).push(s.last())
    }
}

/// `s` without leading zeros, keeping at least one character.
pub open spec fn strip_leading_zeros(s: Seq<char>) -> Seq<char>
    decreases s.len(),
{
    if s.len() > 1 && s[0] == '0' {
        strip_leading_zeros(s.drop_first())
    } else {
        s
    }
}

/// The number of characters before the first `.` (all of them if none).
pub open spec fn before_dot(s: Seq<char>) -> nat
    decreases s.len(),
{
    if s.len() == 0 || s[0] == '.' {
        0
    } else {
        1 + before_dot(s.drop_first())
    }
}

/// The money string, cleaned, has a leading minus sign.
pub open spec fn usd_negative(s: Seq<char>) -> bool {
    let t = without_commas(trim(s));
    t.len() > 0 && t[0] == '-'
}

/// The cleaned money string after its sign and `$`.
pub open spec fn usd_body(s: Seq<char>) -> Seq<char> {
    let t = without_commas(trim(s));
    let t1 = if usd_negative(s) {
        t.drop_first()
    } else {
        t
    };
    if t1.len() > 0 && t1[0] == '$' {
        t1.drop_first()
    } else {
        t1
    }
}

/// The canonical two-place amount a provider's money string denotes, if it
/// denotes one. Surrounding whitespace and `,` separators are ignored; a `-`
/// sign and then a `$` may lead; then one or more digits, optionally followed
/// by `.` and one or two digits.
pub open spec fn usd_amount(s: Seq<char>) -> Option<Seq<char>> {
    let neg = usd_negative(s);
    let t2 = usd_body(s);
    amount_of(neg, t2)
}

/// The canonical amount for a sign and the text after it (see `usd_amount`).
pub open spec fn amount_of(neg: bool, t2: Seq<char>) -> Option<Seq<char>> {
    let p = before_dot(t2);
    let whole = t2.take(p as int);
    let has_dot = p < t2.len();
    let frac = if has_dot {
        t2.skip(p as int + 1)
    } else {
        seq![]
    };
    if whole.len() >= 1 && all_digits(whole) && (!has_dot || (1 <= frac.len() <= 2 && all_digits(
        frac,
    ))) {
        let sign = if neg {
            seq!['-']
        } else {
            seq![]
        };
        let cents = if frac.len() == 0 {
            seq!['0', '0']
        } else if frac.len() == 1 {
            frac.push('0')
        } else {
            frac
        };
        Some(sign + strip_leading_zeros(whole) + seq!['.'] + cents)
    } else {
        None
    }
}

/// `digits` with a `,` between each group of three, counted from the right.
pub open spec fn grouped(digits: Seq<char>) -> Seq<char>
    decreases digits.len(),
{
    if digits.len() <= 3 {
        digits
    } else {
        grouped(digits.take(digits.len() - 3)) + seq![','] + digits.skip(digits.len() - 3)
    }
}

/// How an amount reads in text output: `$425,000.00`, `-$10.50`.
pub open spec fn money_text(amount: Seq<char>) -> Seq<char> {
    let neg = amount.len() > 0 && amount[0] == '-';
    let body = if neg {
        amount.drop_first()
    } else {
        amount
    };
    let p = before_dot(body);
    (if neg {
        seq!['-', '$']
    } else {
        seq!['$']
    }) + grouped(body.take(p as int)) + body.skip(p as int)
}

fn remove_commas(s: &Vec<char>) -> (r: Vec<char>)
    ensures
        r@ == without_commas(s@),
{
    let mut out: Vec<char> = Vec::new();
    let mut i: usize = 0;
    while i < s.len()
        invariant
            i <= s@.len(),
            out@ == without_commas(s@.take(i as int)),
        decreases s.len() - i,
    {
        proof {
            assert(s@.take(i + 1).drop_last() =~= s@.take(i as int));
        }
        if s[i] != ',' {
            out.push(s[i]);
        }
        i = i + 1;
    }
    proof {
        assert(s@.take(s@.len() as int) =~= s@);
    }
    out
}

fn dot_position(s: &Vec<char>) -> (r: usize)
    ensures
        r == before_dot(s@),
        r <= s@.len(),
{
    let mut i: usize = 0;
    proof {
        assert(s@.skip(0) =~= s@);
    }
    while i < s.len() && s[i] != '.'
        invariant
            i <= s@.len(),
            before_dot(s@) == i + before_dot(s@.skip(i as int)),
        decreases s.len() - i,
    {
        proof {
            assert(s@.skip(i as int).drop_first() =~= s@.skip(i + 1));
        }
        i = i + 1;
    }
    proof {
        if i < s.len() {
            assert(s@.skip(i as int)[0] == s@[i as int]);
        }
    }
    i
}

fn group_digits(digits: Vec<char>) -> (r: Vec<char>)
    ensures
        r@ == grouped(digits@),
    decreases digits@.len(),
{
    if digits.len() <= 3 {
        return digits;
    }
    let mut head = digits;
    let at = head.len() - 3;
    let mut tail = head.split_off(at);
    let mut out = group_digits(head);
    out.push(',');
    out.append(&mut tail);
    out
}

fn usd_parts(s: &str) -> (r: (bool, Vec<char>))
    ensures
        r.0 == usd_negative(s@),
        r.1@ == usd_body(s@),
{
    let raw = chars_of(s);
    let trimmed = trim_chars(&raw);
    let t = remove_commas(&trimmed);
    let neg = t.len() > 0 && t[0] == '-';
    let mut k: usize = if neg {
        1
    } else {
        0
    };
    if k < t.len() && t[k] == '$' {
        k = k + 1;
    }
    let mut t2: Vec<char> = Vec::new();
    let mut j: usize = k;
    while j < t.len()
        invariant
            k <= j <= t@.len(),
            t2@ =~= t@.subrange(k as int, j as int),
        decreases t.len() - j,
    {
        t2.push(t[j]);
        j = j + 1;
    }
    proof {
        let tt = without_commas(trim(s@));
        assert(tt == t@);
        let t1 = if neg {
            tt.drop_first()
        } else {
            tt
        };
        assert(t1 =~= t@.skip(
            if neg {
                1int
            } else {
                0int
            },
        ));
        assert(usd_body(s@) =~= t2@);
    }
    (neg, t2)
}

fn digits_between(t: &Vec<char>, from: usize, to: usize) -> (r: bool)
    requires
        from <= to <= t@.len(),
    ensures
        r == all_digits(t@.subrange(from as int, to as int)),
{
    let mut i: usize = from;
    while i < to
        invariant
            from <= i <= to <= t@.len(),
            forall|q: int| from <= q < i ==> #[trigger] is_digit(t@[q]),
        decreases to - i,
    {
        if !digit(t[i]) {
            proof {
                assert(t@.subrange(from as int, to as int)[i - from] == t@[i as int]);
            }
            return false;
        }
        i = i + 1;
    }
    proof {
        assert forall|q: int| 0 <= q < to - from implies #[trigger] is_digit(
            t@.subrange(from as int, to as int)[q],
        ) by {
            assert(t@.subrange(from as int, to as int)[q] == t@[from + q]);
        }
    }
    true
}

fn canonical_amount(neg: bool, t2: &Vec<char>) -> (r: Option<Vec<char>>)
    ensures
        r is Some <==> amount_of(neg, t2@) is Some,
        r matches Some(v) ==> Some(v@) == amount_of(neg, t2@),
{
    let p = dot_position(t2);
    if p == 0 || !digits_between(t2, 0, p) {
        proof {
            assert(t2@.subrange(0, p as int) =~= t2@.take(p as int));
        }
        return None;
    }
    proof {
        assert(t2@.subrange(0, p as int) =~= t2@.take(p as int));
    }
    let has_dot = p < t2.len();
    let mut cents: Vec<char> = Vec::new();
    if has_dot {
        let flen = t2.len() - p - 1;
        if flen < 1 || flen > 2 || !digits_between(t2, p + 1, t2.len()) {
            proof {
                assert(t2@.subrange(p + 1, t2@.len() as int) =~= t2@.skip(p + 1));
            }
            return None;
        }
        proof {
            assert(t2@.subrange(p + 1, t2@.len() as int) =~= t2@.skip(p + 1));
        }
        let mut q: usize = p + 1;
        while q < t2.len()
            invariant
                p + 1 <= q <= t2@.len(),
                cents@ =~= t2@.subrange(p + 1, q as int),
            decreases t2.len() - q,
        {
            cents.push(t2[q]);
            q = q + 1;
        }
        if cents.len() == 1 {
            cents.push('0');
        }
    } else {
        cents.push('0');
        cents.push('0');
    }
    let mut z: usize = 0;
    while z + 1 < p && t2[z] == '0'
        invariant
            z < p <= t2@.len(),
            strip_leading_zeros(t2@.take(p as int)) == strip_leading_zeros(
                t2@.subrange(z as int, p as int),
            ),
        decreases p - z,
    {
        proof {
            assert(t2@.subrange(z as int, p as int).drop_first() =~= t2@.subrange(
                z + 1,
                p as int,
            ));
        }
        z = z + 1;
    }
    proof {
        assert(t2@.subrange(0, p as int) =~= t2@.take(p as int));
    }
    let mut out: Vec<char> = Vec::new();
    if neg {
        out.push('-');
    }
    let mut w: usize = z;
    while w < p
        invariant
            z <= w <= p <= t2@.len(),
            out@ =~= (if neg {
                seq!['-']
            } else {
                seq![]
            }) + t2@.subrange(z as int, w as int),
        decreases p - w,
    {
        out.push(t2[w]);
        w = w + 1;
    }
    out.push('.');
    let ghost cv = cents@;
    out.append(&mut cents);
    proof {
        assert(strip_leading_zeros(t2@.subrange(z as int, p as int)) == t2@.subrange(
            z as int,
            p as int,
        ));
        assert(out@ =~= amount_of(neg, t2@).unwrap());
    }
    Some(out)
}

impl Money {
    /// A dollar amount, taken as given.
    pub fn usd(amount: String) -> (r: Money)
        ensures
            r.amount@ == amount@,
            r.currency@ == "USD"@,
    {
        Money { amount, currency: string_of(&chars_of("USD")) }
    }

    /// Parse a provider's money string, such as `"425000"`, `"$1,250.5"` or
    /// `" 600000 "`, into a two-place dollar amount.
    pub fn parse_usd(s: &str) -> (r: Option<Money>)
        ensures
            r is Some <==> usd_amount(s@) is Some,
            r matches Some(m) ==> Some(m.amount@) == usd_amount(s@) && m.currency@ == "USD"@,
    {
        let (neg, body) = usd_parts(s);
        match canonical_amount(neg, &body) {
            Some(out) => Some(Money { amount: string_of(&out), currency: string_of(&chars_of("USD")) }),
            None => None,
        }
    }

    /// The amount as text output shows it, e.g. `$425,000.00`.
    pub fn display(&self) -> (r: String)
        ensures
            r@ == money_text(self.amount@),
    {
        let a = chars_of(self.amount.as_str());
        let neg = a.len() > 0 && a[0] == '-';
        let mut body: Vec<char> = Vec::new();
        let mut i: usize = if neg {
            1
        } else {
            0
        };
        let start = i;
        while i < a.len()
            invariant
                start <= i <= a@.len(),
                body@ =~= a@.subrange(start as int, i as int),
            decreases a.len() - i,
        {
            body.push(a[i]);
            i = i + 1;
        }
        let p = dot_position(&body);
        let ghost bv = body@;
        let mut whole = body;
        let mut rest = whole.split_off(p);
        let ghost wv = whole@;
        let ghost rv = rest@;
        let mut out: Vec<char> = Vec::new();
        if neg {
            out.push('-');
        }
        out.push('$');
        let mut g = group_digits(whole);
        out.append(&mut g);
        out.append(&mut rest);
        proof {
            let am = self.amount@;
            let b = if neg {
                am.drop_first()
            } else {
                am
            };
            assert(a@ == am);
            assert(bv =~= b);
            assert(wv =~= b.take(p as int));
            assert(rv =~= b.skip(p as int));
            assert(out@ =~= money_text(self.amount@));
        }
        string_of(&out)
    }
}


/// A two-place decimal: an optional `-`, one or more digits, `.`, and two
/// digits.
pub open spec fn is_decimal2(a: Seq<char>) -> bool {
    let body = if a.len() > 0 && a[0] == '-' {
        a.drop_first()
    } else {
        a
    };
    &&& body.len() >= 4
    &&& body[body.len() - 3] == '.'
    &&& all_digits(body.take(body.len() - 3))
    &&& all_digits(body.skip(body.len() - 2))
}

proof fn lemma_strip_leading_zeros_digits(s: Seq<char>)
    requires
        s.len() >= 1,
        all_digits(s),
    ensures
        strip_leading_zeros(s).len() >= 1,
        all_digits(strip_leading_zeros(s)),
    decreases s.len(),
{
    if s.len() > 1 && s[0] == '0' {
        assert(all_digits(s.drop_first()));
        lemma_strip_leading_zeros_digits(s.drop_first());
    }
}

/// Every amount read from a provider's money string is a string decimal
/// with exactly two places: money never becomes a float.
pub proof fn lemma_parsed_amount_is_decimal(s: Seq<char>)
    ensures
        usd_amount(s) matches Some(a) ==> is_decimal2(a),
{
    let neg = usd_negative(s);
    let t2 = usd_body(s);
    let p = before_dot(t2);
    let whole = t2.take(p as int);
    let has_dot = p < t2.len();
    let frac = if has_dot {
        t2.skip(p as int + 1)
    } else {
        seq![]
    };
    if whole.len() >= 1 && all_digits(whole) && (!has_dot || (1 <= frac.len() <= 2 && all_digits(
        frac,
    ))) {
        let sign: Seq<char> = if neg {
            seq!['-']
        } else {
            seq![]
        };
        let cents = if frac.len() == 0 {
            seq!['0', '0']
        } else if frac.len() == 1 {
            frac.push('0')
        } else {
            frac
        };
        lemma_strip_leading_zeros_digits(whole);
        let w = strip_leading_zeros(whole);
        let body = w + seq!['.'] + cents;
        let a = sign + body;
        assert(usd_amount(s) == Some(a));
        assert(all_digits(cents));
        assert(w[0] != '-');
        if neg {
            assert(a.drop_first() =~= body);
        } else {
            assert(a =~= body);
        }
        assert(body.take(body.len() - 3) =~= w);
        assert(body.skip(body.len() - 2) =~= cents);
    }
}

} // verus!
