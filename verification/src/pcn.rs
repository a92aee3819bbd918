//! Parcel Control Number ("PCN") parsing.
//!
//! A PCN is 17 digits. The county displays it grouped,
//! `12-34-56-78-90-123-4567` (2-2-2-2-2-3-4), but the parcel layer's `PARID`
//! column stores it undashed, so every query uses the bare digits. Both forms
//! parse, and spaces, dots and underscores are accepted as separators too.

use vstd::prelude::*;

use crate::error::AppError;
use crate::text::{all_digits, chars_of, dec, dec_u64, digit, is_digit, string_of};

verus! {

/// Total digits in a PCN.
pub const LEN: usize = 17;

/// A separator people paste between the digit groups.
pub open spec fn is_separator(c: char) -> bool {
    c == '-' || c == ' ' || c == '.' || c == '_'
}

/// `s` holds a character that is neither a digit nor a separator.
pub open spec fn has_junk(s: Seq<char>) -> bool {
    exists|i: int| 0 <= i < s.len() && !is_digit(#[trigger] s[i]) && !is_separator(s[i])
}

/// The digits of `s`, in order, everything else dropped.
pub open spec fn digits_in(s: Seq<char>) -> Seq<char>
    decreases s.len(),
{
    if s.len() == 0 {
        seq![]
    } else if is_digit(s.last()) {
        digits_in(s.drop_last()).push(s.last())
    } else {
        digits_in(s.drop_last())
    }
}

/// Exactly 17 ASCII digits: the bare form of a PCN.
pub open spec fn is_pcn_digits(s: Seq<char>) -> bool {
    s.len() == 17 && all_digits(s)
}

/// The PCN that `raw` denotes, if it denotes one.
pub open spec fn pcn_of(raw: Seq<char>) -> Option<Seq<char>> {
    if !has_junk(raw) && digits_in(raw).len() == 17 {
        Some(digits_in(raw))
    } else {
        None
    }
}

/// The error text for input holding something other than digits and separators.
pub open spec fn junk_message(raw: Seq<char>) -> Seq<char> {
    "`"@ + raw
        + "` is not a parcel control number — expected 17 digits, e.g. 12-34-56-78-90-123-4567 or 12345678901234567"@
}

/// The error text for input with the wrong number of digits.
pub open spec fn length_message(raw: Seq<char>, n: nat) -> Seq<char> {
    "a parcel control number has 17 digits, `"@ + raw + "` has "@ + dec(n)
        + " — e.g. 12-34-56-78-90-123-4567"@
}

/// The dashed display form of 17 digits: groups of 2-2-2-2-2-3-4.
pub open spec fn dashed_form(d: Seq<char>) -> Seq<char> {
    d.subrange(0, 2) + seq!['-'] + d.subrange(2, 4) + seq!['-'] + d.subrange(4, 6) + seq!['-']
        + d.subrange(6, 8) + seq!['-'] + d.subrange(8, 10) + seq!['-'] + d.subrange(10, 13)
        + seq!['-'] + d.subrange(13, 17)
}

/// A validated 17-digit parcel control number.
#[derive(Debug)]
pub struct Pcn {
    digits: String,
}

impl View for Pcn {
    type V = Seq<char>;

    closed spec fn view(&self) -> Seq<char> {
        self.digits@
    }
}

impl PartialEq for Pcn {
    fn eq(&self, other: &Self) -> (r: bool) {
        self.digits == other.digits
    }
}

impl vstd::std_specs::cmp::PartialEqSpecImpl for Pcn {
    open spec fn obeys_eq_spec() -> bool {
        true
    }

    open spec fn eq_spec(&self, other: &Self) -> bool {
        self@ == other@
    }
}

impl Eq for Pcn {

}

impl Clone for Pcn {
    fn clone(&self) -> (r: Self)
        ensures
            r@ == self@,
    {
        proof {
            use_type_invariant(self);
        }
        Pcn { digits: self.digits.clone() }
    }
}

impl Pcn {
    #[verifier::type_invariant]
    spec fn wf(self) -> bool {
        is_pcn_digits(self.digits@)
    }

    /// Parse a PCN in either the dashed display form or bare digits.
    pub fn parse(raw: &str) -> (r: Result<Pcn, AppError>)
        ensures
            has_junk(raw@) ==> (r matches Err(AppError::Usage(m)) && m@ == junk_message(raw@)),
            !has_junk(raw@) && digits_in(raw@).len() != 17 ==> (r matches Err(AppError::Usage(m))
                && m@ == length_message(raw@, digits_in(raw@).len())),
            r matches Ok(p) ==> pcn_of(raw@) == Some(p@),
            pcn_of(raw@) is Some ==> r is Ok,
    {
        let cs = chars_of(raw);
        let n = cs.len();
        let mut digits: Vec<char> = Vec::new();
        let mut junk = false;
        let mut i: usize = 0;
        while i < n
            invariant
                i <= n == cs@.len(),
                cs@ == raw@,
                digits@ == digits_in(cs@.take(i as int)),
                junk == exists|k: int|
                    0 <= k < i && !is_digit(#[trigger] cs@[k]) && !is_separator(cs@[k]),
            decreases n - i,
        {
            let c = cs[i];
            proof {
                assert(cs@.take(i + 1).drop_last() =~= cs@.take(i as int));
                assert(cs@.take(i + 1).last() == c);
            }
            if digit(c) {
                digits.push(c);
            } else if !(c == '-' || c == ' ' || c == '.' || c == '_') {
                junk = true;
            }
            i = i + 1;
        }
        proof {
            assert(cs@.take(n as int) =~= cs@);
        }
        if junk {
            let mut m = chars_of("`");
            let mut body = cs.clone();
            m.append(&mut body);
            let mut tail = chars_of(
                "` is not a parcel control number — expected 17 digits, e.g. 12-34-56-78-90-123-4567 or 12345678901234567",
            );
            m.append(&mut tail);
            return Err(AppError::Usage(string_of(&m)));
        }
        if digits.len() != LEN {
            let mut m = chars_of("a parcel control number has 17 digits, `");
            let mut body = cs.clone();
            m.append(&mut body);
            let mut mid = chars_of("` has ");
            m.append(&mut mid);
            let mut count = dec_u64(digits.len() as u64);
            m.append(&mut count);
            let mut tail = chars_of(" — e.g. 12-34-56-78-90-123-4567");
            m.append(&mut tail);
            return Err(AppError::Usage(string_of(&m)));
        }
        proof {
            lemma_digits_in_all_digits(cs@);
        }
        Ok(Pcn { digits: string_of(&digits) })
    }

    /// The bare 17-digit form, as stored in `PARID`. This is what queries use.
    pub fn bare(&self) -> (r: &str)
        ensures
            r@ == self@,
            is_pcn_digits(r@),
    {
        proof {
            use_type_invariant(self);
        }
        self.digits.as_str()
    }

    /// The dashed display form the county prints, `12-34-56-78-90-123-4567`.
    pub fn dashed(&self) -> (r: String)
        ensures
            r@ == dashed_form(self@),
    {
        proof {
            use_type_invariant(self);
        }
        let d = chars_of(self.digits.as_str());
        let mut out: Vec<char> = Vec::new();
        let mut i: usize = 0;
        while i < 17
            invariant
                i <= 17,
                d@ == self@,
                d@.len() == 17,
                out@ == dashed_prefix(d@, i as int),
            decreases 17 - i,
        {
            if i == 2 || i == 4 || i == 6 || i == 8 || i == 10 || i == 13 {
                out.push('-');
            }
            out.push(d[i]);
            i = i + 1;
        }
        proof {
            reveal_with_fuel(dashed_prefix, 18);
            assert(dashed_prefix(d@, 17) =~= dashed_form(d@));
        }
        string_of(&out)
    }
}

/// The first `i` digits of `d` with the group dashes that precede them.
spec fn dashed_prefix(d: Seq<char>, i: int) -> Seq<char>
    decreases i,
{
    if i <= 0 {
        seq![]
    } else {
        let j = i - 1;
        let sep = if j == 2 || j == 4 || j == 6 || j == 8 || j == 10 || j == 13 {
            seq!['-']
        } else {
            seq![]
        };
        dashed_prefix(d, j) + sep + seq![d[j]]
    }
}

proof fn lemma_digits_in_all_digits(s: Seq<char>)
    ensures
        all_digits(digits_in(s)),
        digits_in(s).len() <= s.len(),
    decreases s.len(),
{
    if s.len() > 0 {
        lemma_digits_in_all_digits(s.drop_last());
    }
}

proof fn lemma_digits_in_concat(a: Seq<char>, b: Seq<char>)
    ensures
        digits_in(a + b) == digits_in(a) + digits_in(b),
    decreases b.len(),
{
    if b.len() == 0 {
        assert(a + b =~= a);
        assert(digits_in(a) + digits_in(b) =~= digits_in(a));
    } else {
        assert((a + b).drop_last() =~= a + b.drop_last());
        assert((a + b).last() == b.last());
        lemma_digits_in_concat(a, b.drop_last());
        if is_digit(b.last()) {
            assert(digits_in(a) + digits_in(b.drop_last()).push(b.last()) =~= (digits_in(a)
                + digits_in(b.drop_last())).push(b.last()));
        }
    }
}

proof fn lemma_digits_in_of_digits(s: Seq<char>)
    requires
        all_digits(s),
    ensures
        digits_in(s) == s,
    decreases s.len(),
{
    if s.len() > 0 {
        assert(all_digits(s.drop_last()));
        lemma_digits_in_of_digits(s.drop_last());
        assert(s.drop_last().push(s.last()) =~= s);
    }
}

proof fn lemma_dash_digits(d: Seq<char>, i: int, j: int)
    requires
        is_pcn_digits(d),
        0 <= i <= j <= 17,
    ensures
        digits_in(d.subrange(i, j)) == d.subrange(i, j),
        digits_in(seq!['-']) == Seq::<char>::empty(),
{
    assert(all_digits(d.subrange(i, j)));
    lemma_digits_in_of_digits(d.subrange(i, j));
    let dash = seq!['-'];
    assert(dash.drop_last() =~= Seq::<char>::empty());
    assert(dash.last() == '-');
    assert(!is_digit('-'));
    assert(digits_in(dash) == digits_in(dash.drop_last()));
}

/// A bare PCN parses to itself.
pub proof fn lemma_bare_parses_to_itself(d: Seq<char>)
    requires
        is_pcn_digits(d),
    ensures
        pcn_of(d) == Some(d),
{
    lemma_digits_in_of_digits(d);
}

/// The dashed display form of a PCN parses back to the same PCN, so the two
/// forms are interchangeable wherever a PCN is accepted.
pub proof fn lemma_dashed_parses_back(d: Seq<char>)
    requires
        is_pcn_digits(d),
    ensures
        pcn_of(dashed_form(d)) == Some(d),
        !has_junk(dashed_form(d)),
        dashed_form(d).len() == 23,
{
    let dash = seq!['-'];
    let s0 = d.subrange(0, 2);
    let s1 = d.subrange(2, 4);
    let s2 = d.subrange(4, 6);
    let s3 = d.subrange(6, 8);
    let s4 = d.subrange(8, 10);
    let s5 = d.subrange(10, 13);
    let s6 = d.subrange(13, 17);
    lemma_dash_digits(d, 0, 2);
    lemma_dash_digits(d, 2, 4);
    lemma_dash_digits(d, 4, 6);
    lemma_dash_digits(d, 6, 8);
    lemma_dash_digits(d, 8, 10);
    lemma_dash_digits(d, 10, 13);
    lemma_dash_digits(d, 13, 17);
    let a1 = s0 + dash;
    lemma_digits_in_concat(s0, dash);
    let a2 = a1 + s1;
    lemma_digits_in_concat(a1, s1);
    let a3 = a2 + dash;
    lemma_digits_in_concat(a2, dash);
    let a4 = a3 + s2;
    lemma_digits_in_concat(a3, s2);
    let a5 = a4 + dash;
    lemma_digits_in_concat(a4, dash);
    let a6 = a5 + s3;
    lemma_digits_in_concat(a5, s3);
    let a7 = a6 + dash;
    lemma_digits_in_concat(a6, dash);
    let a8 = a7 + s4;
    lemma_digits_in_concat(a7, s4);
    let a9 = a8 + dash;
    lemma_digits_in_concat(a8, dash);
    let a10 = a9 + s5;
    lemma_digits_in_concat(a9, s5);
    let a11 = a10 + dash;
    lemma_digits_in_concat(a10, dash);
    let a12 = a11 + s6;
    lemma_digits_in_concat(a11, s6);
    assert(a12 == dashed_form(d));
    assert(digits_in(a12) =~= d);
    let f = dashed_form(d);
    assert forall|i: int| 0 <= i < f.len() implies is_digit(#[trigger] f[i]) || is_separator(
        f[i],
    ) by {
        assert(f[i] == '-' || exists|k: int| 0 <= k < 17 && f[i] == d[k]);
    }
}


/// Whatever form denotes a PCN, the PCN is 17 digits and its dashed form
/// denotes the same PCN.
pub proof fn lemma_dashed_form_of_any_form(raw: Seq<char>)
    requires
        pcn_of(raw) is Some,
    ensures
        is_pcn_digits(pcn_of(raw)->Some_0),
        pcn_of(dashed_form(pcn_of(raw)->Some_0)) == pcn_of(raw),
{
    lemma_digits_in_all_digits(raw);
    lemma_dashed_parses_back(digits_in(raw));
}

} // verus!
