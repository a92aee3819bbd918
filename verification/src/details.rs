//! The county's per-parcel **detail page**, which carries what the parcel
//! layer does not: full sale history, ten years of appraisal, assessment and
//! tax rolls, itemized exemptions, and building structure.
//!
//! The page embeds its whole dataset as a single `var model = {…};` JSON
//! literal in a `<script>` tag. Reading that literal is far steadier than
//! scraping the rendered tables. It is still a scrape, and it is treated as
//! one: every field is optional and reading is best-effort.

use vstd::prelude::*;

use crate::error::AppError;
use crate::json::{
    escaped, escaped_char, hex_digit, items_plain, items_text, json_text, members_plain,
    members_text, numbers_plain, string_text, Json, Member,
};
use crate::model::{nonblank, opt_amount, opt_view, usd_or_none, Sale};
use crate::money::{usd_amount, without_commas, Money};
use crate::text::{
    all_digits, ascii_lower, chars_of, digit, eq_str, find_chars, is_digit, occurs_at, pad_left,
    pad_left_chars, parse_u32, parse_u32_spec, string_of, to_ascii_lower, trim, trim_chars,
    trim_str,
};

verus! {

/// Building structure for a parcel (`building/v1`).
#[derive(Debug)]
pub struct Building {
    pub year_built: Option<u32>,
    /// Heated/cooled living area in square feet ("Area Under Air").
    pub living_area_sqft: Option<u32>,
    /// Total area under roof: living area plus garage, porches and other
    /// unconditioned space.
    pub total_sqft: Option<u32>,
    /// Which building on the parcel this describes.
    pub building_number: Option<String>,
    /// Every structural element the county publishes, verbatim.
    pub elements: Vec<Element>,
}

/// One `name: value` row of the county's structural-element table.
#[derive(Debug)]
pub struct Element {
    pub name: String,
    pub value: String,
}

/// One tax year's valuation and levy.
#[derive(Debug)]
pub struct TaxYear {
    pub tax_year: String,
    pub market_total: Option<Money>,
    pub market_land: Option<Money>,
    pub market_improvement: Option<Money>,
    pub assessed: Option<Money>,
    pub exemption: Option<Money>,
    pub taxable: Option<Money>,
    pub ad_valorem_tax: Option<Money>,
    pub non_ad_valorem_tax: Option<Money>,
    pub total_tax: Option<Money>,
}

/// An exemption on file, e.g. homestead.
#[derive(Debug)]
pub struct Exemption {
    pub description: String,
    pub tax_year: Option<String>,
    pub applicant: Option<String>,
    /// Save Our Homes base year, when the exemption carries an SOH cap.
    pub soh_base_year: Option<String>,
}

/// Everything read out of one detail page.
#[derive(Debug)]
pub struct Details {
    pub sales: Vec<Sale>,
    pub tax_years: Vec<TaxYear>,
    pub exemptions: Vec<Exemption>,
    pub building: Option<Building>,
}

/// The JS assignment that introduces the embedded dataset.
pub open spec fn marker() -> Seq<char> {
    "var model = "@
}

/// The first position at which `needle` occurs in `hay`.
pub open spec fn first_occurrence(hay: Seq<char>, needle: Seq<char>) -> Option<int> {
    if exists|i: int| occurs_at(hay, needle, i) {
        Some(
            choose|i: int|
                occurs_at(hay, needle, i) && forall|j: int| 0 <= j < i ==> !occurs_at(hay, needle, j),
        )
    } else {
        None
    }
}

/// The scanner's state after reading `c`: brace depth, inside a string
/// literal, and just after a `\` inside one.
pub open spec fn next_state(c: char, depth: int, in_string: bool, escaped: bool) -> (int, bool, bool) {
    if in_string {
        if escaped {
            (depth, true, false)
        } else if c == '\\' {
            (depth, true, true)
        } else if c == '"' {
            (depth, false, false)
        } else {
            (depth, true, false)
        }
    } else if c == '"' {
        (depth, true, false)
    } else if c == '{' {
        (depth + 1, false, false)
    } else if c == '}' {
        (depth - 1, false, false)
    } else {
        (depth, false, false)
    }
}

/// Reading `c` closes the outermost object.
pub open spec fn closes(c: char, depth: int, in_string: bool) -> bool {
    !in_string && c == '}' && depth - 1 == 0
}

/// Scans `s` from position `i` for the `}` that closes the outermost object,
/// counting only braces outside string literals. Gives the position just
/// past that brace.
pub open spec fn close_from(s: Seq<char>, i: int, depth: int, in_string: bool, escaped: bool) -> Option<int>
    decreases s.len() - i,
{
    if i < 0 || i >= s.len() {
        None
    } else if closes(s[i], depth, in_string) {
        Some(i + 1)
    } else {
        let n = next_state(s[i], depth, in_string, escaped);
        close_from(s, i + 1, n.0, n.1, n.2)
    }
}

/// `s` holds `t` at position `i`.
pub open spec fn holds_at(s: Seq<char>, i: int, t: Seq<char>) -> bool {
    0 <= i && i + t.len() <= s.len() && s.subrange(i, i + t.len()) == t
}

proof fn lemma_holds_split(s: Seq<char>, i: int, a: Seq<char>, b: Seq<char>)
    requires
        holds_at(s, i, a + b),
    ensures
        holds_at(s, i, a),
        holds_at(s, i + a.len(), b),
{
    assert(s.subrange(i, i + a.len()) =~= (a + b).subrange(0, a.len() as int));
    assert((a + b).subrange(0, a.len() as int) =~= a);
    assert(s.subrange(i + a.len(), i + a.len() + b.len()) =~= (a + b).subrange(
        a.len() as int,
        (a + b).len() as int,
    ));
    assert((a + b).subrange(a.len() as int, (a + b).len() as int) =~= b);
}

proof fn lemma_holds_char(s: Seq<char>, i: int, c: char)
    requires
        holds_at(s, i, seq![c]),
    ensures
        s[i] == c,
{
    assert(s.subrange(i, i + 1)[0] == s[i]);
}

/// Outside strings, characters other than quotes and braces change nothing.
proof fn lemma_scan_plain(s: Seq<char>, i: int, len: int, d: int)
    requires
        0 <= i,
        0 <= len,
        i + len <= s.len(),
        forall|k: int| i <= k < i + len ==> #[trigger] s[k] != '"' && s[k] != '{' && s[k] != '}',
    ensures
        close_from(s, i, d, false, false) == close_from(s, i + len, d, false, false),
    decreases len,
{
    if len > 0 {
        lemma_scan_plain(s, i + 1, len - 1, d);
    }
}

/// Inside a string, characters other than quotes and backslashes change
/// nothing.
proof fn lemma_scan_in_string(s: Seq<char>, i: int, len: int, d: int)
    requires
        0 <= i,
        0 <= len,
        i + len <= s.len(),
        forall|k: int| i <= k < i + len ==> #[trigger] s[k] != '"' && s[k] != '\\',
    ensures
        close_from(s, i, d, true, false) == close_from(s, i + len, d, true, false),
    decreases len,
{
    if len > 0 {
        lemma_scan_in_string(s, i + 1, len - 1, d);
    }
}

proof fn lemma_hex_digit(d: nat)
    requires
        d < 16,
    ensures
        hex_digit(d) != '"' && hex_digit(d) != '\\',
{
    if d < 10 {
        assert(48 <= 48 + d <= 57);
    } else {
        assert(97 <= 87 + d <= 102);
    }
}

/// Inside a string, an escaped character is read through as a whole.
proof fn lemma_scan_escaped_char(s: Seq<char>, i: int, c: char, d: int)
    requires
        holds_at(s, i, escaped_char(c)),
    ensures
        close_from(s, i, d, true, false) == close_from(s, i + escaped_char(c).len(), d, true, false),
{
    let e = escaped_char(c);
    assert(s[i] == e[0]) by {
        assert(s.subrange(i, i + e.len())[0] == s[i]);
    }
    if e.len() == 1 {
        assert(e[0] == c && c != '"' && c != '\\');
    } else {
        assert(e[0] == '\\');
        assert(s.subrange(i, i + e.len())[1] == s[i + 1]);
        let len = e.len() - 2;
        assert forall|k: int| i + 2 <= k < i + 2 + len implies #[trigger] s[k] != '"' && s[k]
            != '\\' by {
            assert(s.subrange(i, i + e.len())[k - i] == s[k]);
            if (c as u32) < 32 && c != '\u{8}' && c != '\u{c}' && c != '\n' && c != '\r' && c
                != '\t' {
                lemma_hex_digit((c as u32 / 16) as nat);
                lemma_hex_digit((c as u32 % 16) as nat);
            }
        }
        lemma_scan_in_string(s, i + 2, len, d);
        assert(i + 1 < s.len());
        assert(close_from(s, i, d, true, false) == close_from(s, i + 1, d, true, true));
        assert(close_from(s, i + 1, d, true, true) == close_from(s, i + 2, d, true, false));
    }
}

/// Inside a string, escaped text is read through without leaving the string.
proof fn lemma_scan_escaped(s: Seq<char>, i: int, cs: Seq<char>, d: int)
    requires
        holds_at(s, i, escaped(cs)),
    ensures
        close_from(s, i, d, true, false) == close_from(s, i + escaped(cs).len(), d, true, false),
    decreases cs.len(),
{
    if cs.len() > 0 {
        let e = escaped_char(cs[0]);
        lemma_holds_split(s, i, e, escaped(cs.drop_first()));
        lemma_scan_escaped_char(s, i, cs[0], d);
        lemma_scan_escaped(s, i + e.len(), cs.drop_first(), d);
    }
}

/// A string literal is read through, leaving the scanner outside strings.
proof fn lemma_scan_string(s: Seq<char>, i: int, cs: Seq<char>, d: int)
    requires
        holds_at(s, i, string_text(cs)),
    ensures
        close_from(s, i, d, false, false) == close_from(s, i + string_text(cs).len(), d, false, false),
{
    let q = seq!['"'];
    lemma_holds_split(s, i, q + escaped(cs), q);
    lemma_holds_split(s, i, q, escaped(cs));
    lemma_holds_char(s, i, '"');
    lemma_scan_escaped(s, i + 1, cs, d);
    lemma_holds_char(s, i + 1 + escaped(cs).len(), '"');
}

proof fn lemma_plain_text(s: Seq<char>, i: int, t: Seq<char>, d: int)
    requires
        holds_at(s, i, t),
        forall|k: int| 0 <= k < t.len() ==> #[trigger] t[k] != '"' && t[k] != '{' && t[k] != '}',
    ensures
        close_from(s, i, d, false, false) == close_from(s, i + t.len(), d, false, false),
{
    assert forall|k: int| i <= k < i + t.len() implies #[trigger] s[k] != '"' && s[k] != '{' && s[k]
        != '}' by {
        assert(s.subrange(i, i + t.len())[k - i] == s[k]);
        assert(t[k - i] == s[k]);
    }
    lemma_scan_plain(s, i, t.len() as int, d);
}

/// Inside an object (depth at least one), a value's JSON text is read
/// through, leaving the depth as it was.
proof fn lemma_scan_value(s: Seq<char>, i: int, v: Json, d: int)
    requires
        d >= 1,
        numbers_plain(v),
        holds_at(s, i, json_text(v)),
    ensures
        close_from(s, i, d, false, false) == close_from(s, i + json_text(v).len(), d, false, false),
    decreases v,
{
    match v {
        Json::Null => {
            reveal_strlit("null");
            lemma_plain_text(s, i, json_text(v), d);
        },
        Json::Bool(b) => {
            reveal_strlit("true");
            reveal_strlit("false");
            lemma_plain_text(s, i, json_text(v), d);
        },
        Json::Number(n) => {
            lemma_plain_text(s, i, json_text(v), d);
        },
        Json::Str(t) => {
            lemma_scan_string(s, i, t@, d);
        },
        Json::Array(items) => {
            let open = seq!['['];
            let body = items_text(items@);
            lemma_holds_split(s, i, open + body, seq![']']);
            lemma_holds_split(s, i, open, body);
            lemma_plain_text(s, i, open, d);
            lemma_scan_items(s, i + 1, items@, d);
            lemma_plain_text(s, i + 1 + body.len(), seq![']'], d);
        },
        Json::Object(members) => {
            let open = seq!['{'];
            let body = members_text(members@);
            lemma_holds_split(s, i, open + body, seq!['}']);
            lemma_holds_split(s, i, open, body);
            lemma_holds_char(s, i, '{');
            lemma_scan_members(s, i + 1, members@, d + 1);
            lemma_holds_char(s, i + 1 + body.len(), '}');
        },
    }
}

proof fn lemma_scan_items(s: Seq<char>, i: int, items: Seq<Json>, d: int)
    requires
        d >= 1,
        items_plain(items),
        holds_at(s, i, items_text(items)),
    ensures
        close_from(s, i, d, false, false) == close_from(s, i + items_text(items).len(), d, false, false),
    decreases items,
{
    if items.len() == 1 {
        lemma_scan_value(s, i, items[0], d);
    } else if items.len() > 1 {
        let a = json_text(items[0]);
        let rest = items_text(items.drop_first());
        lemma_holds_split(s, i, a + seq![','], rest);
        lemma_holds_split(s, i, a, seq![',']);
        lemma_scan_value(s, i, items[0], d);
        lemma_plain_text(s, i + a.len(), seq![','], d);
        lemma_scan_items(s, i + a.len() + 1, items.drop_first(), d);
    }
}

proof fn lemma_scan_member(s: Seq<char>, i: int, m: Member, d: int)
    requires
        d >= 1,
        numbers_plain(m.value),
        holds_at(s, i, string_text(m.key@) + seq![':'] + json_text(m.value)),
    ensures
        close_from(s, i, d, false, false) == close_from(
            s,
            i + (string_text(m.key@) + seq![':'] + json_text(m.value)).len(),
            d,
            false,
            false,
        ),
    decreases m,
{
    let k = string_text(m.key@);
    lemma_holds_split(s, i, k + seq![':'], json_text(m.value));
    lemma_holds_split(s, i, k, seq![':']);
    lemma_scan_string(s, i, m.key@, d);
    lemma_plain_text(s, i + k.len(), seq![':'], d);
    lemma_scan_value(s, i + k.len() + 1, m.value, d);
}

proof fn lemma_scan_members(s: Seq<char>, i: int, members: Seq<Member>, d: int)
    requires
        d >= 1,
        members_plain(members),
        holds_at(s, i, members_text(members)),
    ensures
        close_from(s, i, d, false, false) == close_from(
            s,
            i + members_text(members).len(),
            d,
            false,
            false,
        ),
    decreases members,
{
    if members.len() == 1 {
        lemma_scan_member(s, i, members[0], d);
    } else if members.len() > 1 {
        let m = members[0];
        let a = string_text(m.key@) + seq![':'] + json_text(m.value);
        let rest = members_text(members.drop_first());
        assert(members_text(members) == a + seq![','] + rest);
        lemma_holds_split(s, i, a + seq![','], rest);
        lemma_holds_split(s, i, a, seq![',']);
        lemma_scan_member(s, i, m, d);
        lemma_plain_text(s, i + a.len(), seq![','], d);
        lemma_scan_members(s, i + a.len() + 1, members.drop_first(), d);
    }
}

/// The scan ends exactly at the brace that closes a JSON object, whatever
/// braces, quotes or backslashes its strings hold and whatever follows it.
pub proof fn lemma_scan_finds_object(v: Json, rest: Seq<char>)
    requires
        v is Object,
        numbers_plain(v),
    ensures
        close_from(json_text(v) + rest, 0, 0, false, false) == Some(json_text(v).len() as int),
{
    let s = json_text(v) + rest;
    let t = json_text(v);
    assert(holds_at(s, 0, t)) by {
        assert(s.subrange(0, t.len() as int) =~= t);
    }
    match v {
        Json::Object(members) => {
            let body = members_text(members@);
            assert(t == seq!['{'] + body + seq!['}']);
            lemma_holds_split(s, 0, seq!['{'] + body, seq!['}']);
            lemma_holds_split(s, 0, seq!['{'], body);
            lemma_holds_char(s, 0, '{');
            lemma_scan_members(s, 1, members@, 1);
            lemma_holds_char(s, 1 + body.len() as int, '}');
            assert(close_from(s, 0, 0, false, false) == close_from(s, 1, 1, false, false));
        },
        _ => {},
    }
}

/// A page that embeds a JSON object after the first `var model = ` yields
/// exactly that object's text, whatever surrounds it.
pub proof fn lemma_model_text_of_page(a: Seq<char>, v: Json, b: Seq<char>)
    requires
        v is Object,
        numbers_plain(v),
        forall|j: int| 0 <= j < a.len() ==> !occurs_at(a + marker(), marker(), j),
    ensures
        model_text(a + marker() + json_text(v) + b) == Ok::<Seq<char>, Seq<char>>(json_text(v)),
{
    let m = marker();
    let t = json_text(v);
    let html = a + m + t + b;
    let n = a.len() as int;
    assert(occurs_at(html, m, n)) by {
        assert(html.subrange(n, n + m.len()) =~= m);
    }
    assert forall|j: int| 0 <= j < n implies !occurs_at(html, m, j) by {
        if occurs_at(html, m, j) {
            assert(html.subrange(j, j + m.len()) =~= (a + m).subrange(j, j + m.len()));
            assert(occurs_at(a + m, m, j));
        }
    }
    let c = choose|i: int| occurs_at(html, m, i) && forall|j: int| 0 <= j < i ==> !occurs_at(html, m, j);
    assert(occurs_at(html, m, c) && forall|j: int| 0 <= j < c ==> !occurs_at(html, m, j));
    assert(c == n);
    assert(first_occurrence(html, m) == Some(n));
    let rest = html.skip(n + m.len());
    assert(rest =~= t + b);
    lemma_scan_finds_object(v, b);
    match v {
        Json::Object(members) => {
            assert(t[0] == '{');
        },
        _ => {},
    }
    assert(rest.take(t.len() as int) =~= t);
}

fn scan_char(c: char, depth: usize, in_string: bool, escaped: bool) -> (r: (usize, bool, bool))
    requires
        depth < usize::MAX,
        c == '}' && !in_string ==> depth >= 2,
    ensures
        (r.0 as int, r.1, r.2) == next_state(c, depth as int, in_string, escaped),
{
    if in_string {
        if escaped {
            (depth, true, false)
        } else if c == '\\' {
            (depth, true, true)
        } else if c == '"' {
            (depth, false, false)
        } else {
            (depth, true, false)
        }
    } else if c == '"' {
        (depth, true, false)
    } else if c == '{' {
        (depth + 1, false, false)
    } else if c == '}' {
        (depth - 1, false, false)
    } else {
        (depth, false, false)
    }
}

/// The page text after the marker, when the marker is present.
pub open spec fn after_marker(html: Seq<char>) -> Option<Seq<char>> {
    match first_occurrence(html, marker()) {
        Some(i) => Some(html.skip(i + marker().len())),
        None => None,
    }
}

pub open spec fn no_block_message() -> Seq<char> {
    "the county detail page no longer embeds a `var model` block — the site's markup has changed"@
}

pub open spec fn not_object_message() -> Seq<char> {
    "the county detail page's `var model` block is not a JSON object"@
}

pub open spec fn truncated_message() -> Seq<char> {
    "the county detail page's `var model` block is truncated"@
}

/// The embedded object's JSON text, or the message explaining why the page
/// has none.
pub open spec fn model_text(html: Seq<char>) -> Result<Seq<char>, Seq<char>> {
    match after_marker(html) {
        None => Err(no_block_message()),
        Some(rest) => if rest.len() == 0 || rest[0] != '{' {
            Err(not_object_message())
        } else {
            match close_from(rest, 0, 0, false, false) {
                None => Err(truncated_message()),
                Some(end) => Ok(rest.take(end)),
            }
        },
    }
}

fn first_occurrence_exec(hay: &Vec<char>, needle: &Vec<char>) -> (r: Option<usize>)
    ensures
        r matches Some(i) ==> first_occurrence(hay@, needle@) == Some(i as int) && i
            + needle@.len() <= hay@.len(),
        r is None ==> first_occurrence(hay@, needle@) is None,
{
    let r = find_chars(hay, needle);
    proof {
        if let Some(i) = r {
            let c = choose|k: int|
                occurs_at(hay@, needle@, k) && forall|j: int|
                    0 <= j < k ==> !occurs_at(hay@, needle@, j);
            assert(occurs_at(hay@, needle@, i as int));
            if c < i {
            } else if c > i {
            }
            assert(c == i);
        }
    }
    r
}

/// Pull the `var model = {…};` literal's JSON text out of the page.
///
/// Brace-counting rather than a pattern match: the object contains braces
/// inside string values, so the scanner tracks string state and escapes and
/// counts only structural braces.
pub fn extract_model(html: &str) -> (r: Result<String, AppError>)
    ensures
        r matches Ok(t) ==> model_text(html@) == Ok::<Seq<char>, Seq<char>>(t@),
        r matches Err(e) ==> e is Upstream && model_text(html@) == Err::<Seq<char>, Seq<char>>(
            e.text(),
        ),
{
    let h = chars_of(html);
    let mk = chars_of("var model = ");
    let start = match first_occurrence_exec(&h, &mk) {
        Some(i) => {
            let hl = h.len();
            let ml = mk.len();
            assert(i + ml <= hl);
            i + ml
        },
        None => {
            let m = chars_of(
                "the county detail page no longer embeds a `var model` block — the site's markup has changed",
            );
            return Err(AppError::Upstream(string_of(&m)));
        },
    };
    let ghost rest = h@.skip(start as int);
    proof {
        assert(mk@ == marker());
        assert(after_marker(html@) == Some(rest));
    }
    if start >= h.len() || h[start] != '{' {
        let m = chars_of("the county detail page's `var model` block is not a JSON object");
        return Err(AppError::Upstream(string_of(&m)));
    }
    let mut depth: usize = 0;
    let mut in_string = false;
    let mut escaped = false;
    let mut i: usize = start;
    let mut end: Option<usize> = None;
    while i < h.len() && end.is_none()
        invariant
            start <= i <= h@.len(),
            start < h@.len(),
            h@[start as int] == '{',
            rest == h@.skip(start as int),
            depth <= i - start,
            i > start ==> depth >= 1,
            i == start ==> !in_string && !escaped && depth == 0,
            end is None ==> close_from(rest, 0, 0, false, false) == close_from(
                rest,
                i - start,
                depth as int,
                in_string,
                escaped,
            ),
            end matches Some(e) ==> start < e <= h@.len() && close_from(rest, 0, 0, false, false)
                == Some(e - start),
        decreases h.len() - i,
    {
        let c = h[i];
        assert(rest[i - start] == c);
        if !in_string && c == '}' && depth <= 1 {
            end = Some(i + 1);
        } else {
            let (d2, s2, e2) = scan_char(c, depth, in_string, escaped);
            depth = d2;
            in_string = s2;
            escaped = e2;
        }
        i = i + 1;
    }
    match end {
        None => {
            let m = chars_of("the county detail page's `var model` block is truncated");
            Err(AppError::Upstream(string_of(&m)))
        },
        Some(e) => {
            let mut out: Vec<char> = Vec::new();
            let mut k: usize = start;
            while k < e
                invariant
                    start <= k <= e <= h@.len(),
                    out@ =~= h@.subrange(start as int, k as int),
                decreases e - k,
            {
                out.push(h[k]);
                k = k + 1;
            }
            proof {
                assert(out@ =~= rest.take(e - start));
            }
            Ok(string_of(&out))
        },
    }
}

/// The pieces of `s` between occurrences of `sep` (`str::split`); always at
/// least one piece.
pub open spec fn split_on(s: Seq<char>, sep: char) -> Seq<Seq<char>>
    decreases s.len(),
{
    if s.len() == 0 {
        seq![seq![]]
    } else {
        let p = split_on(s.drop_last(), sep);
        if s.last() == sep {
            p.push(seq![])
        } else {
            p.update(p.len() - 1, p.last().push(s.last()))
        }
    }
}

/// A date as the page writes it: a month and a day of one or two digits
/// each, and a year of four digits, separated by `/`.
pub open spec fn is_page_date(parts: Seq<Seq<char>>) -> bool {
    &&& parts.len() == 3
    &&& 1 <= parts[0].len() <= 2 && all_digits(parts[0])
    &&& 1 <= parts[1].len() <= 2 && all_digits(parts[1])
    &&& parts[2].len() == 4 && all_digits(parts[2])
}

/// The page's `MM/DD/YYYY` dates as ISO `YYYY-MM-DD`; anything that is not
/// such a date passes through (trimmed) rather than being dropped.
pub open spec fn iso_date_text(raw: Seq<char>) -> Seq<char> {
    let t = trim(raw);
    let parts = split_on(t, '/');
    if is_page_date(parts) {
        parts[2] + seq!['-'] + pad_left(parts[0], 2, '0') + seq!['-'] + pad_left(parts[1], 2, '0')
    } else {
        t
    }
}

pub open spec fn vviews(v: Seq<Vec<char>>) -> Seq<Seq<char>> {
    Seq::new(v.len(), |i: int| v[i]@)
}

proof fn lemma_split_on_nonempty(s: Seq<char>, sep: char)
    ensures
        split_on(s, sep).len() >= 1,
    decreases s.len(),
{
    if s.len() > 0 {
        lemma_split_on_nonempty(s.drop_last(), sep);
    }
}

fn only_digits(s: &Vec<char>) -> (r: bool)
    ensures
        r == all_digits(s@),
{
    let mut i: usize = 0;
    while i < s.len()
        invariant
            i <= s@.len(),
            forall|k: int| 0 <= k < i ==> is_digit(#[trigger] s@[k]),
        decreases s.len() - i,
    {
        if !digit(s[i]) {
            return false;
        }
        i = i + 1;
    }
    true
}

/// Convert the page's `MM/DD/YYYY` dates to ISO `YYYY-MM-DD`. Anything
/// unrecognized passes through untouched (trimmed) rather than being dropped.
pub fn iso_date(raw: &str) -> (r: String)
    ensures
        r@ == iso_date_text(raw@),
{
    let all = chars_of(raw);
    let t = trim_chars(&all);
    let mut done: Vec<Vec<char>> = Vec::new();
    let mut cur: Vec<char> = Vec::new();
    let mut i: usize = 0;
    while i < t.len()
        invariant
            i <= t@.len(),
            split_on(t@.take(i as int), '/') == vviews(done@).push(cur@),
        decreases t.len() - i,
    {
        let c = t[i];
        proof {
            assert(t@.take(i + 1).drop_last() =~= t@.take(i as int));
            assert(t@.take(i + 1).last() == c);
        }
        if c == '/' {
            let ghost before = vviews(done@);
            let finished = cur;
            done.push(finished);
            cur = Vec::new();
            proof {
                assert(vviews(done@) =~= before.push(finished@));
                assert(vviews(done@).push(cur@) =~= before.push(finished@).push(seq![]));
            }
        } else {
            let ghost before = vviews(done@).push(cur@);
            cur.push(c);
            proof {
                assert(vviews(done@).push(cur@) =~= before.update(before.len() - 1, before.last().push(c)));
            }
        }
        i = i + 1;
    }
    proof {
        assert(t@.take(t@.len() as int) =~= t@);
    }
    if done.len() == 2 && cur.len() == 4 && 1 <= done[0].len() && done[0].len() <= 2
        && 1 <= done[1].len() && done[1].len() <= 2 && only_digits(&cur) && only_digits(&done[0])
        && only_digits(&done[1]) {
        let mut out = cur;
        out.push('-');
        let mut m = pad_left_chars(&done[0], 2, '0');
        out.append(&mut m);
        out.push('-');
        let mut d = pad_left_chars(&done[1], 2, '0');
        out.append(&mut d);
        return string_of(&out);
    }
    string_of(&t)
}

/// A trimmed string member of a detail-page object, or nothing when absent,
/// blank, or not a string.
pub open spec fn field_of(v: Json, key: Seq<char>) -> Option<Seq<char>> {
    match v.field(key) {
        Some(Json::Str(s)) => nonblank(trim(s@)),
        _ => None,
    }
}

/// A money member: whole-dollar strings, sometimes with separators or `$`.
pub open spec fn money_of(v: Json, key: Seq<char>) -> Option<Seq<char>> {
    match field_of(v, key) {
        Some(t) => usd_amount(t),
        None => None,
    }
}

/// An array member's elements; empty when absent or not an array.
pub open spec fn array_of(v: Json, key: Seq<char>) -> Seq<Json> {
    match v.field(key) {
        Some(Json::Array(items)) => items@,
        _ => seq![],
    }
}

fn field(v: &Json, key: &str) -> (r: Option<String>)
    ensures
        opt_view(r) == field_of(*v, key@),
{
    match v.get(key) {
        Some(Json::Str(s)) => {
            let t = trim_str(s.as_str());
            if t.as_str().unicode_len() == 0 {
                None
            } else {
                Some(t)
            }
        },
        _ => None,
    }
}

fn money(v: &Json, key: &str) -> (r: Option<Money>)
    ensures
        opt_amount(r) == money_of(*v, key@),
        usd_or_none(r),
{
    match field(v, key) {
        Some(t) => Money::parse_usd(t.as_str()),
        None => None,
    }
}

fn array<'a>(v: &'a Json, key: &str) -> (r: &'a [Json])
    ensures
        r@ == array_of(*v, key@),
{
    match v.get(key) {
        Some(Json::Array(items)) => items.as_slice(),
        _ => &[],
    }
}

/// A sales-table row names at least one sale field.
pub open spec fn row_has_sale(row: Json) -> bool {
    ||| field_of(row, "SaleDate"@) is Some
    ||| money_of(row, "Price"@) is Some
    ||| field_of(row, "Book"@) is Some
    ||| field_of(row, "Page"@) is Some
    ||| field_of(row, "SaleType"@) is Some
    ||| field_of(row, "OwnerName"@) is Some
}

/// The rows of a table that satisfy `keep`, in order.
pub open spec fn kept(rows: Seq<Json>, keep: spec_fn(Json) -> bool) -> Seq<Json>
    decreases rows.len(),
{
    if rows.len() == 0 {
        seq![]
    } else if keep(rows.last()) {
        kept(rows.drop_last(), keep).push(rows.last())
    } else {
        kept(rows.drop_last(), keep)
    }
}

/// `s` is the sale a sales-table row records.
pub open spec fn sale_from_row(s: Sale, row: Json) -> bool {
    &&& opt_view(s.date) == match field_of(row, "SaleDate"@) {
        Some(d) => Some(iso_date_text(d)),
        None => None,
    }
    &&& opt_amount(s.price) == money_of(row, "Price"@)
    &&& usd_or_none(s.price)
    &&& opt_view(s.book) == field_of(row, "Book"@)
    &&& opt_view(s.page) == field_of(row, "Page"@)
    &&& opt_view(s.instrument) == field_of(row, "SaleType"@)
    &&& s.qualification_code is None
    &&& opt_view(s.owner) == field_of(row, "OwnerName"@)
}

/// A sale read from a sales-table row carries that row's own members, each
/// trimmed and dropped when blank: its book is the row's `Book`, its page
/// the row's `Page`, its deed type the row's `SaleType`, its buyer the row's
/// `OwnerName`, its price the amount the row's `Price` states, and its date
/// is there exactly when the row's `SaleDate` is.
pub proof fn lemma_sale_reads_its_row(s: Sale, row: Json)
    requires
        sale_from_row(s, row),
    ensures
        ({
            let member = |k: Seq<char>|
                match row.field(k) {
                    Some(Json::Str(x)) => if trim(x@).len() > 0 {
                        Some(trim(x@))
                    } else {
                        None
                    },
                    _ => None,
                };
            &&& opt_view(s.book) == member("Book"@)
            &&& opt_view(s.page) == member("Page"@)
            &&& opt_view(s.instrument) == member("SaleType"@)
            &&& opt_view(s.owner) == member("OwnerName"@)
            &&& opt_amount(s.price) == match member("Price"@) {
                Some(t) => usd_amount(t),
                None => None,
            }
            &&& (s.date is Some <==> member("SaleDate"@) is Some)
            &&& s.qualification_code is None
        }),
{
}

/// The model's full sale history.
pub open spec fn sales_of(model: Json) -> Seq<Json> {
    kept(array_of(model, "salesInfo"@), |row: Json| row_has_sale(row))
}

fn sale_of_row(row: &Json) -> (r: Option<Sale>)
    ensures
        r is Some <==> row_has_sale(*row),
        r matches Some(s) ==> sale_from_row(s, *row),
{
    let date = match field(row, "SaleDate") {
        Some(d) => Some(iso_date(d.as_str())),
        None => None,
    };
    let sale = Sale {
        date,
        price: money(row, "Price"),
        book: field(row, "Book"),
        page: field(row, "Page"),
        instrument: field(row, "SaleType"),
        qualification_code: None,
        owner: field(row, "OwnerName"),
    };
    if sale.is_empty() {
        None
    } else {
        Some(sale)
    }
}

/// Every recorded sale on the page, in the page's order.
fn page_sales(model: &Json) -> (r: Vec<Sale>)
    ensures
        r@.len() == sales_of(*model).len(),
        forall|i: int| 0 <= i < r@.len() ==> sale_from_row(#[trigger] r@[i], sales_of(*model)[i]),
{
    let rows = array(model, "salesInfo");
    let ghost keep = |row: Json| row_has_sale(row);
    let mut out: Vec<Sale> = Vec::new();
    let mut i: usize = 0;
    while i < rows.len()
        invariant
            i <= rows@.len(),
            rows@ == array_of(*model, "salesInfo"@),
            keep == (|row: Json| row_has_sale(row)),
            out@.len() == kept(rows@.take(i as int), keep).len(),
            forall|k: int|
                0 <= k < out@.len() ==> sale_from_row(#[trigger] out@[k], kept(rows@.take(i as int), keep)[k]),
        decreases rows.len() - i,
    {
        proof {
            assert(rows@.take(i + 1).drop_last() =~= rows@.take(i as int));
            assert(rows@.take(i + 1).last() == rows@[i as int]);
        }
        match sale_of_row(&rows[i]) {
            Some(sale) => out.push(sale),
            None => {},
        }
        i = i + 1;
    }
    proof {
        assert(rows@.take(rows@.len() as int) =~= rows@);
    }
    out
}

/// A sale dated `a` is newer than one dated `b`: its date is later (ISO
/// dates compare as text), or it has a date and the other has none.
pub open spec fn newer(a: Option<Seq<char>>, b: Option<Seq<char>>) -> bool {
    match (a, b) {
        (Some(x), Some(y)) => str_lt(y, x),
        (Some(_), None) => true,
        _ => false,
    }
}

/// The date of a sale, as text.
pub open spec fn sale_date(s: Sale) -> Option<Seq<char>> {
    opt_view(s.date)
}

/// `p` lists each of `0..n` exactly once.
pub open spec fn is_permutation(p: Seq<int>, n: nat) -> bool {
    &&& p.len() == n
    &&& forall|i: int| 0 <= i < n ==> 0 <= #[trigger] p[i] < n
    &&& forall|i: int, j: int| #![trigger p[i], p[j]] 0 <= i < j < n ==> p[i] != p[j]
}

/// No sale is newer than one listed before it.
pub open spec fn newest_first(r: Seq<Sale>) -> bool {
    forall|i: int, j: int|
        #![trigger r[i], r[j]]
        0 <= i < j < r.len() ==> !newer(sale_date(r[j]), sale_date(r[i]))
}

/// Sales of the same date keep the order of the positions `p` they came from.
pub open spec fn same_dates_in_order(r: Seq<Sale>, p: Seq<int>) -> bool {
    forall|i: int, j: int|
        #![trigger r[i], r[j]]
        0 <= i < j < r.len() && sale_date(r[i]) == sale_date(r[j]) ==> p[i] < p[j]
}

/// `r` is `src` rearranged newest first, sales of the same date in their
/// order in `src`; `r[i]` is `src[p[i]]`.
pub open spec fn arranged(r: Seq<Sale>, src: Seq<Sale>, p: Seq<int>) -> bool {
    &&& is_permutation(p, src.len())
    &&& r.len() == src.len()
    &&& forall|i: int| 0 <= i < r.len() ==> #[trigger] r[i] == src[p[i]]
    &&& newest_first(r)
    &&& same_dates_in_order(r, p)
}

/// `r` is the sales that `rows` record, newest first, sales of the same date
/// in the page's order; `r[i]` is the sale row `p[i]` records.
pub open spec fn sales_newest_first(r: Seq<Sale>, rows: Seq<Json>, p: Seq<int>) -> bool {
    &&& is_permutation(p, rows.len())
    &&& r.len() == rows.len()
    &&& forall|i: int| 0 <= i < r.len() ==> sale_from_row(#[trigger] r[i], rows[p[i]])
    &&& newest_first(r)
    &&& same_dates_in_order(r, p)
}

proof fn lemma_newer_order(a: Option<Seq<char>>, b: Option<Seq<char>>, c: Option<Seq<char>>)
    ensures
        !newer(a, a),
        newer(a, b) && newer(b, c) ==> newer(a, c),
{
    match a {
        Some(x) => lemma_str_lt_irreflexive(x),
        None => {},
    }
    if newer(a, b) && newer(b, c) {
        match (a, b, c) {
            (Some(x), Some(y), Some(z)) => lemma_str_lt_transitive(z, y, x),
            _ => {},
        }
    }
}

proof fn lemma_insert_arranged(out: Seq<Sale>, src: Seq<Sale>, p: Seq<int>, e: Sale, j: int)
    requires
        arranged(out, src, p),
        0 <= j <= out.len(),
        forall|q: int| 0 <= q < j ==> !newer(sale_date(e), sale_date(#[trigger] out[q])),
        j < out.len() ==> newer(sale_date(e), sale_date(out[j])),
    ensures
        arranged(out.insert(j, e), src.push(e), p.insert(j, src.len() as int)),
{
    let n = src.len() as int;
    let r = out.insert(j, e);
    let p2 = p.insert(j, n);
    let s2 = src.push(e);
    assert forall|i: int| 0 <= i < n + 1 implies 0 <= #[trigger] p2[i] < n + 1 by {
        if i < j {
            assert(p2[i] == p[i]);
        } else if i > j {
            assert(p2[i] == p[i - 1]);
        }
    }
    assert forall|a: int, b: int| #![trigger p2[a], p2[b]] 0 <= a < b < n + 1 implies p2[a] != p2[b] by {
        if b < j {
            assert(p[a] != p[b]);
        } else if b == j {
            assert(0 <= p[a] < n);
        } else if a < j {
            assert(p[a] != p[b - 1]);
        } else if a == j {
            assert(0 <= p[b - 1] < n);
        } else {
            assert(p[a - 1] != p[b - 1]);
        }
    }
    assert forall|i: int| 0 <= i < r.len() implies #[trigger] r[i] == s2[p2[i]] by {
        if i < j {
            assert(r[i] == out[i] && p2[i] == p[i] && out[i] == src[p[i]]);
        } else if i > j {
            assert(r[i] == out[i - 1] && p2[i] == p[i - 1] && out[i - 1] == src[p[i - 1]]);
        }
    }
    assert forall|a: int, b: int| #![trigger r[a], r[b]] 0 <= a < b < r.len() implies !newer(
        sale_date(r[b]),
        sale_date(r[a]),
    ) by {
        if b < j {
            assert(r[a] == out[a] && r[b] == out[b]);
        } else if b == j {
            assert(r[a] == out[a]);
        } else if a < j {
            assert(r[a] == out[a] && r[b] == out[b - 1]);
        } else if a == j {
            assert(r[b] == out[b - 1]);
            lemma_newer_order(sale_date(out[b - 1]), sale_date(e), sale_date(out[j]));
            lemma_newer_order(sale_date(out[j]), sale_date(e), sale_date(e));
            if b - 1 > j {
                assert(!newer(sale_date(out[b - 1]), sale_date(out[j])));
            }
        } else {
            assert(r[a] == out[a - 1] && r[b] == out[b - 1]);
        }
    }
    assert forall|a: int, b: int|
        #![trigger r[a], r[b]]
        0 <= a < b < r.len() && sale_date(r[a]) == sale_date(r[b]) implies p2[a] < p2[b] by {
        if b < j {
            assert(r[a] == out[a] && r[b] == out[b]);
        } else if b == j {
            assert(0 <= p[a] < n);
        } else if a < j {
            assert(r[a] == out[a] && r[b] == out[b - 1]);
        } else if a == j {
            assert(r[b] == out[b - 1]);
            lemma_newer_order(sale_date(out[j]), sale_date(e), sale_date(e));
            if b - 1 > j {
                assert(!newer(sale_date(out[b - 1]), sale_date(out[j])));
            }
        } else {
            assert(r[a] == out[a - 1] && r[b] == out[b - 1]);
        }
    }
}

fn newer_than(a: &Option<String>, b: &Option<String>) -> (r: bool)
    ensures
        r == newer(opt_view(*a), opt_view(*b)),
{
    match (a, b) {
        (Some(x), Some(y)) => lt_str(y.as_str(), x.as_str()),
        (Some(_), None) => true,
        _ => false,
    }
}

/// `page` rearranged newest first; sales of the same date keep their order.
fn sort_newest_first_sales(page: Vec<Sale>) -> (r: Vec<Sale>)
    ensures
        exists|p: Seq<int>| arranged(r@, page@, p),
{
    let ghost orig = page@;
    let n = page.len();
    let mut rest = page;
    let mut out: Vec<Sale> = Vec::new();
    let ghost mut p: Seq<int> = seq![];
    let mut t: usize = 0;
    proof {
        assert(orig.skip(0) =~= orig);
        assert(orig.take(0) =~= Seq::<Sale>::empty());
    }
    while t < n
        invariant
            t <= n == orig.len(),
            rest@ == orig.skip(t as int),
            arranged(out@, orig.take(t as int), p),
        decreases n - t,
    {
        let e = rest.remove(0);
        proof {
            assert(e == orig[t as int]);
            assert(rest@ =~= orig.skip(t + 1));
        }
        let mut j: usize = 0;
        while j < out.len() && !newer_than(&e.date, &out[j].date)
            invariant
                j <= out@.len(),
                forall|q: int| 0 <= q < j ==> !newer(sale_date(e), sale_date(#[trigger] out@[q])),
            decreases out.len() - j,
        {
            j = j + 1;
        }
        let ghost before = out@;
        out.insert(j, e);
        proof {
            lemma_insert_arranged(before, orig.take(t as int), p, e, j as int);
            assert(orig.take(t as int).push(e) =~= orig.take(t + 1));
            p = p.insert(j as int, t as int);
        }
        t = t + 1;
    }
    proof {
        assert(orig.take(n as int) =~= orig);
    }
    out
}

/// Every recorded sale on the page, newest first; sales of the same date
/// (or with none) keep the page's order, and undated sales come last.
pub fn sales(model: &Json) -> (r: Vec<Sale>)
    ensures
        exists|p: Seq<int>| sales_newest_first(r@, sales_of(*model), p),
{
    let page = page_sales(model);
    let ghost pg = page@;
    let r = sort_newest_first_sales(page);
    proof {
        let p = choose|p: Seq<int>| arranged(r@, pg, p);
        assert forall|i: int| 0 <= i < r@.len() implies sale_from_row(
            #[trigger] r@[i],
            sales_of(*model)[p[i]],
        ) by {
            assert(r@[i] == pg[p[i]]);
        }
        assert(sales_newest_first(r@, sales_of(*model), p));
    }
    r
}

/// `e` is the exemption an exemption-table row records.
pub open spec fn exemption_from_row(e: Exemption, row: Json) -> bool {
    &&& Some(e.description@) == field_of(row, "Description"@)
    &&& opt_view(e.tax_year) == field_of(row, "TaxYear"@)
    &&& opt_view(e.applicant) == field_of(row, "ApplicantName"@)
    &&& opt_view(e.soh_base_year) == field_of(row, "SOHBaseYear"@)
}

/// An exemption read from an exemption-table row carries that row's own
/// members, each trimmed and dropped when blank: its description is the
/// row's `Description`, its tax year the row's `TaxYear`, its applicant the
/// row's `ApplicantName`, and its Save Our Homes base year the row's
/// `SOHBaseYear`.
pub proof fn lemma_exemption_reads_its_row(e: Exemption, row: Json)
    requires
        exemption_from_row(e, row),
    ensures
        ({
            let member = |k: Seq<char>|
                match row.field(k) {
                    Some(Json::Str(x)) => if trim(x@).len() > 0 {
                        Some(trim(x@))
                    } else {
                        None
                    },
                    _ => None,
                };
            &&& member("Description"@) == Some(e.description@)
            &&& opt_view(e.tax_year) == member("TaxYear"@)
            &&& opt_view(e.applicant) == member("ApplicantName"@)
            &&& opt_view(e.soh_base_year) == member("SOHBaseYear"@)
        }),
{
}

/// The exemption rows that have a description.
pub open spec fn exemptions_of(model: Json) -> Seq<Json> {
    kept(array_of(model, "exemptionInfo"@), |row: Json| field_of(row, "Description"@) is Some)
}

/// The exemptions on file; rows without a description are skipped.
pub fn exemptions(model: &Json) -> (r: Vec<Exemption>)
    ensures
        r@.len() == exemptions_of(*model).len(),
        forall|i: int|
            0 <= i < r@.len() ==> exemption_from_row(#[trigger] r@[i], exemptions_of(*model)[i]),
{
    let rows = array(model, "exemptionInfo");
    let ghost keep = |row: Json| field_of(row, "Description"@) is Some;
    let mut out: Vec<Exemption> = Vec::new();
    let mut i: usize = 0;
    while i < rows.len()
        invariant
            i <= rows@.len(),
            rows@ == array_of(*model, "exemptionInfo"@),
            keep == (|row: Json| field_of(row, "Description"@) is Some),
            out@.len() == kept(rows@.take(i as int), keep).len(),
            forall|k: int|
                0 <= k < out@.len() ==> exemption_from_row(
                    #[trigger] out@[k],
                    kept(rows@.take(i as int), keep)[k],
                ),
        decreases rows.len() - i,
    {
        proof {
            assert(rows@.take(i + 1).drop_last() =~= rows@.take(i as int));
            assert(rows@.take(i + 1).last() == rows@[i as int]);
        }
        let row = &rows[i];
        match field(row, "Description") {
            Some(description) => {
                let e = Exemption {
                    description,
                    tax_year: field(row, "TaxYear"),
                    applicant: field(row, "ApplicantName"),
                    soh_base_year: field(row, "SOHBaseYear"),
                };
                out.push(e);
            },
            None => {},
        }
        i = i + 1;
    }
    proof {
        assert(rows@.take(rows@.len() as int) =~= rows@);
    }
    out
}

/// The `(name, value)` rows of the structural-element table that have both.
pub open spec fn element_pairs(rows: Seq<Json>) -> Seq<(Seq<char>, Seq<char>)>
    decreases rows.len(),
{
    if rows.len() == 0 {
        seq![]
    } else {
        let rest = element_pairs(rows.drop_last());
        match (field_of(rows.last(), "ElementName"@), field_of(rows.last(), "ElementValue"@)) {
            (Some(n), Some(v)) => rest.push((n, v)),
            _ => rest,
        }
    }
}

pub open spec fn element_views(es: Seq<Element>) -> Seq<(Seq<char>, Seq<char>)> {
    Seq::new(es.len(), |i: int| (es[i].name@, es[i].value@))
}

/// Equal apart from the case of ASCII letters (`str::eq_ignore_ascii_case`).
pub open spec fn same_ignoring_ascii_case(a: Seq<char>, b: Seq<char>) -> bool {
    a.len() == b.len() && forall|i: int| 0 <= i < a.len() ==> ascii_lower(a[i]) == ascii_lower(b[i])
}

/// The number in the value of the first element named `name` (in any case),
/// with `,` separators ignored; nothing when there is no such element or its
/// value is not a whole number.
pub open spec fn lookup_number(pairs: Seq<(Seq<char>, Seq<char>)>, name: Seq<char>) -> Option<u32>
    decreases pairs.len(),
{
    if pairs.len() == 0 {
        None
    } else if same_ignoring_ascii_case(pairs[0].0, name) {
        parse_u32_spec(without_commas(pairs[0].1))
    } else {
        lookup_number(pairs.drop_first(), name)
    }
}

/// `pairs[i]` is the first pair named `name`, ignoring ASCII case.
pub open spec fn first_named(pairs: Seq<(Seq<char>, Seq<char>)>, name: Seq<char>, i: int) -> bool {
    &&& 0 <= i < pairs.len()
    &&& same_ignoring_ascii_case(pairs[i].0, name)
    &&& forall|j: int| 0 <= j < i ==> !same_ignoring_ascii_case(#[trigger] pairs[j].0, name)
}

proof fn lemma_lookup_first(pairs: Seq<(Seq<char>, Seq<char>)>, name: Seq<char>, i: int)
    requires
        first_named(pairs, name, i),
    ensures
        lookup_number(pairs, name) == parse_u32_spec(without_commas(pairs[i].1)),
    decreases i,
{
    if i > 0 {
        assert(!same_ignoring_ascii_case(pairs[0].0, name));
        let rest = pairs.drop_first();
        assert forall|j: int| 0 <= j < i - 1 implies !same_ignoring_ascii_case(
            #[trigger] rest[j].0,
            name,
        ) by {
            assert(rest[j] == pairs[j + 1]);
        }
        lemma_lookup_first(rest, name, i - 1);
    }
}

proof fn lemma_lookup_absent(pairs: Seq<(Seq<char>, Seq<char>)>, name: Seq<char>)
    requires
        forall|j: int| 0 <= j < pairs.len() ==> !same_ignoring_ascii_case(#[trigger] pairs[j].0, name),
    ensures
        lookup_number(pairs, name) is None,
    decreases pairs.len(),
{
    if pairs.len() > 0 {
        assert(!same_ignoring_ascii_case(pairs[0].0, name));
        let rest = pairs.drop_first();
        assert forall|j: int| 0 <= j < rest.len() implies !same_ignoring_ascii_case(
            #[trigger] rest[j].0,
            name,
        ) by {
            assert(rest[j] == pairs[j + 1]);
        }
        lemma_lookup_absent(rest, name);
    }
}

/// The number `name` gives among a building's elements: the whole number in
/// the value of its first element of that name (in any case), separators
/// ignored; nothing when it has no such element.
pub open spec fn named_number(es: Seq<(Seq<char>, Seq<char>)>, name: Seq<char>) -> Option<u32> {
    if exists|i: int| first_named(es, name, i) {
        let i = choose|i: int| first_named(es, name, i);
        parse_u32_spec(without_commas(es[i].1))
    } else {
        None
    }
}

proof fn lemma_named_number(es: Seq<(Seq<char>, Seq<char>)>, name: Seq<char>)
    ensures
        lookup_number(es, name) == named_number(es, name),
{
    if exists|i: int| first_named(es, name, i) {
        let i = choose|i: int| first_named(es, name, i);
        lemma_lookup_first(es, name, i);
    } else {
        assert forall|j: int| 0 <= j < es.len() implies !same_ignoring_ascii_case(
            #[trigger] es[j].0,
            name,
        ) by {
            if same_ignoring_ascii_case(es[j].0, name) {
                lemma_first_match_exists(es, name, j);
            }
        }
        lemma_lookup_absent(es, name);
    }
}

proof fn lemma_first_match_exists(es: Seq<(Seq<char>, Seq<char>)>, name: Seq<char>, j: int)
    requires
        0 <= j < es.len(),
        same_ignoring_ascii_case(es[j].0, name),
    ensures
        exists|i: int| first_named(es, name, i),
    decreases j,
{
    if exists|q: int| 0 <= q < j && same_ignoring_ascii_case(#[trigger] es[q].0, name) {
        let q = choose|q: int| 0 <= q < j && same_ignoring_ascii_case(#[trigger] es[q].0, name);
        lemma_first_match_exists(es, name, q);
    } else {
        assert(first_named(es, name, j));
    }
}

/// A building's headline numbers are read from its own elements by name:
/// year built from `Year Built`, living area from `Area Under Air`, and the
/// area under roof from `Total Square Footage`.
pub proof fn lemma_building_reads_its_elements(b: Building, model: Json)
    requires
        building_from(Some(b), model),
    ensures
        b.year_built == named_number(element_views(b.elements@), "Year Built"@),
        b.living_area_sqft == named_number(element_views(b.elements@), "Area Under Air"@),
        b.total_sqft == named_number(element_views(b.elements@), "Total Square Footage"@),
{
    let es = element_views(b.elements@);
    lemma_named_number(es, "Year Built"@);
    lemma_named_number(es, "Area Under Air"@);
    lemma_named_number(es, "Total Square Footage"@);
}

/// The first entry of `BuildingNumbers`, when it is a string.
pub open spec fn building_number_of(sd: Json) -> Option<Seq<char>> {
    let nums = array_of(sd, "BuildingNumbers"@);
    if nums.len() > 0 {
        match nums[0] {
            Json::Str(s) => Some(s@),
            _ => None,
        }
    } else {
        None
    }
}

/// `b` is the building the model's structural details describe: nothing when
/// the section is missing or says nothing at all.
pub open spec fn building_from(b: Option<Building>, model: Json) -> bool {
    match model.field("structuralDetails"@) {
        None => b is None,
        Some(sd) => {
            let pairs = element_pairs(array_of(sd, "StructuralElements"@));
            let year = lookup_number(pairs, "Year Built"@);
            let living = lookup_number(pairs, "Area Under Air"@);
            let total = lookup_number(pairs, "Total Square Footage"@);
            let number = building_number_of(sd);
            if year is None && living is None && total is None && number is None && pairs.len()
                == 0 {
                b is None
            } else {
                &&& b matches Some(x)
                &&& x.year_built == year
                &&& x.living_area_sqft == living
                &&& x.total_sqft == total
                &&& opt_view(x.building_number) == number
                &&& element_views(x.elements@) == pairs
            }
        },
    }
}

/// The building's number is the first entry of the section's
/// `BuildingNumbers` when that entry is a string: a section whose first
/// building number is a string always yields a building, carrying that
/// number.
pub proof fn lemma_building_number_is_first(b: Option<Building>, model: Json)
    requires
        building_from(b, model),
    ensures
        match model.field("structuralDetails"@) {
            Some(sd) => match sd.field("BuildingNumbers"@) {
                Some(Json::Array(nums)) => nums@.len() > 0 ==> match nums@[0] {
                    Json::Str(first) => b matches Some(x) && x.building_number matches Some(n)
                        && n@ == first@,
                    _ => b matches Some(x) ==> x.building_number is None,
                },
                _ => b matches Some(x) ==> x.building_number is None,
            },
            None => b is None,
        },
{
}

fn eq_ignore_ascii_case(a: &str, b: &str) -> (r: bool)
    ensures
        r == same_ignoring_ascii_case(a@, b@),
{
    let x = chars_of(a);
    let y = chars_of(b);
    if x.len() != y.len() {
        return false;
    }
    let mut i: usize = 0;
    while i < x.len()
        invariant
            i <= x@.len() == y@.len(),
            x@ == a@,
            y@ == b@,
            forall|k: int| 0 <= k < i ==> ascii_lower(x@[k]) == ascii_lower(y@[k]),
        decreases x.len() - i,
    {
        if to_ascii_lower(x[i]) != to_ascii_lower(y[i]) {
            return false;
        }
        i = i + 1;
    }
    true
}

fn remove_commas_str(s: &str) -> (r: Vec<char>)
    ensures
        r@ == without_commas(s@),
{
    let v = chars_of(s);
    let mut out: Vec<char> = Vec::new();
    let mut i: usize = 0;
    while i < v.len()
        invariant
            i <= v@.len(),
            v@ == s@,
            out@ == without_commas(v@.take(i as int)),
        decreases v.len() - i,
    {
        proof {
            assert(v@.take(i + 1).drop_last() =~= v@.take(i as int));
        }
        if v[i] != ',' {
            out.push(v[i]);
        }
        i = i + 1;
    }
    proof {
        assert(v@.take(v@.len() as int) =~= v@);
    }
    out
}

fn lookup(elements: &Vec<Element>, name: &str) -> (r: Option<u32>)
    ensures
        r == lookup_number(element_views(elements@), name@),
{
    let mut i: usize = 0;
    proof {
        assert(element_views(elements@).skip(0) =~= element_views(elements@));
    }
    while i < elements.len()
        invariant
            i <= elements@.len(),
            lookup_number(element_views(elements@), name@) == lookup_number(
                element_views(elements@).skip(i as int),
                name@,
            ),
        decreases elements.len() - i,
    {
        let ghost rest = element_views(elements@).skip(i as int);
        proof {
            assert(rest.drop_first() =~= element_views(elements@).skip(i + 1));
            assert(rest[0] == (elements@[i as int].name@, elements@[i as int].value@));
        }
        if eq_ignore_ascii_case(elements[i].name.as_str(), name) {
            let digits = remove_commas_str(elements[i].value.as_str());
            return parse_u32(&digits);
        }
        i = i + 1;
    }
    proof {
        assert(element_views(elements@).skip(elements@.len() as int) =~= Seq::<
            (Seq<char>, Seq<char>),
        >::empty());
    }
    None
}

/// Building structure: year built, living area ("Area Under Air", the
/// heated/cooled space, not the larger under-roof total), total square
/// footage, and the structural elements verbatim.
pub fn building(model: &Json) -> (r: Option<Building>)
    ensures
        building_from(r, *model),
{
    let sd = match model.get("structuralDetails") {
        Some(sd) => sd,
        None => return None,
    };
    let rows = array(sd, "StructuralElements");
    let mut elements: Vec<Element> = Vec::new();
    let mut i: usize = 0;
    while i < rows.len()
        invariant
            i <= rows@.len(),
            rows@ == array_of(*sd, "StructuralElements"@),
            element_views(elements@) == element_pairs(rows@.take(i as int)),
        decreases rows.len() - i,
    {
        proof {
            assert(rows@.take(i + 1).drop_last() =~= rows@.take(i as int));
            assert(rows@.take(i + 1).last() == rows@[i as int]);
        }
        let ghost before = element_views(elements@);
        match field(&rows[i], "ElementName") {
            Some(name) => match field(&rows[i], "ElementValue") {
                Some(value) => {
                    let ghost pair = (name@, value@);
                    elements.push(Element { name, value });
                    proof {
                        assert(element_views(elements@) =~= before.push(pair));
                    }
                },
                None => {},
            },
            None => {},
        }
        i = i + 1;
    }
    proof {
        assert(rows@.take(rows@.len() as int) =~= rows@);
    }
    let year_built = lookup(&elements, "Year Built");
    let living_area_sqft = lookup(&elements, "Area Under Air");
    let total_sqft = lookup(&elements, "Total Square Footage");
    let nums = array(sd, "BuildingNumbers");
    let building_number = if nums.len() > 0 {
        match &nums[0] {
            Json::Str(s) => Some(s.clone()),
            _ => None,
        }
    } else {
        None
    };
    if year_built.is_none() && living_area_sqft.is_none() && total_sqft.is_none()
        && building_number.is_none() && elements.len() == 0 {
        None
    } else {
        Some(Building { year_built, living_area_sqft, total_sqft, building_number, elements })
    }
}

/// `a` sorts before `b`: lexicographic by code point, which for UTF-8
/// strings is the byte order `String`'s `Ord` uses.
pub open spec fn str_lt(a: Seq<char>, b: Seq<char>) -> bool
    decreases a.len(),
{
    if b.len() == 0 {
        false
    } else if a.len() == 0 {
        true
    } else if a[0] != b[0] {
        a[0] < b[0]
    } else {
        str_lt(a.drop_first(), b.drop_first())
    }
}

proof fn lemma_str_lt_irreflexive(a: Seq<char>)
    ensures
        !str_lt(a, a),
    decreases a.len(),
{
    if a.len() > 0 {
        lemma_str_lt_irreflexive(a.drop_first());
    }
}

proof fn lemma_str_lt_transitive(a: Seq<char>, b: Seq<char>, c: Seq<char>)
    requires
        str_lt(a, b),
        str_lt(b, c),
    ensures
        str_lt(a, c),
    decreases a.len(),
{
    if a.len() > 0 && b.len() > 0 && c.len() > 0 {
        if a[0] == b[0] && b[0] == c[0] {
            lemma_str_lt_transitive(a.drop_first(), b.drop_first(), c.drop_first());
        }
    }
}

proof fn lemma_str_lt_total(a: Seq<char>, b: Seq<char>)
    requires
        a != b,
    ensures
        str_lt(a, b) || str_lt(b, a),
    decreases a.len(),
{
    if a.len() == 0 {
        assert(b.len() > 0) by {
            if b.len() == 0 {
                assert(a =~= b);
            }
        }
    } else if b.len() == 0 {
    } else if a[0] == b[0] {
        if a.drop_first() == b.drop_first() {
            assert(a =~= seq![a[0]] + a.drop_first());
            assert(b =~= seq![b[0]] + b.drop_first());
        }
        lemma_str_lt_total(a.drop_first(), b.drop_first());
    }
}

fn lt_str(a: &str, b: &str) -> (r: bool)
    ensures
        r == str_lt(a@, b@),
{
    let x = chars_of(a);
    let y = chars_of(b);
    let mut i: usize = 0;
    proof {
        assert(x@.skip(0) =~= x@);
        assert(y@.skip(0) =~= y@);
    }
    while i < x.len() && i < y.len() && x[i] == y[i]
        invariant
            i <= x@.len(),
            i <= y@.len(),
            x@ == a@,
            y@ == b@,
            str_lt(a@, b@) == str_lt(x@.skip(i as int), y@.skip(i as int)),
        decreases x.len() - i,
    {
        proof {
            assert(x@.skip(i as int).drop_first() =~= x@.skip(i + 1));
            assert(y@.skip(i as int).drop_first() =~= y@.skip(i + 1));
        }
        i = i + 1;
    }
    proof {
        if i < x.len() {
            assert(x@.skip(i as int)[0] == x@[i as int]);
        }
        if i < y.len() {
            assert(y@.skip(i as int)[0] == y@[i as int]);
        }
    }
    if i == y.len() {
        false
    } else if i == x.len() {
        true
    } else {
        x[i] < y[i]
    }
}

/// The tax year a per-year table row is keyed by.
pub open spec fn year_of(row: Json) -> Option<Seq<char>> {
    field_of(row, "TaxYear"@)
}

/// Some row of `rows` is keyed by year `y`.
pub open spec fn has_year(rows: Seq<Json>, y: Seq<char>) -> bool {
    exists|i: int| 0 <= i < rows.len() && year_of(#[trigger] rows[i]) == Some(y)
}

/// The money in column `key` of the last row keyed by year `y`; nothing when
/// no row is (later rows for a year overwrite earlier ones).
pub open spec fn last_for_year(rows: Seq<Json>, y: Seq<char>, key: Seq<char>) -> Option<Seq<char>>
    decreases rows.len(),
{
    if rows.len() == 0 {
        None
    } else if year_of(rows.last()) == Some(y) {
        money_of(rows.last(), key)
    } else {
        last_for_year(rows.drop_last(), y, key)
    }
}

proof fn lemma_last_row_for_year(rows: Seq<Json>, y: Seq<char>, key: Seq<char>, i: int)
    requires
        0 <= i < rows.len(),
        year_of(rows[i]) == Some(y),
        forall|j: int| i < j < rows.len() ==> year_of(#[trigger] rows[j]) != Some(y),
    ensures
        last_for_year(rows, y, key) == money_of(rows[i], key),
    decreases rows.len(),
{
    if i < rows.len() - 1 {
        assert(year_of(rows.last()) != Some(y));
        assert forall|j: int| i < j < rows.drop_last().len() implies year_of(
            #[trigger] rows.drop_last()[j],
        ) != Some(y) by {
            assert(rows.drop_last()[j] == rows[j]);
        }
        lemma_last_row_for_year(rows.drop_last(), y, key, i);
    }
}

/// The row with the last occurrence of `y` in `rows`.
pub open spec fn last_row_of_year(rows: Seq<Json>, y: Seq<char>, i: int) -> bool {
    &&& 0 <= i < rows.len()
    &&& year_of(rows[i]) == Some(y)
    &&& forall|j: int| i < j < rows.len() ==> year_of(#[trigger] rows[j]) != Some(y)
}

/// Each of a tax year's values comes from its own table and column, read
/// from that table's last row for the year: market total, land and
/// improvement from the appraisal table (`TotalMarketValue`, `LandValue`,
/// `ImprovementValue`), assessed value, exemption amount and taxable value
/// from the assessment table (`AssessedValue`, `ExemptionAmount`,
/// `TaxableValue`), and the levies from the tax table (`AdValoremTax`,
/// `NonAdValoremTax`, `TotalTaxValue`).
pub proof fn lemma_tax_year_reads_its_tables(r: TaxYear, model: Json)
    requires
        year_row_from(r, model),
    ensures
        forall|i: int|
            last_row_of_year(array_of(model, "appraisalInfo"@), r.tax_year@, i) ==> {
                let row = #[trigger] array_of(model, "appraisalInfo"@)[i];
                &&& opt_amount(r.market_total) == money_of(row, "TotalMarketValue"@)
                &&& opt_amount(r.market_land) == money_of(row, "LandValue"@)
                &&& opt_amount(r.market_improvement) == money_of(row, "ImprovementValue"@)
            },
        forall|i: int|
            last_row_of_year(array_of(model, "assessmentInfo"@), r.tax_year@, i) ==> {
                let row = #[trigger] array_of(model, "assessmentInfo"@)[i];
                &&& opt_amount(r.assessed) == money_of(row, "AssessedValue"@)
                &&& opt_amount(r.exemption) == money_of(row, "ExemptionAmount"@)
                &&& opt_amount(r.taxable) == money_of(row, "TaxableValue"@)
            },
        forall|i: int|
            last_row_of_year(array_of(model, "taxInfo"@), r.tax_year@, i) ==> {
                let row = #[trigger] array_of(model, "taxInfo"@)[i];
                &&& opt_amount(r.ad_valorem_tax) == money_of(row, "AdValoremTax"@)
                &&& opt_amount(r.non_ad_valorem_tax) == money_of(row, "NonAdValoremTax"@)
                &&& opt_amount(r.total_tax) == money_of(row, "TotalTaxValue"@)
            },
{
    let y = r.tax_year@;
    let a = array_of(model, "appraisalInfo"@);
    let b = array_of(model, "assessmentInfo"@);
    let c = array_of(model, "taxInfo"@);
    assert forall|i: int| last_row_of_year(a, y, i) implies {
        let row = #[trigger] a[i];
        &&& opt_amount(r.market_total) == money_of(row, "TotalMarketValue"@)
        &&& opt_amount(r.market_land) == money_of(row, "LandValue"@)
        &&& opt_amount(r.market_improvement) == money_of(row, "ImprovementValue"@)
    } by {
        lemma_last_row_for_year(a, y, "TotalMarketValue"@, i);
        lemma_last_row_for_year(a, y, "LandValue"@, i);
        lemma_last_row_for_year(a, y, "ImprovementValue"@, i);
    }
    assert forall|i: int| last_row_of_year(b, y, i) implies {
        let row = #[trigger] b[i];
        &&& opt_amount(r.assessed) == money_of(row, "AssessedValue"@)
        &&& opt_amount(r.exemption) == money_of(row, "ExemptionAmount"@)
        &&& opt_amount(r.taxable) == money_of(row, "TaxableValue"@)
    } by {
        lemma_last_row_for_year(b, y, "AssessedValue"@, i);
        lemma_last_row_for_year(b, y, "ExemptionAmount"@, i);
        lemma_last_row_for_year(b, y, "TaxableValue"@, i);
    }
    assert forall|i: int| last_row_of_year(c, y, i) implies {
        let row = #[trigger] c[i];
        &&& opt_amount(r.ad_valorem_tax) == money_of(row, "AdValoremTax"@)
        &&& opt_amount(r.non_ad_valorem_tax) == money_of(row, "NonAdValoremTax"@)
        &&& opt_amount(r.total_tax) == money_of(row, "TotalTaxValue"@)
    } by {
        lemma_last_row_for_year(c, y, "AdValoremTax"@, i);
        lemma_last_row_for_year(c, y, "NonAdValoremTax"@, i);
        lemma_last_row_for_year(c, y, "TotalTaxValue"@, i);
    }
}

/// A year appears in one of the page's three per-year tables.
pub open spec fn listed_year(model: Json, y: Seq<char>) -> bool {
    ||| has_year(array_of(model, "appraisalInfo"@), y)
    ||| has_year(array_of(model, "assessmentInfo"@), y)
    ||| has_year(array_of(model, "taxInfo"@), y)
}

/// `r` merges what the three per-year tables say about its year.
pub open spec fn year_row_from(r: TaxYear, model: Json) -> bool {
    let y = r.tax_year@;
    let appraisal = array_of(model, "appraisalInfo"@);
    let assessment = array_of(model, "assessmentInfo"@);
    let tax = array_of(model, "taxInfo"@);
    &&& opt_amount(r.market_total) == last_for_year(appraisal, y, "TotalMarketValue"@)
    &&& opt_amount(r.market_land) == last_for_year(appraisal, y, "LandValue"@)
    &&& opt_amount(r.market_improvement) == last_for_year(appraisal, y, "ImprovementValue"@)
    &&& opt_amount(r.assessed) == last_for_year(assessment, y, "AssessedValue"@)
    &&& opt_amount(r.exemption) == last_for_year(assessment, y, "ExemptionAmount"@)
    &&& opt_amount(r.taxable) == last_for_year(assessment, y, "TaxableValue"@)
    &&& opt_amount(r.ad_valorem_tax) == last_for_year(tax, y, "AdValoremTax"@)
    &&& opt_amount(r.non_ad_valorem_tax) == last_for_year(tax, y, "NonAdValoremTax"@)
    &&& opt_amount(r.total_tax) == last_for_year(tax, y, "TotalTaxValue"@)
    &&& usd_or_none(r.market_total) && usd_or_none(r.market_land) && usd_or_none(
        r.market_improvement,
    ) && usd_or_none(r.assessed) && usd_or_none(r.exemption) && usd_or_none(r.taxable)
        && usd_or_none(r.ad_valorem_tax) && usd_or_none(r.non_ad_valorem_tax) && usd_or_none(
        r.total_tax,
    )
}

fn last_money_for_year(rows: &[Json], y: &str, key: &str) -> (r: Option<Money>)
    ensures
        opt_amount(r) == last_for_year(rows@, y@, key@),
        usd_or_none(r),
{
    let mut i: usize = rows.len();
    proof {
        assert(rows@.take(rows@.len() as int) =~= rows@);
    }
    while i > 0
        invariant
            i <= rows@.len(),
            last_for_year(rows@, y@, key@) == last_for_year(rows@.take(i as int), y@, key@),
        decreases i,
    {
        proof {
            assert(rows@.take(i as int).drop_last() =~= rows@.take(i - 1));
            assert(rows@.take(i as int).last() == rows@[i - 1]);
        }
        let matches = match field(&rows[i - 1], "TaxYear") {
            Some(t) => eq_str(t.as_str(), y),
            None => false,
        };
        if matches {
            return money(&rows[i - 1], key);
        }
        i = i - 1;
    }
    None
}

/// Some entry of `ys` is `y`.
pub open spec fn covers(ys: Seq<String>, y: Seq<char>) -> bool {
    exists|i: int| 0 <= i < ys.len() && #[trigger] ys[i]@ == y
}

/// No two entries of `ys` are equal.
pub open spec fn distinct(ys: Seq<String>) -> bool {
    forall|i: int, j: int| 0 <= i < j < ys.len() ==> ys[i]@ != ys[j]@
}

/// Adds to `years` each year keyed in `rows` that is not there yet.
fn collect_years(years: &mut Vec<String>, rows: &[Json])
    requires
        distinct(old(years)@),
    ensures
        distinct(final(years)@),
        forall|y: Seq<char>|
            #![trigger covers(final(years)@, y)]
            covers(final(years)@, y) <==> (covers(old(years)@, y) || has_year(rows@, y)),
{
    let ghost start = years@;
    let mut n: usize = 0;
    while n < rows.len()
        invariant
            n <= rows@.len(),
            distinct(years@),
            forall|y: Seq<char>|
                #![trigger covers(years@, y)]
                covers(years@, y) <==> (covers(start, y) || has_year(rows@.take(n as int), y)),
        decreases rows.len() - n,
    {
        let ghost prefix = rows@.take(n as int);
        let ghost next = rows@.take(n + 1);
        let ghost before_iter = years@;
        proof {
            assert forall|y: Seq<char>| has_year(next, y) <==> (has_year(prefix, y) || year_of(
                rows@[n as int],
            ) == Some(y)) by {
                if has_year(next, y) {
                    let i = choose|i: int|
                        0 <= i < next.len() && year_of(#[trigger] next[i]) == Some(y);
                    if i < n {
                        assert(prefix[i] == next[i]);
                    }
                }
                if has_year(prefix, y) {
                    let i = choose|i: int|
                        0 <= i < prefix.len() && year_of(#[trigger] prefix[i]) == Some(y);
                    assert(next[i] == prefix[i]);
                }
                if year_of(rows@[n as int]) == Some(y) {
                    assert(next[n as int] == rows@[n as int]);
                }
            }
        }
        match field(&rows[n], "TaxYear") {
            Some(t) => {
                let mut seen = false;
                let mut k: usize = 0;
                while k < years.len()
                    invariant
                        k <= years@.len(),
                        seen ==> covers(years@, t@),
                        !seen ==> forall|q: int| 0 <= q < k ==> years@[q]@ != t@,
                    decreases years.len() - k,
                {
                    if eq_str(years[k].as_str(), t.as_str()) {
                        proof {
                            assert(years@[k as int]@ == t@);
                        }
                        seen = true;
                    }
                    k = k + 1;
                }
                let ghost tv = t@;
                if !seen {
                    years.push(t);
                    proof {
                        assert(years@[years@.len() - 1]@ == tv);
                        assert forall|y: Seq<char>| #[trigger]
                            covers(years@, y) <==> (covers(before_iter, y) || y == tv) by {
                            if covers(before_iter, y) {
                                let i = choose|i: int|
                                    0 <= i < before_iter.len() && #[trigger] before_iter[i]@ == y;
                                assert(years@[i] == before_iter[i]);
                            }
                            if covers(years@, y) {
                                let i = choose|i: int|
                                    0 <= i < years@.len() && #[trigger] years@[i]@ == y;
                                if i < before_iter.len() {
                                    assert(years@[i] == before_iter[i]);
                                }
                            }
                        }
                    }
                } else {
                    proof {
                        assert forall|y: Seq<char>| #[trigger]
                            covers(years@, y) <==> (covers(before_iter, y) || y == tv) by {
                        }
                    }
                }
            },
            None => {},
        }
        n = n + 1;
    }
    proof {
        assert(rows@.take(rows@.len() as int) =~= rows@);
    }
}

/// Newest first: each entry sorts strictly after the ones that follow it.
pub open spec fn sorted_newest_first(ys: Seq<String>) -> bool {
    forall|i: int, j: int| 0 <= i < j < ys.len() ==> str_lt(ys[j]@, ys[i]@)
}

/// The distinct years, newest first.
fn sort_newest_first(years: Vec<String>) -> (r: Vec<String>)
    requires
        distinct(years@),
    ensures
        distinct(r@),
        sorted_newest_first(r@),
        forall|y: Seq<char>| #![trigger covers(r@, y)] covers(r@, y) <==> covers(years@, y),
{
    let mut out: Vec<String> = Vec::new();
    let mut n: usize = 0;
    while n < years.len()
        invariant
            n <= years@.len(),
            distinct(years@),
            distinct(out@),
            sorted_newest_first(out@),
            forall|y: Seq<char>|
                #![trigger covers(out@, y)]
                covers(out@, y) <==> covers(years@.take(n as int), y),
        decreases years.len() - n,
    {
        let x = years[n].clone();
        let ghost xv = x@;
        proof {
            assert(xv == years@[n as int]@);
            if covers(out@, xv) {
                let k = choose|k: int|
                    0 <= k < years@.take(n as int).len() && #[trigger] years@.take(n as int)[k]@ == xv;
                assert(years@[k]@ == years@[n as int]@);
            }
            assert(!covers(out@, xv));
        }
        let mut p: usize = 0;
        while p < out.len() && !lt_str(out[p].as_str(), x.as_str())
            invariant
                p <= out@.len(),
                x@ == xv,
                forall|q: int| 0 <= q < p ==> !str_lt(#[trigger] out@[q]@, xv),
            decreases out.len() - p,
        {
            p = p + 1;
        }
        let ghost before = out@;
        out.insert(p, x);
        proof {
            assert forall|q: int| 0 <= q < p implies str_lt(xv, #[trigger] before[q]@) by {
                assert(before[q]@ != xv);
                lemma_str_lt_total(before[q]@, xv);
            }
            assert forall|q: int| p <= q < before.len() implies str_lt(#[trigger] before[q]@, xv) by {
                if q > p {
                    assert(str_lt(before[q]@, before[p as int]@));
                    lemma_str_lt_transitive(before[q]@, before[p as int]@, xv);
                }
            }
            assert(out@ =~= before.insert(p as int, x));
            assert forall|i: int, j: int| 0 <= i < j < out@.len() implies str_lt(
                out@[j]@,
                out@[i]@,
            ) by {
                if i < p && j < p {
                    assert(out@[i] == before[i] && out@[j] == before[j]);
                } else if i < p && j == p {
                } else if i < p && j > p {
                    assert(out@[i] == before[i] && out@[j] == before[j - 1]);
                    lemma_str_lt_transitive(before[j - 1]@, xv, before[i]@);
                } else if i == p {
                    assert(out@[j] == before[j - 1]);
                } else {
                    assert(out@[i] == before[i - 1] && out@[j] == before[j - 1]);
                }
            }
            assert forall|i: int, j: int| 0 <= i < j < out@.len() implies out@[i]@ != out@[j]@ by {
                lemma_str_lt_irreflexive(out@[i]@);
                assert(str_lt(out@[j]@, out@[i]@));
                if out@[i]@ == out@[j]@ {
                    assert(str_lt(out@[i]@, out@[i]@));
                }
            }
            assert forall|y: Seq<char>| #[trigger]
                covers(out@, y) <==> covers(years@.take(n + 1), y) by {
                let pre = years@.take(n as int);
                let nxt = years@.take(n + 1);
                if covers(out@, y) {
                    let i = choose|i: int| 0 <= i < out@.len() && #[trigger] out@[i]@ == y;
                    if i == p {
                        assert(nxt[n as int]@ == y);
                    } else {
                        let bi = if i < p {
                            i
                        } else {
                            i - 1
                        };
                        assert(out@[i] == before[bi]);
                        assert(covers(before, y));
                        let k = choose|k: int| 0 <= k < pre.len() && #[trigger] pre[k]@ == y;
                        assert(nxt[k] == pre[k]);
                    }
                }
                if covers(nxt, y) {
                    let k = choose|k: int| 0 <= k < nxt.len() && #[trigger] nxt[k]@ == y;
                    if k == n {
                        assert(out@[p as int]@ == y);
                    } else {
                        assert(pre[k] == nxt[k]);
                        assert(covers(pre, y));
                        assert(covers(before, y));
                        let i = choose|i: int| 0 <= i < before.len() && #[trigger] before[i]@ == y;
                        if i < p {
                            assert(out@[i] == before[i]);
                        } else {
                            assert(out@[i + 1] == before[i]);
                        }
                    }
                }
            }
        }
        n = n + 1;
    }
    proof {
        assert(years@.take(years@.len() as int) =~= years@);
    }
    out
}

/// One row per tax year, merging the page's parallel per-year tables
/// (appraisal, assessment, tax), newest first. The tables are published
/// separately but keyed by the same `TaxYear`.
pub fn tax_years(model: &Json) -> (r: Vec<TaxYear>)
    ensures
        forall|i: int, j: int|
            0 <= i < j < r@.len() ==> str_lt(r@[j].tax_year@, r@[i].tax_year@),
        forall|i: int| 0 <= i < r@.len() ==> listed_year(*model, #[trigger] r@[i].tax_year@),
        forall|y: Seq<char>|
            listed_year(*model, y) ==> exists|i: int|
                0 <= i < r@.len() && #[trigger] r@[i].tax_year@ == y,
        forall|i: int| 0 <= i < r@.len() ==> year_row_from(#[trigger] r@[i], *model),
{
    let appraisal = array(model, "appraisalInfo");
    let assessment = array(model, "assessmentInfo");
    let tax = array(model, "taxInfo");
    let mut years: Vec<String> = Vec::new();
    collect_years(&mut years, appraisal);
    collect_years(&mut years, assessment);
    collect_years(&mut years, tax);
    proof {
        assert forall|y: Seq<char>| #[trigger] covers(years@, y) <==> listed_year(*model, y) by {
        }
    }
    let sorted = sort_newest_first(years);
    let mut out: Vec<TaxYear> = Vec::new();
    let mut i: usize = 0;
    while i < sorted.len()
        invariant
            i <= sorted@.len(),
            appraisal@ == array_of(*model, "appraisalInfo"@),
            assessment@ == array_of(*model, "assessmentInfo"@),
            tax@ == array_of(*model, "taxInfo"@),
            out@.len() == i,
            forall|k: int| 0 <= k < i ==> (#[trigger] out@[k]).tax_year@ == sorted@[k]@,
            forall|k: int| 0 <= k < i ==> year_row_from(#[trigger] out@[k], *model),
        decreases sorted.len() - i,
    {
        let y = sorted[i].as_str();
        let row = TaxYear {
            tax_year: sorted[i].clone(),
            market_total: last_money_for_year(appraisal, y, "TotalMarketValue"),
            market_land: last_money_for_year(appraisal, y, "LandValue"),
            market_improvement: last_money_for_year(appraisal, y, "ImprovementValue"),
            assessed: last_money_for_year(assessment, y, "AssessedValue"),
            exemption: last_money_for_year(assessment, y, "ExemptionAmount"),
            taxable: last_money_for_year(assessment, y, "TaxableValue"),
            ad_valorem_tax: last_money_for_year(tax, y, "AdValoremTax"),
            non_ad_valorem_tax: last_money_for_year(tax, y, "NonAdValoremTax"),
            total_tax: last_money_for_year(tax, y, "TotalTaxValue"),
        };
        out.push(row);
        i = i + 1;
    }
    proof {
        assert forall|a: int, b: int| 0 <= a < b < out@.len() implies str_lt(
            out@[b].tax_year@,
            out@[a].tax_year@,
        ) by {
        }
        assert forall|k: int| 0 <= k < out@.len() implies listed_year(
            *model,
            #[trigger] out@[k].tax_year@,
        ) by {
            assert(covers(sorted@, sorted@[k]@));
        }
        assert forall|y: Seq<char>| listed_year(*model, y) implies exists|k: int|
            0 <= k < out@.len() && #[trigger] out@[k].tax_year@ == y by {
            assert(covers(years@, y));
            assert(covers(sorted@, y));
            let k = choose|k: int| 0 <= k < sorted@.len() && #[trigger] sorted@[k]@ == y;
            assert(out@[k].tax_year@ == y);
        }
    }
    out
}

/// Parse the county detail page's embedded data into [`Details`].
pub fn details_from_model(model: &Json) -> (r: Details)
    ensures
        exists|p: Seq<int>| sales_newest_first(r.sales@, sales_of(*model), p),
        forall|i: int, j: int|
            0 <= i < j < r.tax_years@.len() ==> str_lt(
                r.tax_years@[j].tax_year@,
                r.tax_years@[i].tax_year@,
            ),
        forall|i: int|
            0 <= i < r.tax_years@.len() ==> listed_year(*model, #[trigger] r.tax_years@[i].tax_year@),
        forall|y: Seq<char>|
            listed_year(*model, y) ==> exists|i: int|
                0 <= i < r.tax_years@.len() && #[trigger] r.tax_years@[i].tax_year@ == y,
        forall|i: int|
            0 <= i < r.tax_years@.len() ==> year_row_from(#[trigger] r.tax_years@[i], *model),
        r.exemptions@.len() == exemptions_of(*model).len(),
        forall|i: int|
            0 <= i < r.exemptions@.len() ==> exemption_from_row(
                #[trigger] r.exemptions@[i],
                exemptions_of(*model)[i],
            ),
        building_from(r.building, *model),
{
    let sold = sales(model);
    let ghost p = choose|p: Seq<int>| sales_newest_first(sold@, sales_of(*model), p);
    let d = Details {
        sales: sold,
        tax_years: tax_years(model),
        exemptions: exemptions(model),
        building: building(model),
    };
    assert(sales_newest_first(d.sales@, sales_of(*model), p));
    d
}

/// Base URL of the county's public property site.
pub const SITE: &'static str = "https://pbcpao.gov";

/// The detail page's address for a parcel.
pub open spec fn detail_url_text(bare: Seq<char>) -> Seq<char> {
    "https://pbcpao.gov/Property/Details?parcelId="@ + bare
}

pub fn detail_url(pcn: &crate::pcn::Pcn) -> (r: String)
    ensures
        r@ == detail_url_text(pcn@),
{
    let mut v = chars_of("https://pbcpao.gov/Property/Details?parcelId=");
    let mut b = chars_of(pcn.bare());
    v.append(&mut b);
    string_of(&v)
}

/// What an HTTP status of the detail page means: 404 is a missing parcel,
/// any other status outside 200–299 is the county's failure.
pub open spec fn detail_status_error(status: u16, shown: Seq<char>) -> Option<(i32, Seq<char>)> {
    if status == 404 {
        Some((4, "no detail page for parcel "@ + shown))
    } else if status < 200 || status > 299 {
        Some(
            (
                5,
                "the county property site returned HTTP "@ + crate::text::dec(status as nat)
                    + " for parcel "@ + shown,
            ),
        )
    } else {
        None
    }
}

/// Checks the detail page's HTTP status before its body is read.
pub fn check_detail_status(status: u16, pcn: &crate::pcn::Pcn) -> (r: Result<(), AppError>)
    ensures
        detail_status_error(status, crate::pcn::dashed_form(pcn@)) is None ==> r is Ok,
        detail_status_error(status, crate::pcn::dashed_form(pcn@)) matches Some(x) ==> (r matches Err(
            e,
        ) && e.code() == x.0 && e.text() == x.1),
{
    if status == 404 {
        let mut v = chars_of("no detail page for parcel ");
        let d = pcn.dashed();
        let mut dv = chars_of(d.as_str());
        v.append(&mut dv);
        return Err(AppError::NotFound(string_of(&v)));
    }
    if status < 200 || status > 299 {
        let mut v = chars_of("the county property site returned HTTP ");
        let mut n = crate::text::dec_u64(status as u64);
        v.append(&mut n);
        let mut m = chars_of(" for parcel ");
        v.append(&mut m);
        let d = pcn.dashed();
        let mut dv = chars_of(d.as_str());
        v.append(&mut dv);
        return Err(AppError::Upstream(string_of(&v)));
    }
    Ok(())
}


/// How the detail page's HTTP status maps onto exit codes: 404 is a missing
/// parcel, any other status outside 200–299 is the county's failure, and a
/// success status is no error.
pub proof fn lemma_detail_status_codes(status: u16, shown: Seq<char>)
    ensures
        status == 404 ==> (detail_status_error(status, shown) matches Some(x) && x.0 == 4),
        (status < 200 || status > 299) && status != 404 ==> (detail_status_error(status, shown)
            matches Some(x) && x.0 == 5),
        200 <= status <= 299 ==> detail_status_error(status, shown) is None,
{
}
} // verus!
