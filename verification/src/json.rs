//! A JSON value as the library reads it: the parcel layer's attribute
//! records, its query responses, and the detail page's embedded data block.
//!
//! Numbers carry, as plain values, each reading of the number that the
//! library uses: its canonical text, its value as an integer where it is one,
//! and its two-decimal and plain renderings as a double.

use vstd::prelude::*;

use crate::text::{chars_of, eq_str};

verus! {

/// A JSON number, with the readings of it that the library uses.
#[derive(Debug, Clone)]
pub struct Number {
    /// The number's canonical JSON text.
    pub text: String,
    /// The number as a signed 64-bit integer, when it is one.
    pub int: Option<i64>,
    /// The number as an unsigned 64-bit integer, when it is one.
    pub uint: Option<u64>,
    /// The number as a double rendered with two decimal places.
    pub fixed2: String,
    /// The number as a double in its shortest plain rendering.
    pub plain: String,
    /// The number is greater than zero.
    pub positive: bool,
}

/// A JSON value. Object members keep their order; lookups find the first
/// member with a given key.
#[derive(Debug)]
pub enum Json {
    Null,
    Bool(bool),
    Number(Number),
    Str(String),
    Array(Vec<Json>),
    Object(Vec<Member>),
}

/// One `"key": value` member of a JSON object.
#[derive(Debug)]
pub struct Member {
    pub key: String,
    pub value: Json,
}

/// The value of the first member of `members` named `key`.
pub open spec fn member(members: Seq<Member>, key: Seq<char>) -> Option<Json>
    decreases members.len(),
{
    if members.len() == 0 {
        None
    } else if members[0].key@ == key {
        Some(members[0].value)
    } else {
        member(members.drop_first(), key)
    }
}

impl Json {
    /// The member `key` of an object; `None` for a missing key or a non-object.
    pub open spec fn field(self, key: Seq<char>) -> Option<Json> {
        match self {
            Json::Object(members) => member(members@, key),
            _ => None,
        }
    }

    /// The elements of an array; empty for anything else.
    pub open spec fn elements(self) -> Seq<Json> {
        match self {
            Json::Array(items) => items@,
            _ => seq![],
        }
    }

    pub fn get(&self, key: &str) -> (r: Option<&Json>)
        ensures
            r matches Some(j) ==> self.field(key@) == Some(*j),
            r is None ==> self.field(key@) is None,
    {
        match self {
            Json::Object(members) => {
                let n = members.len();
                assert(self.field(key@) == member(members@, key@));
                let mut i: usize = 0;
                proof {
                    assert(members@.skip(0) =~= members@);
                }
                while i < n
                    invariant
                        i <= n == members@.len(),
                        self.field(key@) == member(members@, key@),
                        member(members@, key@) == member(members@.skip(i as int), key@),
                    decreases n - i,
                {
                    proof {
                        assert(members@.skip(i as int).drop_first() =~= members@.skip(i + 1));
                        assert(members@.skip(i as int)[0] == members@[i as int]);
                    }
                    if eq_str(members[i].key.as_str(), key) {
                        proof {
                            let rest = members@.skip(i as int);
                            assert(rest[0].key@ == key@);
                            assert(member(rest, key@) == Some(members@[i as int].value));
                        }
                        return Some(&members[i].value);
                    }
                    i = i + 1;
                }
                proof {
                    assert(members@.skip(n as int) =~= Seq::<Member>::empty());
                }
                None
            },
            _ => None,
        }
    }

    /// The elements of an array; an empty slice for anything else.
    pub fn items(&self) -> (r: &[Json])
        ensures
            r@ == self.elements(),
    {
        match self {
            Json::Array(items) => items.as_slice(),
            _ => &[],
        }
    }
}

/// Takes the value of the first member named `key` out of an object's members.
pub fn take_member(members: Vec<Member>, key: &str) -> (r: Option<Json>)
    ensures
        r == member(members@, key@),
{
    let ghost all = members@;
    let mut rest = members;
    let mut found: Option<Json> = None;
    proof {
        assert(all.skip(all.len() as int) =~= Seq::<Member>::empty());
    }
    while rest.len() > 0
        invariant
            rest@ == all.take(rest@.len() as int),
            rest@.len() <= all.len(),
            found == member(all.skip(rest@.len() as int), key@),
        decreases rest@.len(),
    {
        let k = rest.len();
        let m = rest.pop().unwrap();
        proof {
            assert(m == all[k - 1]);
            assert(all.skip(k - 1).drop_first() =~= all.skip(k as int));
            assert(all.skip(k - 1)[0] == all[k - 1]);
            assert(rest@ =~= all.take(k - 1));
        }
        if eq_str(m.key.as_str(), key) {
            found = Some(m.value);
        }
    }
    proof {
        assert(all.skip(0) =~= all);
    }
    found
}

/// The elements of an array, taken out of it; empty for anything else.
pub fn take_elements(j: Json) -> (r: Vec<Json>)
    ensures
        r@ == j.elements(),
{
    match j {
        Json::Array(items) => items,
        _ => Vec::new(),
    }
}

/// The members of an object, taken out of it; `None` for anything else.
pub fn take_members(j: Json) -> (r: Option<Vec<Member>>)
    ensures
        j matches Json::Object(ms) ==> r == Some(ms),
        !(j is Object) ==> r is None,
{
    match j {
        Json::Object(members) => Some(members),
        _ => None,
    }
}

/// The same items in reverse order.
pub fn reversed(v: Vec<Json>) -> (r: Vec<Json>)
    ensures
        r@ == v@.reverse(),
{
    let ghost all = v@;
    let mut rest = v;
    let mut out: Vec<Json> = Vec::new();
    while rest.len() > 0
        invariant
            rest@ == all.take(rest@.len() as int),
            rest@.len() <= all.len(),
            out@ =~= all.skip(rest@.len() as int).reverse(),
        decreases rest@.len(),
    {
        let k = rest.len();
        let x = rest.pop().unwrap();
        proof {
            assert(x == all[k - 1]);
            assert(rest@ =~= all.take(k - 1));
        }
        out.push(x);
    }
    proof {
        assert(all.skip(0) =~= all);
    }
    out
}


/// A lowercase hexadecimal digit.
pub open spec fn hex_digit(d: nat) -> char {
    if d < 10 {
        ((48 + d) as u8) as char
    } else {
        ((87 + d) as u8) as char
    }
}

/// How one character of a string is written inside a JSON string literal,
/// as compact JSON writers escape it: `"` and `\` with a backslash, the
/// control characters as `\b`, `\f`, `\n`, `\r`, `\t` or `\u00XX`, every
/// other character as itself.
pub open spec fn escaped_char(c: char) -> Seq<char> {
    if c == '"' {
        seq!['\\', '"']
    } else if c == '\\' {
        seq!['\\', '\\']
    } else if c == '\u{8}' {
        seq!['\\', 'b']
    } else if c == '\u{c}' {
        seq!['\\', 'f']
    } else if c == '\n' {
        seq!['\\', 'n']
    } else if c == '\r' {
        seq!['\\', 'r']
    } else if c == '\t' {
        seq!['\\', 't']
    } else if (c as u32) < 32 {
        seq!['\\', 'u', '0', '0', hex_digit((c as u32 / 16) as nat), hex_digit((c as u32 % 16) as nat)]
    } else {
        seq![c]
    }
}

/// The characters of `s`, escaped for a JSON string literal.
pub open spec fn escaped(s: Seq<char>) -> Seq<char>
    decreases s.len(),
{
    if s.len() == 0 {
        seq![]
    } else {
        escaped_char(s[0]) + escaped(s.drop_first())
    }
}

/// A JSON string literal.
pub open spec fn string_text(s: Seq<char>) -> Seq<char> {
    seq!['"'] + escaped(s) + seq!['"']
}

/// A number's text as JSON writes it: digits, signs, a point and exponent
/// marks only.
pub open spec fn is_number_text(t: Seq<char>) -> bool {
    forall|i: int|
        0 <= i < t.len() ==> {
            let c = #[trigger] t[i];
            ('0' <= c <= '9') || c == '-' || c == '+' || c == '.' || c == 'e' || c == 'E'
        }
}

/// Compact JSON text of a value (no whitespace), as a JSON writer such as
/// `serde_json::to_string` produces it.
pub open spec fn json_text(v: Json) -> Seq<char>
    decreases v,
{
    match v {
        Json::Null => "null"@,
        Json::Bool(b) => if b {
            "true"@
        } else {
            "false"@
        },
        Json::Number(n) => n.text@,
        Json::Str(s) => string_text(s@),
        Json::Array(items) => seq!['['] + items_text(items@) + seq![']'],
        Json::Object(members) => seq!['{'] + members_text(members@) + seq!['}'],
    }
}

/// Array elements, separated by `,`.
pub open spec fn items_text(items: Seq<Json>) -> Seq<char>
    decreases items,
{
    if items.len() == 0 {
        seq![]
    } else if items.len() == 1 {
        json_text(items[0])
    } else {
        json_text(items[0]) + seq![','] + items_text(items.drop_first())
    }
}

/// Object members, `"key":value`, separated by `,`.
pub open spec fn members_text(members: Seq<Member>) -> Seq<char>
    decreases members,
{
    if members.len() == 0 {
        seq![]
    } else if members.len() == 1 {
        string_text(members[0].key@) + seq![':'] + json_text(members[0].value)
    } else {
        string_text(members[0].key@) + seq![':'] + json_text(members[0].value) + seq![',']
            + members_text(members.drop_first())
    }
}

/// Every number in `v` has a number's text.
pub open spec fn numbers_plain(v: Json) -> bool
    decreases v,
{
    match v {
        Json::Number(n) => is_number_text(n.text@),
        Json::Array(items) => items_plain(items@),
        Json::Object(members) => members_plain(members@),
        _ => true,
    }
}

pub open spec fn items_plain(items: Seq<Json>) -> bool
    decreases items,
{
    if items.len() == 0 {
        true
    } else {
        numbers_plain(items[0]) && items_plain(items.drop_first())
    }
}

pub open spec fn members_plain(members: Seq<Member>) -> bool
    decreases members,
{
    if members.len() == 0 {
        true
    } else {
        numbers_plain(members[0].value) && members_plain(members.drop_first())
    }
}

} // verus!
