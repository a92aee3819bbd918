//! Character and string primitives shared by the rest of the library:
//! Unicode whitespace, trimming, splitting into words, decimal rendering and
//! parsing, padding, and case conversion.

use vstd::prelude::*;

verus! {

/// The characters of a string slice, in order.
pub fn chars_of(s: &str) -> (r: Vec<char>)
    ensures
        r@ == s@,
{
    broadcast use vstd::string::group_string_axioms;
    let mut v: Vec<char> = Vec::new();
    for c in it: s.chars()
        invariant
            it.seq() == s@,
            v@ == it.seq().take(it.index() as int),
    {
        v.push(c);
    }
    v
}

/// A `String` holding exactly the given characters: collects them with
/// `String`'s `FromIterator<char>`, which the std documentation describes as
/// appending each character in turn. The contract claims no more than that.
#[verifier::external_body]
pub(crate) fn string_of(v: &[char]) -> (r: String)
    ensures
        r@ == v@,
{
    v.iter().collect()
}

/// What `str::to_uppercase` returns for a string (full Unicode case mapping).
pub uninterp spec fn unicode_upper(s: Seq<char>) -> Seq<char>;

/// Calls `str::to_uppercase`. The contract names its result `unicode_upper`
/// and states the facts the documentation plainly gives that callers need:
/// each character maps to one or more characters (so the result is empty
/// exactly when the input is), and on ASCII input every letter maps to its
/// ASCII capital and every other character is kept. Outside ASCII nothing
/// more is stated.
#[verifier::external_body]
pub(crate) fn to_upper(s: &str) -> (r: String)
    ensures
        r@ == unicode_upper(s@),
        r@.len() >= s@.len(),
        s@.len() == 0 ==> r@.len() == 0,
        all_ascii(s@) ==> r@ == ascii_upper_seq(s@),
{
    s.to_uppercase()
}

/// String equality, character by character.
pub fn eq_str(a: &str, b: &str) -> (r: bool)
    ensures
        r == (a@ == b@),
{
    let x = chars_of(a);
    let y = chars_of(b);
    if x.len() != y.len() {
        return false;
    }
    let mut i: usize = 0;
    while i < x.len()
        invariant
            i <= x@.len() == y@.len(),
            x@ == a@,
            y@ == b@,
            forall|k: int| 0 <= k < i ==> x@[k] == y@[k],
        decreases x.len() - i,
    {
        if x[i] != y[i] {
            return false;
        }
        i = i + 1;
    }
    proof {
        assert(x@ =~= y@);
    }
    true
}

/// The views of a sequence of strings.
pub open spec fn views(v: Seq<String>) -> Seq<Seq<char>> {
    Seq::new(v.len(), |i: int| v[i]@)
}

/// The parts joined with `sep` between neighbours (`[String]::join`).
pub fn join_strings(parts: &Vec<String>, sep: &str) -> (r: String)
    ensures
        r@ == join(views(parts@), sep@),
{
    let sv = chars_of(sep);
    let mut out: Vec<char> = Vec::new();
    let mut i: usize = 0;
    while i < parts.len()
        invariant
            i <= parts@.len(),
            sv@ == sep@,
            out@ == join(views(parts@).take(i as int), sep@),
        decreases parts.len() - i,
    {
        let ghost before = out@;
        if i > 0 {
            let mut s2 = sv.clone();
            out.append(&mut s2);
        }
        let mut p = chars_of(parts[i].as_str());
        out.append(&mut p);
        proof {
            let vs = views(parts@);
            let t = vs.take(i + 1);
            assert(t.drop_last() =~= vs.take(i as int));
            assert(t.last() == parts@[i as int]@);
            if i == 0 {
                assert(before =~= Seq::<char>::empty());
                assert(out@ =~= t[0]);
            } else {
                assert(out@ =~= join(t.drop_last(), sep@) + sep@ + t.last());
            }
        }
        i = i + 1;
    }
    proof {
        assert(views(parts@).take(parts@.len() as int) =~= views(parts@));
    }
    string_of(&out)
}

/// A string slice with trailing whitespace removed.
pub fn trim_end_str(s: &str) -> (r: String)
    ensures
        r@ == trim_end(s@),
{
    let v = chars_of(s);
    let mut j: usize = v.len();
    proof {
        assert(v@.take(j as int) =~= v@);
    }
    while j > 0 && whitespace(v[j - 1])
        invariant
            j <= v@.len(),
            v@ == s@,
            trim_end(s@) == trim_end(v@.take(j as int)),
        decreases j,
    {
        proof {
            assert(v@.take(j as int).drop_last() =~= v@.take(j - 1));
        }
        j = j - 1;
    }
    let mut out = v;
    out.truncate(j);
    proof {
        assert(out@ =~= v@.take(j as int));
    }
    string_of(&out)
}

/// An ASCII decimal digit.
pub open spec fn is_digit(c: char) -> bool {
    '0' <= c <= '9'
}

pub fn digit(c: char) -> (r: bool)
    ensures
        r == is_digit(c),
{
    '0' <= c && c <= '9'
}

pub open spec fn all_ascii(s: Seq<char>) -> bool {
    forall|i: int| 0 <= i < s.len() ==> (#[trigger] s[i]) <= '\x7f'
}

/// The ASCII capital of a lowercase ASCII letter; every other character as is.
pub open spec fn ascii_upper(c: char) -> char {
    if 'a' <= c <= 'z' {
        ((c as u32) - 32) as char
    } else {
        c
    }
}

pub open spec fn ascii_lower(c: char) -> char {
    if 'A' <= c <= 'Z' {
        ((c as u32) + 32) as char
    } else {
        c
    }
}

pub open spec fn ascii_upper_seq(s: Seq<char>) -> Seq<char> {
    Seq::new(s.len(), |i: int| ascii_upper(s[i]))
}

pub fn to_ascii_lower(c: char) -> (r: char)
    ensures
        r == ascii_lower(c),
{
    if 'A' <= c && c <= 'Z' {
        ((c as u8) + 32) as char
    } else {
        c
    }
}

/// Characters with the Unicode `White_Space` property, which is what
/// `char::is_whitespace` tests.
pub open spec fn is_ws(c: char) -> bool {
    ||| '\u{9}' <= c <= '\u{d}'
    ||| c == ' '
    ||| c == '\u{85}'
    ||| c == '\u{a0}'
    ||| c == '\u{1680}'
    ||| '\u{2000}' <= c <= '\u{200a}'
    ||| c == '\u{2028}'
    ||| c == '\u{2029}'
    ||| c == '\u{202f}'
    ||| c == '\u{205f}'
    ||| c == '\u{3000}'
}

pub fn whitespace(c: char) -> (r: bool)
    ensures
        r == is_ws(c),
{
    ('\u{9}' <= c && c <= '\u{d}') || c == ' ' || c == '\u{85}' || c == '\u{a0}' || c
        == '\u{1680}' || ('\u{2000}' <= c && c <= '\u{200a}') || c == '\u{2028}' || c
        == '\u{2029}' || c == '\u{202f}' || c == '\u{205f}' || c == '\u{3000}'
}

/// `s` without its leading whitespace.
pub open spec fn trim_start(s: Seq<char>) -> Seq<char>
    decreases s.len(),
{
    if s.len() > 0 && is_ws(s[0]) {
        trim_start(s.drop_first())
    } else {
        s
    }
}

/// `s` without its trailing whitespace.
pub open spec fn trim_end(s: Seq<char>) -> Seq<char>
    decreases s.len(),
{
    if s.len() > 0 && is_ws(s.last()) {
        trim_end(s.drop_last())
    } else {
        s
    }
}

/// `s` without leading or trailing whitespace (`str::trim`).
pub open spec fn trim(s: Seq<char>) -> Seq<char> {
    trim_end(trim_start(s))
}

proof fn lemma_trim_start_skip(s: Seq<char>, i: int)
    requires
        0 <= i <= s.len(),
        forall|k: int| 0 <= k < i ==> is_ws(#[trigger] s[k]),
    ensures
        trim_start(s) == trim_start(s.skip(i)),
    decreases i,
{
    if i > 0 {
        assert(s.skip(1) =~= s.drop_first());
        lemma_trim_start_skip(s.drop_first(), i - 1);
        assert(s.drop_first().skip(i - 1) =~= s.skip(i));
    } else {
        assert(s.skip(0) =~= s);
    }
}

proof fn lemma_trim_end_take(s: Seq<char>, j: int)
    requires
        0 <= j <= s.len(),
        forall|k: int| j <= k < s.len() ==> is_ws(#[trigger] s[k]),
    ensures
        trim_end(s) == trim_end(s.take(j)),
    decreases s.len() - j,
{
    if j < s.len() {
        assert(s.drop_last() =~= s.take(s.len() - 1));
        lemma_trim_end_take(s.drop_last(), j);
        assert(s.drop_last().take(j) =~= s.take(j));
    } else {
        assert(s.take(j) =~= s);
    }
}

/// The characters of `s` with leading and trailing whitespace removed.
pub fn trim_chars(s: &Vec<char>) -> (r: Vec<char>)
    ensures
        r@ == trim(s@),
{
    let n = s.len();
    let mut i: usize = 0;
    while i < n && whitespace(s[i])
        invariant
            i <= n == s@.len(),
            forall|k: int| 0 <= k < i ==> is_ws(#[trigger] s@[k]),
        decreases n - i,
    {
        i = i + 1;
    }
    proof {
        lemma_trim_start_skip(s@, i as int);
        assert(i < n ==> !is_ws(s@.skip(i as int)[0]));
    }
    let mut j: usize = n;
    while j > i && whitespace(s[j - 1])
        invariant
            i <= j <= n == s@.len(),
            forall|k: int| j <= k < n ==> is_ws(#[trigger] s@[k]),
        decreases j,
    {
        j = j - 1;
    }
    let mut r: Vec<char> = Vec::new();
    let mut k: usize = i;
    while k < j
        invariant
            i <= k <= j <= n == s@.len(),
            r@ =~= s@.subrange(i as int, k as int),
        decreases j - k,
    {
        r.push(s[k]);
        k = k + 1;
    }
    proof {
        let t = s@.skip(i as int);
        assert(trim_start(s@) == t);
        assert forall|q: int| (j - i) <= q < t.len() implies is_ws(#[trigger] t[q]) by {
            assert(t[q] == s@[q + i]);
        }
        lemma_trim_end_take(t, (j - i) as int);
        assert(t.take((j - i) as int) =~= r@);
        let u = t.take((j - i) as int);
        if u.len() > 0 {
            assert(u.last() == s@[j - 1]);
        }
    }
    r
}

/// A string slice with leading and trailing whitespace removed.
pub fn trim_str(s: &str) -> (r: String)
    ensures
        r@ == trim(s@),
{
    let v = chars_of(s);
    let t = trim_chars(&v);
    string_of(&t)
}


/// Length of the run of non-whitespace characters that `s` starts with.
pub open spec fn word_len(s: Seq<char>) -> nat
    decreases s.len(),
{
    if s.len() > 0 && !is_ws(s[0]) {
        1 + word_len(s.drop_first())
    } else {
        0
    }
}

/// A word's length fits in the text, and a text that starts with a
/// non-whitespace character starts with a word.
pub proof fn lemma_word_len_bound(s: Seq<char>)
    ensures
        word_len(s) <= s.len(),
        s.len() > 0 && !is_ws(s[0]) ==> word_len(s) >= 1,
    decreases s.len(),
{
    if s.len() > 0 && !is_ws(s[0]) {
        lemma_word_len_bound(s.drop_first());
    }
}

/// Trimming the start shortens nothing and leaves no leading whitespace.
pub proof fn lemma_trim_start_shrinks(s: Seq<char>)
    ensures
        trim_start(s).len() <= s.len(),
        trim_start(s).len() > 0 ==> !is_ws(trim_start(s)[0]),
    decreases s.len(),
{
    if s.len() > 0 && is_ws(s[0]) {
        lemma_trim_start_shrinks(s.drop_first());
    }
}

/// The whitespace-separated words of `s`, in order (`str::split_whitespace`).
pub open spec fn words(s: Seq<char>) -> Seq<Seq<char>>
    decreases s.len(),
{
    let t = trim_start(s);
    if t.len() == 0 {
        seq![]
    } else {
        let w = word_len(t);
        proof {
            lemma_trim_start_shrinks(s);
            lemma_word_len_bound(t);
        }
        seq![t.take(w as int)].add(words(t.skip(w as int)))
    }
}

/// The pieces of `parts` with `sep` between each neighbouring pair.
pub open spec fn join(parts: Seq<Seq<char>>, sep: Seq<char>) -> Seq<char>
    decreases parts.len(),
{
    if parts.len() == 0 {
        seq![]
    } else if parts.len() == 1 {
        parts[0]
    } else {
        join(parts.drop_last(), sep) + sep + parts.last()
    }
}

proof fn lemma_word_len(x: Seq<char>, l: int)
    requires
        0 <= l <= x.len(),
        forall|k: int| 0 <= k < l ==> !is_ws(#[trigger] x[k]),
        l == x.len() || is_ws(x[l]),
    ensures
        word_len(x) == l,
    decreases l,
{
    if l > 0 {
        lemma_word_len(x.drop_first(), l - 1);
    }
}

proof fn lemma_words_ws_step(s: Seq<char>, i: int)
    requires
        0 <= i < s.len(),
        is_ws(s[i]),
    ensures
        words(s.skip(i)) == words(s.skip(i + 1)),
{
    lemma_trim_start_skip(s.skip(i), 1);
    assert(s.skip(i).skip(1) =~= s.skip(i + 1));
    lemma_trim_start_skip(s.skip(i + 1), 0);
    assert(s.skip(i + 1).skip(0) =~= s.skip(i + 1));
    assert(trim_start(s.skip(i)) == trim_start(s.skip(i + 1)));
}

proof fn lemma_words_word_step(s: Seq<char>, i: int, j: int)
    requires
        0 <= i < j <= s.len(),
        forall|k: int| i <= k < j ==> !is_ws(#[trigger] s[k]),
        j == s.len() || is_ws(s[j]),
    ensures
        words(s.skip(i)) == seq![s.subrange(i, j)].add(words(s.skip(j))),
{
    let x = s.skip(i);
    assert(trim_start(x) == x);
    assert forall|k: int| 0 <= k < j - i implies !is_ws(#[trigger] x[k]) by {
        assert(x[k] == s[i + k]);
    }
    lemma_word_len(x, j - i);
    assert(x.take(j - i) =~= s.subrange(i, j));
    assert(x.skip(j - i) =~= s.skip(j));
}

/// The words of `s` separated by single spaces: runs of whitespace collapse
/// and leading or trailing whitespace goes.
pub fn collapse_whitespace(s: &Vec<char>) -> (r: Vec<char>)
    ensures
        r@ == join(words(s@), seq![' ']),
{
    let n = s.len();
    let mut out: Vec<char> = Vec::new();
    let ghost mut done: Seq<Seq<char>> = seq![];
    let mut i: usize = 0;
    let mut first = true;
    proof {
        assert(s@.skip(0) =~= s@);
    }
    while i < n
        invariant
            i <= n == s@.len(),
            first == (done.len() == 0),
            words(s@) == done + words(s@.skip(i as int)),
            out@ == join(done, seq![' ']),
        decreases n - i,
    {
        if whitespace(s[i]) {
            proof {
                lemma_words_ws_step(s@, i as int);
            }
            i = i + 1;
        } else {
            let start = i;
            let mut w: Vec<char> = Vec::new();
            while i < n && !whitespace(s[i])
                invariant
                    start <= i <= n == s@.len(),
                    w@ =~= s@.subrange(start as int, i as int),
                    forall|k: int| start <= k < i ==> !is_ws(#[trigger] s@[k]),
                decreases n - i,
            {
                w.push(s[i]);
                i = i + 1;
            }
            proof {
                lemma_words_word_step(s@, start as int, i as int);
            }
            let ghost before = out@;
            if !first {
                out.push(' ');
            }
            first = false;
            let mut k: usize = 0;
            while k < w.len()
                invariant
                    k <= w@.len(),
                    out@ =~= (if done.len() > 0 { before + seq![' '] } else { before }) + w@.take(
                        k as int,
                    ),
                decreases w.len() - k,
            {
                out.push(w[k]);
                k = k + 1;
            }
            proof {
                assert(w@.take(w@.len() as int) =~= w@);
                let nd = done.push(w@);
                assert(nd.drop_last() =~= done);
                if done.len() == 0 {
                    assert(before =~= seq![]);
                }
                assert(seq![w@].add(words(s@.skip(i as int))) =~= seq![w@] + words(
                    s@.skip(i as int),
                ));
                assert(done + (seq![w@] + words(s@.skip(i as int))) =~= nd + words(
                    s@.skip(i as int),
                ));
                done = nd;
            }
        }
    }
    proof {
        assert(s@.skip(n as int) =~= Seq::<char>::empty());
        assert(done + Seq::<Seq<char>>::empty() =~= done);
    }
    out
}

proof fn lemma_trim_start_ascii(s: Seq<char>)
    requires
        all_ascii(s),
    ensures
        all_ascii(trim_start(s)),
    decreases s.len(),
{
    if s.len() > 0 && is_ws(s[0]) {
        assert(all_ascii(s.drop_first()));
        lemma_trim_start_ascii(s.drop_first());
    }
}

proof fn lemma_words_each_ascii(s: Seq<char>)
    requires
        all_ascii(s),
    ensures
        forall|k: int| 0 <= k < words(s).len() ==> all_ascii(#[trigger] words(s)[k]),
    decreases s.len(),
{
    let t = trim_start(s);
    lemma_trim_start_ascii(s);
    lemma_trim_start_shrinks(s);
    if t.len() > 0 {
        lemma_word_len_bound(t);
        let w = word_len(t);
        assert(all_ascii(t.skip(w as int)));
        assert(all_ascii(t.take(w as int)));
        lemma_words_each_ascii(t.skip(w as int));
        let ws = seq![t.take(w as int)].add(words(t.skip(w as int)));
        assert(words(s) == ws);
        assert forall|k: int| 0 <= k < ws.len() implies all_ascii(#[trigger] ws[k]) by {
            if k > 0 {
                assert(ws[k] == words(t.skip(w as int))[k - 1]);
            }
        }
    }
}

proof fn lemma_join_ascii(parts: Seq<Seq<char>>, sep: Seq<char>)
    requires
        all_ascii(sep),
        forall|k: int| 0 <= k < parts.len() ==> all_ascii(#[trigger] parts[k]),
    ensures
        all_ascii(join(parts, sep)),
    decreases parts.len(),
{
    if parts.len() > 1 {
        let p = parts.drop_last();
        assert forall|k: int| 0 <= k < p.len() implies all_ascii(#[trigger] p[k]) by {
            assert(p[k] == parts[k]);
        }
        lemma_join_ascii(p, sep);
        assert(all_ascii(parts.last()));
    } else if parts.len() == 1 {
        assert(all_ascii(parts[0]));
    }
}

/// ASCII text splits and rejoins into ASCII text.
pub proof fn lemma_words_ascii(s: Seq<char>)
    ensures
        all_ascii(s) ==> all_ascii(join(words(s), seq![' '])),
{
    if all_ascii(s) {
        lemma_words_each_ascii(s);
        lemma_join_ascii(words(s), seq![' ']);
    }
}

/// A word: at least one character, none of them whitespace.
pub open spec fn is_word(w: Seq<char>) -> bool {
    w.len() > 0 && forall|k: int| 0 <= k < w.len() ==> !is_ws(#[trigger] w[k])
}

/// Every item of `ws` is a word.
pub open spec fn all_words(ws: Seq<Seq<char>>) -> bool {
    forall|k: int| 0 <= k < ws.len() ==> is_word(#[trigger] ws[k])
}

proof fn lemma_word_len_prefix(x: Seq<char>)
    ensures
        forall|k: int| 0 <= k < word_len(x) ==> !is_ws(#[trigger] x[k]),
    decreases x.len(),
{
    if x.len() > 0 && !is_ws(x[0]) {
        lemma_word_len_prefix(x.drop_first());
        lemma_word_len_bound(x.drop_first());
        assert forall|k: int| 0 <= k < word_len(x) implies !is_ws(#[trigger] x[k]) by {
            if k > 0 {
                assert(x[k] == x.drop_first()[k - 1]);
            }
        }
    }
}

/// What `words` gives is words.
pub proof fn lemma_words_are_words(s: Seq<char>)
    ensures
        all_words(words(s)),
    decreases s.len(),
{
    let t = trim_start(s);
    lemma_trim_start_shrinks(s);
    if t.len() > 0 {
        lemma_word_len_bound(t);
        lemma_word_len_prefix(t);
        let w = word_len(t);
        lemma_words_are_words(t.skip(w as int));
        let ws = seq![t.take(w as int)].add(words(t.skip(w as int)));
        assert(words(s) == ws);
        assert forall|k: int| 0 <= k < ws.len() implies is_word(#[trigger] ws[k]) by {
            if k > 0 {
                assert(ws[k] == words(t.skip(w as int))[k - 1]);
            } else {
                assert forall|q: int| 0 <= q < ws[0].len() implies !is_ws(#[trigger] ws[0][q]) by {
                    assert(ws[0][q] == t[q]);
                }
            }
        }
    }
}

/// `join` read from the front.
pub proof fn lemma_join_front(ws: Seq<Seq<char>>, sep: Seq<char>)
    requires
        ws.len() >= 2,
    ensures
        join(ws, sep) == ws[0] + sep + join(ws.drop_first(), sep),
    decreases ws.len(),
{
    if ws.len() > 2 {
        lemma_join_front(ws.drop_last(), sep);
        assert(ws.drop_last().drop_first() =~= ws.drop_first().drop_last());
        assert(ws.drop_last()[0] == ws[0]);
        assert(ws.drop_first().last() == ws.last());
        assert(join(ws, sep) =~= ws[0] + sep + join(ws.drop_first(), sep));
    } else {
        assert(ws.drop_last().len() == 1);
        assert(ws.drop_first().len() == 1);
        assert(ws.drop_first()[0] == ws.last());
        assert(join(ws.drop_last(), sep) == ws[0]);
        assert(join(ws.drop_first(), sep) == ws.last());
        assert(join(ws, sep) == join(ws.drop_last(), sep) + sep + ws.last());
    }
}

proof fn lemma_words_empty()
    ensures
        words(Seq::<char>::empty()) == Seq::<Seq<char>>::empty(),
{
    assert(trim_start(Seq::<char>::empty()) == Seq::<char>::empty());
}

proof fn lemma_words_single(w: Seq<char>)
    requires
        is_word(w),
    ensures
        words(w) == seq![w],
{
    lemma_words_word_step(w, 0, w.len() as int);
    assert(w.skip(0) =~= w);
    assert(w.subrange(0, w.len() as int) =~= w);
    assert(w.skip(w.len() as int) =~= Seq::<char>::empty());
    lemma_words_empty();
    assert(seq![w].add(Seq::<Seq<char>>::empty()) =~= seq![w]);
}

proof fn lemma_words_word_space(w: Seq<char>, r: Seq<char>)
    requires
        is_word(w),
    ensures
        words(w + seq![' '] + r) == seq![w] + words(r),
{
    let x = w + seq![' '] + r;
    let n = w.len() as int;
    assert forall|k: int| 0 <= k < n implies !is_ws(#[trigger] x[k]) by {
        assert(x[k] == w[k]);
    }
    assert(x[n] == ' ');
    lemma_words_word_step(x, 0, n);
    lemma_words_ws_step(x, n);
    assert(x.skip(0) =~= x);
    assert(x.subrange(0, n) =~= w);
    assert(x.skip(n + 1) =~= r);
    assert(seq![w].add(words(r)) =~= seq![w] + words(r));
}

/// Words joined with single spaces split back into the same words.
pub proof fn lemma_words_join(ws: Seq<Seq<char>>)
    requires
        all_words(ws),
    ensures
        words(join(ws, seq![' '])) == ws,
    decreases ws.len(),
{
    if ws.len() == 0 {
        lemma_words_empty();
        assert(ws =~= Seq::<Seq<char>>::empty());
    } else if ws.len() == 1 {
        assert(is_word(ws[0]));
        lemma_words_single(ws[0]);
        assert(seq![ws[0]] =~= ws);
    } else {
        lemma_join_front(ws, seq![' ']);
        let rest = ws.drop_first();
        assert forall|k: int| 0 <= k < rest.len() implies is_word(#[trigger] rest[k]) by {
            assert(rest[k] == ws[k + 1]);
        }
        lemma_words_join(rest);
        assert(is_word(ws[0]));
        lemma_words_word_space(ws[0], join(rest, seq![' ']));
        assert(seq![ws[0]] + rest =~= ws);
    }
}

/// The ASCII capitals of every item of `ws`.
pub open spec fn upper_all(ws: Seq<Seq<char>>) -> Seq<Seq<char>> {
    Seq::new(ws.len(), |i: int| ascii_upper_seq(ws[i]))
}

proof fn lemma_ascii_upper_char(c: char)
    ensures
        is_ws(ascii_upper(c)) == is_ws(c),
        ascii_upper(ascii_upper(c)) == ascii_upper(c),
        c <= '\x7f' ==> ascii_upper(c) <= '\x7f',
{
    if 'a' <= c && c <= 'z' {
        let u = ((c as u32) - 32) as char;
        assert(0x41 <= (c as u32) - 32 <= 0x5a);
        assert('A' <= u && u <= 'Z');
    }
}

proof fn lemma_upper_add(a: Seq<char>, b: Seq<char>)
    ensures
        ascii_upper_seq(a + b) == ascii_upper_seq(a) + ascii_upper_seq(b),
{
    assert(ascii_upper_seq(a + b) =~= ascii_upper_seq(a) + ascii_upper_seq(b));
}

proof fn lemma_upper_join(ws: Seq<Seq<char>>)
    ensures
        ascii_upper_seq(join(ws, seq![' '])) == join(upper_all(ws), seq![' ']),
    decreases ws.len(),
{
    if ws.len() == 0 {
        assert(ascii_upper_seq(Seq::<char>::empty()) =~= Seq::<char>::empty());
    } else if ws.len() == 1 {
    } else {
        lemma_upper_join(ws.drop_last());
        assert(upper_all(ws).drop_last() =~= upper_all(ws.drop_last()));
        lemma_upper_add(join(ws.drop_last(), seq![' ']), seq![' ']);
        lemma_upper_add(join(ws.drop_last(), seq![' ']) + seq![' '], ws.last());
        assert(ascii_upper_seq(seq![' ']) =~= seq![' ']);
    }
}

proof fn lemma_upper_words(ws: Seq<Seq<char>>)
    requires
        all_words(ws),
    ensures
        all_words(upper_all(ws)),
{
    assert forall|k: int| 0 <= k < upper_all(ws).len() implies is_word(#[trigger] upper_all(ws)[k]) by {
        assert(is_word(ws[k]));
        let u = upper_all(ws)[k];
        assert forall|q: int| 0 <= q < u.len() implies !is_ws(#[trigger] u[q]) by {
            lemma_ascii_upper_char(ws[k][q]);
        }
    }
}

/// Capitalizing ASCII letters twice is capitalizing them once, and keeps
/// ASCII text ASCII.
pub proof fn lemma_upper_idempotent(s: Seq<char>)
    ensures
        ascii_upper_seq(ascii_upper_seq(s)) == ascii_upper_seq(s),
        all_ascii(s) ==> all_ascii(ascii_upper_seq(s)),
{
    assert forall|i: int| 0 <= i < s.len() implies #[trigger] ascii_upper(ascii_upper(s[i]))
        == ascii_upper(s[i]) && (s[i] <= '\x7f' ==> ascii_upper(s[i]) <= '\x7f') by {
        lemma_ascii_upper_char(s[i]);
    }
    assert(ascii_upper_seq(ascii_upper_seq(s)) =~= ascii_upper_seq(s));
}

/// The words of a normalized text, capitalized and rejoined, are the text.
pub proof fn lemma_collapse_upper_fixed(s: Seq<char>)
    ensures
        ({
            let n = ascii_upper_seq(join(words(s), seq![' ']));
            ascii_upper_seq(join(words(n), seq![' '])) == n
        }),
{
    let ws = words(s);
    lemma_words_are_words(s);
    lemma_upper_join(ws);
    let us = upper_all(ws);
    lemma_upper_words(ws);
    lemma_words_join(us);
    let n = join(us, seq![' ']);
    assert(ascii_upper_seq(join(ws, seq![' '])) == n);
    assert(words(n) == us);
    lemma_upper_idempotent(join(ws, seq![' ']));
}

/// The character for a decimal digit value.
pub open spec fn digit_char(d: nat) -> char {
    ((48 + d) as u8) as char
}

/// Decimal rendering of a natural number, without leading zeros.
pub open spec fn dec(n: nat) -> Seq<char>
    decreases n,
{
    if n < 10 {
        seq![digit_char(n)]
    } else {
        dec(n / 10).push(digit_char(n % 10))
    }
}

/// Decimal rendering of a signed integer: `-` before the digits of a
/// negative value.
pub open spec fn dec_int(n: int) -> Seq<char> {
    if n < 0 {
        seq!['-'] + dec((-n) as nat)
    } else {
        dec(n as nat)
    }
}

pub fn dec_u64(n: u64) -> (r: Vec<char>)
    ensures
        r@ == dec(n as nat),
    decreases n,
{
    let d = ((n % 10) as u8 + 48u8) as char;
    if n < 10 {
        let mut v: Vec<char> = Vec::new();
        v.push(d);
        v
    } else {
        let mut v = dec_u64(n / 10);
        v.push(d);
        v
    }
}

pub fn dec_i64(n: i64) -> (r: Vec<char>)
    ensures
        r@ == dec_int(n as int),
{
    if n < 0 {
        let m: u64 = if n == i64::MIN {
            9223372036854775808u64
        } else {
            (-n) as u64
        };
        let mut v: Vec<char> = Vec::new();
        v.push('-');
        let d = dec_u64(m);
        let mut k: usize = 0;
        while k < d.len()
            invariant
                k <= d@.len(),
                v@ =~= seq!['-'] + d@.take(k as int),
            decreases d.len() - k,
        {
            v.push(d[k]);
            k = k + 1;
        }
        proof {
            assert(d@.take(d@.len() as int) =~= d@);
        }
        v
    } else {
        dec_u64(n as u64)
    }
}

/// `s` preceded by enough `c` to be at least `width` long (Rust's `{:>w}` fill).
pub open spec fn pad_left(s: Seq<char>, width: nat, c: char) -> Seq<char> {
    if s.len() >= width {
        s
    } else {
        Seq::new((width - s.len()) as nat, |i: int| c) + s
    }
}

/// `s` followed by enough spaces to be at least `width` long (`{:<w}`).
pub open spec fn pad_right(s: Seq<char>, width: nat) -> Seq<char> {
    if s.len() >= width {
        s
    } else {
        s + Seq::new((width - s.len()) as nat, |i: int| ' ')
    }
}

pub fn pad_left_chars(s: &Vec<char>, width: usize, c: char) -> (r: Vec<char>)
    ensures
        r@ == pad_left(s@, width as nat, c),
{
    let mut r: Vec<char> = Vec::new();
    let mut k: usize = s.len();
    while k < width
        invariant
            s@.len() <= k <= width || (k == s@.len() && k >= width),
            r@ =~= Seq::new((k - s@.len()) as nat, |i: int| c),
        decreases width - k,
    {
        r.push(c);
        k = k + 1;
    }
    let mut j: usize = 0;
    let ghost fill = r@;
    while j < s.len()
        invariant
            j <= s@.len(),
            r@ =~= fill + s@.take(j as int),
        decreases s.len() - j,
    {
        r.push(s[j]);
        j = j + 1;
    }
    proof {
        assert(s@.take(s@.len() as int) =~= s@);
        if s@.len() >= width {
            assert(fill =~= Seq::<char>::empty());
        }
    }
    r
}

pub fn pad_right_chars(s: &Vec<char>, width: usize) -> (r: Vec<char>)
    ensures
        r@ == pad_right(s@, width as nat),
{
    let mut r = s.clone();
    let mut k: usize = s.len();
    while k < width
        invariant
            s@.len() <= k <= width || (k == s@.len() && k >= width),
            r@ =~= s@ + Seq::new((k - s@.len()) as nat, |i: int| ' '),
        decreases width - k,
    {
        r.push(' ');
        k = k + 1;
    }
    r
}

/// `s` with a single `+` in front removed.
pub open spec fn unsigned_digits(s: Seq<char>) -> Seq<char> {
    if s.len() > 0 && s[0] == '+' {
        s.drop_first()
    } else {
        s
    }
}

pub open spec fn all_digits(s: Seq<char>) -> bool {
    forall|i: int| 0 <= i < s.len() ==> is_digit(#[trigger] s[i])
}

/// The value of a string of decimal digits.
pub open spec fn digits_value(s: Seq<char>) -> nat
    decreases s.len(),
{
    if s.len() == 0 {
        0
    } else {
        digits_value(s.drop_last()) * 10 + ((s.last() as u32) - 48) as nat
    }
}

/// What `str::parse::<u32>` accepts: an optional `+`, then one or more ASCII
/// digits whose value fits in 32 bits.
pub open spec fn parse_u32_spec(s: Seq<char>) -> Option<u32> {
    let d = unsigned_digits(s);
    if d.len() > 0 && all_digits(d) && digits_value(d) <= u32::MAX {
        Some(digits_value(d) as u32)
    } else {
        None
    }
}

pub fn parse_u32(s: &Vec<char>) -> (r: Option<u32>)
    ensures
        r == parse_u32_spec(s@),
{
    let n = s.len();
    let start: usize = if n > 0 && s[0] == '+' {
        1
    } else {
        0
    };
    let ghost d = unsigned_digits(s@);
    proof {
        assert(d =~= s@.skip(start as int));
    }
    if start >= n {
        return None;
    }
    let cap: u64 = 4294967296u64;
    let mut acc: u64 = 0;
    let mut i: usize = start;
    while i < n
        invariant
            start <= i <= n == s@.len(),
            d == unsigned_digits(s@),
            d =~= s@.skip(start as int),
            all_digits(d.take(i - start)),
            acc == (if digits_value(d.take(i - start)) < cap as nat {
                digits_value(d.take(i - start))
            } else {
                cap as nat
            }),
            cap == 4294967296u64,
        decreases n - i,
    {
        let c = s[i];
        if !digit(c) {
            proof {
                assert(d[i - start] == c);
                assert(!is_digit(d[i - start]));
                assert(!all_digits(d));
            }
            return None;
        }
        let dv = (c as u32 - 48) as u64;
        let ghost prev = digits_value(d.take(i - start));
        proof {
            assert(d.take(i + 1 - start).drop_last() =~= d.take(i - start));
            assert(d.take(i + 1 - start).last() == c);
            assert(digits_value(d.take(i + 1 - start)) == prev * 10 + dv);
            assert(all_digits(d.take(i + 1 - start)));
        }
        if acc >= cap {
            proof {
                assert(prev * 10 + dv >= cap) by (nonlinear_arith)
                    requires
                        prev >= cap,
                        cap == 4294967296u64,
                ;
            }
            acc = cap;
        } else {
            let next = acc * 10 + dv;
            acc = if next < cap {
                next
            } else {
                cap
            };
        }
        i = i + 1;
    }
    proof {
        assert(d.take(n - start) =~= d);
    }
    if acc < cap {
        Some(acc as u32)
    } else {
        None
    }
}

/// `n` occurs in `h` starting at position `i`.
pub open spec fn occurs_at(h: Seq<char>, n: Seq<char>, i: int) -> bool {
    0 <= i && i + n.len() <= h.len() && h.subrange(i, i + n.len()) == n
}

/// The first position at which `needle` occurs in `hay` (`str::find`, counted
/// in characters).
pub fn find_chars(hay: &Vec<char>, needle: &Vec<char>) -> (r: Option<usize>)
    ensures
        r matches Some(i) ==> occurs_at(hay@, needle@, i as int) && forall|j: int|
            0 <= j < i ==> !occurs_at(hay@, needle@, j),
        r is None ==> forall|j: int| !occurs_at(hay@, needle@, j),
{
    let n = hay.len();
    let m = needle.len();
    if m > n {
        return None;
    }
    let mut i: usize = 0;
    while i <= n - m
        invariant
            m <= n,
            n == hay@.len(),
            m == needle@.len(),
            i <= n - m + 1,
            forall|j: int| 0 <= j < i ==> !occurs_at(hay@, needle@, j),
        decreases n - m + 1 - i,
    {
        let mut k: usize = 0;
        while k < m && hay[i + k] == needle[k]
            invariant
                k <= m,
                i + m <= n,
                n == hay@.len(),
                m == needle@.len(),
                forall|q: int| 0 <= q < k ==> hay@[i + q] == needle@[q],
            decreases m - k,
        {
            k = k + 1;
        }
        if k == m {
            proof {
                assert(hay@.subrange(i as int, i + m) =~= needle@);
            }
            return Some(i);
        }
        proof {
            assert(hay@.subrange(i as int, i + m)[k as int] != needle@[k as int]);
        }
        i = i + 1;
    }
    None
}

} // verus!
