//! Character-level string helpers: trimming, ASCII case folding, equality
//! and building strings from characters.

use vstd::prelude::*;

verus! {

/// Whether `c` has the Unicode `White_Space` property: tab through
/// carriage return, space, next line, no-break space, Ogham space mark, the
/// en quad through the hair space, the line and paragraph separators, the
/// narrow no-break space, the medium mathematical space and the ideographic
/// space.
pub open spec fn unicode_whitespace(c: char) -> bool {
    ||| '\u{9}' <= c <= '\u{d}'
    ||| c == ' '
    ||| c == '\u{85}'
    ||| c == '\u{a0}'
    ||| c == '\u{1680}'
    ||| '\u{2000}' <= c <= '\u{200a}'
    ||| c == '\u{2028}'
    ||| c == '\u{2029}'
    ||| c == '\u{202f}'
    ||| c == '\u{205f}'
    ||| c == '\u{3000}'
}

/// Whether `c` is whitespace, as `char::is_whitespace` decides.
fn char_is_whitespace(c: char) -> (whitespace: bool)
    ensures
        whitespace == unicode_whitespace(c),
{
    ('\u{9}' <= c && c <= '\u{d}') || c == ' ' || c == '\u{85}' || c == '\u{a0}' || c == '\u{1680}' || ('\u{2000}'
        <= c && c <= '\u{200a}') || c == '\u{2028}' || c == '\u{2029}' || c == '\u{202f}' || c == '\u{205f}' || c
        == '\u{3000}'
}

/// Appends `c`. Calls `String::push`, which appends the character to the
/// string's contents.
#[verifier::external_body]
pub fn push_char(text: &mut String, c: char)
    ensures
        final(text)@ == old(text)@.push(c),
{
    text.push(c)
}

/// The characters of `s` without leading and trailing whitespace.
pub open spec fn trimmed(s: Seq<char>) -> Seq<char> {
    s.subrange(leading_whitespace(s), s.len() - trailing_whitespace(s))
}

/// Number of leading whitespace characters of `s`.
pub open spec fn leading_whitespace(s: Seq<char>) -> int
    decreases s.len(),
{
    if s.len() > 0 && unicode_whitespace(s[0]) {
        1 + leading_whitespace(s.drop_first())
    } else {
        0
    }
}

/// Number of trailing whitespace characters of `s`, not counting a string
/// that is whitespace only twice.
pub open spec fn trailing_whitespace(s: Seq<char>) -> int
    decreases s.len(),
{
    if s.len() > leading_whitespace(s) && unicode_whitespace(s.last()) {
        1 + trailing_whitespace(s.drop_last())
    } else {
        0
    }
}

pub proof fn lemma_leading_bounds(s: Seq<char>)
    ensures
        0 <= leading_whitespace(s) <= s.len(),
        forall|i: int| 0 <= i < leading_whitespace(s) ==> unicode_whitespace(#[trigger] s[i]),
        leading_whitespace(s) < s.len() ==> !unicode_whitespace(s[leading_whitespace(s)]),
    decreases s.len(),
{
    if s.len() > 0 && unicode_whitespace(s[0]) {
        lemma_leading_bounds(s.drop_first());
        assert forall|i: int| 0 <= i < leading_whitespace(s) implies unicode_whitespace(#[trigger] s[i]) by {
            if i > 0 {
                assert(s[i] == s.drop_first()[i - 1]);
            }
        }
    }
}

proof fn lemma_leading_of_prefix(s: Seq<char>)
    requires
        s.len() > 0,
        leading_whitespace(s) < s.len(),
    ensures
        leading_whitespace(s.drop_last()) == leading_whitespace(s),
    decreases s.len(),
{
    lemma_leading_bounds(s.drop_first());
    if unicode_whitespace(s[0]) {
        assert(s.len() > 1);
        lemma_leading_of_prefix(s.drop_first());
        assert(s.drop_last().drop_first() =~= s.drop_first().drop_last());
        assert(s.drop_last()[0] == s[0]);
    } else if s.len() > 1 {
        assert(s.drop_last()[0] == s[0]);
    }
}

proof fn lemma_trailing_bounds(s: Seq<char>)
    ensures
        0 <= trailing_whitespace(s) <= s.len() - leading_whitespace(s),
        forall|i: int|
            s.len() - trailing_whitespace(s) <= i < s.len() ==> unicode_whitespace(#[trigger] s[i]),
        s.len() - trailing_whitespace(s) > leading_whitespace(s) ==> !unicode_whitespace(
            s[s.len() - trailing_whitespace(s) - 1],
        ),
    decreases s.len(),
{
    lemma_leading_bounds(s);
    if s.len() > leading_whitespace(s) && unicode_whitespace(s.last()) {
        lemma_leading_of_prefix(s);
        lemma_trailing_bounds(s.drop_last());
        assert forall|i: int| s.len() - trailing_whitespace(s) <= i < s.len() implies unicode_whitespace(
            #[trigger] s[i],
        ) by {
            if i < s.len() - 1 {
                assert(s[i] == s.drop_last()[i]);
            }
        }
    }
}

/// The characters of `s`.
pub fn chars_of(s: &str) -> (chars: Vec<char>)
    ensures
        chars@ == s@,
{
    let n = s.unicode_len();
    let mut chars: Vec<char> = Vec::new();
    let mut i: usize = 0;
    while i < n
        invariant
            i <= n,
            n == s@.len(),
            chars@ == s@.subrange(0, i as int),
        decreases n - i,
    {
        chars.push(s.get_char(i));
        assert(chars@ =~= s@.subrange(0, i as int + 1));
        i = i + 1;
    }
    assert(s@.subrange(0, n as int) =~= s@);
    chars
}

/// The string made of `chars[from..to]`.
pub fn string_from_chars(chars: &Vec<char>, from: usize, to: usize) -> (text: String)
    requires
        from <= to <= chars@.len(),
    ensures
        text@ == chars@.subrange(from as int, to as int),
{
    let mut text = String::new();
    let mut i = from;
    while i < to
        invariant
            from <= i <= to,
            to <= chars@.len(),
            text@ == chars@.subrange(from as int, i as int),
        decreases to - i,
    {
        push_char(&mut text, chars[i]);
        assert(text@ =~= chars@.subrange(from as int, i as int + 1));
        i = i + 1;
    }
    text
}

/// `s` without leading and trailing whitespace.
pub fn trim(s: &str) -> (t: String)
    ensures
        t@ == trimmed(s@),
{
    let chars = chars_of(s);
    let n = chars.len();
    let mut start: usize = 0;
    proof {
        lemma_leading_bounds(s@);
        lemma_trailing_bounds(s@);
    }
    while start < n && char_is_whitespace(chars[start])
        invariant
            start <= n,
            n == s@.len(),
            chars@ == s@,
            start <= leading_whitespace(s@),
            0 <= leading_whitespace(s@) <= s@.len(),
            forall|i: int| 0 <= i < leading_whitespace(s@) ==> unicode_whitespace(#[trigger] s@[i]),
            leading_whitespace(s@) < s@.len() ==> !unicode_whitespace(s@[leading_whitespace(s@)]),
        decreases n - start,
    {
        start = start + 1;
    }
    let mut end = n;
    while end > start && char_is_whitespace(chars[end - 1])
        invariant
            start <= end <= n,
            n == s@.len(),
            chars@ == s@,
            start == leading_whitespace(s@),
            end >= s@.len() - trailing_whitespace(s@),
            0 <= trailing_whitespace(s@) <= s@.len() - leading_whitespace(s@),
            forall|i: int| s@.len() - trailing_whitespace(s@) <= i < s@.len() ==> unicode_whitespace(#[trigger] s@[i]),
            s@.len() - trailing_whitespace(s@) > leading_whitespace(s@) ==> !unicode_whitespace(
                s@[s@.len() - trailing_whitespace(s@) - 1],
            ),
        decreases end,
    {
        end = end - 1;
    }
    string_from_chars(&chars, start, end)
}

/// The ASCII lowercase of `c`; other characters are unchanged.
pub open spec fn ascii_lower(c: char) -> char {
    if 'A' <= c <= 'Z' {
        ((c as u32) + 32) as char
    } else {
        c
    }
}

pub open spec fn ascii_lowercase(s: Seq<char>) -> Seq<char> {
    s.map_values(|c: char| ascii_lower(c))
}

pub fn to_ascii_lower(c: char) -> (lower: char)
    ensures
        lower == ascii_lower(c),
{
    if 'A' <= c && c <= 'Z' {
        let byte = c as u8;
        ((byte + 32) as u8) as char
    } else {
        c
    }
}

/// ASCII letters and digits.
pub open spec fn ascii_alphanumeric(c: char) -> bool {
    ('0' <= c <= '9') || ('a' <= c <= 'z') || ('A' <= c <= 'Z')
}

pub fn is_ascii_alphanumeric(c: char) -> (alphanumeric: bool)
    ensures
        alphanumeric == ascii_alphanumeric(c),
{
    ('0' <= c && c <= '9') || ('a' <= c && c <= 'z') || ('A' <= c && c <= 'Z')
}

/// The ASCII lowercase of `s`.
pub fn lowercase_ascii(s: &str) -> (lower: String)
    ensures
        lower@ == ascii_lowercase(s@),
{
    let n = s.unicode_len();
    let mut lower = String::new();
    let mut i: usize = 0;
    while i < n
        invariant
            i <= n,
            n == s@.len(),
            lower@ == ascii_lowercase(s@.subrange(0, i as int)),
        decreases n - i,
    {
        push_char(&mut lower, to_ascii_lower(s.get_char(i)));
        assert(ascii_lowercase(s@.subrange(0, i as int + 1)) =~= ascii_lowercase(s@.subrange(0, i as int)).push(
            ascii_lower(s@[i as int]),
        ));
        i = i + 1;
    }
    assert(s@.subrange(0, n as int) =~= s@);
    lower
}

/// Whether `a` and `b` hold the same characters.
pub fn strings_equal(a: &str, b: &str) -> (equal: bool)
    ensures
        equal == (a@ == b@),
{
    let n = a.unicode_len();
    if n != b.unicode_len() {
        return false;
    }
    let mut i: usize = 0;
    while i < n
        invariant
            i <= n,
            n == a@.len(),
            n == b@.len(),
            forall|j: int| 0 <= j < i ==> a@[j] == b@[j],
        decreases n - i,
    {
        if a.get_char(i) != b.get_char(i) {
            return false;
        }
        i = i + 1;
    }
    assert(a@ =~= b@);
    true
}


/// Whether `a` comes strictly before `b` when their characters are compared
/// in order, by code point, a proper prefix coming first.
pub open spec fn text_before(a: Seq<char>, b: Seq<char>) -> bool
    decreases a.len(),
{
    if a.len() == 0 {
        b.len() > 0
    } else if b.len() == 0 {
        false
    } else if a[0] != b[0] {
        (a[0] as u32) < (b[0] as u32)
    } else {
        text_before(a.drop_first(), b.drop_first())
    }
}

/// The order of texts is transitive.
pub proof fn lemma_text_before_transitive(a: Seq<char>, b: Seq<char>, c: Seq<char>)
    requires
        text_before(a, b),
        text_before(b, c),
    ensures
        text_before(a, c),
    decreases a.len(),
{
    if a.len() > 0 && a[0] == b[0] && b[0] == c[0] {
        lemma_text_before_transitive(a.drop_first(), b.drop_first(), c.drop_first());
    }
}

/// No text comes before itself.
pub proof fn lemma_text_before_irreflexive(a: Seq<char>)
    ensures
        !text_before(a, a),
    decreases a.len(),
{
    if a.len() > 0 {
        lemma_text_before_irreflexive(a.drop_first());
    }
}

/// Whether `a` comes strictly before `b` in the order of `text_before`.
pub fn text_precedes(a: &str, b: &str) -> (before: bool)
    ensures
        before == text_before(a@, b@),
{
    let n = a.unicode_len();
    let m = b.unicode_len();
    let mut i: usize = 0;
    assert(a@.skip(0) =~= a@);
    assert(b@.skip(0) =~= b@);
    while i < n && i < m
        invariant
            i <= n,
            i <= m,
            n == a@.len(),
            m == b@.len(),
            text_before(a@.skip(i as int), b@.skip(i as int)) == text_before(a@, b@),
        decreases n - i,
    {
        let x = a.get_char(i);
        let y = b.get_char(i);
        assert(a@.skip(i as int)[0] == x);
        assert(b@.skip(i as int)[0] == y);
        if x != y {
            return (x as u32) < (y as u32);
        }
        assert(a@.skip(i as int).drop_first() =~= a@.skip(i as int + 1));
        assert(b@.skip(i as int).drop_first() =~= b@.skip(i as int + 1));
        i = i + 1;
    }
    i == n && i < m
}

/// Position of the first character of `chars[from..to]` that is not
/// whitespace, or `to` where there is none.
pub fn skip_whitespace(chars: &Vec<char>, from: usize, to: usize) -> (at: usize)
    requires
        from <= to <= chars@.len(),
    ensures
        at == from + leading_whitespace(chars@.subrange(from as int, to as int)),
{
    let ghost sub = chars@.subrange(from as int, to as int);
    proof {
        lemma_leading_bounds(sub);
    }
    let mut at = from;
    while at < to && char_is_whitespace(chars[at])
        invariant
            from <= at <= to,
            to <= chars@.len(),
            sub == chars@.subrange(from as int, to as int),
            at - from <= leading_whitespace(sub),
            0 <= leading_whitespace(sub) <= sub.len(),
            forall|i: int| 0 <= i < leading_whitespace(sub) ==> unicode_whitespace(#[trigger] sub[i]),
            leading_whitespace(sub) < sub.len() ==> !unicode_whitespace(sub[leading_whitespace(sub)]),
        decreases to - at,
    {
        assert(sub[at - from] == chars@[at as int]);
        at = at + 1;
    }
    if at < to {
        assert(sub[at - from] == chars@[at as int]);
    }
    at
}

/// Appends `chars[from..to]` to `text`.
pub fn append_chars(text: &mut String, chars: &Vec<char>, from: usize, to: usize)
    requires
        from <= to <= chars@.len(),
    ensures
        final(text)@ == old(text)@ + chars@.subrange(from as int, to as int),
{
    let mut i = from;
    while i < to
        invariant
            from <= i <= to,
            to <= chars@.len(),
            text@ == old(text)@ + chars@.subrange(from as int, i as int),
        decreases to - i,
    {
        push_char(text, chars[i]);
        assert(old(text)@ + chars@.subrange(from as int, i as int + 1) =~= old(text)@ + chars@.subrange(
            from as int,
            i as int,
        ) + seq![chars@[i as int]]);
        i = i + 1;
    }
}


/// Whether `s` begins with `prefix`.
pub open spec fn has_prefix(s: Seq<char>, prefix: Seq<char>) -> bool {
    prefix.len() <= s.len() && s.take(prefix.len() as int) == prefix
}

/// Whether `chars[at..to]` begins with `prefix`.
pub fn starts_with_at(chars: &Vec<char>, at: usize, to: usize, prefix: &str) -> (starts: bool)
    requires
        at <= to <= chars@.len(),
    ensures
        starts == has_prefix(chars@.subrange(at as int, to as int), prefix@),
{
    let ghost s = chars@.subrange(at as int, to as int);
    let n = prefix.unicode_len();
    if n > to - at {
        return false;
    }
    let mut i: usize = 0;
    while i < n
        invariant
            i <= n,
            n == prefix@.len(),
            at + n <= to,
            to <= chars@.len(),
            s == chars@.subrange(at as int, to as int),
            forall|j: int| 0 <= j < i ==> s[j] == prefix@[j],
        decreases n - i,
    {
        if chars[at + i] != prefix.get_char(i) {
            assert(s[i as int] == chars@[at + i]);
            assert(s.take(n as int)[i as int] != prefix@[i as int]);
            return false;
        }
        assert(s[i as int] == chars@[at + i]);
        i = i + 1;
    }
    assert(s.take(n as int) =~= prefix@);
    true
}

/// What follows `prefix` in `s`, where `s` begins with it.
pub fn strip_prefix(s: &str, prefix: &str) -> (rest: Option<String>)
    ensures
        match rest {
            Some(rest) => has_prefix(s@, prefix@) && rest@ == s@.skip(prefix@.len() as int),
            None => !has_prefix(s@, prefix@),
        },
{
    let chars = chars_of(s);
    let n = chars.len();
    assert(chars@.subrange(0, n as int) =~= s@);
    if starts_with_at(&chars, 0, n, prefix) {
        let rest = string_from_chars(&chars, prefix.unicode_len(), n);
        assert(rest@ =~= s@.skip(prefix@.len() as int));
        Some(rest)
    } else {
        None
    }
}

} // verus!
