//! Text as sequences of characters: the predicates, the edits and the number
//! formats that the rest of the library states its contracts with.

use vstd::prelude::*;

verus! {

/// `String::push` of std: appends one character at the end.
pub assume_specification[ String::push ](s: &mut String, ch: char)
    ensures
        final(s)@ == old(s)@.push(ch),
;

// ---------------------------------------------------------------------------
// Character classes
// ---------------------------------------------------------------------------

/// Unicode's `White_Space` property, which decides what trimming removes.
pub open spec fn is_whitespace(c: char) -> bool {
    ||| '\u{9}' <= c <= '\u{d}'
    ||| c == ' '
    ||| c == '\u{85}'
    ||| c == '\u{a0}'
    ||| c == '\u{1680}'
    ||| '\u{2000}' <= c <= '\u{200a}'
    ||| c == '\u{2028}'
    ||| c == '\u{2029}'
    ||| c == '\u{202f}'
    ||| c == '\u{205f}'
    ||| c == '\u{3000}'
}

/// Unicode's general category `Cc`.
pub open spec fn is_control(c: char) -> bool {
    c <= '\u{1f}' || '\u{7f}' <= c <= '\u{9f}'
}

pub open spec fn is_ascii_digit(c: char) -> bool {
    '0' <= c <= '9'
}

pub open spec fn is_ascii_alphanumeric(c: char) -> bool {
    is_ascii_digit(c) || 'a' <= c <= 'z' || 'A' <= c <= 'Z'
}

/// ASCII letters in lower case, every other character as it is.
pub open spec fn ascii_lower(c: char) -> char {
    if 'A' <= c <= 'Z' {
        (c as u32 + 32) as char
    } else {
        c
    }
}

pub fn whitespace(c: char) -> (r: bool)
    ensures
        r == is_whitespace(c),
{
    ('\u{9}' <= c && c <= '\u{d}') || c == ' ' || c == '\u{85}' || c == '\u{a0}' || c == '\u{1680}'
        || ('\u{2000}' <= c && c <= '\u{200a}') || c == '\u{2028}' || c == '\u{2029}' || c
        == '\u{202f}' || c == '\u{205f}' || c == '\u{3000}'
}

pub fn control(c: char) -> (r: bool)
    ensures
        r == is_control(c),
{
    c <= '\u{1f}' || ('\u{7f}' <= c && c <= '\u{9f}')
}

pub fn ascii_digit(c: char) -> (r: bool)
    ensures
        r == is_ascii_digit(c),
{
    '0' <= c && c <= '9'
}

pub fn ascii_alphanumeric(c: char) -> (r: bool)
    ensures
        r == is_ascii_alphanumeric(c),
{
    ('0' <= c && c <= '9') || ('a' <= c && c <= 'z') || ('A' <= c && c <= 'Z')
}

pub fn to_ascii_lower(c: char) -> (r: char)
    ensures
        r == ascii_lower(c),
{
    if 'A' <= c && c <= 'Z' {
        let code: u8 = c as u8;
        (code + 32) as char
    } else {
        c
    }
}

// ---------------------------------------------------------------------------
// Strings and vectors of characters
// ---------------------------------------------------------------------------

/// The characters of a string that may be absent.
pub open spec fn text_of(s: Option<String>) -> Option<Seq<char>> {
    match s {
        Some(t) => Some(t@),
        None => None,
    }
}

/// The characters of a string slice that may be absent.
pub open spec fn str_text(s: Option<&str>) -> Option<Seq<char>> {
    match s {
        Some(t) => Some(t@),
        None => None,
    }
}

/// A text or the message that stands in its place.
pub open spec fn outcome(r: Result<String, String>) -> Result<Seq<char>, Seq<char>> {
    match r {
        Ok(s) => Ok(s@),
        Err(e) => Err(e@),
    }
}

/// The characters of each of several strings.
pub open spec fn texts(v: Seq<String>) -> Seq<Seq<char>> {
    v.map_values(|s: String| s@)
}

/// The characters of a string.
pub fn chars_of(s: &str) -> (r: Vec<char>)
    ensures
        r@ == s@,
{
    let mut out: Vec<char> = Vec::new();
    for c in it: s.chars()
        invariant
            out@ == s@.take(it.index()),
            it.seq() == s@,
    {
        out.push(c);
        assert(s@.take(it.index() + 1) =~= s@.take(it.index()).push(c));
    }
    assert(s@.take(s@.len() as int) =~= s@);
    out
}

/// The characters from `from` to `to`, as a string.
pub fn substring(chars: &[char], from: usize, to: usize) -> (r: String)
    requires
        from <= to <= chars@.len(),
    ensures
        r@ == chars@.subrange(from as int, to as int),
{
    let mut out = String::new();
    for i in from..to
        invariant
            from <= i <= to <= chars@.len(),
            out@ == chars@.subrange(from as int, i as int),
    {
        out.push(chars[i]);
        assert(chars@.subrange(from as int, i + 1) =~= chars@.subrange(from as int, i as int).push(
            chars@[i as int],
        ));
    }
    out
}

/// Whether two strings hold the same characters.
pub fn str_eq(a: &str, b: &str) -> (r: bool)
    ensures
        r == (a@ == b@),
{
    a.to_owned() == b.to_owned()
}

/// Whether the items of `part` stand in `items` from `at` on, for items that
/// `same` compares.
pub(crate) fn stands_at<T: Copy, F: Fn(T, T) -> bool>(
    items: &[T],
    at: usize,
    part: &[T],
    same: F,
) -> (r: bool)
    requires
        at + part@.len() <= items@.len(),
        forall|a: T, b: T| #[trigger] same.requires((a, b)),
        forall|a: T, b: T, c: bool| #[trigger] same.ensures((a, b), c) ==> c == (a == b),
    ensures
        r == (items@.subrange(at as int, at + part@.len()) == part@),
{
    let n: usize = items.len();
    for i in 0..part.len()
        invariant
            n == items@.len(),
            at + part@.len() <= n,
            forall|j: int| 0 <= j < i ==> items@[at + j] == part@[j],
            forall|a: T, b: T| #[trigger] same.requires((a, b)),
            forall|a: T, b: T, c: bool| #[trigger] same.ensures((a, b), c) ==> c == (a == b),
    {
        if !same(items[at + i], part[i]) {
            assert(items@.subrange(at as int, at + part@.len())[i as int] == items@[at + i]);
            return false;
        }
    }
    assert(items@.subrange(at as int, at + part@.len()) =~= part@);
    true
}

fn same_char(a: char, b: char) -> (r: bool)
    ensures
        r == (a == b),
{
    a == b
}

/// Whether the characters of `part` stand in `chars` from `at` on.
pub fn matches_at(chars: &[char], at: usize, part: &[char]) -> (r: bool)
    requires
        at + part@.len() <= chars@.len(),
    ensures
        r == (chars@.subrange(at as int, at + part@.len()) == part@),
{
    stands_at(chars, at, part, same_char)
}

pub fn starts_with(s: &str, prefix: &str) -> (r: bool)
    ensures
        r == prefix@.is_prefix_of(s@),
{
    let chars = chars_of(s);
    let part = chars_of(prefix);
    part.len() <= chars.len() && matches_at(chars.as_slice(), 0, part.as_slice())
}

pub fn ends_with(s: &str, suffix: &str) -> (r: bool)
    ensures
        r == suffix@.is_suffix_of(s@),
{
    let chars = chars_of(s);
    let part = chars_of(suffix);
    part.len() <= chars.len() && matches_at(
        chars.as_slice(),
        chars.len() - part.len(),
        part.as_slice(),
    )
}

/// What stands behind `prefix`, where the text begins with it.
pub open spec fn stripped_prefix(s: Seq<char>, prefix: Seq<char>) -> Option<Seq<char>> {
    if prefix.is_prefix_of(s) {
        Some(s.skip(prefix.len() as int))
    } else {
        None
    }
}

pub fn strip_prefix(s: &str, prefix: &str) -> (r: Option<String>)
    ensures
        match r {
            Some(rest) => stripped_prefix(s@, prefix@) == Some(rest@),
            None => stripped_prefix(s@, prefix@) is None,
        },
{
    if starts_with(s, prefix) {
        let chars = chars_of(s);
        let n: usize = chars_of(prefix).len();
        let rest = substring(chars.as_slice(), n, chars.len());
        assert(rest@ =~= s@.skip(prefix@.len() as int));
        Some(rest)
    } else {
        None
    }
}

// ---------------------------------------------------------------------------
// Trimming
// ---------------------------------------------------------------------------

/// The text without the leading characters that satisfy `p`.
pub open spec fn trim_start(s: Seq<char>, p: spec_fn(char) -> bool) -> Seq<char>
    decreases s.len(),
{
    if s.len() > 0 && p(s.first()) {
        trim_start(s.drop_first(), p)
    } else {
        s
    }
}

/// The text without the trailing characters that satisfy `p`.
pub open spec fn trim_end(s: Seq<char>, p: spec_fn(char) -> bool) -> Seq<char>
    decreases s.len(),
{
    if s.len() > 0 && p(s.last()) {
        trim_end(s.drop_last(), p)
    } else {
        s
    }
}

/// The text without white space at either end.
pub open spec fn trimmed(s: Seq<char>) -> Seq<char> {
    trim_end(trim_start(s, |c: char| is_whitespace(c)), |c: char| is_whitespace(c))
}

/// Where the text begins once the leading characters that satisfy `f` are gone.
pub(crate) fn start_without<F: Fn(char) -> bool>(
    chars: &[char],
    f: F,
    Ghost(p): Ghost<spec_fn(char) -> bool>,
) -> (r: usize)
    requires
        forall|c: char| #[trigger] f.requires((c,)),
        forall|c: char, b: bool| #[trigger] f.ensures((c,), b) ==> b == p(c),
    ensures
        r <= chars@.len(),
        chars@.skip(r as int) == trim_start(chars@, p),
{
    let mut i: usize = 0;
    assert(chars@.skip(0) =~= chars@);
    while i < chars.len() && f(chars[i])
        invariant
            i <= chars@.len(),
            trim_start(chars@, p) == trim_start(chars@.skip(i as int), p),
            forall|c: char| #[trigger] f.requires((c,)),
            forall|c: char, b: bool| #[trigger] f.ensures((c,), b) ==> b == p(c),
        ensures
            i <= chars@.len(),
            chars@.skip(i as int) == trim_start(chars@, p),
        decreases chars@.len() - i,
    {
        assert(chars@.skip(i as int).drop_first() =~= chars@.skip(i + 1));
        i = i + 1;
    }
    i
}

/// Where the text from `from` on ends once the trailing characters that satisfy
/// `f` are gone.
pub(crate) fn end_without<F: Fn(char) -> bool>(
    chars: &[char],
    from: usize,
    f: F,
    Ghost(p): Ghost<spec_fn(char) -> bool>,
) -> (r: usize)
    requires
        from <= chars@.len(),
        forall|c: char| #[trigger] f.requires((c,)),
        forall|c: char, b: bool| #[trigger] f.ensures((c,), b) ==> b == p(c),
    ensures
        from <= r <= chars@.len(),
        chars@.subrange(from as int, r as int) == trim_end(chars@.skip(from as int), p),
{
    let mut j: usize = chars.len();
    assert(chars@.subrange(from as int, j as int) =~= chars@.skip(from as int));
    while from < j && f(chars[j - 1])
        invariant
            from <= j <= chars@.len(),
            trim_end(chars@.skip(from as int), p) == trim_end(
                chars@.subrange(from as int, j as int),
                p,
            ),
            forall|c: char| #[trigger] f.requires((c,)),
            forall|c: char, b: bool| #[trigger] f.ensures((c,), b) ==> b == p(c),
        ensures
            from <= j <= chars@.len(),
            chars@.subrange(from as int, j as int) == trim_end(chars@.skip(from as int), p),
        decreases j - from,
    {
        assert(chars@.subrange(from as int, j as int).drop_last() =~= chars@.subrange(
            from as int,
            j - 1,
        ));
        j = j - 1;
    }
    j
}

/// The text without white space at either end.
pub fn trim(s: &str) -> (r: String)
    ensures
        r@ == trimmed(s@),
{
    let chars = chars_of(s);
    let ghost p = |c: char| is_whitespace(c);
    let from = start_without(chars.as_slice(), whitespace, Ghost(p));
    let to = end_without(chars.as_slice(), from, whitespace, Ghost(p));
    substring(chars.as_slice(), from, to)
}

/// What trimming leaves begins and ends with a character that stays.
pub proof fn lemma_trim_ends(s: Seq<char>, p: spec_fn(char) -> bool)
    ensures
        trim_start(s, p).len() > 0 ==> !p(trim_start(s, p).first()),
        trim_end(s, p).len() > 0 ==> !p(trim_end(s, p).last()),
        trim_start(s, p).len() <= s.len(),
        trim_end(s, p).len() <= s.len(),
        trim_end(s, p) == s.take(trim_end(s, p).len() as int),
        trim_start(s, p) == s.skip(s.len() - trim_start(s, p).len()),
    decreases s.len(),
{
    if s.len() > 0 && p(s.first()) {
        lemma_trim_ends(s.drop_first(), p);
        let t = trim_start(s, p);
        assert(t =~= s.skip(s.len() - t.len())) by {
            assert(t == s.drop_first().skip(s.drop_first().len() - t.len()));
        }
    } else {
        assert(s.skip(0) =~= s);
    }
    if s.len() > 0 && p(s.last()) {
        lemma_trim_ends(s.drop_last(), p);
        let t = trim_end(s, p);
        assert(t =~= s.take(t.len() as int)) by {
            assert(t == s.drop_last().take(t.len() as int));
        }
    } else {
        assert(s.take(s.len() as int) =~= s);
    }
}

/// Trimming a text twice changes no more than trimming it once.
pub proof fn law_trim_is_idempotent(s: Seq<char>)
    ensures
        trimmed(trimmed(s)) == trimmed(s),
{
    let p = |c: char| is_whitespace(c);
    let a = trim_start(s, p);
    let b = trim_end(a, p);
    lemma_trim_ends(s, p);
    lemma_trim_ends(a, p);
    if b.len() > 0 {
        assert(b.first() == a.first());
    }
    assert(trim_start(b, p) == b);
    assert(trim_end(b, p) == b);
}

// ---------------------------------------------------------------------------
// Case, escapes, filters and replacement
// ---------------------------------------------------------------------------

/// The text with its ASCII letters in lower case.
pub open spec fn ascii_lowercased(s: Seq<char>) -> Seq<char> {
    s.map_values(|c: char| ascii_lower(c))
}

/// Equality that does not tell ASCII upper case from lower case.
pub open spec fn same_ignoring_ascii_case(a: Seq<char>, b: Seq<char>) -> bool {
    ascii_lowercased(a) == ascii_lowercased(b)
}

pub fn to_ascii_lowercase(s: &str) -> (r: String)
    ensures
        r@ == ascii_lowercased(s@),
{
    let chars = chars_of(s);
    let mut out = String::new();
    for i in 0..chars.len()
        invariant
            chars@ == s@,
            out@ == ascii_lowercased(s@.take(i as int)),
    {
        out.push(to_ascii_lower(chars[i]));
        assert(ascii_lowercased(s@.take(i + 1)) =~= ascii_lowercased(s@.take(i as int)).push(
            ascii_lower(s@[i as int]),
        ));
    }
    assert(s@.take(s@.len() as int) =~= s@);
    out
}

pub fn eq_ignore_ascii_case(a: &str, b: &str) -> (r: bool)
    ensures
        r == same_ignoring_ascii_case(a@, b@),
{
    to_ascii_lowercase(a) == to_ascii_lowercase(b)
}

/// The text with each character replaced by the characters that `f` gives for it.
pub open spec fn expanded(s: Seq<char>, f: spec_fn(char) -> Seq<char>) -> Seq<char>
    decreases s.len(),
{
    if s.len() == 0 {
        Seq::empty()
    } else {
        expanded(s.drop_last(), f) + f(s.last())
    }
}

/// The expansion of a text begins with that of its first character.
pub proof fn lemma_expanded_first(s: Seq<char>, f: spec_fn(char) -> Seq<char>)
    requires
        s.len() > 0,
    ensures
        expanded(s, f) == f(s.first()) + expanded(s.drop_first(), f),
    decreases s.len(),
{
    if s.len() == 1 {
        assert(s.drop_last() =~= Seq::<char>::empty());
        assert(s.drop_first() =~= Seq::<char>::empty());
        assert(expanded(Seq::<char>::empty(), f) =~= Seq::<char>::empty());
        assert(expanded(s, f) =~= f(s.first()));
        assert(f(s.first()) + expanded(s.drop_first(), f) =~= f(s.first()));
    } else {
        lemma_expanded_first(s.drop_last(), f);
        assert(s.drop_last().drop_first() =~= s.drop_first().drop_last());
        assert(s.drop_first().last() == s.last());
        let middle = expanded(s.drop_first().drop_last(), f);
        assert((f(s.first()) + middle) + f(s.last()) =~= f(s.first()) + (middle + f(s.last())));
    }
}

/// No form of a character is empty, and none begins with that of another.
pub open spec fn is_prefix_free(f: spec_fn(char) -> Seq<char>) -> bool {
    &&& forall|c: char| (#[trigger] f(c)).len() > 0
    &&& forall|c: char, d: char| c != d ==> !(#[trigger] f(c)).is_prefix_of(#[trigger] f(d))
}

/// Different texts have different expansions where no form begins with another.
pub proof fn lemma_expanded_is_injective(
    a: Seq<char>,
    b: Seq<char>,
    f: spec_fn(char) -> Seq<char>,
)
    requires
        is_prefix_free(f),
        expanded(a, f) == expanded(b, f),
    ensures
        a == b,
    decreases a.len(),
{
    if a.len() > 0 {
        lemma_expanded_first(a, f);
        assert(f(a.first()).len() > 0);
    }
    if b.len() > 0 {
        lemma_expanded_first(b, f);
        assert(f(b.first()).len() > 0);
    }
    assert(a.len() > 0 ==> expanded(a, f).len() > 0);
    assert(b.len() > 0 ==> expanded(b, f).len() > 0);
    if a.len() == 0 || b.len() == 0 {
        assert(a =~= b);
    } else {
        let s = expanded(a, f);
        let x = f(a.first());
        let y = f(b.first());
        if x.len() <= y.len() {
            assert(x =~= s.take(x.len() as int));
            assert(y.take(x.len() as int) =~= s.take(x.len() as int));
        } else {
            assert(y =~= s.take(y.len() as int));
            assert(x.take(y.len() as int) =~= s.take(y.len() as int));
        }
        assert(a.first() == b.first());
        assert(s.skip(x.len() as int) =~= expanded(a.drop_first(), f));
        assert(s.skip(x.len() as int) =~= expanded(b.drop_first(), f));
        lemma_expanded_is_injective(a.drop_first(), b.drop_first(), f);
        assert(a =~= seq![a.first()] + a.drop_first());
        assert(b =~= seq![b.first()] + b.drop_first());
    }
}

/// The first `limit` of the characters that satisfy `p`, in their order.
pub open spec fn selected(s: Seq<char>, p: spec_fn(char) -> bool, limit: nat) -> Seq<char>
    decreases s.len(),
{
    if s.len() == 0 {
        Seq::empty()
    } else {
        let before = selected(s.drop_last(), p, limit);
        if p(s.last()) && before.len() < limit {
            before.push(s.last())
        } else {
            before
        }
    }
}

pub(crate) fn select<F: Fn(char) -> bool>(
    s: &str,
    f: F,
    limit: usize,
    Ghost(p): Ghost<spec_fn(char) -> bool>,
) -> (r: String)
    requires
        forall|c: char| #[trigger] f.requires((c,)),
        forall|c: char, b: bool| #[trigger] f.ensures((c,), b) ==> b == p(c),
    ensures
        r@ == selected(s@, p, limit as nat),
{
    let chars = chars_of(s);
    let mut out = String::new();
    let mut n: usize = 0;
    for i in 0..chars.len()
        invariant
            chars@ == s@,
            n == out@.len(),
            n <= limit,
            out@ == selected(s@.take(i as int), p, limit as nat),
            forall|c: char| #[trigger] f.requires((c,)),
            forall|c: char, b: bool| #[trigger] f.ensures((c,), b) ==> b == p(c),
    {
        assert(s@.take(i + 1).drop_last() =~= s@.take(i as int));
        if f(chars[i]) && n < limit {
            out.push(chars[i]);
            n = n + 1;
        }
    }
    assert(s@.take(s@.len() as int) =~= s@);
    out
}

/// What is selected is short, holds only characters that satisfy `p`, and holds
/// each of them where none had to be left out for length.
pub proof fn lemma_selected(s: Seq<char>, p: spec_fn(char) -> bool, limit: nat)
    ensures
        selected(s, p, limit).len() <= limit,
        selected(s, p, limit).len() <= s.len(),
        forall|i: int|
            0 <= i < selected(s, p, limit).len() ==> p(#[trigger] selected(s, p, limit)[i]),
        (forall|i: int| 0 <= i < s.len() ==> p(#[trigger] s[i])) && s.len() <= limit ==> selected(
            s,
            p,
            limit,
        ) == s,
    decreases s.len(),
{
    if s.len() > 0 {
        lemma_selected(s.drop_last(), p, limit);
        if (forall|i: int| 0 <= i < s.len() ==> p(#[trigger] s[i])) && s.len() <= limit {
            assert forall|i: int| 0 <= i < s.drop_last().len() implies p(
                #[trigger] s.drop_last()[i],
            ) by {
                assert(p(s[i]));
            }
            assert(p(s[s.len() - 1]));
            assert(s.drop_last().push(s.last()) =~= s);
        }
    } else {
        assert(selected(s, p, limit) =~= s);
    }
}

/// The text with each occurrence of `pattern`, found from left to right without
/// overlap, replaced by `with`.
pub open spec fn replaced(s: Seq<char>, pattern: Seq<char>, with: Seq<char>) -> Seq<char>
    recommends
        pattern.len() > 0,
    decreases s.len(),
{
    if pattern.len() == 0 || s.len() < pattern.len() {
        s
    } else if pattern.is_prefix_of(s) {
        with + replaced(s.skip(pattern.len() as int), pattern, with)
    } else {
        seq![s.first()] + replaced(s.drop_first(), pattern, with)
    }
}

/// Whether `pattern` stands in the text at position `k`.
pub open spec fn occurs_at(s: Seq<char>, pattern: Seq<char>, k: int) -> bool {
    0 <= k && k + pattern.len() <= s.len() && s.subrange(k, k + pattern.len()) == pattern
}

proof fn lemma_replaced_nowhere(s: Seq<char>, pattern: Seq<char>, with: Seq<char>)
    requires
        forall|k: int| !(#[trigger] occurs_at(s, pattern, k)),
    ensures
        replaced(s, pattern, with) == s,
    decreases s.len(),
{
    if pattern.len() > 0 && s.len() >= pattern.len() {
        assert(!occurs_at(s, pattern, 0));
        assert(s.subrange(0, pattern.len() as int) =~= s.take(pattern.len() as int));
        let rest = s.drop_first();
        assert forall|k: int| !(#[trigger] occurs_at(rest, pattern, k)) by {
            assert(!occurs_at(s, pattern, k + 1));
            if occurs_at(rest, pattern, k) {
                assert(rest.subrange(k, k + pattern.len()) =~= s.subrange(
                    k + 1,
                    k + 1 + pattern.len(),
                ));
            }
        }
        lemma_replaced_nowhere(rest, pattern, with);
        assert(seq![s.first()] + rest =~= s);
    }
}

proof fn lemma_occurs_behind(a: Seq<char>, b: Seq<char>, pattern: Seq<char>, k: int)
    requires
        occurs_at(b, pattern, k),
    ensures
        occurs_at(a + b, pattern, k + a.len()),
{
    let n = pattern.len() as int;
    let m = k + a.len();
    assert((a + b).subrange(m, m + n) =~= b.subrange(k, k + n));
}

/// A pattern that stands in a text once is replaced there and nowhere else.
pub proof fn lemma_replaced_once(
    before: Seq<char>,
    pattern: Seq<char>,
    after: Seq<char>,
    with: Seq<char>,
)
    requires
        pattern.len() > 0,
        forall|k: int|
            k != before.len() ==> !(#[trigger] occurs_at(before + pattern + after, pattern, k)),
    ensures
        replaced(before + pattern + after, pattern, with) == before + with + after,
    decreases before.len(),
{
    let s = before + pattern + after;
    let n = pattern.len() as int;
    if before.len() == 0 {
        assert(s.take(n) =~= pattern);
        assert(s.skip(n) =~= after);
        assert(s =~= pattern + after);
        assert forall|k: int| !(#[trigger] occurs_at(after, pattern, k)) by {
            if occurs_at(after, pattern, k) {
                lemma_occurs_behind(pattern, after, pattern, k);
            }
        }
        lemma_replaced_nowhere(after, pattern, with);
        assert(with + after =~= before + with + after);
    } else {
        assert(!occurs_at(s, pattern, 0));
        assert(s.subrange(0, n) =~= s.take(n));
        let rest = before.drop_first();
        let t = rest + pattern + after;
        assert(s.drop_first() =~= t);
        assert(s =~= seq![s.first()] + t);
        assert forall|k: int| k != rest.len() implies !(#[trigger] occurs_at(t, pattern, k)) by {
            if occurs_at(t, pattern, k) {
                lemma_occurs_behind(seq![s.first()], t, pattern, k);
            }
        }
        lemma_replaced_once(rest, pattern, after, with);
        assert(seq![s.first()] + (rest + with + after) =~= before + with + after);
    }
}

pub fn replace_all(s: &str, pattern: &str, with: &str) -> (r: String)
    requires
        pattern@.len() > 0,
    ensures
        r@ == replaced(s@, pattern@, with@),
{
    let chars = chars_of(s);
    let part = chars_of(pattern);
    let mut out = String::new();
    let mut i: usize = 0;
    assert(s@.skip(0) =~= s@);
    while part.len() <= chars.len() - i
        invariant
            chars@ == s@,
            part@ == pattern@,
            part@.len() > 0,
            i <= chars@.len(),
            replaced(s@, pattern@, with@) == out@ + replaced(s@.skip(i as int), pattern@, with@),
        decreases chars@.len() - i,
    {
        let ghost rest = s@.skip(i as int);
        assert(rest.take(part@.len() as int) =~= s@.subrange(i as int, i + part@.len()));
        let ghost before = out@;
        if matches_at(chars.as_slice(), i, part.as_slice()) {
            assert(rest.skip(part@.len() as int) =~= s@.skip(i + part@.len()));
            out.append(with);
            i = i + part.len();
            assert(before + (with@ + replaced(s@.skip(i as int), pattern@, with@)) =~= out@
                + replaced(s@.skip(i as int), pattern@, with@));
        } else {
            assert(rest.drop_first() =~= s@.skip(i + 1));
            out.push(chars[i]);
            i = i + 1;
            assert(before + (seq![rest.first()] + replaced(s@.skip(i as int), pattern@, with@))
                =~= out@ + replaced(s@.skip(i as int), pattern@, with@));
        }
    }
    let rest = substring(chars.as_slice(), i, chars.len());
    assert(rest@ =~= s@.skip(i as int));
    out.append(rest.as_str());
    out
}

// ---------------------------------------------------------------------------
// Decimal numbers
// ---------------------------------------------------------------------------

pub open spec fn digit_char(d: nat) -> char {
    (48 + d) as char
}

pub open spec fn digit_value(c: char) -> nat {
    (c as int - 48) as nat
}

/// The decimal digits of a number, without leading zeros.
pub open spec fn decimal(n: nat) -> Seq<char>
    decreases n,
{
    if n < 10 {
        seq![digit_char(n)]
    } else {
        decimal(n / 10).push(digit_char(n % 10))
    }
}

/// The number that a sequence of decimal digits stands for.
pub open spec fn decimal_value(s: Seq<char>) -> nat
    decreases s.len(),
{
    if s.len() == 0 {
        0
    } else {
        decimal_value(s.drop_last()) * 10 + digit_value(s.last())
    }
}

pub open spec fn all_digits(s: Seq<char>) -> bool {
    forall|i: int| 0 <= i < s.len() ==> is_ascii_digit(#[trigger] s[i])
}

/// Reading back the digits of a number gives the number.
pub proof fn law_decimal_reads_back(n: nat)
    ensures
        decimal(n).len() > 0,
        all_digits(decimal(n)),
        decimal_value(decimal(n)) == n,
    decreases n,
{
    if n < 10 {
        assert(decimal(n).drop_last() =~= Seq::<char>::empty());
        assert(decimal_value(Seq::<char>::empty()) == 0);
    } else {
        law_decimal_reads_back(n / 10);
        assert(decimal(n).drop_last() =~= decimal(n / 10));
    }
}

/// Different numbers have different digits.
pub proof fn law_decimal_is_injective(a: nat, b: nat)
    requires
        decimal(a) == decimal(b),
    ensures
        a == b,
{
    law_decimal_reads_back(a);
    law_decimal_reads_back(b);
}

/// The decimal digits of a number.
pub fn to_decimal(n: u128) -> (r: String)
    ensures
        r@ == decimal(n as nat),
    decreases n,
{
    if n < 10 {
        let mut out = String::new();
        out.push((48 + n as u8) as char);
        assert(out@ =~= decimal(n as nat));
        out
    } else {
        let mut out = to_decimal(n / 10);
        out.push((48 + (n % 10) as u8) as char);
        out
    }
}

/// The number that std's `str::parse` reads as a `u32`: digits, with a plus sign
/// in front of them or none, and a value that fits.
pub open spec fn parsed_u32(s: Seq<char>) -> Option<u32> {
    let digits = if s.len() > 0 && s.first() == '+' {
        s.drop_first()
    } else {
        s
    };
    if digits.len() > 0 && all_digits(digits) && decimal_value(digits) <= u32::MAX {
        Some(decimal_value(digits) as u32)
    } else {
        None
    }
}

/// More digits behind a number never make it smaller.
proof fn lemma_value_grows(s: Seq<char>, k: int)
    requires
        0 <= k <= s.len(),
    ensures
        decimal_value(s.take(k)) <= decimal_value(s),
    decreases s.len(),
{
    if k == s.len() {
        assert(s.take(k) =~= s);
    } else {
        lemma_value_grows(s.drop_last(), k);
        assert(s.drop_last().take(k) =~= s.take(k));
    }
}

pub fn parse_u32(s: &str) -> (r: Option<u32>)
    ensures
        r == parsed_u32(s@),
{
    let chars = chars_of(s);
    let mut i: usize = 0;
    if chars.len() > 0 && chars[0] == '+' {
        i = 1;
    }
    let ghost digits = s@.skip(i as int);
    proof {
        if i == 0 {
            assert(digits =~= s@);
        } else {
            assert(digits =~= s@.drop_first());
        }
    }
    if i == chars.len() {
        return None;
    }
    let from: usize = i;
    let mut value: u32 = 0;
    assert(digits.take(0) =~= Seq::<char>::empty());
    while i < chars.len()
        invariant
            chars@ == s@,
            from <= i <= chars@.len(),
            from < chars@.len(),
            digits == s@.skip(from as int),
            digits == (if s@.len() > 0 && s@.first() == '+' {
                s@.drop_first()
            } else {
                s@
            }),
            value == decimal_value(digits.take(i - from)),
            all_digits(digits.take(i - from)),
        decreases chars@.len() - i,
    {
        let c = chars[i];
        assert(digits[i - from] == c);
        if !ascii_digit(c) {
            return None;
        }
        let d: u32 = c as u32 - 48;
        assert(digits.take(i - from + 1).drop_last() =~= digits.take(i - from));
        assert(decimal_value(digits.take(i - from + 1)) == value * 10 + d);
        if value > (u32::MAX - d) / 10 {
            proof {
                lemma_value_grows(digits, i - from + 1);
            }
            return None;
        }
        value = value * 10 + d;
        assert forall|k: int| 0 <= k < i - from + 1 implies is_ascii_digit(
            #[trigger] digits.take(i - from + 1)[k],
        ) by {
            if k < i - from {
                assert(is_ascii_digit(digits.take(i - from)[k]));
            }
        }
        i = i + 1;
    }
    assert(digits.take(i - from) =~= digits);
    Some(value)
}

// ---------------------------------------------------------------------------
// Laws of texts
// ---------------------------------------------------------------------------

/// Nothing is lost where a text may be absent, or stands among others.
pub proof fn law_texts_tell_everything(
    s: Option<String>,
    t: Option<&str>,
    r: Result<String, String>,
    all: Seq<String>,
    i: int,
)
    requires
        0 <= i < all.len(),
    ensures
        text_of(s) is Some <==> s is Some,
        s is Some ==> text_of(s)->0 == s->0@,
        str_text(t) is Some <==> t is Some,
        t is Some ==> str_text(t)->0 == t->0@,
        outcome(r) is Ok <==> r is Ok,
        r is Ok ==> outcome(r)->Ok_0 == r->Ok_0@,
        r is Err ==> outcome(r)->Err_0 == r->Err_0@,
        texts(all).len() == all.len(),
        texts(all)[i] == all[i]@,
{
}

/// Taking a prefix off and putting it on again undo each other, and from a text
/// that does not begin with it nothing is taken.
pub proof fn law_prefix_comes_off(s: Seq<char>, prefix: Seq<char>, rest: Seq<char>)
    ensures
        stripped_prefix(prefix + rest, prefix) == Some(rest),
        stripped_prefix(s, prefix) matches Some(t) ==> s == prefix + t,
        stripped_prefix(s, prefix) is None ==> s != prefix + rest,
{
    let joined = prefix + rest;
    assert(joined.take(prefix.len() as int) =~= prefix);
    assert(joined.skip(prefix.len() as int) =~= rest);
    if prefix.is_prefix_of(s) {
        assert(s =~= prefix + s.skip(prefix.len() as int));
    }
}

proof fn lemma_trim_start_off(a: Seq<char>, t: Seq<char>, p: spec_fn(char) -> bool)
    requires
        forall|i: int| 0 <= i < a.len() ==> p(#[trigger] a[i]),
        t.len() == 0 || !p(t[0]),
    ensures
        trim_start(a + t, p) == t,
    decreases a.len(),
{
    let s = a + t;
    if a.len() == 0 {
        assert(s =~= t);
    } else {
        assert(s.first() == a[0]);
        assert(s.drop_first() =~= a.drop_first() + t);
        assert forall|i: int| 0 <= i < a.drop_first().len() implies p(
            #[trigger] a.drop_first()[i],
        ) by {
            assert(p(a[i + 1]));
        }
        lemma_trim_start_off(a.drop_first(), t, p);
    }
}

/// What stands behind a text and satisfies `p` is what trimming takes off its end.
pub proof fn lemma_trim_end_off(t: Seq<char>, b: Seq<char>, p: spec_fn(char) -> bool)
    requires
        forall|i: int| 0 <= i < b.len() ==> p(#[trigger] b[i]),
        t.len() == 0 || !p(t[t.len() - 1]),
    ensures
        trim_end(t + b, p) == t,
    decreases b.len(),
{
    let s = t + b;
    if b.len() == 0 {
        assert(s =~= t);
    } else {
        assert(s.last() == b[b.len() - 1]);
        assert(s.drop_last() =~= t + b.drop_last());
        assert forall|i: int| 0 <= i < b.drop_last().len() implies p(
            #[trigger] b.drop_last()[i],
        ) by {
            assert(p(b[i]));
        }
        lemma_trim_end_off(t, b.drop_last(), p);
    }
}

/// Trimming takes the white space off both ends and nothing else.
pub proof fn law_trimming_takes_white_space_off(
    before: Seq<char>,
    core: Seq<char>,
    after: Seq<char>,
)
    requires
        forall|i: int| 0 <= i < before.len() ==> is_whitespace(#[trigger] before[i]),
        forall|i: int| 0 <= i < after.len() ==> is_whitespace(#[trigger] after[i]),
        core.len() > 0 ==> !is_whitespace(core[0]) && !is_whitespace(core[core.len() - 1]),
    ensures
        trimmed(before + core + after) == core,
{
    let p = |c: char| is_whitespace(c);
    let s = before + core + after;
    if core.len() > 0 {
        assert(s =~= before + (core + after));
        lemma_trim_start_off(before, core + after, p);
        lemma_trim_end_off(core, after, p);
    } else {
        let empty = Seq::<char>::empty();
        assert forall|i: int| 0 <= i < s.len() implies p(#[trigger] s[i]) by {
            if i < before.len() {
                assert(s[i] == before[i]);
            } else {
                assert(s[i] == after[i - before.len()]);
            }
        }
        assert(s + empty =~= s);
        lemma_trim_start_off(s, empty, p);
        assert(trim_end(empty, p) =~= empty);
        assert(core =~= empty);
    }
}

/// Lower case changes the capital letters of ASCII, each into its own small letter,
/// and leaves every other character in its place.
pub proof fn law_ascii_lower_case(s: Seq<char>, i: int)
    requires
        0 <= i < s.len(),
    ensures
        ascii_lowercased(s).len() == s.len(),
        'A' <= s[i] <= 'Z' ==> ascii_lowercased(s)[i] as int == s[i] as int + 32,
        !('A' <= s[i] <= 'Z') ==> ascii_lowercased(s)[i] == s[i],
{
}

/// Whether two characters are the same letter of ASCII in whatever case, or the same
/// character.
pub open spec fn is_same_letter(c: char, d: char) -> bool {
    ||| c == d
    ||| 'A' <= c <= 'Z' && d as int == c as int + 32
    ||| 'A' <= d <= 'Z' && c as int == d as int + 32
}

/// Two characters are the same letter where the texts that they are alone are the same
/// without regard to case.
pub proof fn law_same_letter_is_the_same_text(c: char, d: char)
    ensures
        is_same_letter(c, d) <==> same_ignoring_ascii_case(seq![c], seq![d]),
{
    law_same_without_regard_to_case(seq![c], seq![d]);
    assert(seq![c][0] == c && seq![d][0] == d);
}

/// Two texts are the same without regard to case where each character is the same, or
/// is a capital letter of ASCII in the one and its small letter in the other.
pub proof fn law_same_without_regard_to_case(a: Seq<char>, b: Seq<char>)
    ensures
        same_ignoring_ascii_case(a, b) <==> a.len() == b.len() && forall|i: int|
            0 <= i < a.len() ==> #[trigger] a[i] == b[i] || ('A' <= a[i] <= 'Z' && b[i] as int
                == a[i] as int + 32) || ('A' <= b[i] <= 'Z' && a[i] as int == b[i] as int + 32),
{
    let x = ascii_lowercased(a);
    let y = ascii_lowercased(b);
    if same_ignoring_ascii_case(a, b) {
        assert(x.len() == a.len() && y.len() == b.len());
        assert forall|i: int| 0 <= i < a.len() implies #[trigger] a[i] == b[i] || ('A' <= a[i]
            <= 'Z' && b[i] as int == a[i] as int + 32) || ('A' <= b[i] <= 'Z' && a[i] as int
            == b[i] as int + 32) by {
            assert(x[i] == y[i]);
        }
    }
    if a.len() == b.len() && forall|i: int|
        0 <= i < a.len() ==> #[trigger] a[i] == b[i] || ('A' <= a[i] <= 'Z' && b[i] as int
            == a[i] as int + 32) || ('A' <= b[i] <= 'Z' && a[i] as int == b[i] as int + 32) {
        assert forall|i: int| 0 <= i < x.len() implies x[i] == y[i] by {
            assert(a[i] == a[i]);
        }
        assert(x =~= y);
    }
}

/// A text is expanded character by character: nothing gives nothing, one character
/// gives its own form, and the forms of two parts stand one behind the other.
pub proof fn law_expansion_goes_by_characters(
    a: Seq<char>,
    b: Seq<char>,
    c: char,
    f: spec_fn(char) -> Seq<char>,
)
    ensures
        expanded(Seq::<char>::empty(), f).len() == 0,
        expanded(seq![c], f) == f(c),
        expanded(a + b, f) == expanded(a, f) + expanded(b, f),
    decreases b.len(),
{
    let empty = Seq::<char>::empty();
    assert(seq![c].drop_last() =~= empty);
    assert(expanded(empty, f) =~= empty);
    assert(expanded(seq![c], f) =~= f(c));
    if b.len() == 0 {
        assert(a + b =~= a);
        assert(b =~= empty);
        assert(expanded(a, f) + expanded(b, f) =~= expanded(a, f));
    } else {
        law_expansion_goes_by_characters(a, b.drop_last(), c, f);
        assert((a + b).drop_last() =~= a + b.drop_last());
        assert((a + b).last() == b.last());
        assert((expanded(a, f) + expanded(b.drop_last(), f)) + f(b.last()) =~= expanded(a, f) + (
        expanded(b.drop_last(), f) + f(b.last())));
    }
}

/// A character where it satisfies `p`, and nothing where it does not.
pub open spec fn kept_if(p: spec_fn(char) -> bool) -> spec_fn(char) -> Seq<char> {
    |c: char|
        if p(c) {
            seq![c]
        } else {
            Seq::<char>::empty()
        }
}

/// What is selected is the beginning of all the characters that satisfy `p`, as long
/// as the limit allows.
pub proof fn law_selection_is_the_beginning(
    s: Seq<char>,
    p: spec_fn(char) -> bool,
    limit: nat,
)
    ensures
        selected(s, p, limit).is_prefix_of(expanded(s, kept_if(p))),
        selected(s, p, limit).len() == if expanded(s, kept_if(p)).len() <= limit {
            expanded(s, kept_if(p)).len()
        } else {
            limit
        },
        forall|c: char|
            (p(c) ==> #[trigger] kept_if(p)(c) == seq![c]) && (!p(c) ==> kept_if(p)(c).len() == 0),
    decreases s.len(),
{
    let all = expanded(s, kept_if(p));
    let some = selected(s, p, limit);
    if s.len() > 0 {
        law_selection_is_the_beginning(s.drop_last(), p, limit);
        let before = expanded(s.drop_last(), kept_if(p));
        let some_before = selected(s.drop_last(), p, limit);
        assert(all == before + kept_if(p)(s.last()));
        assert(some_before =~= before.take(some_before.len() as int));
        assert(some =~= all.take(some.len() as int));
    } else {
        assert(all =~= Seq::<char>::empty());
        assert(some =~= all.take(0));
    }
}

proof fn lemma_replaced_from(s: Seq<char>, pattern: Seq<char>, with: Seq<char>, k: int)
    requires
        pattern.len() > 0,
        occurs_at(s, pattern, k),
        forall|j: int| 0 <= j < k ==> !(#[trigger] occurs_at(s, pattern, j)),
    ensures
        replaced(s, pattern, with) == s.take(k) + with + replaced(
            s.skip(k + pattern.len()),
            pattern,
            with,
        ),
    decreases s.len(),
{
    let n = pattern.len() as int;
    assert(s.subrange(0, n) =~= s.take(n));
    if k == 0 {
        assert(s.take(0) + with + replaced(s.skip(n), pattern, with) =~= with + replaced(
            s.skip(n),
            pattern,
            with,
        ));
    } else {
        assert(!occurs_at(s, pattern, 0));
        let rest = s.drop_first();
        assert(rest.subrange(k - 1, k - 1 + n) =~= s.subrange(k, k + n));
        assert forall|j: int| 0 <= j < k - 1 implies !(#[trigger] occurs_at(rest, pattern, j)) by {
            assert(!occurs_at(s, pattern, j + 1));
            assert(rest.subrange(j, j + n) =~= s.subrange(j + 1, j + 1 + n));
        }
        lemma_replaced_from(rest, pattern, with, k - 1);
        assert(rest.skip(k - 1 + n) =~= s.skip(k + n));
        let tail = replaced(s.skip(k + n), pattern, with);
        assert(seq![s.first()] + (rest.take(k - 1) + with + tail) =~= s.take(k) + with + tail);
    }
}

/// Replacing goes from one occurrence to the next: what stands before the first one
/// stays, the new text takes its place, and the rest is replaced in turn. A text
/// without an occurrence stays as it is.
pub proof fn law_replacing_goes_from_one_to_the_next(
    s: Seq<char>,
    pattern: Seq<char>,
    with: Seq<char>,
    k: int,
)
    requires
        pattern.len() > 0,
    ensures
        (forall|j: int| !(#[trigger] occurs_at(s, pattern, j))) ==> replaced(s, pattern, with) == s,
        0 <= k && k + pattern.len() <= s.len() && s.subrange(k, k + pattern.len()) == pattern && (
        forall|j: int| 0 <= j < k ==> !(#[trigger] occurs_at(s, pattern, j))) ==> replaced(
            s,
            pattern,
            with,
        ) == s.take(k) + with + replaced(s.skip(k + pattern.len()), pattern, with),
        occurs_at(s, pattern, k) <==> 0 <= k && k + pattern.len() <= s.len() && s.subrange(
            k,
            k + pattern.len(),
        ) == pattern,
{
    if forall|j: int| !(#[trigger] occurs_at(s, pattern, j)) {
        lemma_replaced_nowhere(s, pattern, with);
    }
    if occurs_at(s, pattern, k) && forall|j: int|
        0 <= j < k ==> !(#[trigger] occurs_at(s, pattern, j)) {
        lemma_replaced_from(s, pattern, with, k);
    }
}

/// One more digit behind a number makes it ten times as large, and adds the digit.
pub proof fn law_one_more_digit(s: Seq<char>, c: char)
    requires
        '0' <= c <= '9',
    ensures
        decimal_value(Seq::<char>::empty()) == 0,
        decimal_value(s.push(c)) == decimal_value(s) * 10 + (c as int - '0' as int),
{
    assert(s.push(c).drop_last() =~= s);
}

/// The digits of a number begin with a zero only where the number is zero, and are
/// digits of ASCII throughout.
pub proof fn law_digits_have_no_leading_zero(n: nat)
    ensures
        n > 0 ==> decimal(n).len() > 0 && decimal(n)[0] != '0',
        decimal(0) == seq!['0'],
        forall|i: int| 0 <= i < decimal(n).len() ==> '0' <= #[trigger] decimal(n)[i] <= '9',
    decreases n,
{
    if n >= 10 {
        law_digits_have_no_leading_zero(n / 10);
    }
    assert(decimal(0) =~= seq!['0']);
}

/// A text is read as a number where it is made of digits, with one plus sign before
/// them or none, and the number fits in 32 bits; the number is theirs. Nothing else
/// is read.
pub proof fn law_reading_a_number(s: Seq<char>)
    requires
        s.len() == 0 || s[0] != '+',
    ensures
        parsed_u32(s) is Some <==> s.len() > 0 && decimal_value(s) <= 0xffff_ffff && forall|i: int|
            0 <= i < s.len() ==> '0' <= #[trigger] s[i] <= '9',
        parsed_u32(s) matches Some(n) ==> n as nat == decimal_value(s),
        parsed_u32(seq!['+'] + s) == parsed_u32(s),
        parsed_u32(seq!['+', '+'] + s) is None,
{
    let signed = seq!['+'] + s;
    assert(signed.drop_first() =~= s);
    assert(all_digits(s) <==> forall|i: int|
        0 <= i < s.len() ==> '0' <= #[trigger] s[i] <= '9') by {
        if all_digits(s) {
            assert forall|i: int| 0 <= i < s.len() implies '0' <= #[trigger] s[i] <= '9' by {
                assert(is_ascii_digit(s[i]));
            }
        }
    }
    let twice = seq!['+', '+'] + s;
    assert(twice.drop_first()[0] == '+');
    assert(!is_ascii_digit(twice.drop_first()[0]));
}

/// The white space, the control characters, the digits and the letters of ASCII by
/// their code points.
pub proof fn law_classes_of_characters(c: char)
    ensures
        ({
            let n = c as int;
            &&& is_whitespace(c) <==> 0x9 <= n <= 0xd || n == 0x20 || n == 0x85 || n == 0xa0 || n
                == 0x1680 || 0x2000 <= n <= 0x200a || n == 0x2028 || n == 0x2029 || n == 0x202f || n
                == 0x205f || n == 0x3000
            &&& is_control(c) <==> 0 <= n < 0x20 || 0x7f <= n < 0xa0
            &&& is_ascii_digit(c) <==> 0x30 <= n <= 0x39
            &&& is_ascii_alphanumeric(c) <==> 0x30 <= n <= 0x39 || 0x41 <= n <= 0x5a || 0x61 <= n
                <= 0x7a
        }),
{
}

} // verus!
