//! Slugs: the directory names that keep the sessions of the profiles apart.

use crate::profiles::{profile_views, slugs_of, Profile};
use crate::text::{
    ascii_alphanumeric, ascii_lower, ascii_lowercased, chars_of, decimal, end_without, expanded,
    is_ascii_alphanumeric, is_ascii_digit, law_decimal_is_injective, law_decimal_reads_back,
    law_expansion_goes_by_characters,
    lemma_trim_ends, start_without, str_eq, substring, to_decimal, trim_end, trim_start,
};
use vstd::prelude::*;

verus! {

/// What `char::to_lowercase` of std gives for a character.
pub uninterp spec fn lowercase_of(c: char) -> Seq<char>;

/// `char::to_lowercase` of std, collected. An ASCII character gives the one
/// ASCII character in lower case, and no character gives an ASCII capital.
#[verifier::external_body]
fn lowercase(c: char) -> (r: Vec<char>)
    ensures
        r@ == lowercase_of(c),
        c <= '\u{7f}' ==> r@ == seq![ascii_lower(c)],
        forall|i: int| 0 <= i < r@.len() ==> !('A' <= #[trigger] r@[i] <= 'Z'),
{
    c.to_lowercase().collect()
}

/// The name in lower case, character by character.
pub open spec fn lowered(name: Seq<char>) -> Seq<char> {
    expanded(name, |c: char| lowercase_of(c))
}

pub open spec fn all_ascii(s: Seq<char>) -> bool {
    forall|i: int| 0 <= i < s.len() ==> #[trigger] s[i] <= '\u{7f}'
}

/// A name of ASCII characters alone is lowered letter by letter.
pub open spec fn lowers_as_ascii(name: Seq<char>) -> bool {
    all_ascii(name) ==> lowered(name) == ascii_lowercased(name)
}

pub open spec fn has_ascii_capital(s: Seq<char>) -> bool {
    exists|i: int| 0 <= i < s.len() && 'A' <= #[trigger] s[i] <= 'Z'
}

/// The ASCII letters and digits of a text, with one dash wherever other
/// characters stand between or behind them.
pub open spec fn dashed(s: Seq<char>) -> Seq<char>
    decreases s.len(),
{
    if s.len() == 0 {
        Seq::empty()
    } else {
        let before = dashed(s.drop_last());
        if is_ascii_alphanumeric(s.last()) {
            before.push(s.last())
        } else if before.len() > 0 && before.last() != '-' {
            before.push('-')
        } else {
            before
        }
    }
}

pub open spec fn is_dash(c: char) -> bool {
    c == '-'
}

fn dash(c: char) -> (r: bool)
    ensures
        r == is_dash(c),
{
    c == '-'
}

/// The slug that a name in lower case asks for, before anything is taken.
pub open spec fn slug_base(lower: Seq<char>) -> Seq<char> {
    let core = trim_end(trim_start(dashed(lower), |c: char| is_dash(c)), |c: char| is_dash(c));
    if core.len() == 0 {
        "perfil"@
    } else {
        core
    }
}

/// A slug with a number behind it.
pub open spec fn numbered(base: Seq<char>, n: nat) -> Seq<char> {
    base.push('-') + decimal(n)
}

/// The least number from `n` on that makes a slug nobody has. It is found among
/// the first `taken.len() + 1` numbers from 2 on.
pub open spec fn least_free(base: Seq<char>, taken: Seq<Seq<char>>, n: nat) -> nat
    decreases taken.len() + 2 - n,
{
    if !taken.contains(numbered(base, n)) || n >= taken.len() + 2 {
        n
    } else {
        least_free(base, taken, n + 1)
    }
}

/// The slug for a name in lower case beside the slugs that are taken.
pub open spec fn slug_from(lower: Seq<char>, taken: Seq<Seq<char>>) -> Seq<char> {
    let base = slug_base(lower);
    if !taken.contains(base) {
        base
    } else {
        numbered(base, least_free(base, taken, 2))
    }
}

/// The slug for a name beside the slugs that are taken.
pub open spec fn slug_of(name: Seq<char>, taken: Seq<Seq<char>>) -> Seq<char> {
    slug_from(lowered(name), taken)
}

/// A text that leads to no other directory when it names one: lower case ASCII
/// letters, digits and dashes, with no dash at either end. Some systems reserve a
/// few such texts for devices.
pub open spec fn is_slug(s: Seq<char>) -> bool {
    &&& s.len() > 0
    &&& s.first() != '-'
    &&& s.last() != '-'
    &&& forall|i: int|
        0 <= i < s.len() ==> {
            ||| 'a' <= #[trigger] s[i] <= 'z'
            ||| is_ascii_digit(s[i])
            ||| s[i] == '-'
        }
}

// ---------------------------------------------------------------------------
// Facts about slugs
// ---------------------------------------------------------------------------

/// As many numbered slugs as there are taken ones, and one more, cannot all be
/// taken.
proof fn lemma_taken_run_is_short(base: Seq<char>, taken: Seq<Seq<char>>, n: nat)
    requires
        forall|m: nat| 2 <= m < n ==> taken.contains(#[trigger] numbered(base, m)),
        n >= 2,
    ensures
        n <= taken.len() + 2,
{
    let run = Seq::new((n - 2) as nat, |i: int| numbered(base, (i + 2) as nat));
    assert forall|i: int, j: int| 0 <= i < run.len() && 0 <= j < run.len() && i != j implies run[i]
        != run[j] by {
        let a = (i + 2) as nat;
        let b = (j + 2) as nat;
        if numbered(base, a) == numbered(base, b) {
            assert(numbered(base, a).skip((base.len() + 1) as int) =~= decimal(a));
            assert(numbered(base, b).skip((base.len() + 1) as int) =~= decimal(b));
            law_decimal_is_injective(a, b);
        }
    }
    run.unique_seq_to_set();
    taken.lemma_cardinality_of_set();
    assert(run.to_set().subset_of(taken.to_set())) by {
        assert forall|s: Seq<char>| run.to_set().contains(s) implies taken.to_set().contains(s) by {
            let i = choose|i: int| 0 <= i < run.len() && run[i] == s;
            assert(taken.contains(numbered(base, (i + 2) as nat)));
        }
    }
    vstd::set_lib::lemma_len_subset(run.to_set(), taken.to_set());
}

/// `least_free` is the least free number.
pub proof fn lemma_least_free(base: Seq<char>, taken: Seq<Seq<char>>, n: nat)
    requires
        2 <= n <= taken.len() + 2,
        forall|m: nat| 2 <= m < n ==> taken.contains(#[trigger] numbered(base, m)),
    ensures
        n <= least_free(base, taken, n) <= taken.len() + 2,
        !taken.contains(numbered(base, least_free(base, taken, n))),
        forall|m: nat|
            2 <= m < least_free(base, taken, n) ==> taken.contains(#[trigger] numbered(base, m)),
    decreases taken.len() + 2 - n,
{
    if taken.contains(numbered(base, n)) {
        lemma_taken_run_is_short(base, taken, n + 1);
        lemma_least_free(base, taken, n + 1);
    }
}

proof fn lemma_dashed_shape(s: Seq<char>)
    ensures
        dashed(s).len() > 0 ==> dashed(s).first() != '-',
        forall|i: int|
            0 <= i < dashed(s).len() ==> is_ascii_alphanumeric(#[trigger] dashed(s)[i]) || dashed(
                s,
            )[i] == '-',
        !has_ascii_capital(s) ==> !has_ascii_capital(dashed(s)),
    decreases s.len(),
{
    if s.len() > 0 {
        lemma_dashed_shape(s.drop_last());
        if !has_ascii_capital(s) {
            assert forall|i: int| 0 <= i < s.drop_last().len() implies !('A'
                <= #[trigger] s.drop_last()[i] <= 'Z') by {
                assert(!('A' <= s[i] <= 'Z'));
            }
            assert(!('A' <= s[s.len() - 1] <= 'Z'));
            assert forall|i: int| 0 <= i < dashed(s).len() implies !('A' <= #[trigger] dashed(s)[i]
                <= 'Z') by {
                let before = dashed(s.drop_last());
                if i < before.len() {
                    assert(dashed(s)[i] == before[i]);
                }
            }
        }
    }
}

/// A name without ASCII capitals gives a base of that form.
pub proof fn lemma_base_is_slug(lower: Seq<char>)
    requires
        !has_ascii_capital(lower),
    ensures
        is_slug(slug_base(lower)),
{
    let p = |c: char| is_dash(c);
    let d = dashed(lower);
    let a = trim_start(d, p);
    let b = trim_end(a, p);
    lemma_dashed_shape(lower);
    lemma_trim_ends(d, p);
    lemma_trim_ends(a, p);
    assert(a == d);
    if b.len() > 0 {
        assert forall|i: int| 0 <= i < b.len() implies ('a' <= #[trigger] b[i] <= 'z'
            || is_ascii_digit(b[i]) || b[i] == '-') by {
            assert(b[i] == d[i]);
            assert(!('A' <= d[i] <= 'Z'));
        }
    } else {
        reveal_strlit("perfil");
    }
}

/// The ASCII letters and digits of a text, in their order.
pub open spec fn letters_of(s: Seq<char>) -> Seq<char> {
    expanded(s, |c: char| own_letter(c))
}

pub open spec fn own_letter(c: char) -> Seq<char> {
    if is_ascii_alphanumeric(c) {
        seq![c]
    } else {
        Seq::empty()
    }
}

pub open spec fn has_double_dash(s: Seq<char>) -> bool {
    exists|i: int| 0 < i < s.len() && s[i - 1] == '-' && #[trigger] s[i] == '-'
}

proof fn lemma_letters_of_push(s: Seq<char>, c: char)
    ensures
        letters_of(s.push(c)) == letters_of(s) + own_letter(c),
{
    assert(s.push(c).drop_last() =~= s);
}

proof fn lemma_dashed_runs(s: Seq<char>)
    ensures
        !has_double_dash(dashed(s)),
        letters_of(dashed(s)) == letters_of(s),
    decreases s.len(),
{
    if s.len() > 0 {
        let before = dashed(s.drop_last());
        lemma_dashed_runs(s.drop_last());
        lemma_letters_of_push(before, s.last());
        lemma_letters_of_push(before, '-');
        assert(letters_of(s) == letters_of(s.drop_last()) + own_letter(s.last()));
        assert(letters_of(before) + Seq::<char>::empty() =~= letters_of(before));
        assert forall|i: int| 0 < i < dashed(s).len() implies !(dashed(s)[i - 1] == '-'
            && #[trigger] dashed(s)[i] == '-') by {
            if i < before.len() {
                assert(dashed(s)[i] == before[i] && dashed(s)[i - 1] == before[i - 1]);
            }
        }
    }
}

proof fn lemma_letters_of_trimmed(s: Seq<char>)
    ensures
        letters_of(trim_end(s, |c: char| is_dash(c))) == letters_of(s),
    decreases s.len(),
{
    if s.len() > 0 && is_dash(s.last()) {
        lemma_letters_of_trimmed(s.drop_last());
        assert(letters_of(s) =~= letters_of(s.drop_last()));
    }
}

/// The base of a slug is made of the runs of ASCII letters and digits of the name,
/// joined by one dash each: no two dashes stand side by side, none stands at an
/// end, and the letters and digits are those of the name in their order. A name
/// without any is called a profile.
pub proof fn law_base_joins_runs(lower: Seq<char>)
    ensures
        !has_double_dash(slug_base(lower)),
        slug_base(lower).len() > 0,
        slug_base(lower).first() != '-',
        slug_base(lower).last() != '-',
        letters_of(lower).len() > 0 ==> letters_of(slug_base(lower)) == letters_of(lower),
        letters_of(lower).len() == 0 ==> slug_base(lower) == "perfil"@,
{
    let p = |c: char| is_dash(c);
    let d = dashed(lower);
    let a = trim_start(d, p);
    let b = trim_end(a, p);
    lemma_dashed_shape(lower);
    lemma_dashed_runs(lower);
    lemma_trim_ends(d, p);
    lemma_trim_ends(a, p);
    assert(a == d);
    lemma_letters_of_trimmed(d);
    reveal_strlit("perfil");
    if b.len() == 0 {
        assert(letters_of(b) =~= Seq::<char>::empty());
    } else {
        assert(b.first() == d.first());
        assert(is_ascii_alphanumeric(b.last()));
        lemma_letters_of_push(b.drop_last(), b.last());
        assert(b.drop_last().push(b.last()) =~= b);
        assert forall|i: int| 0 < i < b.len() implies !(b[i - 1] == '-' && #[trigger] b[i]
            == '-') by {
            assert(d[i - 1] == b[i - 1] && d[i] == b[i]);
        }
    }
}

/// The slug for a name is one that nobody has.
pub proof fn law_slug_is_free(lower: Seq<char>, taken: Seq<Seq<char>>)
    ensures
        !taken.contains(slug_from(lower, taken)),
{
    let base = slug_base(lower);
    if taken.contains(base) {
        lemma_least_free(base, taken, 2);
    }
}

/// The slug for a name stays where it is put: whatever the name was, it holds no
/// separator and is no reference to another directory.
pub proof fn law_slug_is_safe(lower: Seq<char>, taken: Seq<Seq<char>>)
    requires
        !has_ascii_capital(lower),
    ensures
        is_slug(slug_from(lower, taken)),
{
    let base = slug_base(lower);
    lemma_base_is_slug(lower);
    if taken.contains(base) {
        let n = least_free(base, taken, 2);
        law_decimal_reads_back(n);
        let s = numbered(base, n);
        assert(s.first() == base.first());
        assert(s.last() == decimal(n).last());
        assert forall|i: int| 0 <= i < s.len() implies ('a' <= #[trigger] s[i] <= 'z'
            || is_ascii_digit(s[i]) || s[i] == '-') by {
            if i < base.len() {
                assert(s[i] == base[i]);
            } else if i > base.len() {
                assert(s[i] == decimal(n)[i - base.len() - 1]);
            }
        }
        assert(is_ascii_digit(decimal(n)[decimal(n).len() - 1]));
    }
}

// ---------------------------------------------------------------------------
// Making slugs
// ---------------------------------------------------------------------------

fn lower(name: &str) -> (r: Vec<char>)
    ensures
        r@ == lowered(name@),
        !has_ascii_capital(r@),
        lowers_as_ascii(name@),
{
    let chars = chars_of(name);
    let mut out: Vec<char> = Vec::new();
    assert(ascii_lowercased(name@.take(0)) =~= Seq::<char>::empty());
    for i in 0..chars.len()
        invariant
            chars@ == name@,
            out@ == lowered(name@.take(i as int)),
            !has_ascii_capital(out@),
            lowers_as_ascii(name@.take(i as int)),
    {
        let mut part = lowercase(chars[i]);
        let ghost before = out@;
        let ghost added = part@;
        out.append(&mut part);
        assert(name@.take(i + 1).drop_last() =~= name@.take(i as int));
        proof {
            if all_ascii(name@.take(i + 1)) {
                let longer = name@.take(i + 1);
                assert forall|k: int| 0 <= k < i implies #[trigger] name@.take(i as int)[k]
                    <= '\u{7f}' by {
                    assert(longer[k] <= '\u{7f}');
                }
                assert(longer[i as int] <= '\u{7f}');
                assert(ascii_lowercased(longer) =~= ascii_lowercased(name@.take(i as int)).push(
                    ascii_lower(name@[i as int]),
                ));
                assert(out@ =~= ascii_lowercased(longer));
            }
        }
        assert forall|k: int| 0 <= k < out@.len() implies !('A' <= #[trigger] out@[k] <= 'Z') by {
            if k < before.len() {
                assert(out@[k] == before[k]);
            } else {
                assert(out@[k] == added[k - before.len()]);
            }
        }
    }
    assert(name@.take(name@.len() as int) =~= name@);
    out
}

/// Whether a profile has the given slug.
pub fn is_taken(slug: &str, taken: &[Profile]) -> (r: bool)
    ensures
        r == slugs_of(profile_views(taken@)).contains(slug@),
{
    for i in 0..taken.len()
        invariant
            forall|j: int| 0 <= j < i ==> slugs_of(profile_views(taken@))[j] != slug@,
    {
        assert(slugs_of(profile_views(taken@))[i as int] == taken@[i as int].slug@);
        if str_eq(taken[i].slug.as_str(), slug) {
            return true;
        }
    }
    false
}

fn dash_together(lower: &[char]) -> (r: Vec<char>)
    ensures
        r@ == dashed(lower@),
{
    let mut slug: Vec<char> = Vec::new();
    let mut last_dash = true;
    for i in 0..lower.len()
        invariant
            slug@ == dashed(lower@.take(i as int)),
            last_dash == (slug@.len() == 0 || slug@.last() == '-'),
    {
        let c = lower[i];
        assert(lower@.take(i + 1).drop_last() =~= lower@.take(i as int));
        if ascii_alphanumeric(c) {
            slug.push(c);
            last_dash = false;
        } else if !last_dash {
            slug.push('-');
            last_dash = true;
        }
    }
    assert(lower@.take(lower@.len() as int) =~= lower@);
    slug
}

/// The slug for a name that is already in lower case.
pub fn slugify_lowered(lower: &[char], taken: &[Profile]) -> (r: String)
    ensures
        r@ == slug_from(lower@, slugs_of(profile_views(taken@))),
{
    let slug = dash_together(lower);
    let ghost p = |c: char| is_dash(c);
    let from = start_without(slug.as_slice(), dash, Ghost(p));
    let to = end_without(slug.as_slice(), from, dash, Ghost(p));
    let core = substring(slug.as_slice(), from, to);
    let base = if core.as_str().is_empty() {
        "perfil".to_string()
    } else {
        core
    };
    assert(base@ == slug_base(lower@));

    if !is_taken(base.as_str(), taken) {
        return base;
    }
    let ghost slugs = slugs_of(profile_views(taken@));
    let count: usize = taken.len();
    let mut n: u128 = 2;
    proof {
        lemma_least_free(base@, slugs, 2);
    }
    loop
        invariant
            base@ == slug_base(lower@),
            slugs == slugs_of(profile_views(taken@)),
            slugs.contains(base@),
            slugs.len() == count,
            2 <= n <= slugs.len() + 2,
            forall|m: nat| 2 <= m < n ==> slugs.contains(#[trigger] numbered(base@, m)),
            least_free(base@, slugs, 2) == least_free(base@, slugs, n as nat),
        decreases slugs.len() + 2 - n,
    {
        let mut candidate = base.clone();
        candidate.push('-');
        let digits = to_decimal(n);
        candidate.append(digits.as_str());
        if !is_taken(candidate.as_str(), taken) {
            return candidate;
        }
        proof {
            assert forall|m: nat| 2 <= m < n + 1 implies slugs.contains(
                #[trigger] numbered(base@, m),
            ) by {
                if m == n {
                    assert(candidate@ == numbered(base@, m));
                }
            }
            lemma_taken_run_is_short(base@, slugs, (n + 1) as nat);
        }
        n = n + 1;
    }
}

/// The slug for a name: its ASCII letters and digits in lower case with dashes
/// between them, and a number behind where another profile has that slug.
pub fn slugify(name: &str, taken: &[Profile]) -> (r: String)
    ensures
        r@ == slug_of(name@, slugs_of(profile_views(taken@))),
        is_slug(r@),
        !slugs_of(profile_views(taken@)).contains(r@),
        lowers_as_ascii(name@),
{
    let lower = lower(name);
    proof {
        law_slug_is_free(lower@, slugs_of(profile_views(taken@)));
        law_slug_is_safe(lower@, slugs_of(profile_views(taken@)));
    }
    slugify_lowered(lower.as_slice(), taken)
}

// ---------------------------------------------------------------------------
// Laws of the form of a slug
// ---------------------------------------------------------------------------

/// A name is lowered character by character.
pub proof fn law_lowering_goes_by_characters(a: Seq<char>, b: Seq<char>, c: char)
    ensures
        lowered(a + b) == lowered(a) + lowered(b),
        lowered(seq![c]) == lowercase_of(c),
        lowered(Seq::<char>::empty()).len() == 0,
{
    law_expansion_goes_by_characters(a, b, c, |c: char| lowercase_of(c));
}

/// What begins with a letter or a digit is dashed apart from what comes before it.
proof fn lemma_dashed_joins(a: Seq<char>, b: Seq<char>)
    requires
        b.len() > 0,
        is_ascii_alphanumeric(b[0]),
    ensures
        dashed(a + b) == dashed(a) + dashed(b),
        dashed(b).len() > 0,
        dashed(b)[0] == b[0],
    decreases b.len(),
{
    let s = a + b;
    assert(s.last() == b.last());
    assert(s.drop_last() =~= a + b.drop_last());
    if b.len() == 1 {
        assert(b.drop_last() =~= Seq::<char>::empty());
        assert(dashed(b.drop_last()) =~= Seq::<char>::empty());
        assert(s.drop_last() =~= a);
        assert(dashed(s) =~= dashed(a) + dashed(b));
    } else {
        lemma_dashed_joins(a, b.drop_last());
        let x = dashed(a);
        let y = dashed(b.drop_last());
        assert((x + y).last() == y.last());
        assert((x + y).push(b.last()) =~= x + y.push(b.last()));
        assert((x + y).push('-') =~= x + y.push('-'));
    }
}

/// Other characters behind a letter or a digit leave one dash, and at the beginning
/// nothing.
proof fn lemma_dashed_gap(a: Seq<char>, gap: Seq<char>)
    requires
        gap.len() > 0,
        forall|i: int| 0 <= i < gap.len() ==> !is_ascii_alphanumeric(#[trigger] gap[i]),
        a.len() == 0 || is_ascii_alphanumeric(a[a.len() - 1]),
    ensures
        a.len() > 0 ==> dashed(a + gap) == dashed(a).push('-'),
        a.len() == 0 ==> dashed(a + gap).len() == 0,
    decreases gap.len(),
{
    let s = a + gap;
    assert(s.last() == gap[gap.len() - 1]);
    assert(s.drop_last() =~= a + gap.drop_last());
    if gap.len() == 1 {
        assert(s.drop_last() =~= a);
        if a.len() > 0 {
            assert(dashed(a).last() == a.last());
        } else {
            assert(dashed(a).len() == 0);
        }
    } else {
        assert forall|i: int| 0 <= i < gap.drop_last().len() implies !is_ascii_alphanumeric(
            #[trigger] gap.drop_last()[i],
        ) by {
            assert(!is_ascii_alphanumeric(gap[i]));
        }
        lemma_dashed_gap(a, gap.drop_last());
    }
}

proof fn lemma_base_is_dashed(s: Seq<char>)
    requires
        s.len() > 0,
        is_ascii_alphanumeric(s[s.len() - 1]),
    ensures
        slug_base(s) == dashed(s),
        dashed(s).len() > 0,
        is_ascii_alphanumeric(dashed(s).last()),
{
    lemma_dashed_shape(s);
    assert(dashed(s).last() == s.last());
}

proof fn lemma_trim_end_behind(head: Seq<char>, t: Seq<char>, p: spec_fn(char) -> bool)
    requires
        t.len() > 0,
        !p(t[0]),
    ensures
        trim_end(head + t, p) == head + trim_end(t, p),
        trim_end(t, p).len() > 0,
    decreases t.len(),
{
    let s = head + t;
    assert(s.last() == t.last());
    if p(t.last()) {
        assert(s.drop_last() =~= head + t.drop_last());
        lemma_trim_end_behind(head, t.drop_last(), p);
    }
}

/// A name of ASCII letters and digits alone is its own base, all of it.
pub proof fn law_run_is_its_own_base(run: Seq<char>)
    requires
        run.len() > 0,
        forall|i: int| 0 <= i < run.len() ==> is_ascii_alphanumeric(#[trigger] run[i]),
    ensures
        slug_base(run) == run,
{
    lemma_run_is_dashed(run);
    lemma_base_is_dashed(run);
}

proof fn lemma_run_is_dashed(run: Seq<char>)
    requires
        forall|i: int| 0 <= i < run.len() ==> is_ascii_alphanumeric(#[trigger] run[i]),
    ensures
        dashed(run) == run,
    decreases run.len(),
{
    if run.len() > 0 {
        assert forall|i: int| 0 <= i < run.drop_last().len() implies is_ascii_alphanumeric(
            #[trigger] run.drop_last()[i],
        ) by {
            assert(is_ascii_alphanumeric(run[i]));
        }
        lemma_run_is_dashed(run.drop_last());
        assert(is_ascii_alphanumeric(run[run.len() - 1]));
        assert(run.drop_last().push(run.last()) =~= run);
    } else {
        assert(dashed(run) =~= run);
    }
}

/// Whatever stands between two letters or digits and is neither becomes one dash, and
/// the two sides are made on their own.
pub proof fn law_gap_becomes_one_dash(a: Seq<char>, gap: Seq<char>, b: Seq<char>)
    requires
        a.len() > 0,
        is_ascii_alphanumeric(a[a.len() - 1]),
        gap.len() > 0,
        forall|i: int| 0 <= i < gap.len() ==> !is_ascii_alphanumeric(#[trigger] gap[i]),
        b.len() > 0,
        is_ascii_alphanumeric(b[0]),
    ensures
        slug_base(a + gap + b) == slug_base(a) + seq!['-'] + slug_base(b),
{
    let p = |c: char| is_dash(c);
    let s = a + gap + b;
    lemma_dashed_gap(a, gap);
    lemma_dashed_joins(a + gap, b);
    lemma_dashed_joins(Seq::empty(), b);
    lemma_base_is_dashed(a);
    lemma_dashed_shape(s);
    lemma_dashed_shape(b);
    let head = dashed(a).push('-');
    let t = dashed(b);
    assert(dashed(s) == head + t);
    lemma_trim_end_behind(head, t, p);
    lemma_trim_ends(dashed(s), p);
    assert(trim_start(dashed(s), p) == dashed(s));
    assert(trim_start(t, p) == t);
    assert(head + trim_end(t, p) =~= dashed(a) + seq!['-'] + trim_end(t, p));
}

/// What stands around the letters and digits of a name leaves nothing.
pub proof fn law_ends_leave_nothing(before: Seq<char>, core: Seq<char>, after: Seq<char>)
    requires
        forall|i: int| 0 <= i < before.len() ==> !is_ascii_alphanumeric(#[trigger] before[i]),
        forall|i: int| 0 <= i < after.len() ==> !is_ascii_alphanumeric(#[trigger] after[i]),
        core.len() > 0,
        is_ascii_alphanumeric(core[0]),
        is_ascii_alphanumeric(core[core.len() - 1]),
    ensures
        slug_base(before + core + after) == slug_base(core),
{
    let p = |c: char| is_dash(c);
    let empty = Seq::<char>::empty();
    let front = before + core;
    let s = front + after;
    if before.len() > 0 {
        lemma_dashed_gap(empty, before);
        assert(empty + before =~= before);
    } else {
        assert(before =~= empty);
    }
    assert(dashed(before) =~= empty);
    lemma_dashed_joins(before, core);
    assert(empty + dashed(core) =~= dashed(core));
    lemma_base_is_dashed(core);
    lemma_base_is_dashed(front);
    if after.len() > 0 {
        lemma_dashed_gap(front, after);
        lemma_dashed_shape(s);
        let d = dashed(s);
        assert(d.first() == dashed(front).first());
        assert(trim_start(d, p) == d);
        assert(d.drop_last() =~= dashed(front));
        assert(trim_end(d, p) == trim_end(d.drop_last(), p));
        assert(trim_end(dashed(front), p) == dashed(front));
    } else {
        assert(s =~= front);
    }
}

/// A slug that nobody has is the base itself; where somebody has it, the least number
/// from 2 on that makes a free one goes behind a dash.
pub proof fn law_taken_slug_gets_the_least_number(lower: Seq<char>, taken: Seq<Seq<char>>)
    ensures
        !taken.contains(slug_base(lower)) ==> slug_from(lower, taken) == slug_base(lower),
        taken.contains(slug_base(lower)) ==> exists|n: nat|
            n >= 2 && slug_from(lower, taken) == slug_base(lower) + seq!['-'] + #[trigger] decimal(
                n,
            ) && !taken.contains(slug_base(lower) + seq!['-'] + decimal(n)) && forall|m: nat|
                2 <= m < n ==> taken.contains(slug_base(lower) + seq!['-'] + #[trigger] decimal(m)),
{
    let base = slug_base(lower);
    if taken.contains(base) {
        lemma_least_free(base, taken, 2);
        let n = least_free(base, taken, 2);
        assert forall|m: nat| #![trigger decimal(m)] numbered(base, m) == base + seq!['-']
            + decimal(m) by {
            assert(base.push('-') =~= base + seq!['-']);
        }
        assert forall|m: nat| 2 <= m < n implies taken.contains(
            base + seq!['-'] + #[trigger] decimal(m),
        ) by {
            assert(taken.contains(numbered(base, m)));
        }
        assert(slug_from(lower, taken) == base + seq!['-'] + decimal(n));
    }
}

/// The slug for a name is that for its lower case.
pub proof fn law_slug_goes_by_lower_case(name: Seq<char>, taken: Seq<Seq<char>>)
    ensures
        slug_of(name, taken) == slug_from(lowered(name), taken),
{
}

} // verus!
