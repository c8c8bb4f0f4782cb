//! File names: their extensions and their stems, and the name that a file is saved
//! under where its extension was left out.

use crate::text::{
    chars_of, end_without, ends_with, lemma_trim_end_off, lemma_trim_ends, str_text, substring,
    text_of, trim_end,
};
use vstd::prelude::*;

verus! {

/// The position of the last dot, and -1 where there is none.
pub open spec fn last_dot(s: Seq<char>) -> int
    decreases s.len(),
{
    if s.len() == 0 {
        -1
    } else if s.last() == '.' {
        s.len() - 1
    } else {
        last_dot(s.drop_last())
    }
}

/// A name that a file can have.
pub open spec fn is_file_name(s: Seq<char>) -> bool {
    s.len() > 0 && s != seq!['.'] && s != seq!['.', '.']
}

/// The extension of a file name: what stands behind its last dot, unless that dot
/// comes first.
pub open spec fn extension_of(name: Seq<char>) -> Option<Seq<char>> {
    if last_dot(name) <= 0 {
        None
    } else {
        Some(name.skip(last_dot(name) + 1))
    }
}

/// A file name without its extension.
pub open spec fn stem_of(name: Seq<char>) -> Seq<char> {
    if last_dot(name) <= 0 {
        name
    } else {
        name.take(last_dot(name))
    }
}

/// An extension that says something.
pub open spec fn says_something(ext: Option<Seq<char>>) -> bool {
    ext is Some && ext->0.len() > 0
}

/// The extension of a file name, unless it is empty.
pub open spec fn spoken_extension(file: Seq<char>) -> Option<Seq<char>> {
    if says_something(extension_of(file)) {
        extension_of(file)
    } else {
        None
    }
}

pub open spec fn is_dot_or_space(c: char) -> bool {
    c == '.' || c == ' '
}

fn dot_or_space(c: char) -> (r: bool)
    ensures
        r == is_dot_or_space(c),
{
    c == '.' || c == ' '
}

/// A name without the dots and spaces at its end, which some systems drop.
pub open spec fn tidied(name: Seq<char>) -> Seq<char> {
    trim_end(name, |c: char| is_dot_or_space(c))
}

/// A file name whose first character is part of its stem, whatever comes before
/// the name.
pub open spec fn begins_plainly(file: Seq<char>) -> bool {
    file.len() > 0 && !is_dot_or_space(file.first())
}

/// The tidied name of a file that lacks the extension that it came with. A file
/// without a name, or with an extension of its own, lacks none.
pub open spec fn name_without_extension(
    file_name: Option<Seq<char>>,
    ext: Option<Seq<char>>,
) -> Option<Seq<char>> {
    if !says_something(ext) || file_name is None || says_something(extension_of(file_name->0))
        || tidied(file_name->0).len() == 0 {
        None
    } else {
        Some(tidied(file_name->0))
    }
}

/// A name with an extension in place of its own.
pub open spec fn with_extension(name: Seq<char>, ext: Seq<char>) -> Seq<char> {
    stem_of(name).push('.') + ext
}

/// The name that a file gets in place of the one that was chosen, where it gets
/// another.
pub open spec fn renamed(file_name: Option<Seq<char>>, ext: Option<Seq<char>>) -> Option<Seq<char>> {
    match name_without_extension(file_name, ext) {
        Some(clean) => Some(with_extension(clean, ext->0)),
        None => None,
    }
}

/// The name under which a file is saved for a bare name that was chosen.
pub open spec fn kept_name(selected: Seq<char>, ext: Option<Seq<char>>) -> Seq<char> {
    let file_name = if is_file_name(selected) {
        Some(selected)
    } else {
        None
    };
    match renamed(file_name, ext) {
        Some(name) => name,
        None => selected,
    }
}

/// A path with an extension in place of that of its file name. A path without a
/// file name at its end gets none.
pub open spec fn path_with_extension(
    path: Seq<char>,
    file_name: Option<Seq<char>>,
    ext: Seq<char>,
) -> Seq<char> {
    if file_name is Some && file_name->0.is_suffix_of(path) {
        path.take(path.len() - file_name->0.len()) + with_extension(file_name->0, ext)
    } else {
        path
    }
}

fn find_last_dot(chars: &[char], to: usize) -> (r: Option<usize>)
    requires
        to <= chars@.len(),
    ensures
        match r {
            Some(k) => k < to && last_dot(chars@.take(to as int)) == k,
            None => last_dot(chars@.take(to as int)) == -1,
        },
{
    let mut k: usize = to;
    while k > 0
        invariant
            k <= to <= chars@.len(),
            last_dot(chars@.take(to as int)) == last_dot(chars@.take(k as int)),
        decreases k,
    {
        assert(chars@.take(k as int).drop_last() =~= chars@.take(k - 1));
        if chars[k - 1] == '.' {
            return Some(k - 1);
        }
        k = k - 1;
    }
    None
}

/// The extension of a file name.
pub fn extension(file_name: &str) -> (r: Option<String>)
    ensures
        text_of(r) == extension_of(file_name@),
{
    let chars = chars_of(file_name);
    assert(chars@.take(chars@.len() as int) =~= chars@);
    match find_last_dot(chars.as_slice(), chars.len()) {
        Some(k) => if k > 0 {
            let ext = substring(chars.as_slice(), k + 1, chars.len());
            assert(ext@ =~= file_name@.skip(k + 1));
            Some(ext)
        } else {
            None
        },
        None => None,
    }
}

/// The tidied name of a file that lacks the extension that it came with.
pub fn clean_file_name(file_name: Option<&str>, original_ext: Option<&str>) -> (r: Option<String>)
    ensures
        text_of(r) == name_without_extension(str_text(file_name), str_text(original_ext)),
{
    let ext = match original_ext {
        Some(ext) => ext,
        None => {
            return None;
        },
    };
    if ext.is_empty() {
        return None;
    }
    let file_name = match file_name {
        Some(file_name) => file_name,
        None => {
            return None;
        },
    };
    let typed = extension(file_name);
    match typed {
        Some(typed) => if !typed.as_str().is_empty() {
            return None;
        },
        None => {},
    }
    let chars = chars_of(file_name);
    let ghost p = |c: char| is_dot_or_space(c);
    let to = end_without(chars.as_slice(), 0, dot_or_space, Ghost(p));
    assert(chars@.skip(0) =~= chars@);
    if to == 0 {
        return None;
    }
    Some(substring(chars.as_slice(), 0, to))
}

/// A path with an extension in place of that of its file name.
pub fn extend_path(path: &str, file_name: Option<&str>, ext: &str) -> (r: String)
    ensures
        r@ == path_with_extension(path@, str_text(file_name), ext@),
{
    let name = match file_name {
        Some(name) => name,
        None => {
            return path.to_string();
        },
    };
    if !ends_with(path, name) {
        return path.to_string();
    }
    let chars = chars_of(name);
    assert(chars@.take(chars@.len() as int) =~= chars@);
    let stem_end: usize = match find_last_dot(chars.as_slice(), chars.len()) {
        Some(k) => if k > 0 {
            k
        } else {
            chars.len()
        },
        None => chars.len(),
    };
    let stem = substring(chars.as_slice(), 0, stem_end);
    assert(stem@ =~= stem_of(name@));
    let all = chars_of(path);
    let mut r = substring(all.as_slice(), 0, all.len() - chars.len());
    let ghost before = r@;
    r.append(stem.as_str());
    r.push('.');
    r.append(ext);
    assert(before =~= path@.take(path@.len() - name@.len()));
    assert(r@ =~= before + with_extension(name@, ext@));
    r
}

// ---------------------------------------------------------------------------
// Facts about names
// ---------------------------------------------------------------------------

pub proof fn lemma_last_dot(s: Seq<char>)
    ensures
        -1 <= last_dot(s) < s.len(),
        last_dot(s) >= 0 ==> s[last_dot(s)] == '.',
        forall|i: int| last_dot(s) < i < s.len() ==> #[trigger] s[i] != '.',
    decreases s.len(),
{
    if s.len() > 0 && s.last() != '.' {
        lemma_last_dot(s.drop_last());
        assert forall|i: int| last_dot(s) < i < s.len() implies #[trigger] s[i] != '.' by {
            if i < s.len() - 1 {
                assert(s.drop_last()[i] == s[i]);
            }
        }
    }
}

/// The position of the last dot, found from the end.
pub proof fn lemma_dot_is_last(s: Seq<char>, d: int)
    requires
        0 <= d < s.len(),
        s[d] == '.',
        forall|i: int| d < i < s.len() ==> s[i] != '.',
    ensures
        last_dot(s) == d,
{
    lemma_last_dot(s);
}

/// No dot stands in an extension, and it holds no character that its name lacks.
pub proof fn lemma_extension_chars(name: Seq<char>)
    requires
        extension_of(name) is Some,
    ensures
        !extension_of(name)->0.contains('.'),
        forall|c: char| #[trigger]
            extension_of(name)->0.contains(c) ==> name.contains(c),
{
    lemma_last_dot(name);
    let ext = extension_of(name)->0;
    assert forall|c: char| #[trigger] ext.contains(c) implies name.contains(c) && c != '.' by {
        let i = choose|i: int| 0 <= i < ext.len() && ext[i] == c;
        assert(name[last_dot(name) + 1 + i] == c);
    }
}

pub proof fn lemma_last_dot_behind(head: Seq<char>, file: Seq<char>)
    requires
        !head.contains('.'),
    ensures
        last_dot(head + file) == if last_dot(file) >= 0 {
            head.len() + last_dot(file)
        } else {
            -1
        },
{
    let s = head + file;
    lemma_last_dot(s);
    lemma_last_dot(file);
    let d = last_dot(s);
    if last_dot(file) >= 0 {
        assert(s[head.len() + last_dot(file)] == '.');
        assert forall|i: int| head.len() + last_dot(file) < i < s.len() implies s[i] != '.' by {
            assert(s[i] == file[i - head.len()]);
        }
        lemma_dot_is_last(s, head.len() + last_dot(file));
    } else if d >= 0 {
        if d < head.len() {
            assert(head[d] == '.');
        } else {
            assert(file[d - head.len()] == '.');
        }
    }
}

pub proof fn lemma_tidied_behind(head: Seq<char>, file: Seq<char>)
    requires
        begins_plainly(file),
    ensures
        tidied(head + file) == head + tidied(file),
        begins_plainly(tidied(file)),
    decreases file.len(),
{
    let s = head + file;
    assert(s.last() == file.last());
    if is_dot_or_space(file.last()) {
        assert(file.drop_last().first() == file.first());
        assert(s.drop_last() =~= head + file.drop_last());
        lemma_tidied_behind(head, file.drop_last());
    }
}

/// What stands before a file name without a dot of its own does not change the
/// extension.
pub proof fn lemma_extension_behind(head: Seq<char>, file: Seq<char>)
    requires
        begins_plainly(file),
        !head.contains('.'),
    ensures
        extension_of(head + file) == extension_of(file),
{
    lemma_last_dot(file);
    lemma_last_dot_behind(head, file);
    if extension_of(file) is Some {
        assert(extension_of(head + file)->0 =~= extension_of(file)->0);
    }
}

/// What stands before a file name without a dot of its own stays before the new
/// name.
pub proof fn lemma_renamed_behind(head: Seq<char>, file: Seq<char>, ext: Option<Seq<char>>)
    requires
        begins_plainly(file),
        !head.contains('.'),
    ensures
        renamed(Some(head + file), ext) == match renamed(Some(file), ext) {
            Some(name) => Some(head + name),
            None => None,
        },
{
    let found = head + file;
    lemma_extension_behind(head, file);
    lemma_tidied_behind(head, file);
    let clean = tidied(file);
    lemma_last_dot(clean);
    lemma_last_dot_behind(head, clean);
    assert(stem_of(head + clean) =~= head + stem_of(clean));
    if renamed(Some(file), ext) is Some {
        let name = renamed(Some(file), ext)->0;
        assert(renamed(Some(found), ext)->0 =~= head + name);
    }
}

/// The end of a text is tidied as the text is.
pub proof fn lemma_tidied_end(s: Seq<char>, end: Seq<char>)
    requires
        end.is_suffix_of(s),
        tidied(end).len() > 0,
    ensures
        tidied(s).len() > 0,
        tidied(s).last() == tidied(end).last(),
    decreases end.len(),
{
    assert(s.subrange(s.len() - end.len(), s.len() as int)[end.len() - 1] == end[end.len() - 1]);
    assert(s.last() == end.last());
    if is_dot_or_space(end.last()) {
        assert(end.drop_last().is_suffix_of(s.drop_last())) by {
            let a = s.drop_last();
            let b = end.drop_last();
            assert(a.subrange(a.len() - b.len(), a.len() as int) =~= s.subrange(
                s.len() - end.len(),
                s.len() as int,
            ).drop_last());
        }
        lemma_tidied_end(s.drop_last(), end.drop_last());
    }
}

/// A tidied name is the beginning of the name, and ends in no dot.
pub proof fn lemma_tidied(name: Seq<char>)
    ensures
        tidied(name).len() <= name.len(),
        tidied(name) == name.take(tidied(name).len() as int),
        tidied(name).len() > 0 ==> !is_dot_or_space(tidied(name).last()),
        tidied(name).len() > 0 ==> is_file_name(tidied(name)),
{
    let p = |c: char| is_dot_or_space(c);
    lemma_trim_ends(name, p);
    let clean = tidied(name);
    if clean.len() > 0 {
        assert(!p(clean.last()));
        let one = seq!['.'];
        let two = seq!['.', '.'];
        assert(one.last() == '.' && two.last() == '.');
    }
}

/// A file name that ends otherwise than in a dot and has no extension has no dot
/// in its tidied form but at its beginning.
pub proof fn lemma_whole_stem(file: Seq<char>)
    requires
        file.len() > 0,
        file.last() != '.',
        !says_something(extension_of(file)),
    ensures
        last_dot(tidied(file)) <= 0,
        stem_of(tidied(file)) == tidied(file),
{
    let clean = tidied(file);
    lemma_tidied(file);
    lemma_last_dot(file);
    lemma_last_dot(clean);
    assert(last_dot(file) <= 0) by {
        if last_dot(file) > 0 {
            assert(extension_of(file)->0.len() == 0);
        }
    }
    if last_dot(clean) > 0 {
        assert(clean[last_dot(clean)] == file[last_dot(clean)]);
    }
}

/// A name with an extension of its own begins as the name does.
pub proof fn lemma_with_extension(name: Seq<char>, ext: Seq<char>)
    requires
        name.len() > 0,
    ensures
        0 < stem_of(name).len() <= name.len(),
        stem_of(name) == name.take(stem_of(name).len() as int),
        !ext.contains('.') ==> extension_of(with_extension(name, ext)) == Some(ext),
{
    lemma_last_dot(name);
    let stem = stem_of(name);
    assert(stem =~= name.take(stem.len() as int));
    if !ext.contains('.') {
        let new = with_extension(name, ext);
        assert forall|i: int| stem.len() < i < new.len() implies new[i] != '.' by {
            assert(ext[i - stem.len() - 1] == new[i]);
            assert(ext.contains(new[i]));
        }
        lemma_dot_is_last(new, stem.len() as int);
        assert(new.skip((stem.len() + 1) as int) =~= ext);
    }
}

/// A path that ends in a file name keeps what stands before it.
pub proof fn lemma_path_with_extension(before: Seq<char>, name: Seq<char>, ext: Seq<char>)
    ensures
        path_with_extension(before + name, Some(name), ext) == before + with_extension(name, ext),
{
    let path = before + name;
    assert(path.subrange(path.len() - name.len(), path.len() as int) =~= name);
    assert(path.take(path.len() - name.len()) =~= before);
}

/// A path that ends in a file name ends in the name with its extension.
pub proof fn lemma_path_ends_with_extension(path: Seq<char>, name: Seq<char>, ext: Seq<char>)
    requires
        name.is_suffix_of(path),
    ensures
        with_extension(name, ext).is_suffix_of(path_with_extension(path, Some(name), ext)),
{
    let before = path.take(path.len() - name.len());
    let new = with_extension(name, ext);
    assert((before + new).subrange(before.len() as int, (before + new).len() as int) =~= new);
}

// ---------------------------------------------------------------------------
// Laws of names
// ---------------------------------------------------------------------------

/// A file that gets another name gets the extension that it came with.
pub proof fn law_new_name_has_the_extension(file: Seq<char>, ext: Seq<char>)
    requires
        renamed(Some(file), Some(ext)) is Some,
        !ext.contains('.'),
    ensures
        extension_of(renamed(Some(file), Some(ext))->0) == Some(ext),
{
    lemma_with_extension(tidied(file), ext);
}

/// The extension that the user typed stays, whatever the file came with.
pub proof fn law_typed_extension_stays(file: Seq<char>, ext: Option<Seq<char>>)
    requires
        says_something(extension_of(file)),
    ensures
        renamed(Some(file), ext) is None,
        kept_name(file, ext) == file,
{
}

/// Saving under the name that a file was saved under changes nothing more.
pub proof fn law_kept_name_is_stable(selected: Seq<char>, ext: Option<Seq<char>>)
    requires
        ext matches Some(e) ==> !e.contains('.'),
    ensures
        kept_name(kept_name(selected, ext), ext) == kept_name(selected, ext),
{
    if kept_name(selected, ext) != selected {
        law_new_name_has_the_extension(selected, ext->0);
    }
}

/// The last dot of a name divides it: what stands behind it is the extension and what
/// stands before it the stem, unless nothing stands before it. A name without such a
/// dot is all stem.
pub proof fn law_last_dot_divides_a_name(stem: Seq<char>, ext: Seq<char>, name: Seq<char>)
    requires
        stem.len() > 0,
        forall|i: int| 0 <= i < ext.len() ==> #[trigger] ext[i] != '.',
    ensures
        extension_of(stem + seq!['.'] + ext) == Some(ext),
        stem_of(stem + seq!['.'] + ext) == stem,
        (forall|i: int| 0 < i < name.len() ==> #[trigger] name[i] != '.') ==> extension_of(
            name,
        ) is None && stem_of(name) == name,
{
    let s = stem + seq!['.'] + ext;
    let d = stem.len() as int;
    assert forall|i: int| d < i < s.len() implies s[i] != '.' by {
        assert(s[i] == ext[i - d - 1]);
    }
    lemma_dot_is_last(s, d);
    assert(s.skip(d + 1) =~= ext);
    assert(s.take(d) =~= stem);
    lemma_last_dot(name);
}

/// An extension that is empty says nothing, and any other does.
pub proof fn law_empty_extension_says_nothing(ext: Seq<char>)
    ensures
        !says_something(None),
        says_something(Some(ext)) <==> ext.len() > 0,
{
}

/// Tidying takes the dots and the spaces off the end of a name and nothing else.
pub proof fn law_tidying_takes_dots_and_spaces_off(name: Seq<char>, tail: Seq<char>)
    requires
        name.len() > 0 ==> name[name.len() - 1] != '.' && name[name.len() - 1] != ' ',
        forall|i: int| 0 <= i < tail.len() ==> #[trigger] tail[i] == '.' || tail[i] == ' ',
    ensures
        tidied(name + tail) == name,
{
    let p = |c: char| is_dot_or_space(c);
    assert forall|i: int| 0 <= i < tail.len() implies p(#[trigger] tail[i]) by {
        assert(tail[i] == '.' || tail[i] == ' ');
    }
    lemma_trim_end_off(name, tail, p);
}

/// A file lacks its extension where it came with one, has a name that is not all dots
/// and spaces, and has none of its own that says something; its name is then tidied.
pub proof fn law_file_lacks_its_extension(file: Seq<char>, ext: Seq<char>)
    ensures
        name_without_extension(None, Some(ext)) is None,
        name_without_extension(Some(file), None) is None,
        ext.len() == 0 ==> name_without_extension(Some(file), Some(ext)) is None,
        says_something(extension_of(file)) ==> name_without_extension(
            Some(file),
            Some(ext),
        ) is None,
        tidied(file).len() == 0 ==> name_without_extension(Some(file), Some(ext)) is None,
        ext.len() > 0 && !says_something(extension_of(file)) && tidied(file).len() > 0
            ==> name_without_extension(Some(file), Some(ext)) == Some(tidied(file)),
{
}

/// A path gets an extension behind the stem of the file name that ends it, and keeps
/// all that stands before that name. Without a file name at its end it stays as it is.
pub proof fn law_path_gets_an_extension(
    before: Seq<char>,
    name: Seq<char>,
    ext: Seq<char>,
    path: Seq<char>,
)
    ensures
        path_with_extension(before + name, Some(name), ext) == before + stem_of(name) + seq!['.']
            + ext,
        path_with_extension(path, None, ext) == path,
        !name.is_suffix_of(path) ==> path_with_extension(path, Some(name), ext) == path,
{
    lemma_path_with_extension(before, name, ext);
    assert(before + (stem_of(name).push('.') + ext) =~= before + stem_of(name) + seq!['.'] + ext);
}

/// A name that a file can have is any but the two that stand for directories.
pub proof fn law_names_of_files(name: Seq<char>)
    ensures
        is_file_name(name) <==> name.len() > 0 && !(name.len() <= 2 && forall|i: int|
            0 <= i < name.len() ==> #[trigger] name[i] == '.'),
{
    let one = seq!['.'];
    let two = seq!['.', '.'];
    assert(one[0] == '.' && two[0] == '.' && two[1] == '.');
    if 0 < name.len() <= 2 && forall|i: int| 0 <= i < name.len() ==> #[trigger] name[i] == '.' {
        assert(name[0] == '.');
        if name.len() == 1 {
            assert(name =~= one);
        } else {
            assert(name[1] == '.');
            assert(name =~= two);
        }
    }
}

} // verus!
