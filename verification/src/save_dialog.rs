//! Saving under a name that the user chose: the file keeps the kind it came with
//! where the user did not type one.
//!
//! Where the systems agree on a path the contracts say exactly where the file
//! goes: a bare file name, a file at a root, a path divided at backslashes alone.
//! For a file in a directory behind a slash the systems differ in the separator,
//! and for a path that mixes slashes and backslashes in more than that.

use crate::file_names::{
    begins_plainly, clean_file_name, extend_path, extension, extension_of, is_file_name, kept_name,
    last_dot, law_file_lacks_its_extension, law_kept_name_is_stable, law_last_dot_divides_a_name,
    law_names_of_files, law_new_name_has_the_extension, law_tidying_takes_dots_and_spaces_off,
    lemma_extension_behind, lemma_extension_chars, lemma_last_dot, lemma_path_ends_with_extension,
    lemma_path_with_extension, lemma_renamed_behind, lemma_tidied, lemma_tidied_behind,
    lemma_tidied_end, lemma_whole_stem, lemma_with_extension, name_without_extension,
    path_with_extension, renamed, says_something, spoken_extension, stem_of, tidied, with_extension,
};
use crate::paths::{
    begins_on_a_drive, ends_in_name, ends_plainly, has_backslash, is_bare_name, is_file_after,
    is_file_at, is_file_at_root, is_file_behind, is_file_in, is_head, is_one_piece, is_separator,
    is_share_name, is_share_of, is_sibling, is_taken_as_it_is, is_undivided,
    law_what_no_system_divides, lemma_divided_is_file_name, lemma_end_is_shown, lemma_ends_in_name,
    lemma_extension_is_shown, lemma_head_has_no_dot, lemma_prefix_is_undivided,
    lemma_shown_extension, lemma_suffix_last, lemma_suffix_of_suffix, names_file, names_no_server,
    path_file_name, path_with_file_name, shown_extension, undivided,
};
use crate::text::{chars_of, ends_with, str_eq, str_text, substring, text_of};
use vstd::prelude::*;

verus! {

// ---------------------------------------------------------------------------
// The extension that a file came with
// ---------------------------------------------------------------------------

/// What holds on every system of the extension of a path.
pub open spec fn has_extension(path: Seq<char>, ext: Option<Seq<char>>) -> bool {
    &&& is_undivided(path) ==> ext == offered_extension(path)
    &&& forall|before: Seq<char>, file: Seq<char>| #[trigger]
        is_file_after(path, before, file) ==> ext == spoken_extension(file)
    &&& forall|head: Seq<char>, file: Seq<char>| #[trigger]
        is_file_at(path, head, file) ==> {
            &&& ext == spoken_extension(file) || ext == spoken_extension(path)
            &&& begins_plainly(file) && !head.contains('.') ==> ext == spoken_extension(file)
        }
    &&& forall|dir: Seq<char>, file: Seq<char>| #[trigger]
        is_file_behind(path, dir, file) && begins_plainly(file) && !dir.contains('.') ==> ext
            == spoken_extension(file)
    &&& shown_extension(path) is Some ==> {
        &&& ext is None || ext == shown_extension(path)
        &&& names_no_server(path) ==> ext == shown_extension(path)
    }
    // Whatever the path, the extension is that of a file name in it.
    &&& is_extension_on_some_system(path, ext)
}

/// The extension is that of a file name that a system may find in the path.
#[verifier::opaque]
pub open spec fn is_extension_on_some_system(path: Seq<char>, ext: Option<Seq<char>>) -> bool {
    exists|found: Option<Seq<char>>| #[trigger]
        names_file(path, found) && ext == extension_of_found(found)
}

pub open spec fn extension_of_found(found: Option<Seq<char>>) -> Option<Seq<char>> {
    match found {
        Some(name) => spoken_extension(name),
        None => None,
    }
}

/// The extension of a bare name that a file is offered under.
pub open spec fn offered_extension(name: Seq<char>) -> Option<Seq<char>> {
    if is_file_name(name) {
        spoken_extension(name)
    } else {
        None
    }
}

/// The extension of the name that a file is offered under.
pub fn original_extension(name: &str) -> (r: Option<String>)
    ensures
        has_extension(name@, text_of(r)),
{
    let file_name = path_file_name(name);
    proof {
        lemma_extension_of_found(name@, text_of(file_name));
    }
    match file_name {
        Some(file_name) => match extension(file_name.as_str()) {
            Some(ext) => if ext.as_str().is_empty() {
                None
            } else {
                Some(ext)
            },
            None => None,
        },
        None => None,
    }
}

proof fn lemma_extension_of_found(path: Seq<char>, found: Option<Seq<char>>)
    requires
        names_file(path, found),
    ensures
        has_extension(path, extension_of_found(found)),
{
    reveal(is_extension_on_some_system);
    if found is Some {
        let name = found->0;
        assert forall|head: Seq<char>, file: Seq<char>| #[trigger]
            is_file_at(path, head, file) && begins_plainly(file) && !head.contains(
                '.',
            ) implies extension_of(name) == extension_of(file) by {
            lemma_extension_behind(head, file);
        }
        assert forall|dir: Seq<char>, file: Seq<char>| #[trigger]
            is_file_behind(path, dir, file) && begins_plainly(file) && !dir.contains(
                '.',
            ) implies extension_of(name) == extension_of(file) by {
            if name != file {
                lemma_head_has_no_dot(path, dir, file, name);
                lemma_extension_behind(name.take(name.len() - file.len()), file);
            }
        }
    }
    if shown_extension(path) is Some {
        lemma_shown_extension(path);
        if found is Some {
            lemma_extension_is_shown(path, found->0);
        }
    }
}

// ---------------------------------------------------------------------------
// The path to save to
// ---------------------------------------------------------------------------

/// The path of a file under another name beside the chosen one, whose file name is
/// the one that was found, for the path that the system answered with. A file name
/// that is the whole path leaves no directory. A name that came back alone where
/// there is one has lost it, and what stood before the name goes back there.
pub open spec fn placed_as(
    selected: Seq<char>,
    found: Seq<char>,
    name: Seq<char>,
    answer: Seq<char>,
) -> Seq<char> {
    if found == selected {
        name
    } else if answer == name && is_undivided(name) && found.is_suffix_of(selected) {
        selected.take(selected.len() - found.len()) + name
    } else {
        answer
    }
}

pub fn placed(selected: &str, found: &str, name: &str, answer: String) -> (r: String)
    ensures
        r@ == placed_as(selected@, found@, name@, answer@),
{
    if str_eq(found, selected) {
        name.to_string()
    } else if str_eq(answer.as_str(), name) && undivided(name) && ends_with(selected, found) {
        let chars = chars_of(selected);
        let n: usize = chars.len() - chars_of(found).len();
        let mut path = substring(chars.as_slice(), 0, n);
        assert(path@ =~= selected@.take(n as int));
        path.append(name);
        path
    } else {
        answer
    }
}

/// The tidied name is a file name of its own wherever it stands: it is the whole
/// path, or no system divides it, or it holds a backslash, which only a system that
/// does not divide there finds in a name.
pub open spec fn stands_alone(selected: Seq<char>, found: Seq<char>, clean: Seq<char>) -> bool {
    found == selected || is_undivided(clean) || clean.contains('\\')
}

/// What a system says of the chosen path: its file name, the path that has the
/// tidied name in place of that, and the file name of the tidied name itself where
/// that is not the whole of it.
pub open spec fn is_read(
    selected: Seq<char>,
    ext: Option<Seq<char>>,
    found: Option<Seq<char>>,
    answer: Seq<char>,
    inner: Option<Seq<char>>,
) -> bool {
    &&& names_file(selected, found)
    &&& name_without_extension(found, ext) matches Some(clean) ==> {
        &&& is_sibling(selected, clean, answer)
        &&& !stands_alone(selected, found->0, clean) ==> names_file(clean, inner)
    }
}

/// The file name that gets the extension.
pub open spec fn name_to_extend(
    selected: Seq<char>,
    found: Seq<char>,
    clean: Seq<char>,
    inner: Option<Seq<char>>,
) -> Option<Seq<char>> {
    if stands_alone(selected, found, clean) {
        Some(clean)
    } else {
        inner
    }
}

/// The path to save to, for what a system says of the chosen one: the tidied name
/// takes the place of the file name, and the extension goes behind it.
pub open spec fn saved_path(
    selected: Seq<char>,
    ext: Option<Seq<char>>,
    found: Option<Seq<char>>,
    answer: Seq<char>,
    inner: Option<Seq<char>>,
) -> Seq<char> {
    match name_without_extension(found, ext) {
        Some(clean) => path_with_extension(
            placed_as(selected, found->0, clean, answer),
            name_to_extend(selected, found->0, clean, inner),
            ext->0,
        ),
        None => selected,
    }
}

/// An extension that can stand in a name on every system, or none.
pub open spec fn is_plain_extension(ext: Option<Seq<char>>) -> bool {
    ext matches Some(e) ==> is_one_piece(e) && !e.contains('.')
}

/// What holds on every system of the path that a file is saved to, for the path
/// that was chosen and the extension that the file came with.
pub open spec fn saved_as(selected: Seq<char>, ext: Option<Seq<char>>, r: Seq<char>) -> bool {
    &&& !says_something(ext) ==> r == selected
    // An extension that was typed stays.
    &&& shown_extension(selected) is Some ==> r == selected
    // The directory that was chosen stays, and the name gets the extension.
    &&& is_undivided(selected) ==> r == kept_name(selected, ext)
    &&& forall|root: Seq<char>, file: Seq<char>| #[trigger]
        is_file_at_root(selected, root, file) ==> r == root + kept_name(file, ext)
    &&& forall|dir: Seq<char>, file: Seq<char>| #[trigger]
        is_file_in(selected, dir, file) ==> match renamed(Some(file), ext) {
            Some(name) => r == dir + seq!['/'] + name || r == dir + seq!['\\'] + name,
            None => r == selected,
        }
    &&& forall|head: Seq<char>, file: Seq<char>| #[trigger]
        is_file_at(selected, head, file) ==> {
            &&& r == head + kept_name(file, ext) || r == kept_name(selected, ext)
            &&& begins_plainly(file) && !head.contains('.') ==> r == head + kept_name(file, ext)
        }
    // Where the directory is normalised or read in more ways, the name still gets
    // the extension.
    &&& forall|before: Seq<char>, file: Seq<char>| #[trigger]
        is_file_after(selected, before, file) ==> match renamed(Some(file), ext) {
            Some(name) => is_bare_name(file) ==> name.is_suffix_of(r),
            None => r == selected,
        }
    &&& forall|dir: Seq<char>, file: Seq<char>| #[trigger]
        is_file_behind(selected, dir, file) && begins_plainly(file) && !dir.contains('.')
            ==> match renamed(Some(file), ext) {
            Some(name) => name.is_suffix_of(r),
            None => r == selected,
        }
    &&& ends_plainly(selected) && is_taken_as_it_is(selected) && is_plain_extension(ext) ==> r
        == selected || shown_extension(r) == ext
    // Whatever the path, the result is the one for what some system says of it.
    &&& is_saved_on_some_system(selected, ext, r)
}

/// The path is the one to save to for what a system may say of the chosen one.
#[verifier::opaque]
pub open spec fn is_saved_on_some_system(
    selected: Seq<char>,
    ext: Option<Seq<char>>,
    r: Seq<char>,
) -> bool {
    exists|found: Option<Seq<char>>, answer: Seq<char>, inner: Option<Seq<char>>| #[trigger]
        is_read(selected, ext, found, answer, inner) && r == saved_path(
            selected,
            ext,
            found,
            answer,
            inner,
        )
}

/// The path to save to: the one that was chosen, with the extension that the file
/// came with where the user left it out.
pub fn keep_original_extension_if_missing(selected: String, original_ext: Option<&str>) -> (r:
    String)
    ensures
        saved_as(selected@, str_text(original_ext), r@),
{
    let ghost ext = str_text(original_ext);
    let file_name = path_file_name(selected.as_str());
    let name = match &file_name {
        Some(file_name) => Some(file_name.as_str()),
        None => None,
    };
    let clean = match clean_file_name(name, original_ext) {
        Some(clean) => clean,
        None => {
            proof {
                lemma_saved_as_chosen(selected@, text_of(file_name), ext);
            }
            return selected;
        },
    };
    let (found, new_ext) = match (&file_name, original_ext) {
        (Some(found), Some(new_ext)) => (found.as_str(), new_ext),
        _ => {
            return selected;
        },
    };
    let answer = path_with_file_name(selected.as_str(), clean.as_str());
    let ghost answered = answer@;
    let path = placed(selected.as_str(), found, clean.as_str(), answer);
    let inner = if str_eq(found, selected.as_str()) || undivided(clean.as_str()) || has_backslash(
        clean.as_str(),
    ) {
        Some(clean)
    } else {
        path_file_name(clean.as_str())
    };
    let inner_name = match &inner {
        Some(inner) => Some(inner.as_str()),
        None => None,
    };
    let r = extend_path(path.as_str(), inner_name, new_ext);
    proof {
        assert(is_read(selected@, ext, Some(found@), answered, text_of(inner)));
        lemma_saved(selected@, ext, found@, answered, text_of(inner));
    }
    r
}

/// The path to save to after the dialog: none where the user chose none, and
/// otherwise the chosen one with the extension of the name that was offered where
/// the user left it out.
pub fn open_save_dialog(suggested_name: Option<&str>, selected: Option<String>) -> (r: Option<
    String,
>)
    ensures
        r is Some == selected is Some,
        suggested_name is None ==> text_of(r) == text_of(selected),
        suggested_name is Some && selected is Some ==> exists|ext: Option<Seq<char>>|
            has_extension(suggested_name->0@, ext) && #[trigger] saved_as(
                selected->0@,
                ext,
                r->0@,
            ),
        suggested_name is Some && selected is Some && is_undivided(suggested_name->0@) ==> saved_as(
            selected->0@,
            offered_extension(suggested_name->0@),
            r->0@,
        ) && is_plain_extension(offered_extension(suggested_name->0@)),
{
    let ext = match suggested_name {
        Some(name) => {
            proof {
                if extension_of(name@) is Some {
                    lemma_extension_chars(name@);
                }
            }
            original_extension(name)
        },
        None => None,
    };
    let ghost offered = text_of(ext);
    let ext = match &ext {
        Some(ext) => Some(ext.as_str()),
        None => None,
    };
    assert(str_text(ext) == offered);
    match selected {
        Some(path) => {
            let r = keep_original_extension_if_missing(path, ext);
            assert(saved_as(path@, offered, r@));
            Some(r)
        },
        None => None,
    }
}

// ---------------------------------------------------------------------------
// Facts about the path to save to
// ---------------------------------------------------------------------------

/// Whichever file name a system finds behind a directory without a dot, the new
/// names agree.
proof fn lemma_found_behind(path: Seq<char>, found: Seq<char>, ext: Option<Seq<char>>)
    requires
        names_file(path, Some(found)),
    ensures
        forall|head: Seq<char>, file: Seq<char>| #[trigger]
            is_file_at(path, head, file) && begins_plainly(file) && !head.contains('.')
                ==> kept_name(path, ext) == head + kept_name(file, ext),
        forall|dir: Seq<char>, file: Seq<char>| #[trigger]
            is_file_behind(path, dir, file) && begins_plainly(file) && !dir.contains('.')
                ==> match renamed(Some(file), ext) {
                Some(name) => renamed(Some(found), ext) is Some && name.is_suffix_of(
                    renamed(Some(found), ext)->0,
                ) && (found == file || tidied(found).contains('\\')),
                None => renamed(Some(found), ext) is None,
            },
{
    assert forall|head: Seq<char>, file: Seq<char>| #[trigger]
        is_file_at(path, head, file) && begins_plainly(file) && !head.contains('.') implies kept_name(
        path,
        ext,
    ) == head + kept_name(file, ext) by {
        lemma_renamed_behind(head, file, ext);
        lemma_divided_is_file_name(head, file);
    }
    assert forall|dir: Seq<char>, file: Seq<char>| #[trigger]
        is_file_behind(path, dir, file) && begins_plainly(file) && !dir.contains(
            '.',
        ) implies match renamed(Some(file), ext) {
        Some(name) => renamed(Some(found), ext) is Some && name.is_suffix_of(
            renamed(Some(found), ext)->0,
        ) && (found == file || tidied(found).contains('\\')),
        None => renamed(Some(found), ext) is None,
    } by {
        if found != file {
            let head = found.take(found.len() - file.len());
            lemma_head_has_no_dot(path, dir, file, found);
            lemma_renamed_behind(head, file, ext);
            lemma_tidied_behind(head, file);
            let i = choose|i: int| 0 <= i < head.len() && head[i] == '\\';
            assert((head + tidied(file))[i] == '\\');
            if renamed(Some(file), ext) is Some {
                let name = renamed(Some(file), ext)->0;
                assert((head + name).subrange(head.len() as int, (head + name).len() as int)
                    =~= name);
            }
        } else if renamed(Some(file), ext) is Some {
            let name = renamed(Some(file), ext)->0;
            assert(name.subrange(0, name.len() as int) =~= name);
        }
    }
}

/// A path that no new name is made for may stay.
proof fn lemma_saved_as_chosen(
    selected: Seq<char>,
    found: Option<Seq<char>>,
    ext: Option<Seq<char>>,
)
    requires
        names_file(selected, found),
        renamed(found, ext) is None,
    ensures
        saved_as(selected, ext, selected),
{
    assert(is_saved_on_some_system(selected, ext, selected)) by {
        reveal(is_saved_on_some_system);
        assert(is_read(selected, ext, found, selected, None));
    }
    assert forall|root: Seq<char>, file: Seq<char>| #[trigger]
        is_file_at_root(selected, root, file) implies selected == root + kept_name(file, ext) by {}
    assert forall|head: Seq<char>, file: Seq<char>| #[trigger]
        is_file_at(selected, head, file) implies selected == head + kept_name(file, ext) || selected
        == kept_name(selected, ext) by {
        lemma_divided_is_file_name(head, file);
    }
    if found is Some {
        lemma_found_behind(selected, found->0, ext);
        assert forall|head: Seq<char>, file: Seq<char>| #[trigger]
            is_file_at(selected, head, file) && begins_plainly(file) && !head.contains(
                '.',
            ) implies selected == head + kept_name(file, ext) by {}
    }
    assert forall|dir: Seq<char>, file: Seq<char>| #[trigger]
        is_file_in(selected, dir, file) implies renamed(Some(file), ext) is None by {
        assert(is_file_after(selected, dir.push('/'), file));
    }
}

/// The tidied name of a bare file name is one.
proof fn lemma_tidied_is_bare(file: Seq<char>)
    requires
        tidied(file).len() > 0,
    ensures
        is_undivided(file) ==> is_bare_name(tidied(file)),
        is_one_piece(file) ==> is_one_piece(tidied(file)),
{
    lemma_tidied(file);
    lemma_prefix_is_undivided(file, tidied(file).len() as int);
}

/// The path with the tidied name in it ends in that name, wherever it is told what
/// the system does.
proof fn lemma_placed(selected: Seq<char>, found: Seq<char>, clean: Seq<char>, answer: Seq<char>)
    requires
        is_sibling(selected, clean, answer),
        is_bare_name(clean) || is_taken_as_it_is(selected) || found == selected,
    ensures
        clean.is_suffix_of(placed_as(selected, found, clean, answer)),
        is_bare_name(clean) && found != selected ==> {
            &&& forall|dir: Seq<char>, file: Seq<char>| #[trigger]
                is_file_in(selected, dir, file) ==> placed_as(selected, found, clean, answer) == dir
                    + seq!['/'] + clean || placed_as(selected, found, clean, answer) == dir
                    + seq!['\\'] + clean
            &&& forall|root: Seq<char>, file: Seq<char>| #[trigger]
                is_file_at_root(selected, root, file) ==> placed_as(selected, found, clean, answer)
                    == root + clean
            &&& forall|head: Seq<char>, file: Seq<char>| #[trigger]
                is_file_at(selected, head, file) && found == file ==> placed_as(
                    selected,
                    found,
                    clean,
                    answer,
                ) == head + clean
        },
{
    let path = placed_as(selected, found, clean, answer);
    let before = selected.take(selected.len() - found.len());
    assert(clean.subrange(0, clean.len() as int) =~= clean);
    assert((before + clean).subrange(before.len() as int, (before + clean).len() as int) =~= clean);
    assert forall|head: Seq<char>, file: Seq<char>| #[trigger]
        is_file_at(selected, head, file) && found == file && is_bare_name(
            clean,
        ) && found != selected implies path == head + clean by {
        assert(selected.subrange(head.len() as int, selected.len() as int) =~= file);
        assert(before =~= head);
    }
    assert forall|dir: Seq<char>, file: Seq<char>| #[trigger]
        is_file_in(selected, dir, file) && is_bare_name(clean) implies answer != clean by {}
    assert forall|root: Seq<char>, file: Seq<char>| #[trigger]
        is_file_at_root(selected, root, file) && is_bare_name(clean) implies answer != clean by {
        assert(root.len() > 0);
    }
}

/// The extension is shown at the end of a path that was read as an ordinary one.
proof fn lemma_extension_at_the_end(
    selected: Seq<char>,
    ext: Option<Seq<char>>,
    found: Seq<char>,
    answer: Seq<char>,
    inner: Option<Seq<char>>,
)
    requires
        is_read(selected, ext, Some(found), answer, inner),
        name_without_extension(Some(found), ext) is Some,
        ends_plainly(selected),
        is_taken_as_it_is(selected),
        is_plain_extension(ext),
    ensures
        shown_extension(saved_path(selected, ext, Some(found), answer, inner)) == ext,
{
    let clean = tidied(found);
    let path = placed_as(selected, found, clean, answer);
    let r = saved_path(selected, ext, Some(found), answer, inner);
    lemma_ends_in_name(selected);
    lemma_suffix_last(found, selected);
    lemma_tidied(found);
    lemma_tidied_end(selected, found);
    lemma_whole_stem(found);
    lemma_placed(selected, found, clean, answer);
    let name = if stands_alone(selected, found, clean) {
        assert(clean.subrange(0, clean.len() as int) =~= clean);
        clean
    } else {
        lemma_prefix_is_undivided(found, clean.len() as int);
        assert(begins_on_a_drive(clean));
        assert(ends_in_name(clean) && names_no_server(clean));
        inner->0
    };
    assert(name.is_suffix_of(clean));
    assert(name.len() > 0);
    assert(stem_of(name) == name) by {
        if name != clean {
            lemma_last_dot(clean);
            lemma_last_dot(name);
            let n = clean.len() - name.len();
            if last_dot(name) > 0 {
                assert(clean.subrange(n, clean.len() as int)[last_dot(name)] == '.');
                assert(clean[n + last_dot(name)] == '.');
            }
        }
    }
    lemma_suffix_last(name, clean);
    lemma_suffix_of_suffix(name, clean, path);
    lemma_path_ends_with_extension(path, name, ext->0);
    lemma_end_is_shown(r, name, ext->0);
}

/// A file behind a slash stays in its directory and gets the extension.
proof fn lemma_saved_after_slash(
    selected: Seq<char>,
    ext: Option<Seq<char>>,
    found: Seq<char>,
    answer: Seq<char>,
    inner: Option<Seq<char>>,
)
    requires
        is_read(selected, ext, Some(found), answer, inner),
        name_without_extension(Some(found), ext) is Some,
    ensures
        ({
            let r = saved_path(selected, ext, Some(found), answer, inner);
            let new = with_extension(tidied(found), ext->0);
            &&& forall|root: Seq<char>, file: Seq<char>| #[trigger]
                is_file_at_root(selected, root, file) ==> found == file && r == root + new
            &&& forall|dir: Seq<char>, file: Seq<char>| #[trigger]
                is_file_in(selected, dir, file) ==> found == file && (r == dir + seq!['/'] + new
                    || r == dir + seq!['\\'] + new)
            &&& forall|before: Seq<char>, file: Seq<char>| #[trigger]
                is_file_after(selected, before, file) ==> found == file && (is_bare_name(file)
                    ==> new.is_suffix_of(r))
        }),
{
    let clean = tidied(found);
    let e = ext->0;
    let path = placed_as(selected, found, clean, answer);
    let r = saved_path(selected, ext, Some(found), answer, inner);
    let new = with_extension(clean, e);
    lemma_tidied_is_bare(found);
    if is_bare_name(clean) {
        lemma_placed(selected, found, clean, answer);
        lemma_path_ends_with_extension(path, clean, e);
    }
    assert forall|dir: Seq<char>, file: Seq<char>| #[trigger]
        is_file_in(selected, dir, file) implies found == file && (r == dir + seq!['/'] + new || r
        == dir + seq!['\\'] + new) by {
        assert(is_file_after(selected, dir.push('/'), file));
        assert(found == file && found.len() < selected.len());
        lemma_path_with_extension(dir + seq!['/'], clean, e);
        lemma_path_with_extension(dir + seq!['\\'], clean, e);
    }
    assert forall|root: Seq<char>, file: Seq<char>| #[trigger]
        is_file_at_root(selected, root, file) implies found == file && r == root + new by {
        assert(found == file && found.len() < selected.len());
        lemma_path_with_extension(root, clean, e);
    }
}

/// A file behind a head, or the whole path, gets the extension.
proof fn lemma_saved_at_head(
    selected: Seq<char>,
    ext: Option<Seq<char>>,
    found: Seq<char>,
    answer: Seq<char>,
    inner: Option<Seq<char>>,
)
    requires
        is_read(selected, ext, Some(found), answer, inner),
        name_without_extension(Some(found), ext) is Some,
    ensures
        ({
            let r = saved_path(selected, ext, Some(found), answer, inner);
            let new = with_extension(tidied(found), ext->0);
            &&& found == selected ==> r == new
            &&& forall|head: Seq<char>, file: Seq<char>| #[trigger]
                is_file_at(selected, head, file) ==> {
                    ||| found == file && r == head + new
                    ||| found == selected && r == new
                }
        }),
{
    let clean = tidied(found);
    let e = ext->0;
    let r = saved_path(selected, ext, Some(found), answer, inner);
    let new = with_extension(clean, e);
    lemma_tidied_is_bare(found);
    if is_bare_name(clean) {
        lemma_placed(selected, found, clean, answer);
    }
    if found == selected {
        lemma_path_with_extension(Seq::empty(), clean, e);
        assert(Seq::<char>::empty() + clean =~= clean);
        assert(Seq::<char>::empty() + new =~= new);
    } else {
        assert forall|head: Seq<char>, file: Seq<char>| #[trigger]
            is_file_at(selected, head, file) implies found == file && r == head + new by {
            lemma_path_with_extension(head, clean, e);
        }
    }
}

/// A file behind a backslash gets the extension, however much of the path is its
/// name.
proof fn lemma_saved_behind(
    selected: Seq<char>,
    ext: Option<Seq<char>>,
    found: Seq<char>,
    answer: Seq<char>,
    inner: Option<Seq<char>>,
)
    requires
        is_read(selected, ext, Some(found), answer, inner),
        name_without_extension(Some(found), ext) is Some,
    ensures
        forall|dir: Seq<char>, file: Seq<char>| #[trigger]
            is_file_behind(selected, dir, file) && begins_plainly(file) && !dir.contains('.')
                ==> renamed(Some(file), ext) is Some && renamed(Some(file), ext)->0.is_suffix_of(
                saved_path(selected, ext, Some(found), answer, inner),
            ),
{
    let clean = tidied(found);
    let e = ext->0;
    let path = placed_as(selected, found, clean, answer);
    let r = saved_path(selected, ext, Some(found), answer, inner);
    let new = with_extension(clean, e);
    lemma_found_behind(selected, found, ext);
    lemma_tidied_is_bare(found);
    assert forall|dir: Seq<char>, file: Seq<char>| #[trigger]
        is_file_behind(selected, dir, file) && begins_plainly(file) && !dir.contains(
            '.',
        ) implies renamed(Some(file), ext) is Some && renamed(Some(file), ext)->0.is_suffix_of(
        r,
    ) by {
        assert(selected.first() == dir.first());
        lemma_placed(selected, found, clean, answer);
        lemma_path_ends_with_extension(path, clean, e);
        lemma_suffix_of_suffix(renamed(Some(file), ext)->0, new, r);
    }
}

/// A file behind a head keeps its head, or the whole path is its name.
proof fn lemma_saved_in_either_reading(
    selected: Seq<char>,
    ext: Option<Seq<char>>,
    found: Seq<char>,
    answer: Seq<char>,
    inner: Option<Seq<char>>,
)
    requires
        is_read(selected, ext, Some(found), answer, inner),
        name_without_extension(Some(found), ext) is Some,
    ensures
        ({
            let r = saved_path(selected, ext, Some(found), answer, inner);
            forall|head: Seq<char>, file: Seq<char>| #[trigger]
                is_file_at(selected, head, file) ==> {
                    &&& r == head + kept_name(file, ext) || r == kept_name(selected, ext)
                    &&& begins_plainly(file) && !head.contains('.') ==> r == head + kept_name(
                        file,
                        ext,
                    )
                }
        }),
{
    let r = saved_path(selected, ext, Some(found), answer, inner);
    lemma_saved_at_head(selected, ext, found, answer, inner);
    lemma_found_behind(selected, found, ext);
    assert forall|head: Seq<char>, file: Seq<char>| #[trigger]
        is_file_at(selected, head, file) implies {
        &&& r == head + kept_name(file, ext) || r == kept_name(selected, ext)
        &&& begins_plainly(file) && !head.contains('.') ==> r == head + kept_name(file, ext)
    } by {
        lemma_divided_is_file_name(head, file);
    }
}

/// The path for what a system says is one that the file may be saved to.
#[verifier::spinoff_prover]
#[verifier::rlimit(60)]
proof fn lemma_saved(
    selected: Seq<char>,
    ext: Option<Seq<char>>,
    found: Seq<char>,
    answer: Seq<char>,
    inner: Option<Seq<char>>,
)
    requires
        is_read(selected, ext, Some(found), answer, inner),
        name_without_extension(Some(found), ext) is Some,
    ensures
        saved_as(selected, ext, saved_path(selected, ext, Some(found), answer, inner)),
{
    let r = saved_path(selected, ext, Some(found), answer, inner);
    assert(is_saved_on_some_system(selected, ext, r)) by {
        reveal(is_saved_on_some_system);
    }
    lemma_saved_after_slash(selected, ext, found, answer, inner);
    lemma_saved_behind(selected, ext, found, answer, inner);
    lemma_saved_in_either_reading(selected, ext, found, answer, inner);
    assert(is_undivided(selected) ==> r == kept_name(selected, ext)) by {
        lemma_saved_at_head(selected, ext, found, answer, inner);
    }
    assert(shown_extension(selected) is Some ==> r == selected) by {
        if shown_extension(selected) is Some {
            lemma_shown_extension(selected);
            lemma_extension_is_shown(selected, found);
        }
    }
    assert(ends_plainly(selected) && is_taken_as_it_is(selected) && is_plain_extension(ext) ==> r
        == selected || shown_extension(r) == ext) by {
        if ends_plainly(selected) && is_taken_as_it_is(selected) && is_plain_extension(ext) {
            lemma_extension_at_the_end(selected, ext, found, answer, inner);
        }
    }
}

/// A new name made of a bare name and a plain extension is a bare one.
proof fn lemma_renamed_is_bare(file: Seq<char>, ext: Seq<char>)
    requires
        renamed(Some(file), Some(ext)) is Some,
        is_undivided(file),
        is_one_piece(ext),
    ensures
        is_bare_name(renamed(Some(file), Some(ext))->0),
{
    let clean = tidied(file);
    let stem = stem_of(clean);
    let name = stem.push('.') + ext;
    lemma_tidied_is_bare(file);
    lemma_with_extension(clean, ext);
    lemma_prefix_is_undivided(clean, stem.len() as int);
    assert forall|c: char| is_separator(c) implies !name.contains(c) by {
        if name.contains(c) {
            let i = choose|i: int| 0 <= i < name.len() && name[i] == c;
            if i < stem.len() {
                assert(stem[i] == c);
                assert(stem.contains(c));
            } else if i > stem.len() {
                assert(ext[i - stem.len() - 1] == c);
                assert(ext.contains(c));
            }
        }
    }
    if begins_on_a_drive(name) {
        assert(name[0] == clean[0]);
        if stem.len() > 1 {
            assert(name[1] == clean[1]);
        }
    }
    assert(name.len() >= 3);
}

/// A path that ends in the new name of a file, behind a root or a directory, shows
/// the extension.
proof fn lemma_new_name_is_shown(file: Seq<char>, ext: Seq<char>, path: Seq<char>)
    requires
        renamed(Some(file), Some(ext)) is Some,
        is_one_piece(file),
        is_one_piece(ext),
        !ext.contains('.'),
        renamed(Some(file), Some(ext))->0.is_suffix_of(path),
        begins_on_a_drive(path) ==> path.len() >= renamed(Some(file), Some(ext))->0.len() + 2,
    ensures
        shown_extension(path) == Some(ext),
{
    let clean = tidied(file);
    let stem = stem_of(clean);
    lemma_tidied(file);
    lemma_with_extension(clean, ext);
    assert(stem.last() == file[stem.len() - 1]);
    assert(file.contains(stem.last()));
    lemma_end_is_shown(path, stem, ext);
}

// ---------------------------------------------------------------------------
// Laws of saving
// ---------------------------------------------------------------------------

/// Whatever the path and whatever the system, saving again under the path that a
/// file was saved under changes nothing more: the system says the same of the same
/// path, and in a new path it finds the name that was put there.
pub proof fn law_saving_again_changes_nothing(
    selected: Seq<char>,
    ext: Option<Seq<char>>,
    found: Option<Seq<char>>,
    answer: Seq<char>,
    inner: Option<Seq<char>>,
    found_again: Option<Seq<char>>,
    answer_again: Seq<char>,
    inner_again: Option<Seq<char>>,
)
    requires
        is_plain_extension(ext),
        is_read(selected, ext, found, answer, inner),
        saved_path(selected, ext, found, answer, inner) == selected ==> found_again == found
            && answer_again == answer && inner_again == inner,
        saved_path(selected, ext, found, answer, inner) != selected ==> found_again
            == match name_to_extend(selected, found->0, tidied(found->0), inner) {
            Some(name) => Some(with_extension(name, ext->0)),
            None => None,
        },
    ensures
        saved_path(
            saved_path(selected, ext, found, answer, inner),
            ext,
            found_again,
            answer_again,
            inner_again,
        ) == saved_path(selected, ext, found, answer, inner),
{
    let r = saved_path(selected, ext, found, answer, inner);
    if r != selected {
        let clean = tidied(found->0);
        match name_to_extend(selected, found->0, clean, inner) {
            Some(name) => {
                assert(name.len() > 0);
                lemma_with_extension(name, ext->0);
            },
            None => {},
        }
    }
}

/// A path that got its extension is left alone from then on.
pub proof fn law_saved_path_is_stable(
    selected: Seq<char>,
    ext: Option<Seq<char>>,
    r: Seq<char>,
    again: Seq<char>,
)
    requires
        is_plain_extension(ext),
        ends_plainly(selected),
        is_taken_as_it_is(selected),
        saved_as(selected, ext, r),
        r != selected,
        saved_as(r, ext, again),
    ensures
        again == r,
{
}

/// Where every system saves a file behind a head under one path, saving under that
/// path changes nothing more.
pub proof fn law_saving_behind_a_head_is_stable(
    head: Seq<char>,
    file: Seq<char>,
    ext: Option<Seq<char>>,
    r: Seq<char>,
    again: Seq<char>,
)
    requires
        is_plain_extension(ext),
        is_file_at(head + file, head, file),
        begins_plainly(file),
        !head.contains('.'),
        saved_as(head + file, ext, r),
        saved_as(r, ext, again),
    ensures
        again == r,
{
    let name = kept_name(file, ext);
    assert(r == head + name);
    if name != file {
        lemma_renamed_is_bare(file, ext->0);
        lemma_tidied_behind(Seq::empty(), file);
        lemma_with_extension(tidied(file), ext->0);
        assert(name[0] == tidied(file)[0]);
    }
    law_kept_name_is_stable(file, ext);
    assert(is_file_at(r, head, name));
}

/// Saving under the path that a file in a directory was saved under changes nothing
/// more, whichever separator the system put there.
pub proof fn law_saving_in_a_directory_is_stable(
    dir: Seq<char>,
    file: Seq<char>,
    ext: Option<Seq<char>>,
    r: Seq<char>,
    again: Seq<char>,
)
    requires
        is_plain_extension(ext),
        is_file_in(dir + seq!['/'] + file, dir, file),
        saved_as(dir + seq!['/'] + file, ext, r),
        saved_as(r, ext, again),
    ensures
        again == r,
{
    match renamed(Some(file), ext) {
        Some(name) => {
            let n = (dir.len() + 1) as int;
            assert(r.subrange(n, r.len() as int) =~= name);
            lemma_new_name_is_shown(file, ext->0, r);
        },
        None => {
            assert(is_file_in(r, dir, file));
        },
    }
}

/// Saving under the path that a file at a root was saved under changes nothing
/// more.
pub proof fn law_saving_at_a_root_is_stable(
    root: Seq<char>,
    file: Seq<char>,
    ext: Option<Seq<char>>,
    r: Seq<char>,
    again: Seq<char>,
)
    requires
        is_plain_extension(ext),
        is_file_at_root(root + file, root, file),
        saved_as(root + file, ext, r),
        saved_as(r, ext, again),
    ensures
        again == r,
{
    match renamed(Some(file), ext) {
        Some(name) => {
            assert(r.subrange(root.len() as int, r.len() as int) =~= name);
            if begins_on_a_drive(r) {
                assert(root.len() == 3) by {
                    if root == seq!['/'] {
                        assert(r[0] == '/');
                    }
                }
            }
            lemma_new_name_is_shown(file, ext->0, r);
        },
        None => {
            assert(is_file_at_root(r, root, file));
        },
    }
}

/// The directory that was chosen stays, and the file in it gets the extension that
/// it came with or keeps the one that was typed.
pub proof fn law_chosen_directory_stays(
    dir: Seq<char>,
    file: Seq<char>,
    ext: Seq<char>,
    r: Seq<char>,
)
    requires
        is_head(dir.push('\\')),
        !dir.contains('.'),
        is_bare_name(file),
        begins_plainly(file),
        ext.len() > 0,
        is_plain_extension(Some(ext)),
        saved_as(dir + seq!['\\'] + file, Some(ext), r),
    ensures
        exists|name: Seq<char>|
            r == dir + seq!['\\'] + name && #[trigger] is_bare_name(name) && if says_something(
                extension_of(file),
            ) {
                name == file
            } else {
                extension_of(name) == Some(ext)
            },
{
    let head = dir.push('\\');
    let path = dir + seq!['\\'] + file;
    let name = kept_name(file, Some(ext));
    assert(path =~= head + file);
    assert(!head.contains('.')) by {
        if head.contains('.') {
            let i = choose|i: int| 0 <= i < head.len() && head[i] == '.';
            assert(dir[i] == '.');
        }
    }
    assert(is_file_at(path, head, file));
    assert(r =~= dir + seq!['\\'] + name);
    if !says_something(extension_of(file)) {
        lemma_tidied_behind(Seq::empty(), file);
        lemma_renamed_is_bare(file, ext);
        law_new_name_has_the_extension(file, ext);
    }
    assert(is_bare_name(name));
}

// ---------------------------------------------------------------------------
// Laws of saving, by the characters of the path
// ---------------------------------------------------------------------------

/// A bare name that has no extension gets the one that the file came with behind it,
/// whole: of the name itself no character is lost, and of what stands at its end only
/// dots and spaces are.
pub proof fn law_missing_extension_is_added(
    name: Seq<char>,
    tail: Seq<char>,
    ext: Seq<char>,
    r: Seq<char>,
)
    requires
        name.len() > 0,
        forall|i: int| 0 <= i < name.len() ==> #[trigger] name[i] != '/' && name[i] != '\\',
        forall|i: int| 0 < i < name.len() ==> #[trigger] name[i] != '.',
        !(name.len() >= 2 && name[1] == ':' && ('a' <= name[0] <= 'z' || 'A' <= name[0] <= 'Z')),
        name[name.len() - 1] != '.' && name[name.len() - 1] != ' ',
        forall|i: int| 0 <= i < tail.len() ==> #[trigger] tail[i] == '.' || tail[i] == ' ',
        tail.len() == 0 || tail[tail.len() - 1] == '.' || !tail.contains('.'),
        ext.len() > 0,
        saved_as(name + tail, Some(ext), r),
    ensures
        r == name + seq!['.'] + ext,
{
    let selected = name + tail;
    lemma_tail_is_undivided(name, tail);
    law_what_no_system_divides(selected);
    law_names_of_files(selected);
    assert(selected[name.len() - 1] == name[name.len() - 1]);
    law_tidying_takes_dots_and_spaces_off(name, tail);
    law_last_dot_divides_a_name(name, Seq::empty(), name);
    if tail.contains('.') {
        assert(selected.last() == '.');
        if last_dot(selected) > 0 {
            assert(extension_of(selected)->0.len() == 0);
        }
    } else {
        assert forall|i: int| 0 < i < selected.len() implies #[trigger] selected[i] != '.' by {
            if i < name.len() {
                assert(selected[i] == name[i]);
            } else {
                assert(tail.contains(tail[i - name.len()]));
                assert(selected[i] == tail[i - name.len()]);
            }
        }
        law_last_dot_divides_a_name(name, Seq::empty(), selected);
    }
    law_file_lacks_its_extension(selected, ext);
    assert(kept_name(selected, Some(ext)) =~= name + seq!['.'] + ext);
}

proof fn lemma_tail_is_undivided(name: Seq<char>, tail: Seq<char>)
    requires
        name.len() > 0,
        forall|i: int| 0 <= i < name.len() ==> #[trigger] name[i] != '/' && name[i] != '\\',
        !(name.len() >= 2 && name[1] == ':' && ('a' <= name[0] <= 'z' || 'A' <= name[0] <= 'Z')),
        forall|i: int| 0 <= i < tail.len() ==> #[trigger] tail[i] == '.' || tail[i] == ' ',
    ensures
        is_undivided(name + tail),
{
    let s = name + tail;
    assert forall|i: int| 0 <= i < s.len() implies #[trigger] s[i] != '/' && s[i] != '\\' by {
        if i < name.len() {
            assert(s[i] == name[i]);
        } else {
            assert(s[i] == tail[i - name.len()]);
        }
    }
    assert(s[0] == name[0]);
    if s.len() >= 2 {
        if name.len() >= 2 {
            assert(s[1] == name[1]);
        } else {
            assert(s[1] == tail[0]);
        }
    }
    law_what_no_system_divides(s);
}

/// A bare name that ends in a dot gives up the extension before that for the one that
/// the file came with.
pub proof fn law_unfinished_extension_gives_way(
    stem: Seq<char>,
    old_ext: Seq<char>,
    tail: Seq<char>,
    ext: Seq<char>,
    r: Seq<char>,
)
    requires
        stem.len() > 0,
        forall|i: int| 0 <= i < stem.len() ==> #[trigger] stem[i] != '/' && stem[i] != '\\',
        !(stem.len() >= 2 && stem[1] == ':' && ('a' <= stem[0] <= 'z' || 'A' <= stem[0] <= 'Z')),
        old_ext.len() > 0,
        forall|i: int|
            0 <= i < old_ext.len() ==> #[trigger] old_ext[i] != '/' && old_ext[i] != '\\'
                && old_ext[i] != '.',
        old_ext[old_ext.len() - 1] != ' ',
        tail.len() > 0,
        forall|i: int| 0 <= i < tail.len() ==> #[trigger] tail[i] == '.' || tail[i] == ' ',
        tail[tail.len() - 1] == '.',
        ext.len() > 0,
        saved_as(stem + seq!['.'] + old_ext + tail, Some(ext), r),
    ensures
        r == stem + seq!['.'] + ext,
{
    let name = stem + seq!['.'] + old_ext;
    let selected = name + tail;
    assert forall|i: int| 0 <= i < name.len() implies #[trigger] name[i] != '/' && name[i]
        != '\\' by {
        if i < stem.len() {
            assert(name[i] == stem[i]);
        } else if i > stem.len() {
            assert(name[i] == old_ext[i - stem.len() - 1]);
        }
    }
    assert(name[0] == stem[0]);
    if stem.len() >= 2 {
        assert(name[1] == stem[1]);
    } else {
        assert(name[1] == '.');
    }
    assert(name[name.len() - 1] == old_ext[old_ext.len() - 1]);
    lemma_tail_is_undivided(name, tail);
    law_names_of_files(selected);
    assert(selected[name.len() - 1] == name[name.len() - 1]);
    law_tidying_takes_dots_and_spaces_off(name, tail);
    law_last_dot_divides_a_name(stem, old_ext, name);
    assert(selected.last() == '.');
    assert(extension_of(selected)->0.len() == 0);
    law_file_lacks_its_extension(selected, ext);
    assert(kept_name(selected, Some(ext)) =~= stem + seq!['.'] + ext);
}

/// An extension that the user typed stays on every path, and with it the whole path,
/// whatever the file came with.
pub proof fn law_typed_path_stays(
    stem: Seq<char>,
    typed: Seq<char>,
    ext: Option<Seq<char>>,
    r: Seq<char>,
)
    requires
        stem.len() > 0,
        stem[stem.len() - 1] != '/' && stem[stem.len() - 1] != '\\',
        !(stem.len() == 2 && stem[1] == ':' && ('a' <= stem[0] <= 'z' || 'A' <= stem[0] <= 'Z')),
        typed.len() > 0,
        forall|i: int|
            0 <= i < typed.len() ==> #[trigger] typed[i] != '/' && typed[i] != '\\' && typed[i]
                != '.',
        saved_as(stem + seq!['.'] + typed, ext, r),
    ensures
        r == stem + seq!['.'] + typed,
{
    lemma_typed_is_shown(stem, typed);
}

proof fn lemma_typed_is_shown(stem: Seq<char>, typed: Seq<char>)
    requires
        stem.len() > 0,
        stem[stem.len() - 1] != '/' && stem[stem.len() - 1] != '\\',
        !(stem.len() == 2 && stem[1] == ':' && ('a' <= stem[0] <= 'z' || 'A' <= stem[0] <= 'Z')),
        typed.len() > 0,
        forall|i: int|
            0 <= i < typed.len() ==> #[trigger] typed[i] != '/' && typed[i] != '\\' && typed[i]
                != '.',
    ensures
        shown_extension(stem + seq!['.'] + typed) == Some(typed),
{
    let path = stem + seq!['.'] + typed;
    let d = stem.len() as int;
    law_last_dot_divides_a_name(stem, typed, path);
    lemma_last_dot(path);
    assert(path[d] == '.');
    assert(last_dot(path) == d) by {
        if last_dot(path) > d {
            assert(path[last_dot(path)] == typed[last_dot(path) - d - 1]);
        }
    }
    let tail = path.skip(d - 1);
    assert forall|i: int| 0 <= i < tail.len() implies #[trigger] tail[i] != '/' && tail[i]
        != '\\' by {
        if i == 0 {
            assert(tail[i] == stem[d - 1]);
        } else if i > 1 {
            assert(tail[i] == typed[i - 2]);
        }
    }
    assert(is_one_piece(tail));
    if begins_on_a_drive(path) {
        assert(path[0] == stem[0]);
        if stem.len() >= 2 {
            assert(path[1] == stem[1]);
        }
    }
    assert(path.skip(d + 1) =~= typed);
}

/// A name of dots and spaces alone stays as it is, and so does every path where the
/// file came without an extension.
pub proof fn law_nothing_to_add(selected: Seq<char>, ext: Option<Seq<char>>, r: Seq<char>)
    requires
        saved_as(selected, ext, r),
        ext is None || ext->0.len() == 0 || forall|i: int|
            0 <= i < selected.len() ==> #[trigger] selected[i] == '.' || selected[i] == ' ',
    ensures
        r == selected,
{
    if !(ext is None || ext->0.len() == 0) {
        let empty = Seq::<char>::empty();
        assert(empty + selected =~= selected);
        law_tidying_takes_dots_and_spaces_off(empty, selected);
        law_what_no_system_divides(selected);
    }
}

/// Saving in a directory is saving the bare name there: the directory stays before the
/// name that the bare name alone would get, behind the separator of the system.
pub proof fn law_saving_in_a_directory_is_saving_there(
    dir: Seq<char>,
    file: Seq<char>,
    ext: Option<Seq<char>>,
    r: Seq<char>,
    bare: Seq<char>,
)
    requires
        dir.len() > 0,
        dir[dir.len() - 1] != '/' && dir[dir.len() - 1] != '\\',
        !(dir.len() >= 2 && (dir[0] == '/' || dir[0] == '\\') && (dir[1] == '/' || dir[1] == '\\')),
        !(dir.len() >= 2 && dir[dir.len() - 1] == '.' && (dir[dir.len() - 2] == '/' || dir[dir.len()
            - 2] == '\\' || dir[dir.len() - 2] == ':')),
        file.len() > 0,
        file != seq!['.'] && file != seq!['.', '.'],
        forall|i: int| 0 <= i < file.len() ==> #[trigger] file[i] != '/' && file[i] != '\\',
        !(file.len() >= 2 && file[1] == ':' && ('a' <= file[0] <= 'z' || 'A' <= file[0] <= 'Z')),
        saved_as(dir + seq!['/'] + file, ext, r),
        saved_as(file, ext, bare),
    ensures
        r == dir + seq!['/'] + bare || r == dir + seq!['\\'] + bare,
{
    let path = dir + seq!['/'] + file;
    law_what_no_system_divides(file);
    assert(path =~= dir.push('/') + file);
    assert(path[0] == dir[0]);
    if dir.len() >= 2 {
        assert(path[1] == dir[1]);
    }
    assert(is_file_in(path, dir, file));
}

/// Saving at the root, or at that of a drive, is saving the bare name there.
pub proof fn law_saving_at_a_root_is_saving_there(
    drive: char,
    file: Seq<char>,
    ext: Option<Seq<char>>,
    r: Seq<char>,
    bare: Seq<char>,
)
    requires
        'a' <= drive <= 'z' || 'A' <= drive <= 'Z',
        file.len() > 0,
        file != seq!['.'] && file != seq!['.', '.'],
        forall|i: int| 0 <= i < file.len() ==> #[trigger] file[i] != '/' && file[i] != '\\',
        !(file.len() >= 2 && file[1] == ':' && ('a' <= file[0] <= 'z' || 'A' <= file[0] <= 'Z')),
        saved_as(file, ext, bare),
    ensures
        saved_as(seq!['/'] + file, ext, r) ==> r == seq!['/'] + bare,
        saved_as(seq![drive, ':', '/'] + file, ext, r) ==> r == seq![drive, ':', '/'] + bare,
{
    law_what_no_system_divides(file);
    let root = seq!['/'];
    let path = root + file;
    assert(path[1] == file[0]);
    assert(is_file_at_root(path, root, file));
    let drive_root = seq![drive, ':', '/'];
    assert(drive_root.take(2) =~= seq![drive, ':']);
    assert(is_file_at_root(drive_root + file, drive_root, file));
}

/// Saving under a path divided at backslashes is saving the bare name there, with the
/// directory as it was chosen: relative, below a root or a drive, or on a drive alone.
pub proof fn law_saving_behind_backslashes_is_saving_there(
    dir: Seq<char>,
    drive: char,
    file: Seq<char>,
    ext: Option<Seq<char>>,
    r: Seq<char>,
    bare: Seq<char>,
)
    requires
        dir.len() > 0,
        forall|i: int| 0 <= i < dir.len() ==> #[trigger] dir[i] != '/' && dir[i] != '.',
        dir[dir.len() - 1] != '\\',
        !(dir.len() >= 2 && dir[0] == '\\' && dir[1] == '\\'),
        'a' <= drive <= 'z' || 'A' <= drive <= 'Z',
        file.len() > 0,
        file[0] != '.' && file[0] != ' ',
        forall|i: int| 0 <= i < file.len() ==> #[trigger] file[i] != '/' && file[i] != '\\',
        !(file.len() >= 2 && file[1] == ':' && ('a' <= file[0] <= 'z' || 'A' <= file[0] <= 'Z')),
        saved_as(file, ext, bare),
    ensures
        saved_as(dir + seq!['\\'] + file, ext, r) ==> r == dir + seq!['\\'] + bare,
        saved_as(seq!['\\'] + file, ext, r) ==> r == seq!['\\'] + bare,
        saved_as(seq![drive, ':'] + file, ext, r) ==> r == seq![drive, ':'] + bare,
{
    law_what_no_system_divides(file);
    law_names_of_files(file);
    let head = dir.push('\\');
    let path = dir + seq!['\\'] + file;
    assert(path =~= head + file);
    assert(head.drop_last() =~= dir);
    lemma_head_holds_no(head, dir);
    assert(is_file_at(path, head, file));
    assert(head + bare =~= dir + seq!['\\'] + bare);
    let root = seq!['\\'];
    lemma_short_heads(drive);
    assert(is_file_at(root + file, root, file));
    let on_drive = seq![drive, ':'];
    assert(is_file_at(on_drive + file, on_drive, file));
}

proof fn lemma_head_holds_no(head: Seq<char>, dir: Seq<char>)
    requires
        head == dir.push('\\'),
        forall|i: int| 0 <= i < dir.len() ==> #[trigger] dir[i] != '/' && dir[i] != '.',
    ensures
        !head.contains('/'),
        !head.contains('.'),
{
    assert forall|c: char| c == '/' || c == '.' implies !head.contains(c) by {
        if head.contains(c) {
            let i = choose|i: int| 0 <= i < head.len() && head[i] == c;
            if i < dir.len() {
                assert(dir[i] == c);
            }
        }
    }
}

proof fn lemma_short_heads(drive: char)
    requires
        'a' <= drive <= 'z' || 'A' <= drive <= 'Z',
    ensures
        is_head(seq!['\\']),
        is_head(seq![drive, ':']),
        !seq!['\\'].contains('.'),
        !seq![drive, ':'].contains('.'),
{
    let root = seq!['\\'];
    let on_drive = seq![drive, ':'];
    assert forall|c: char| c == '/' || c == '.' implies !root.contains(c) && !on_drive.contains(
        c,
    ) by {
        if root.contains(c) {
            let i = choose|i: int| 0 <= i < root.len() && root[i] == c;
            assert(root[i] == '\\');
        }
        if on_drive.contains(c) {
            let i = choose|i: int| 0 <= i < on_drive.len() && on_drive[i] == c;
            assert(i == 0 || i == 1);
        }
    }
}

/// Saving on the share of a server is saving the bare name there.
pub proof fn law_saving_on_a_share_is_saving_there(
    server: Seq<char>,
    share: Seq<char>,
    file: Seq<char>,
    ext: Option<Seq<char>>,
    r: Seq<char>,
    bare: Seq<char>,
)
    requires
        server.len() > 0,
        server != seq!['?'],
        forall|i: int|
            0 <= i < server.len() ==> #[trigger] server[i] != '/' && server[i] != '\\' && server[i]
                != ':' && server[i] != '.',
        share.len() > 0,
        share != seq!['?'],
        forall|i: int|
            0 <= i < share.len() ==> #[trigger] share[i] != '/' && share[i] != '\\' && share[i]
                != ':' && share[i] != '.',
        file.len() > 0,
        file[0] != '.' && file[0] != ' ',
        forall|i: int| 0 <= i < file.len() ==> #[trigger] file[i] != '/' && file[i] != '\\',
        !(file.len() >= 2 && file[1] == ':' && ('a' <= file[0] <= 'z' || 'A' <= file[0] <= 'Z')),
        saved_as(file, ext, bare),
        saved_as(seq!['\\', '\\'] + server + seq!['\\'] + share + seq!['\\'] + file, ext, r),
    ensures
        r == seq!['\\', '\\'] + server + seq!['\\'] + share + seq!['\\'] + bare,
{
    law_what_no_system_divides(file);
    law_names_of_files(file);
    let dir = seq!['\\', '\\'] + server + seq!['\\'] + share;
    let head = dir.push('\\');
    let path = dir + seq!['\\'] + file;
    assert(path =~= head + file);
    assert(head.drop_last() =~= dir);
    let n = server.len() as int;
    assert forall|i: int| 0 <= i < dir.len() implies #[trigger] dir[i] != '/' && dir[i] != '.' by {
        if 2 <= i < n + 2 {
            assert(dir[i] == server[i - 2]);
        } else if i > n + 2 {
            assert(dir[i] == share[i - n - 3]);
        }
    }
    lemma_head_holds_no(head, dir);
    assert(dir.last() == share[share.len() - 1]);
    lemma_is_share_name(server);
    lemma_is_share_name(share);
    assert(dir =~= seq!['\\', '\\'] + server + seq!['\\'] + share + Seq::<char>::empty());
    assert(is_share_of(dir, '\\', server, share, Seq::empty()));
    assert(is_file_at(path, head, file));
    assert(head + bare =~= dir + seq!['\\'] + bare);
}

proof fn lemma_is_share_name(s: Seq<char>)
    requires
        s.len() > 0,
        s != seq!['?'],
        forall|i: int|
            0 <= i < s.len() ==> #[trigger] s[i] != '/' && s[i] != '\\' && s[i] != ':' && s[i]
                != '.',
    ensures
        is_share_name(s),
{
    assert forall|c: char| c == '/' || c == '\\' || c == ':' implies !s.contains(c) by {
        if s.contains(c) {
            let i = choose|i: int| 0 <= i < s.len() && s[i] == c;
            assert(s[i] == c);
        }
    }
    let one = seq!['.'];
    assert(one[0] == '.');
    assert(s[0] != '.');
}

/// The extension of an offered name is what stands behind its last dot, on every path
/// that is not on a server.
pub proof fn law_offered_name_has_its_extension(
    stem: Seq<char>,
    ext: Seq<char>,
    found: Option<Seq<char>>,
)
    requires
        stem.len() > 0,
        stem[stem.len() - 1] != '/' && stem[stem.len() - 1] != '\\',
        !(stem.len() == 2 && stem[1] == ':' && ('a' <= stem[0] <= 'z' || 'A' <= stem[0] <= 'Z')),
        !(stem.len() >= 2 && (stem[0] == '/' || stem[0] == '\\') && (stem[1] == '/' || stem[1]
            == '\\')),
        ext.len() > 0,
        forall|i: int|
            0 <= i < ext.len() ==> #[trigger] ext[i] != '/' && ext[i] != '\\' && ext[i] != '.',
        has_extension(stem + seq!['.'] + ext, found),
    ensures
        found == Some(ext),
{
    lemma_typed_is_shown(stem, ext);
    let path = stem + seq!['.'] + ext;
    assert(path[0] == stem[0]);
    if stem.len() >= 2 {
        assert(path[1] == stem[1]);
    } else {
        assert(path[1] == '.');
    }
    assert(names_no_server(path));
}

/// A bare name without a dot behind its first character, or with one at its end, has
/// no extension.
pub proof fn law_offered_name_without_extension(name: Seq<char>, found: Option<Seq<char>>)
    requires
        forall|i: int| 0 <= i < name.len() ==> #[trigger] name[i] != '/' && name[i] != '\\',
        !(name.len() >= 2 && name[1] == ':' && ('a' <= name[0] <= 'z' || 'A' <= name[0] <= 'Z')),
        (forall|i: int| 0 < i < name.len() ==> #[trigger] name[i] != '.') || (name.len() > 0
            && name[name.len() - 1] == '.'),
        has_extension(name, found),
    ensures
        found is None,
        offered_extension(name) is None,
{
    law_what_no_system_divides(name);
    if name.len() > 0 && name[name.len() - 1] == '.' {
        assert(name.last() == '.');
        if last_dot(name) > 0 {
            assert(extension_of(name)->0.len() == 0);
        }
    } else {
        law_last_dot_divides_a_name(seq!['x'], Seq::empty(), name);
    }
}

/// The extension of a bare name that is offered is what stands behind its last dot.
pub proof fn law_bare_offered_name_has_its_extension(stem: Seq<char>, ext: Seq<char>)
    requires
        stem.len() > 0,
        ext.len() > 0,
        forall|i: int| 0 <= i < ext.len() ==> #[trigger] ext[i] != '.',
    ensures
        offered_extension(stem + seq!['.'] + ext) == Some(ext),
{
    let name = stem + seq!['.'] + ext;
    law_last_dot_divides_a_name(stem, ext, name);
    law_names_of_files(name);
    assert(name[name.len() - 1] == ext[ext.len() - 1]);
}

/// A file has the same extension in a directory and on its own.
pub proof fn law_directory_does_not_change_the_extension(
    dir: Seq<char>,
    file: Seq<char>,
    there: Option<Seq<char>>,
    alone: Option<Seq<char>>,
)
    requires
        !(dir.len() >= 2 && (dir[0] == '/' || dir[0] == '\\') && (dir[1] == '/' || dir[1] == '\\')),
        dir.len() == 1 ==> dir[0] != '/' && dir[0] != '\\',
        file.len() > 0,
        file != seq!['.'] && file != seq!['.', '.'],
        forall|i: int| 0 <= i < file.len() ==> #[trigger] file[i] != '/' && file[i] != '\\',
        !(file.len() >= 2 && file[1] == ':' && ('a' <= file[0] <= 'z' || 'A' <= file[0] <= 'Z')),
        has_extension(dir + seq!['/'] + file, there),
        has_extension(file, alone),
    ensures
        there == alone,
{
    let before = dir + seq!['/'];
    let path = dir + seq!['/'] + file;
    law_what_no_system_divides(file);
    if dir.len() == 0 {
        assert(path[1] == file[0]);
    } else {
        assert(path[0] == dir[0]);
        if dir.len() >= 2 {
            assert(path[1] == dir[1]);
        }
    }
    assert(is_file_after(path, before, file));
}

/// A file has the same extension behind a backslash and on its own.
pub proof fn law_backslash_does_not_change_the_extension(
    dir: Seq<char>,
    file: Seq<char>,
    there: Option<Seq<char>>,
    alone: Option<Seq<char>>,
)
    requires
        dir.len() > 0,
        dir[0] != '/' && dir[0] != '\\',
        forall|i: int| 0 <= i < dir.len() ==> #[trigger] dir[i] != '.',
        file.len() > 0,
        file[0] != '.' && file[0] != ' ',
        forall|i: int| 0 <= i < file.len() ==> #[trigger] file[i] != '/' && file[i] != '\\',
        !(file.len() >= 2 && file[1] == ':' && ('a' <= file[0] <= 'z' || 'A' <= file[0] <= 'Z')),
        has_extension(dir + seq!['\\'] + file, there),
        has_extension(file, alone),
    ensures
        there == alone,
{
    law_what_no_system_divides(file);
    law_names_of_files(file);
    assert(is_file_behind(dir + seq!['\\'] + file, dir, file));
}

/// A path that comes back whole is taken, a name that is the whole path takes its
/// place, and a name that lost its directory gets it back.
pub proof fn law_answer_keeps_its_directory(
    before: Seq<char>,
    found: Seq<char>,
    name: Seq<char>,
    answer: Seq<char>,
)
    requires
        before.len() > 0,
        forall|i: int| 0 <= i < name.len() ==> #[trigger] name[i] != '/' && name[i] != '\\',
        !(name.len() >= 2 && name[1] == ':' && ('a' <= name[0] <= 'z' || 'A' <= name[0] <= 'Z')),
    ensures
        placed_as(before + found, found, name, name) == before + name,
        placed_as(found, found, name, answer) == name,
        answer != name ==> placed_as(before + found, found, name, answer) == answer,
{
    let selected = before + found;
    law_what_no_system_divides(name);
    assert(selected.subrange(before.len() as int, selected.len() as int) =~= found);
    assert(selected.take(selected.len() - found.len()) =~= before);
}

} // verus!
