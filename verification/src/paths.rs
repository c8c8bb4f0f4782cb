//! Paths as texts. What the file name of a path is depends on the system: a slash
//! divides a path on each of them, and a backslash and the colon of a drive on
//! some. The predicates here say which paths the systems agree on, and what holds
//! on every system of the rest.

use crate::file_names::{
    extension_of, is_file_name, last_dot, lemma_dot_is_last, lemma_last_dot, tidied,
};
use crate::text::{chars_of, occurs_at, text_of};
use vstd::prelude::*;

verus! {

// ---------------------------------------------------------------------------
// Shapes of paths
// ---------------------------------------------------------------------------

pub open spec fn is_separator(c: char) -> bool {
    c == '/' || c == '\\'
}

/// A text without separators.
pub open spec fn is_one_piece(s: Seq<char>) -> bool {
    !s.contains('/') && !s.contains('\\')
}

/// A text that begins with a letter and a colon, which some systems read as the
/// name of a drive.
pub open spec fn begins_on_a_drive(s: Seq<char>) -> bool {
    s.len() >= 2 && ('a' <= s[0] <= 'z' || 'A' <= s[0] <= 'Z') && s[1] == ':'
}

/// The name of a drive.
pub open spec fn is_drive(s: Seq<char>) -> bool {
    s.len() == 2 && begins_on_a_drive(s)
}

/// A text that no system divides.
pub open spec fn is_undivided(s: Seq<char>) -> bool {
    is_one_piece(s) && !begins_on_a_drive(s)
}

/// A file name that is a path on every system.
pub open spec fn is_bare_name(s: Seq<char>) -> bool {
    is_file_name(s) && is_undivided(s)
}

/// A path that does not begin like one on a server.
pub open spec fn names_no_server(path: Seq<char>) -> bool {
    !(path.len() >= 2 && is_separator(path[0]) && is_separator(path[1]))
}

/// A path that no system normalises when a name is put behind it, and that each
/// divides at its slashes.
pub open spec fn is_taken_as_it_is(path: Seq<char>) -> bool {
    path.len() == 0 || path.first() != '\\'
}

/// A path that ends in a name on every system, unless all of it is a server.
pub open spec fn ends_in_name(path: Seq<char>) -> bool {
    path.len() > 0 && !is_separator(path.last()) && path.last() != '.' && !is_drive(path)
}

/// A name that a server or one of its shares can have.
pub open spec fn is_share_name(s: Seq<char>) -> bool {
    s.len() > 0 && is_one_piece(s) && !s.contains(':') && s != seq!['.'] && s != seq!['?']
}

pub open spec fn is_share_of(
    dir: Seq<char>,
    separator: char,
    server: Seq<char>,
    share: Seq<char>,
    rest: Seq<char>,
) -> bool {
    &&& dir == seq![separator, separator] + server + seq![separator] + share + rest
    &&& is_share_name(server)
    &&& is_share_name(share)
    &&& rest.len() == 0 || rest.first() == separator
}

/// A share of a server, or a directory in one, written with the given separator.
pub open spec fn is_in_share(dir: Seq<char>, separator: char) -> bool {
    exists|server: Seq<char>, share: Seq<char>, rest: Seq<char>|
        is_share_of(dir, separator, server, share, rest)
}

/// A path that is a file behind a slash on every system.
pub open spec fn is_file_after(path: Seq<char>, before: Seq<char>, name: Seq<char>) -> bool {
    &&& path == before + name
    &&& before.len() > 0
    &&& before.last() == '/'
    &&& is_file_name(name)
    &&& is_one_piece(name)
    &&& names_no_server(path) || is_in_share(before.drop_last(), '/')
}

/// A directory whose last part is the directory itself.
pub open spec fn ends_in_itself(dir: Seq<char>) -> bool {
    dir.len() > 1 && dir.last() == '.' && (is_separator(dir[dir.len() - 2]) || dir[dir.len() - 2]
        == ':')
}

/// A path that is a file in a directory on every system. Left out are directories
/// whose end is normalised.
pub open spec fn is_file_in(path: Seq<char>, dir: Seq<char>, name: Seq<char>) -> bool {
    &&& is_file_after(path, dir.push('/'), name)
    &&& is_bare_name(name)
    &&& dir.len() > 0
    &&& !is_separator(dir.last())
    &&& !ends_in_itself(dir)
}

/// A root that every system takes as it is: that of the system or of a drive,
/// written with a slash.
pub open spec fn is_root(root: Seq<char>) -> bool {
    root == seq!['/'] || (root.len() == 3 && is_drive(root.take(2)) && root[2] == '/')
}

/// A path that is a file at a root on every system.
pub open spec fn is_file_at_root(path: Seq<char>, root: Seq<char>, name: Seq<char>) -> bool {
    is_file_after(path, root, name) && is_bare_name(name) && is_root(root)
}

/// What stands before the name of a file where the path is divided at backslashes
/// alone: the root, a drive, or a directory with the backslash behind it, which
/// may lie in a share.
pub open spec fn is_head(head: Seq<char>) -> bool {
    &&& head.len() > 0
    &&& !head.contains('/')
    &&& head == seq!['\\'] || is_drive(head) || {
        let dir = head.drop_last();
        &&& head.last() == '\\'
        &&& dir.len() > 0
        &&& dir.last() != '\\' && !ends_in_itself(dir)
        &&& names_no_server(dir) || is_in_share(dir, '\\')
    }
}

/// A path that is a file behind a head on the systems that divide paths at
/// backslashes, and all of it one file name on the others.
pub open spec fn is_file_at(path: Seq<char>, head: Seq<char>, name: Seq<char>) -> bool {
    path == head + name && is_bare_name(name) && is_head(head)
}

/// A path that is a file in a directory on the systems that divide paths at
/// backslashes, with slashes in the directory or without. Left out are directories
/// that begin at a root, since some system reads the name of a server there.
pub open spec fn is_file_behind(path: Seq<char>, dir: Seq<char>, name: Seq<char>) -> bool {
    &&& path == dir + seq!['\\'] + name
    &&& is_bare_name(name)
    &&& dir.len() > 0
    &&& !is_separator(dir.first())
}

pub(crate) fn undivided(s: &str) -> (r: bool)
    ensures
        r == is_undivided(s@),
{
    let chars = chars_of(s);
    if chars.len() >= 2 && chars[1] == ':' && (('a' <= chars[0] && chars[0] <= 'z') || ('A'
        <= chars[0] && chars[0] <= 'Z')) {
        return false;
    }
    for i in 0..chars.len()
        invariant
            chars@ == s@,
            forall|j: int| 0 <= j < i ==> !is_separator(#[trigger] s@[j]),
    {
        if chars[i] == '/' || chars[i] == '\\' {
            assert(s@.contains(s@[i as int]));
            return false;
        }
    }
    assert forall|c: char| is_separator(c) implies !s@.contains(c) by {
        if s@.contains(c) {
            let j = choose|j: int| 0 <= j < s@.len() && s@[j] == c;
            assert(!is_separator(s@[j]));
        }
    }
    true
}

pub(crate) fn has_backslash(s: &str) -> (r: bool)
    ensures
        r == s@.contains('\\'),
{
    let chars = chars_of(s);
    for i in 0..chars.len()
        invariant
            chars@ == s@,
            forall|j: int| 0 <= j < i ==> #[trigger] s@[j] != '\\',
    {
        if chars[i] == '\\' {
            assert(s@[i as int] == '\\');
            return true;
        }
    }
    false
}

// ---------------------------------------------------------------------------
// What the system says of a path
// ---------------------------------------------------------------------------

/// What holds on every system of the file name of a path: the last component,
/// where that is a name. A path that ends in a name ends in its file name, and no
/// text without separators is cut in two, except behind a drive.
pub open spec fn names_file(path: Seq<char>, found: Option<Seq<char>>) -> bool {
    &&& is_undivided(path) ==> found == if is_file_name(path) {
        Some(path)
    } else {
        None
    }
    &&& forall|before: Seq<char>, name: Seq<char>| #[trigger]
        is_file_after(path, before, name) ==> found == Some(name)
    &&& forall|head: Seq<char>, name: Seq<char>| #[trigger]
        is_file_at(path, head, name) ==> found == Some(name) || found == Some(path)
    &&& forall|dir: Seq<char>, name: Seq<char>| #[trigger]
        is_file_behind(path, dir, name) ==> found is Some && (found->0 == name || (seq!['\\']
            + name).is_suffix_of(found->0))
    &&& ends_in_name(path) && names_no_server(path) ==> found is Some
    &&& found matches Some(name) ==> {
        &&& is_file_name(name)
        &&& exists|k: int| occurs_at(path, name, k)
        &&& is_taken_as_it_is(path) ==> !name.contains('/')
        &&& ends_in_name(path) ==> name.is_suffix_of(path) && forall|tail: Seq<char>|
            is_one_piece(tail) && (!begins_on_a_drive(path) || tail.len() + 2 <= path.len())
                && #[trigger] tail.is_suffix_of(path) ==> tail.is_suffix_of(name)
    }
}

/// `Path::file_name` of std, which depends on the system: `names_file` says what
/// holds on every one.
#[verifier::external_body]
pub(crate) fn path_file_name(path: &str) -> (r: Option<String>)
    ensures
        names_file(path@, text_of(r)),
{
    std::path::Path::new(path).file_name().and_then(|name| name.to_str()).map(|name| name.to_string())
}

/// What holds on every system of the path of another file in the same directory.
/// Which separator stands before the name depends on the system, and so does
/// whether a path without slashes has a directory. The name ends the path as it
/// is, except that behind a verbatim prefix, which begins with a backslash,
/// references to the same or the parent directory are taken out of it.
pub open spec fn is_sibling(path: Seq<char>, name: Seq<char>, r: Seq<char>) -> bool {
    &&& is_bare_name(name) ==> {
        &&& forall|dir: Seq<char>, file: Seq<char>| #[trigger]
            is_file_in(path, dir, file) ==> r == dir + seq!['/'] + name || r == dir + seq!['\\']
                + name
        &&& forall|root: Seq<char>, file: Seq<char>| #[trigger]
            is_file_at_root(path, root, file) ==> r == root + name
        &&& forall|head: Seq<char>, file: Seq<char>| #[trigger]
            is_file_at(path, head, file) ==> r == head + name || r == name
    }
    &&& is_bare_name(name) || is_taken_as_it_is(path) ==> name.is_suffix_of(r)
}

/// `Path::with_file_name` of std, which depends on the system: `is_sibling` says
/// what holds on every one.
#[verifier::external_body]
pub(crate) fn path_with_file_name(path: &str, name: &str) -> (r: String)
    ensures
        is_sibling(path@, name@, r@),
{
    std::path::Path::new(path).with_file_name(name).to_string_lossy().into_owned()
}

/// The extension that a path shows on every system: what stands behind its last
/// dot, where neither that nor the character before the dot can divide the path.
pub open spec fn shown_extension(path: Seq<char>) -> Option<Seq<char>> {
    let d = last_dot(path);
    if d > 0 && d + 1 < path.len() && is_one_piece(path.skip(d - 1)) && (!begins_on_a_drive(path)
        || d > 2) {
        Some(path.skip(d + 1))
    } else {
        None
    }
}

/// A path that ends in a name, or in one with spaces behind it.
pub open spec fn ends_plainly(path: Seq<char>) -> bool {
    &&& path.len() > 0
    &&& path.last() != '.'
    &&& tidied(path).len() > 0
    &&& !is_separator(tidied(path).last())
    &&& tidied(path).last() != ':'
}

// ---------------------------------------------------------------------------
// Facts about paths
// ---------------------------------------------------------------------------

pub proof fn lemma_suffix_of_suffix(a: Seq<char>, b: Seq<char>, c: Seq<char>)
    requires
        a.is_suffix_of(b),
        b.is_suffix_of(c),
    ensures
        a.is_suffix_of(c),
{
    assert(c.subrange(c.len() - a.len(), c.len() as int) =~= b.subrange(
        b.len() - a.len(),
        b.len() as int,
    ));
}

pub proof fn lemma_suffix_last(end: Seq<char>, s: Seq<char>)
    requires
        end.is_suffix_of(s),
        end.len() > 0,
    ensures
        end.last() == s.last(),
{
    assert(s.subrange(s.len() - end.len(), s.len() as int)[end.len() - 1] == end[end.len() - 1]);
}

pub proof fn lemma_prefix_is_undivided(s: Seq<char>, n: int)
    requires
        0 <= n <= s.len(),
    ensures
        is_one_piece(s) ==> is_one_piece(s.take(n)),
        is_undivided(s) ==> is_undivided(s.take(n)),
        forall|c: char| #[trigger] s.take(n).contains(c) ==> s.contains(c),
{
    assert forall|c: char| #[trigger] s.take(n).contains(c) implies s.contains(c) by {
        let i = choose|i: int| 0 <= i < n && s.take(n)[i] == c;
        assert(s[i] == c);
    }
}

/// A path behind a head is neither of the two that are no file names.
pub proof fn lemma_divided_is_file_name(head: Seq<char>, file: Seq<char>)
    requires
        is_head(head),
    ensures
        is_file_name(head + file),
{
    let path = head + file;
    let i = head.len() - 1;
    assert(head[i] == '\\' || head[i] == ':');
    assert(path[i] == head[i]);
    let one = seq!['.'];
    let two = seq!['.', '.'];
    assert(one.len() == 1 && one[0] == '.');
    assert(two.len() == 2 && two[0] == '.' && two[1] == '.');
    assert(path.len() == head.len() + file.len());
    assert(path != one && path != two);
}

/// On a system that does not divide a path at backslashes, the file name goes on
/// before the last of them, into the directory.
pub proof fn lemma_head_has_no_dot(
    path: Seq<char>,
    dir: Seq<char>,
    file: Seq<char>,
    found: Seq<char>,
)
    requires
        path == dir + seq!['\\'] + file,
        !dir.contains('.'),
        (seq!['\\'] + file).is_suffix_of(found),
        exists|k: int| occurs_at(path, found, k),
    ensures
        found.len() > file.len(),
        found == found.take(found.len() - file.len()) + file,
        !found.take(found.len() - file.len()).contains('.'),
        found.take(found.len() - file.len()).contains('\\'),
{
    let k = choose|k: int| occurs_at(path, found, k);
    let tail = seq!['\\'] + file;
    let n = found.len() - file.len();
    let head = found.take(n);
    let end = found.subrange(found.len() - tail.len(), found.len() as int);
    assert(end == tail);
    assert forall|i: int| 0 <= i < file.len() implies found[n + i] == file[i] by {
        assert(end[i + 1] == tail[i + 1]);
    }
    assert(found =~= head + file);
    assert(end[0] == tail[0]);
    assert(head[n - 1] == '\\');
    if head.contains('.') {
        let i = choose|i: int| 0 <= i < head.len() && head[i] == '.';
        assert(path.subrange(k, k + found.len())[i] == found[i]);
        assert(path[k + i] == '.');
        assert(dir[k + i] == '.');
    }
}

/// A path that shows an extension ends in a name.
pub proof fn lemma_shown_extension(path: Seq<char>)
    requires
        shown_extension(path) is Some,
    ensures
        ends_in_name(path),
        path.skip(last_dot(path) - 1).is_suffix_of(path),
        is_one_piece(path.skip(last_dot(path) - 1)),
        !begins_on_a_drive(path) || path.skip(last_dot(path) - 1).len() + 2 <= path.len(),
{
    lemma_last_dot(path);
    let tail = path.skip(last_dot(path) - 1);
    assert(tail.last() == path.last());
    assert(tail.contains(tail.last())) by {
        assert(tail[tail.len() - 1] == tail.last());
    }
    assert(path.subrange(path.len() - tail.len(), path.len() as int) =~= tail);
}

/// The file name of a path that shows an extension has it.
pub proof fn lemma_extension_is_shown(path: Seq<char>, found: Seq<char>)
    requires
        shown_extension(path) is Some,
        path.skip(last_dot(path) - 1).is_suffix_of(found),
    ensures
        extension_of(found) == shown_extension(path),
{
    lemma_last_dot(path);
    let d = last_dot(path);
    let tail = path.skip(d - 1);
    let n = found.len() - tail.len();
    let end = found.subrange(n, found.len() as int);
    assert(end == tail);
    assert(end[1] == tail[1]);
    assert forall|i: int| n + 1 < i < found.len() implies found[i] != '.' by {
        assert(end[i - n] == tail[i - n]);
    }
    lemma_dot_is_last(found, n + 1);
    assert(found.skip(n + 2) =~= end.skip(2));
    assert(path.skip(d + 1) =~= tail.skip(2));
}

/// A path shows the extension that stands at its end behind a stem.
pub proof fn lemma_end_is_shown(path: Seq<char>, stem: Seq<char>, ext: Seq<char>)
    requires
        (stem.push('.') + ext).is_suffix_of(path),
        stem.len() > 0,
        !is_separator(stem.last()),
        begins_on_a_drive(path) ==> stem.last() != ':' || path.len() - ext.len() > 3,
        ext.len() > 0,
        is_one_piece(ext),
        !ext.contains('.'),
    ensures
        shown_extension(path) == Some(ext),
{
    let name = stem.push('.') + ext;
    let n = path.len() - name.len();
    let end = path.subrange(n, path.len() as int);
    assert(end == name);
    let d = n + stem.len();
    assert(end[stem.len() as int] == name[stem.len() as int]);
    assert forall|i: int| d < i < path.len() implies path[i] != '.' by {
        assert(end[i - n] == name[i - n]);
        assert(ext[i - d - 1] == path[i]);
        assert(ext.contains(path[i]));
    }
    lemma_dot_is_last(path, d);
    assert(path.skip(d + 1) =~= end.skip((stem.len() + 1) as int));
    assert(name.skip((stem.len() + 1) as int) =~= ext);
    let tail = path.skip(d - 1);
    assert(end[stem.len() - 1] == name[stem.len() - 1]);
    assert(path[d - 1] == stem.last());
    assert(path[d] == '.');
    if begins_on_a_drive(path) && d <= 2 {
        assert(path[1] == ':');
    }
    assert forall|c: char| is_separator(c) implies !tail.contains(c) by {
        if tail.contains(c) {
            let i = choose|i: int| 0 <= i < tail.len() && tail[i] == c;
            if i >= 2 {
                assert(path.skip(d + 1)[i - 2] == c);
                assert(ext.contains(c));
            }
        }
    }
    assert(is_separator('/') && is_separator('\\'));
}

pub proof fn lemma_ends_in_name(path: Seq<char>)
    requires
        ends_plainly(path),
    ensures
        ends_in_name(path),
{
    if path.last() != ' ' {
        assert(tidied(path) == path);
    }
}

/// No system divides a text without slashes and backslashes that does not begin with
/// a letter and a colon.
pub proof fn law_what_no_system_divides(s: Seq<char>)
    ensures
        is_undivided(s) <==> (forall|i: int|
            0 <= i < s.len() ==> #[trigger] s[i] != '/' && s[i] != '\\') && !(s.len() >= 2 && s[1]
            == ':' && ('a' <= s[0] <= 'z' || 'A' <= s[0] <= 'Z')),
{
    if !s.contains('/') && !s.contains('\\') {
        assert forall|i: int| 0 <= i < s.len() implies #[trigger] s[i] != '/' && s[i] != '\\' by {
            assert(s.contains(s[i]));
        }
    }
}

} // verus!
