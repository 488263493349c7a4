//! Paths as text.
//!
//! A path is a text whose parts are divided by `/`, and by `/` only. Its
//! file name is what follows the last `/`; a path that begins with `/` is
//! absolute. No other character has a meaning: a backslash or a drive letter
//! is part of a name, so `C:\Music\a.mp3` is one name and not absolute.
//! Every contract of this module is meant of paths written with `/`.
//!
//! From the path of the output file the pipeline derives the paths of the
//! cover image and of the tagged file, and from the path of the tagged file
//! the path it is moved to in the end, which is the output path again.

use crate::text::{range_ends_with, text_of, to_chars};
use vstd::prelude::*;
use vstd::string::*;

verus! {

/// The ending of an audio file's name.
pub open spec fn mp3_suffix() -> Seq<char> {
    seq!['.', 'm', 'p', '3']
}

/// The ending of a cover image's name.
pub open spec fn jpeg_suffix() -> Seq<char> {
    seq!['.', 'j', 'p', 'e', 'g']
}

/// What is added to the output path to name the tagged file.
pub open spec fn temp_suffix() -> Seq<char> {
    seq!['_', 't', '.', 'm', 'p', '3']
}

/// Whether `path` begins at the root.
pub open spec fn is_absolute(path: Seq<char>) -> bool {
    path.len() > 0 && path[0] == '/'
}

/// `name` below `folder`: an absolute `name` stands for itself, else it
/// follows `folder`, with a `/` between them unless `folder` is empty or ends
/// with one.
pub open spec fn joined(folder: Seq<char>, name: Seq<char>) -> Seq<char> {
    if is_absolute(name) {
        name
    } else if folder.len() == 0 || folder.last() == '/' {
        folder + name
    } else {
        folder + seq!['/'] + name
    }
}

/// Whether a part of `path` that reads `..` begins at position `i`.
pub open spec fn is_parent_part_at(path: Seq<char>, i: int) -> bool {
    &&& 0 <= i
    &&& i + 2 <= path.len()
    &&& path[i] == '.'
    &&& path[i + 1] == '.'
    &&& i == 0 || path[i - 1] == '/'
    &&& i + 2 == path.len() || path[i + 2] == '/'
}

/// Whether `path` has a part that reads `..`, which leads out of the
/// directory it stands in.
pub open spec fn climbs(path: Seq<char>) -> bool {
    exists|i: int| is_parent_part_at(path, i)
}

/// Whether `rest`, joined to a directory, names something in that directory
/// or below it: it is not absolute and has no part that reads `..`.
pub open spec fn stays_below(rest: Seq<char>) -> bool {
    !is_absolute(rest) && !climbs(rest)
}

/// Whether `path` lies in `folder` or below it: it is `folder` with a text
/// joined to it that stays below.
pub open spec fn lies_below(path: Seq<char>, folder: Seq<char>) -> bool {
    exists|rest: Seq<char>|
        rest.len() > 0 && stays_below(rest) && path == #[trigger] joined(folder, rest)
}

/// A path that lies below a folder begins with the folder, and a `/` parts
/// the two.
pub proof fn lemma_lies_below_begins_with_folder(path: Seq<char>, folder: Seq<char>)
    requires
        lies_below(path, folder),
    ensures
        folder.is_prefix_of(path),
        path.len() > folder.len(),
        folder.len() == 0 || folder.last() == '/' || path[folder.len() as int] == '/',
{
    let rest = choose|rest: Seq<char>|
        rest.len() > 0 && stays_below(rest) && path == #[trigger] joined(folder, rest);
    assert(path.subrange(0, folder.len() as int) == folder);
}

/// Where the file name of `path` begins: behind the last `/`, or at the
/// start.
pub open spec fn name_start(path: Seq<char>) -> nat
    decreases path.len(),
{
    if path.len() == 0 || path.last() == '/' {
        path.len()
    } else {
        name_start(path.drop_last())
    }
}

/// The last part of `path`; empty where `path` is empty or ends with `/`.
pub open spec fn file_name(path: Seq<char>) -> Seq<char> {
    path.skip(name_start(path) as int)
}

/// `path` up to its file name, the last `/` included.
pub open spec fn parent_part(path: Seq<char>) -> Seq<char> {
    path.take(name_start(path) as int)
}

/// The path of the cover image before it is placed: the output path with a
/// closing `.mp3` replaced by `.jpeg`, or with `.jpeg` added.
pub open spec fn image_name(output: Seq<char>) -> Seq<char> {
    if mp3_suffix().is_suffix_of(output) {
        output.take(output.len() - 4) + jpeg_suffix()
    } else {
        output + jpeg_suffix()
    }
}

/// The path of the cover image: `image_name`, below the home directory
/// unless it is absolute. `None` where the home directory is needed and not
/// known.
pub open spec fn image_path(output: Seq<char>, home: Option<Seq<char>>) -> Option<Seq<char>> {
    let base = image_name(output);
    if is_absolute(base) {
        Some(base)
    } else {
        match home {
            Some(h) => Some(joined(h, base)),
            None => None,
        }
    }
}

/// The path of the tagged file before it is moved into place.
pub open spec fn temp_path(output: Seq<char>) -> Seq<char> {
    output + temp_suffix()
}

/// The path that a tagged file is moved to: its own path without the mark
/// `_t.mp3` at its end. A path that does not end with the mark stays as it
/// is. `None` where the path has no file name.
pub open spec fn final_path(temp: Seq<char>) -> Option<Seq<char>> {
    if temp_suffix().is_suffix_of(temp) {
        Some(temp.take(temp.len() - temp_suffix().len()))
    } else if file_name(temp).len() == 0 {
        None
    } else {
        Some(temp)
    }
}

/// The file name holds no `/`, and a `/` stands right before it unless it
/// begins the path.
pub proof fn lemma_name_start_bounds(path: Seq<char>)
    ensures
        name_start(path) <= path.len(),
        forall|j: int| name_start(path) <= j < path.len() ==> #[trigger] path[j] != '/',
        name_start(path) > 0 ==> path[name_start(path) - 1] == '/',
    decreases path.len(),
{
    if !(path.len() == 0 || path.last() == '/') {
        let t = path.drop_last();
        lemma_name_start_bounds(t);
        assert forall|j: int| name_start(path) <= j < path.len() implies #[trigger] path[j]
            != '/' by {
            if j < path.len() - 1 {
                assert(path[j] == t[j]);
            }
        }
        if name_start(path) > 0 {
            assert(path[name_start(path) - 1] == t[name_start(t) - 1]);
        }
    }
}

/// A position behind a `/`, or the start, with no `/` from there on is where
/// the file name begins.
pub proof fn lemma_name_start_is(path: Seq<char>, k: int)
    requires
        0 <= k <= path.len(),
        forall|j: int| k <= j < path.len() ==> #[trigger] path[j] != '/',
        k > 0 ==> path[k - 1] == '/',
    ensures
        name_start(path) == k,
    decreases path.len() - k,
{
    if k < path.len() {
        let t = path.drop_last();
        assert(path.last() != '/');
        assert forall|j: int| k <= j < t.len() implies #[trigger] t[j] != '/' by {
            assert(t[j] == path[j]);
        }
        if k > 0 {
            assert(t[k - 1] == path[k - 1]);
        }
        lemma_name_start_is(t, k);
    }
}

/// Moving the tagged file gives the output file its name back: the path
/// that the tagged file of an output path is moved to is that output path,
/// whatever the path holds.
pub proof fn lemma_final_path_of_temp(output: Seq<char>)
    ensures
        final_path(temp_path(output)) == Some(output),
{
    let temp = temp_path(output);
    assert(temp.subrange(temp.len() - 6, temp.len() as int) == temp_suffix());
    assert(temp.take(temp.len() - 6) == output);
}

/// A tagged file called `x.mp3_t.mp3` is moved to `x.mp3`: the `.mp3_t` in
/// front of the ending is left out, and nothing else of the path is touched,
/// not even another `.mp3` or `.mp3_t` in it.
pub proof fn lemma_final_path_leaves_out_the_infix(stem: Seq<char>)
    ensures
        final_path(stem + mp3_suffix() + temp_suffix()) == Some(stem + mp3_suffix()),
        mp3_suffix() + temp_suffix() == seq!['.', 'm', 'p', '3', '_', 't'] + mp3_suffix(),
{
    lemma_final_path_of_temp(stem + mp3_suffix());
    assert(mp3_suffix() + temp_suffix() =~= seq!['.', 'm', 'p', '3', '_', 't'] + mp3_suffix());
}

/// A path that ends with the mark of a tagged file has a file name, and the
/// mark is part of it.
pub proof fn lemma_mark_lies_in_the_file_name(temp: Seq<char>)
    requires
        temp_suffix().is_suffix_of(temp),
    ensures
        name_start(temp) <= temp.len() - temp_suffix().len(),
        parent_part(temp.take(temp.len() - temp_suffix().len())) == parent_part(temp),
{
    let n = temp.len() as int;
    let cut = temp.take(n - 6);
    lemma_name_start_bounds(temp);
    let k = name_start(temp) as int;
    assert(temp.subrange(n - 6, n) == temp_suffix());
    if k > n - 6 {
        assert(temp[k - 1] == temp.subrange(n - 6, n)[k - 1 - (n - 6)]);
    }
    assert forall|j: int| k <= j < cut.len() implies #[trigger] cut[j] != '/' by {
        assert(cut[j] == temp[j]);
    }
    if k > 0 {
        assert(cut[k - 1] == temp[k - 1]);
    }
    lemma_name_start_is(cut, k);
    assert(cut.take(k) == temp.take(k));
}

/// `filename` below `folder`.
pub fn join_path(folder: &str, filename: &str) -> (r: String)
    ensures
        r@ == joined(folder@, filename@),
{
    if filename.unicode_len() > 0 && filename.get_char(0) == '/' {
        return String::from_str(filename);
    }
    let n = folder.unicode_len();
    let mut out = String::from_str(folder);
    if n > 0 && folder.get_char(n - 1) != '/' {
        proof {
            reveal_strlit("/");
            assert("/"@ =~= seq!['/']);
        }
        out.append("/");
    }
    out.append(filename);
    out
}

/// Whether `rest`, joined to a directory, stays in that directory or below
/// it.
pub fn stays_below_of(rest: &str) -> (r: bool)
    ensures
        r == stays_below(rest@),
{
    let chars = to_chars(rest);
    let n = chars.len();
    if n > 0 && chars[0] == '/' {
        return false;
    }
    if n < 2 {
        return true;
    }
    let mut i: usize = 0;
    while i <= n - 2
        invariant
            2 <= n == chars.len(),
            i <= n - 1,
            chars@ == rest@,
            forall|j: int| 0 <= j < i ==> !is_parent_part_at(rest@, j),
        decreases n - i,
    {
        if chars[i] == '.' && chars[i + 1] == '.' && (i == 0 || chars[i - 1] == '/') && (i + 2 == n
            || chars[i + 2] == '/') {
            assert(is_parent_part_at(rest@, i as int));
            return false;
        }
        i += 1;
    }
    true
}

/// Where the file name begins in `chars`.
pub fn name_start_of(chars: &Vec<char>) -> (r: usize)
    ensures
        r == name_start(chars@),
        r <= chars.len(),
{
    let mut i: usize = chars.len();
    while i > 0 && chars[i - 1] != '/'
        invariant
            i <= chars.len(),
            forall|j: int| i <= j < chars.len() ==> #[trigger] chars@[j] != '/',
        decreases i,
    {
        i -= 1;
    }
    proof {
        lemma_name_start_is(chars@, i as int);
    }
    i
}

/// The file name of `path`, or `None` where it has none.
pub fn file_name_of(path: &str) -> (r: Option<String>)
    ensures
        match r {
            Some(name) => name@ == file_name(path@) && name@.len() > 0,
            None => file_name(path@).len() == 0,
        },
{
    let chars = to_chars(path);
    let k = name_start_of(&chars);
    let n = chars.len();
    if k == n {
        None
    } else {
        Some(String::from_str(path.substring_char(k, n)))
    }
}

/// `path` up to its file name, the last `/` included.
pub fn parent_of(path: &str) -> (r: String)
    ensures
        r@ == parent_part(path@),
{
    let chars = to_chars(path);
    let k = name_start_of(&chars);
    String::from_str(path.substring_char(0, k))
}

/// The path under which the cover image for `output` is stored, or `None`
/// where that path is relative and no home directory is known.
pub fn image_path_for(output: &str, home: Option<&str>) -> (r: Option<String>)
    ensures
        match r {
            Some(p) => image_path(output@, text_of(home)) == Some(p@),
            None => image_path(output@, text_of(home)) is None,
        },
{
    let chars = to_chars(output);
    let n = chars.len();
    let mp3 = to_chars(".mp3");
    proof {
        reveal_strlit(".mp3");
        reveal_strlit(".jpeg");
        assert(mp3@ =~= mp3_suffix());
        assert(".jpeg"@ =~= jpeg_suffix());
        assert(chars@.subrange(0, n as int) == output@);
    }
    let mut base = if range_ends_with(&chars, 0, n, &mp3) {
        String::from_str(output.substring_char(0, n - 4))
    } else {
        String::from_str(output)
    };
    base.append(".jpeg");
    assert(base@ == image_name(output@));
    if base.as_str().get_char(0) == '/' {
        Some(base)
    } else {
        match home {
            Some(h) => Some(join_path(h, base.as_str())),
            None => None,
        }
    }
}

/// The path under which the tagged file is written first.
pub fn temp_path_for(output: &str) -> (r: String)
    ensures
        r@ == temp_path(output@),
{
    proof {
        reveal_strlit("_t.mp3");
        assert("_t.mp3"@ =~= temp_suffix());
    }
    let mut out = String::from_str(output);
    out.append("_t.mp3");
    out
}

/// The path that the tagged file at `temp` is moved to: `temp` without the
/// mark `_t.mp3` at its end, or `temp` itself where it does not end with the
/// mark. `None` where `temp` has no file name.
pub fn final_path_for(temp: &str) -> (r: Option<String>)
    ensures
        match r {
            Some(p) => final_path(temp@) == Some(p@),
            None => final_path(temp@) is None,
        },
{
    let chars = to_chars(temp);
    let n = chars.len();
    let mark = to_chars("_t.mp3");
    proof {
        reveal_strlit("_t.mp3");
        assert(mark@ =~= temp_suffix());
        assert(chars@.subrange(0, n as int) == temp@);
    }
    if range_ends_with(&chars, 0, n, &mark) {
        Some(String::from_str(temp.substring_char(0, n - 6)))
    } else if name_start_of(&chars) == n {
        None
    } else {
        Some(String::from_str(temp))
    }
}

} // verus!
