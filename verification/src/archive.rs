//! Unpacking part of a zip archive.
//!
//! The archive is read from memory by the `zip` crate. Of its entries, those
//! whose path begins with a given prefix are unpacked: the prefix is taken
//! off, and what is left is a path below the destination. An entry whose
//! path would lead out of the destination is not unpacked; it ends the
//! unpacking. The library names the directories and files to write, with
//! their contents; writing them is left to the caller.

use crate::paths::{
    join_path, joined, lies_below, parent_of, parent_part, stays_below, stays_below_of,
};
use crate::text::{range_starts_with, to_chars};
use vstd::prelude::*;
use vstd::string::*;

verus! {

/// A zip archive that the `zip` crate has opened.
#[verifier::external_type_specification]
#[verifier::external_body]
#[verifier::reject_recursive_types(R)]
pub struct ExZipArchive<R>(zip::ZipArchive<R>);

/// The error of the `zip` crate.
#[verifier::external_type_specification]
#[verifier::external_body]
pub struct ExZipError(zip::result::ZipError);

/// A reader over bytes in memory.
#[verifier::external_type_specification]
#[verifier::external_body]
#[verifier::reject_recursive_types(T)]
pub struct ExCursor<T>(std::io::Cursor<T>);

/// The bytes that an opened archive reads from.
pub uninterp spec fn archive_source(archive: zip::ZipArchive<std::io::Cursor<Vec<u8>>>) -> Seq<u8>;

/// The number of entries that `zip::ZipArchive::new` finds in `bytes`, or
/// `None` where it does not accept `bytes` as an archive.
pub uninterp spec fn zip_len(bytes: Seq<u8>) -> Option<nat>;

/// What `zip::ZipArchive::by_index` tells of the entry at `index` of the
/// archive in `bytes`: its name, whether it is a directory, and its Unix
/// mode. `None` where the entry cannot be opened or its name not be read.
pub uninterp spec fn zip_entry(bytes: Seq<u8>, index: int) -> Option<
    (Seq<char>, bool, Option<u32>),
>;

/// The content of the entry at `index` of the archive in `bytes`, as reading
/// the entry to its end gives it. `None` where the entry cannot be opened or
/// read.
pub uninterp spec fn zip_content(bytes: Seq<u8>, index: int) -> Option<Seq<u8>>;

/// What the archive tells of one entry.
#[derive(Debug)]
pub struct ArchiveEntry {
    /// The path of the entry inside the archive.
    pub name: String,
    /// Whether the entry is a directory.
    pub is_dir: bool,
    /// The Unix mode of the entry, where the archive records one.
    pub unix_mode: Option<u32>,
}

/// Calls `zip::ZipArchive::new` on a reader over `bytes`, which reads the
/// central directory. The contract names the outcome by the bytes alone and
/// says that the archive reads from them.
#[verifier::external_body]
fn open_archive(bytes: Vec<u8>) -> (r: Result<
    zip::ZipArchive<std::io::Cursor<Vec<u8>>>,
    zip::result::ZipError,
>)
    ensures
        match r {
            Ok(archive) => zip_len(bytes@) is Some && archive_source(archive) == bytes@,
            Err(_) => zip_len(bytes@) is None,
        },
{
    zip::ZipArchive::new(std::io::Cursor::new(bytes))
}

/// Calls `zip::ZipArchive::len`, the number of entries in the central
/// directory.
#[verifier::external_body]
fn entry_count(archive: &zip::ZipArchive<std::io::Cursor<Vec<u8>>>) -> (n: usize)
    ensures
        zip_len(archive_source(*archive)) == Some(n as nat),
{
    archive.len()
}

/// Calls `zip::ZipArchive::by_index` and asks the entry for its name, for
/// whether it is a directory, and for its Unix mode. The archive reads from
/// the same bytes afterwards; the contract names the outcome by those bytes
/// and the index.
#[verifier::external_body]
fn read_entry(archive: &mut zip::ZipArchive<std::io::Cursor<Vec<u8>>>, index: usize) -> (r: Result<
    ArchiveEntry,
    zip::result::ZipError,
>)
    ensures
        archive_source(*final(archive)) == archive_source(*old(archive)),
        match r {
            Ok(entry) => zip_entry(archive_source(*old(archive)), index as int) == Some(
                (entry.name@, entry.is_dir, entry.unix_mode),
            ),
            Err(_) => zip_entry(archive_source(*old(archive)), index as int) is None,
        },
{
    let file = archive.by_index(index)?;
    let name = file.name()?.into_owned();
    Ok(ArchiveEntry { name, is_dir: file.is_dir(), unix_mode: file.unix_mode() })
}

/// Calls `zip::ZipArchive::by_index` and reads the entry to its end. The
/// archive reads from the same bytes afterwards; the contract names the
/// outcome by those bytes and the index.
#[verifier::external_body]
fn read_content(archive: &mut zip::ZipArchive<std::io::Cursor<Vec<u8>>>, index: usize) -> (r:
    Result<Vec<u8>, zip::result::ZipError>)
    ensures
        archive_source(*final(archive)) == archive_source(*old(archive)),
        match r {
            Ok(content) => zip_content(archive_source(*old(archive)), index as int) == Some(
                content@,
            ),
            Err(_) => zip_content(archive_source(*old(archive)), index as int) is None,
        },
{
    let mut file = archive.by_index(index)?;
    let mut content: Vec<u8> = Vec::new();
    std::io::Read::read_to_end(&mut file, &mut content)?;
    Ok(content)
}

/// The message of an error of the `zip` crate, as its `Display` writes it.
/// Nothing is claimed of the text.
#[verifier::external_body]
fn describe(error: &zip::result::ZipError) -> (r: String) {
    error.to_string()
}

/// Where an entry called `name` is unpacked to, below the destination: the
/// name without `prefix`. `None` where the name does not begin with `prefix`,
/// or is the prefix and nothing more.
pub open spec fn entry_target(name: Seq<char>, prefix: Seq<char>) -> Option<Seq<char>> {
    if prefix.is_prefix_of(name) && name.len() > prefix.len() {
        Some(name.skip(prefix.len() as int))
    } else {
        None
    }
}

/// Where an entry called `name` is unpacked to, below the destination.
pub fn target_of(name: &str, prefix: &str) -> (r: Option<String>)
    ensures
        match r {
            Some(rest) => entry_target(name@, prefix@) == Some(rest@),
            None => entry_target(name@, prefix@) is None,
        },
{
    let chars = to_chars(name);
    let pattern = to_chars(prefix);
    let n = chars.len();
    assert(chars@.subrange(0, n as int) == name@);
    if range_starts_with(&chars, 0, n, &pattern) && n > pattern.len() {
        Some(String::from_str(name.substring_char(pattern.len(), n)))
    } else {
        None
    }
}

/// Something to write below the destination.
#[derive(Debug)]
pub enum ExtractedItem {
    /// A directory to create, with the directories above it.
    Directory { path: String },
    /// A file to write. The directory `parent` is created first, with the
    /// directories above it, unless it is empty; the Unix mode is set after
    /// writing, where one is given and the platform has such modes.
    File { path: String, parent: String, content: Vec<u8>, unix_mode: Option<u32> },
}

/// An `ExtractedItem` as plain values.
pub enum ExtractedItemView {
    Directory { path: Seq<char> },
    File { path: Seq<char>, parent: Seq<char>, content: Seq<u8>, unix_mode: Option<u32> },
}

impl View for ExtractedItem {
    type V = ExtractedItemView;

    open spec fn view(&self) -> ExtractedItemView {
        match self {
            ExtractedItem::Directory { path } => ExtractedItemView::Directory { path: path@ },
            ExtractedItem::File { path, parent, content, unix_mode } => ExtractedItemView::File {
                path: path@,
                parent: parent@,
                content: content@,
                unix_mode: *unix_mode,
            },
        }
    }
}

impl ExtractedItemView {
    /// The path of the directory or file.
    pub open spec fn path(self) -> Seq<char> {
        match self {
            ExtractedItemView::Directory { path } => path,
            ExtractedItemView::File { path, .. } => path,
        }
    }
}

/// The items of a list as plain values.
pub open spec fn item_views(items: Seq<ExtractedItem>) -> Seq<ExtractedItemView> {
    Seq::new(items.len(), |i: int| items[i]@)
}

/// Why an archive could not be unpacked, or not to its end.
#[derive(Debug)]
pub enum ArchiveError {
    /// The bytes were not accepted as an archive; the text says why.
    Open(String),
    /// The entry at `index` could not be opened or read; the text says why.
    Entry { index: usize, reason: String },
    /// The entry at `index`, called `name`, would be unpacked outside the
    /// destination: what is left of its path without the prefix begins with
    /// `/` or has a part that reads `..`.
    Outside { index: usize, name: String },
}

/// What was unpacked: the items of the entries before the first that failed,
/// in the order of the archive, and the failure, if there was one.
#[derive(Debug)]
pub struct Extraction {
    pub items: Vec<ExtractedItem>,
    pub failure: Option<ArchiveError>,
}

/// What unpacking the first `n` entries gives: the items, and the index of
/// the entry at which unpacking stopped, if it did.
///
/// Every entry is opened, in order. One whose name begins with `prefix` and
/// goes on after it gives an item: a directory, or a file with its content.
/// The first entry that cannot be opened or read, or that would be unpacked
/// outside the destination, ends the unpacking.
pub open spec fn extraction_upto(bytes: Seq<u8>, dest: Seq<char>, prefix: Seq<char>, n: int) -> (
    Seq<ExtractedItemView>,
    Option<int>,
)
    decreases n,
{
    if n <= 0 {
        (Seq::empty(), None)
    } else {
        let before = extraction_upto(bytes, dest, prefix, n - 1);
        if before.1 is Some {
            before
        } else {
            match zip_entry(bytes, n - 1) {
                None => (before.0, Some(n - 1)),
                Some(entry) => match entry_target(entry.0, prefix) {
                    None => before,
                    Some(rest) => if !stays_below(rest) {
                        (before.0, Some(n - 1))
                    } else {
                        let path = joined(dest, rest);
                        if entry.1 {
                            (before.0.push(ExtractedItemView::Directory { path }), None)
                        } else {
                            match zip_content(bytes, n - 1) {
                                None => (before.0, Some(n - 1)),
                                Some(content) => (
                                    before.0.push(
                                        ExtractedItemView::File {
                                            path,
                                            parent: parent_part(path),
                                            content,
                                            unix_mode: entry.2,
                                        },
                                    ),
                                    None,
                                ),
                            }
                        }
                    },
                },
            }
        }
    }
}

/// Once unpacking has stopped, further entries change nothing.
pub proof fn lemma_extraction_stops(
    bytes: Seq<u8>,
    dest: Seq<char>,
    prefix: Seq<char>,
    stopped: int,
    n: int,
)
    requires
        0 <= stopped <= n,
        extraction_upto(bytes, dest, prefix, stopped).1 is Some,
    ensures
        extraction_upto(bytes, dest, prefix, n) == extraction_upto(bytes, dest, prefix, stopped),
    decreases n - stopped,
{
    if n > stopped {
        lemma_extraction_stops(bytes, dest, prefix, stopped, n - 1);
    }
}

/// Whether the entry at `index` would be unpacked outside the destination.
pub open spec fn leads_outside(bytes: Seq<u8>, prefix: Seq<char>, index: int) -> bool {
    &&& zip_entry(bytes, index) matches Some(entry)
    &&& entry_target(entry.0, prefix) matches Some(rest)
    &&& !stays_below(rest)
}

/// Whether `failure` tells why unpacking stopped at the entry at `index`.
pub open spec fn is_failure_at(
    bytes: Seq<u8>,
    prefix: Seq<char>,
    index: int,
    failure: Option<ArchiveError>,
) -> bool {
    if leads_outside(bytes, prefix, index) {
        &&& failure matches Some(ArchiveError::Outside { index: at, name })
        &&& at == index
        &&& zip_entry(bytes, index) matches Some(entry)
        &&& name@ == entry.0
    } else {
        failure matches Some(ArchiveError::Entry { index: at, .. }) && at == index
    }
}

/// Whether `result` is what unpacking the archive in `bytes` gives.
pub open spec fn is_extraction(
    bytes: Seq<u8>,
    dest: Seq<char>,
    prefix: Seq<char>,
    result: Extraction,
) -> bool {
    match zip_len(bytes) {
        None => result.items@.len() == 0 && result.failure matches Some(ArchiveError::Open(_)),
        Some(n) => {
            let whole = extraction_upto(bytes, dest, prefix, n as int);
            &&& item_views(result.items@) == whole.0
            &&& match whole.1 {
                Some(i) => is_failure_at(bytes, prefix, i, result.failure),
                None => result.failure is None,
            }
        },
    }
}

/// Whatever an archive holds, every directory and file that unpacking names
/// lies in the destination or below it.
pub proof fn lemma_extraction_lies_below(
    bytes: Seq<u8>,
    dest: Seq<char>,
    prefix: Seq<char>,
    n: int,
)
    ensures
        forall|i: int|
            0 <= i < extraction_upto(bytes, dest, prefix, n).0.len() ==> lies_below(
                (#[trigger] extraction_upto(bytes, dest, prefix, n).0[i]).path(),
                dest,
            ),
    decreases n,
{
    if n > 0 {
        lemma_extraction_lies_below(bytes, dest, prefix, n - 1);
        let before = extraction_upto(bytes, dest, prefix, n - 1).0;
        let now = extraction_upto(bytes, dest, prefix, n).0;
        assert forall|i: int| 0 <= i < now.len() implies lies_below(
            (#[trigger] now[i]).path(),
            dest,
        ) by {
            if i < before.len() {
                assert(now[i] == before[i]);
            } else {
                let entry = zip_entry(bytes, n - 1)->Some_0;
                let rest = entry_target(entry.0, prefix)->Some_0;
                assert(now[i].path() == joined(dest, rest));
            }
        }
    }
}

/// Unpacks from the zip archive in `bytes` the entries whose path begins
/// with `prefix`, to paths below `dest`.
///
/// The prefix is taken off each path, and what is left is joined to `dest`.
/// An entry that is the prefix itself is passed over. The entries are taken
/// in the order of the archive; the first that cannot be opened or read, or
/// that would be unpacked outside `dest`, ends the unpacking, and what was
/// unpacked before it is kept. Every path that is named lies in `dest` or
/// below it.
pub fn extract_prefix_from_zip(bytes: Vec<u8>, dest: &str, prefix: &str) -> (r: Extraction)
    ensures
        is_extraction(bytes@, dest@, prefix@, r),
        forall|i: int|
            0 <= i < r.items.len() ==> lies_below((#[trigger] r.items[i])@.path(), dest@),
{
    let ghost source = bytes@;
    let mut items: Vec<ExtractedItem> = Vec::new();
    let mut archive = match open_archive(bytes) {
        Ok(archive) => archive,
        Err(e) => {
            return Extraction { items, failure: Some(ArchiveError::Open(describe(&e))) };
        },
    };
    let n = entry_count(&archive);
    let mut i: usize = 0;
    assert(item_views(items@) == Seq::<ExtractedItemView>::empty());
    while i < n
        invariant
            i <= n,
            source == bytes@,
            archive_source(archive) == source,
            zip_len(source) == Some(n as nat),
            extraction_upto(source, dest@, prefix@, i as int) == (
                item_views(items@),
                None::<int>,
            ),
            forall|k: int|
                0 <= k < items.len() ==> lies_below((#[trigger] items[k])@.path(), dest@),
        decreases n - i,
    {
        let ghost before = item_views(items@);
        match read_entry(&mut archive, i) {
            Err(e) => {
                proof {
                    assert(extraction_upto(source, dest@, prefix@, i + 1).1 == Some(i as int));
                    lemma_extraction_stops(source, dest@, prefix@, i + 1, n as int);
                }
                return Extraction {
                    items,
                    failure: Some(ArchiveError::Entry { index: i, reason: describe(&e) }),
                };
            },
            Ok(entry) => match target_of(entry.name.as_str(), prefix) {
                None => {},
                Some(rest) => {
                    if !stays_below_of(rest.as_str()) {
                        proof {
                            assert(extraction_upto(source, dest@, prefix@, i + 1).1 == Some(
                                i as int,
                            ));
                            lemma_extraction_stops(source, dest@, prefix@, i + 1, n as int);
                        }
                        return Extraction {
                            items,
                            failure: Some(ArchiveError::Outside { index: i, name: entry.name }),
                        };
                    }
                    let path = join_path(dest, rest.as_str());
                    assert(lies_below(path@, dest@)) by {
                        assert(path@ == joined(dest@, rest@));
                    }
                    if entry.is_dir {
                        items.push(ExtractedItem::Directory { path });
                        assert(item_views(items@) == before.push(
                            ExtractedItemView::Directory { path: path@ },
                        ));
                    } else {
                        match read_content(&mut archive, i) {
                            Err(e) => {
                                proof {
                                    assert(extraction_upto(source, dest@, prefix@, i + 1).1
                                        == Some(i as int));
                                    lemma_extraction_stops(source, dest@, prefix@, i + 1, n as int);
                                }
                                return Extraction {
                                    items,
                                    failure: Some(
                                        ArchiveError::Entry { index: i, reason: describe(&e) },
                                    ),
                                };
                            },
                            Ok(content) => {
                                let parent = parent_of(path.as_str());
                                let ghost item = ExtractedItemView::File {
                                    path: path@,
                                    parent: parent@,
                                    content: content@,
                                    unix_mode: entry.unix_mode,
                                };
                                items.push(
                                    ExtractedItem::File {
                                        path,
                                        parent,
                                        content,
                                        unix_mode: entry.unix_mode,
                                    },
                                );
                                assert(item_views(items@) == before.push(item));
                            },
                        }
                    }
                },
            },
        }
        i += 1;
    }
    Extraction { items, failure: None }
}

/// `name` with every backslash made a slash.
pub open spec fn slashed(name: Seq<char>) -> Seq<char> {
    name.map_values(|c: char| if c == '\\' { '/' } else { c })
}

/// Whether `name`, with every backslash made a slash, is `target`.
pub fn is_named(name: &str, target: &str) -> (r: bool)
    ensures
        r == (slashed(name@) == target@),
{
    let a = to_chars(name);
    let b = to_chars(target);
    let n = a.len();
    if n != b.len() {
        return false;
    }
    let mut i: usize = 0;
    while i < n
        invariant
            i <= n == a.len(),
            n == b.len(),
            a@ == name@,
            b@ == target@,
            forall|j: int| 0 <= j < i ==> slashed(name@)[j] == target@[j],
        decreases n - i,
    {
        let c = if a[i] == '\\' {
            '/'
        } else {
            a[i]
        };
        if c != b[i] {
            assert(slashed(name@)[i as int] != target@[i as int]);
            return false;
        }
        i += 1;
    }
    assert(slashed(name@) =~= target@);
    true
}

/// The content of the first entry at or after `from` that is called
/// `target`, a backslash in a name read as a slash; `Ok(None)` where there is
/// none, and the index of the first entry that cannot be opened or read where
/// that comes first.
pub open spec fn named_content_from(bytes: Seq<u8>, target: Seq<char>, from: int, n: int) -> Result<
    Option<Seq<u8>>,
    int,
>
    decreases n - from,
{
    if from >= n {
        Ok(None)
    } else {
        match zip_entry(bytes, from) {
            None => Err(from),
            Some(entry) => if slashed(entry.0) == target {
                match zip_content(bytes, from) {
                    Some(content) => Ok(Some(content)),
                    None => Err(from),
                }
            } else {
                named_content_from(bytes, target, from + 1, n)
            },
        }
    }
}

/// Whether `result` is what looking for the entry called `target` in the
/// archive in `bytes` gives.
pub open spec fn is_named_content(
    bytes: Seq<u8>,
    target: Seq<char>,
    result: Result<Option<Vec<u8>>, ArchiveError>,
) -> bool {
    match zip_len(bytes) {
        None => result matches Err(ArchiveError::Open(_)),
        Some(n) => match named_content_from(bytes, target, 0, n as int) {
            Ok(Some(content)) => result matches Ok(Some(found)) && found@ == content,
            Ok(None) => result matches Ok(None),
            Err(i) => result matches Err(ArchiveError::Entry { index, .. }) && index == i,
        },
    }
}

/// The content of the entry called `target` in the zip archive in `bytes`.
///
/// The entries are opened in the order of the archive, and the first of the
/// name is read; a backslash in an entry's name counts as a slash. `Ok(None)`
/// says that no entry has the name. An entry that cannot be opened or read
/// before the name is found ends the search with a failure.
pub fn extract_named_entry(bytes: Vec<u8>, target: &str) -> (r: Result<
    Option<Vec<u8>>,
    ArchiveError,
>)
    ensures
        is_named_content(bytes@, target@, r),
{
    let ghost source = bytes@;
    let mut archive = match open_archive(bytes) {
        Ok(archive) => archive,
        Err(e) => {
            return Err(ArchiveError::Open(describe(&e)));
        },
    };
    let n = entry_count(&archive);
    let mut i: usize = 0;
    while i < n
        invariant
            i <= n,
            source == bytes@,
            archive_source(archive) == source,
            zip_len(source) == Some(n as nat),
            named_content_from(source, target@, 0, n as int) == named_content_from(
                source,
                target@,
                i as int,
                n as int,
            ),
        decreases n - i,
    {
        match read_entry(&mut archive, i) {
            Err(e) => {
                return Err(ArchiveError::Entry { index: i, reason: describe(&e) });
            },
            Ok(entry) => {
                if is_named(entry.name.as_str(), target) {
                    match read_content(&mut archive, i) {
                        Ok(content) => {
                            return Ok(Some(content));
                        },
                        Err(e) => {
                            return Err(ArchiveError::Entry { index: i, reason: describe(&e) });
                        },
                    }
                }
            },
        }
        i += 1;
    }
    Ok(None)
}

} // verus!
