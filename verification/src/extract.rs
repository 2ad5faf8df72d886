//! How `sam-run` reads a downloaded asset: the packing its name implies,
//! and which entry of an archive is the executable. Opening and unpacking
//! the archive happen outside this crate; the choice of entry is made here.

use crate::manifest::Format;
use crate::text::{ends_with, has_suffix, same_text, starts_with};
use vstd::prelude::*;
use vstd::string::*;

verus! {

/// The packing an asset's name implies: `.tar.gz` or `.tgz`, `.zip`,
/// `.gz`, else a bare binary.
pub open spec fn format_of(name: Seq<char>) -> Format {
    if has_suffix(name, ".tar.gz"@) || has_suffix(name, ".tgz"@) {
        Format::TarGz
    } else if has_suffix(name, ".zip"@) {
        Format::Zip
    } else if has_suffix(name, ".gz"@) {
        Format::Gz
    } else {
        Format::Binary
    }
}

/// The packing an asset's name implies.
pub fn infer_format(asset_name: &str) -> (format: Format)
    ensures
        format == format_of(asset_name@),
{
    if ends_with(asset_name, ".tar.gz") || ends_with(asset_name, ".tgz") {
        Format::TarGz
    } else if ends_with(asset_name, ".zip") {
        Format::Zip
    } else if ends_with(asset_name, ".gz") {
        Format::Gz
    } else {
        Format::Binary
    }
}

/// Why no entry of an archive could be chosen.
#[derive(Clone, PartialEq, Eq, Debug)]
pub enum ExtractError {
    /// The archive holds no regular file.
    NoFiles,
    /// The archive holds several regular files and the manifest names none.
    MultipleFiles(Vec<String>),
    /// No entry of the archive has the wanted path.
    NoEntry(String),
}

/// What `str`'s `Debug` formatting writes for `text`: the text in double
/// quotes, with quotes, backslashes and control characters escaped.
pub uninterp spec fn debug_of(text: Seq<char>) -> Seq<char>;

/// Calls `format!("{:?}", text)`. The result is named by [`debug_of`]; the
/// escaping rules are std's and are not restated.
#[verifier::external_body]
fn debug_text(text: &str) -> (quoted: String)
    ensures
        quoted@ == debug_of(text@),
{
    format!("{:?}", text)
}

/// The quoted names joined with `, `, as a list's `Debug` formatting lays
/// out its items.
pub open spec fn debug_items(items: Seq<Seq<char>>) -> Seq<char>
    decreases items.len(),
{
    if items.len() == 0 {
        Seq::empty()
    } else if items.len() == 1 {
        debug_of(items[0])
    } else {
        debug_items(items.drop_last()) + ", "@ + debug_of(items.last())
    }
}

/// The message an extraction error is reported with.
pub open spec fn extract_message(error: ExtractError) -> Seq<char> {
    match error {
        ExtractError::NoFiles => "archive contains no regular files"@,
        ExtractError::MultipleFiles(files) => "archive contains multiple files; specify which one with \"path\": ["@
            + debug_items(files@.map_values(|f: String| f@)) + "]"@,
        ExtractError::NoEntry(inner) => "archive has no entry named "@ + debug_of(inner@),
    }
}

impl ExtractError {
    /// The message the error is reported with.
    pub fn message(&self) -> (text: String)
        ensures
            text@ == extract_message(*self),
    {
        match self {
            ExtractError::NoFiles => String::from_str("archive contains no regular files"),
            ExtractError::MultipleFiles(files) => {
                let ghost names = files@.map_values(|f: String| f@);
                let mut text = String::from_str("archive contains multiple files; specify which one with \"path\": [");
                let ghost start = text@;
                let mut i: usize = 0;
                assert(names.take(0) =~= Seq::<Seq<char>>::empty());
                while i < files.len()
                    invariant
                        names == files@.map_values(|f: String| f@),
                        i <= files@.len(),
                        text@ == start + debug_items(names.take(i as int)),
                    decreases files.len() - i,
                {
                    let quoted = debug_text(files[i].as_str());
                    assert(names.take(i + 1).drop_last() =~= names.take(i as int));
                    assert(names.take(i + 1).last() == files@[i as int]@);
                    if i > 0 {
                        text.append(", ");
                    }
                    text.append(quoted.as_str());
                    proof {
                        if i == 0 {
                            assert(names.take(1) =~= seq![names[0]]);
                            assert(start + Seq::<char>::empty() =~= start);
                        }
                        assert(text@ =~= start + debug_items(names.take(i + 1)));
                    }
                    i = i + 1;
                }
                text.append("]");
                assert(names.take(i as int) =~= names);
                text
            },
            ExtractError::NoEntry(inner) => {
                let mut text = String::from_str("archive has no entry named ");
                let quoted = debug_text(inner.as_str());
                text.append(quoted.as_str());
                text
            },
        }
    }
}

/// The one file of an archive, when it holds exactly one.
pub fn sole_file(files: Vec<String>) -> (only: Result<String, ExtractError>)
    ensures
        only is Ok <==> files@.len() == 1,
        only matches Ok(f) ==> f@ == files@[0]@,
        only matches Err(e) ==> (files@.len() == 0 ==> e == ExtractError::NoFiles) && (
        files@.len() > 1 ==> e == ExtractError::MultipleFiles(files)),
{
    if files.len() == 1 {
        let only = files[0].clone();
        Ok(only)
    } else if files.len() == 0 {
        Err(ExtractError::NoFiles)
    } else {
        Err(ExtractError::MultipleFiles(files))
    }
}

/// Whether an archive entry's path is the wanted one, allowing for a
/// leading `./`.
pub open spec fn same_entry_path(entry: Seq<char>, wanted: Seq<char>) -> bool {
    entry == wanted || ("./"@.len() <= entry.len() && entry.take(2) == "./"@ && entry.skip(2) == wanted)
}

/// Whether an archive entry's path is the wanted one, allowing for a
/// leading `./`.
pub fn paths_match(entry: &str, wanted: &str) -> (matched: bool)
    ensures
        matched == same_entry_path(entry@, wanted@),
{
    proof {
        reveal_strlit("./");
    }
    if same_text(entry, wanted) {
        return true;
    }
    if !starts_with(entry, "./") {
        return false;
    }
    let n = entry.unicode_len();
    let rest = entry.substring_char(2, n);
    assert(rest@ =~= entry@.skip(2));
    same_text(rest, wanted)
}

/// The names of the regular files among `entries`, in order.
pub open spec fn file_names(entries: Seq<(String, bool)>) -> Seq<Seq<char>>
    decreases entries.len(),
{
    if entries.len() == 0 {
        Seq::empty()
    } else if entries.last().1 {
        file_names(entries.drop_last()).push(entries.last().0@)
    } else {
        file_names(entries.drop_last())
    }
}

/// The first entry, if any, whose path is `wanted`.
pub open spec fn first_match(entries: Seq<(String, bool)>, wanted: Seq<char>) -> Option<int> {
    if exists|i: int| 0 <= i < entries.len() && same_entry_path(#[trigger] entries[i].0@, wanted) {
        Some(
            choose|i: int|
                0 <= i < entries.len() && same_entry_path(entries[i].0@, wanted) && forall|j: int|
                    0 <= j < i ==> !same_entry_path(#[trigger] entries[j].0@, wanted),
        )
    } else {
        None
    }
}

/// The names of the regular files among `entries`.
fn regular_files(entries: &Vec<(String, bool)>) -> (files: Vec<String>)
    ensures
        files@.map_values(|f: String| f@) == file_names(entries@),
{
    let mut files: Vec<String> = Vec::new();
    let mut i: usize = 0;
    assert(entries@.take(0) =~= Seq::<(String, bool)>::empty());
    while i < entries.len()
        invariant
            i <= entries@.len(),
            files@.map_values(|f: String| f@) == file_names(entries@.take(i as int)),
        decreases entries.len() - i,
    {
        assert(entries@.take(i + 1).drop_last() =~= entries@.take(i as int));
        if entries[i].1 {
            files.push(entries[i].0.clone());
        }
        assert(files@.map_values(|f: String| f@) =~= file_names(entries@.take(i + 1)));
        i = i + 1;
    }
    assert(entries@.take(entries@.len() as int) =~= entries@);
    files
}

/// The entry of an archive that holds the executable, given each entry's
/// path and whether it is a regular file: the entry at the manifest's path
/// (the first one, allowing for a leading `./`), or, when the manifest names
/// none, the archive's only regular file.
pub fn choose_entry(entries: &Vec<(String, bool)>, inner: Option<&str>) -> (chosen: Result<usize, ExtractError>)
    ensures
        ({
            let names = file_names(entries@);
            let wanted: Option<Seq<char>> = match inner {
                Some(path) => Some(path@),
                None => if names.len() == 1 {
                    Some(names[0])
                } else {
                    None
                },
            };
            match chosen {
                Ok(i) => wanted matches Some(w) && first_match(entries@, w) == Some(i as int),
                Err(ExtractError::NoFiles) => inner is None && names.len() == 0,
                Err(ExtractError::MultipleFiles(files)) => inner is None && names.len() > 1
                    && files@.map_values(|f: String| f@) == names,
                Err(ExtractError::NoEntry(path)) => wanted == Some(path@) && first_match(
                    entries@,
                    path@,
                ) is None,
            }
        }),
{
    let wanted: String = match inner {
        Some(path) => String::from_str(path),
        None => {
            let files = regular_files(entries);
            match sole_file(files) {
                Ok(only) => only,
                Err(e) => {
                    return Err(e);
                },
            }
        },
    };
    let ghost names = file_names(entries@);
    let ghost target: Option<Seq<char>> = match inner {
        Some(path) => Some(path@),
        None => if names.len() == 1 {
            Some(names[0])
        } else {
            None
        },
    };
    assert(target == Some(wanted@));
    let mut i: usize = 0;
    while i < entries.len()
        invariant
            i <= entries@.len(),
            target == Some(wanted@),
            names == file_names(entries@),
            target == match inner {
                Some(path) => Some(path@),
                None => if names.len() == 1 {
                    Some(names[0])
                } else {
                    None
                },
            },
            forall|j: int| 0 <= j < i ==> !same_entry_path(#[trigger] entries@[j].0@, wanted@),
        decreases entries.len() - i,
    {
        if paths_match(entries[i].0.as_str(), wanted.as_str()) {
            proof {
                let c = first_match(entries@, wanted@).unwrap();
                assert(same_entry_path(entries@[i as int].0@, wanted@));
                assert(first_match(entries@, wanted@) is Some);
                if c < i {
                    assert(!same_entry_path(entries@[c].0@, wanted@));
                }
                if c > i {
                    assert(!same_entry_path(entries@[i as int].0@, wanted@));
                }
            }
            return Ok(i);
        }
        i = i + 1;
    }
    Err(ExtractError::NoEntry(wanted))
}

} // verus!
