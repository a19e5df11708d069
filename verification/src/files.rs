//! Per-file plumbing that needs no I/O: path decomposition, format
//! dispatch by extension, output-path construction, and the partitioning of
//! a directory listing.
//!
//! Paths are strings with `/` as the separator.

use vstd::prelude::*;
use vstd::string::StrSliceExecFns;
use vstd::string::StringExecFns;

use crate::error::RedactError;

verus! {

/// The index right after the last `/`, or `0` when there is none: where the
/// file name begins.
pub open spec fn file_name_start(path: Seq<char>) -> int
    decreases path.len(),
{
    if path.len() == 0 {
        0
    } else if path.last() == '/' {
        path.len() as int
    } else {
        file_name_start(path.drop_last())
    }
}

/// The part of the path after the last `/`.
pub open spec fn file_name_spec(path: Seq<char>) -> Seq<char> {
    path.skip(file_name_start(path))
}

/// The index of the last `.` in a file name, or `-1` when there is none.
pub open spec fn last_dot(name: Seq<char>) -> int
    decreases name.len(),
{
    if name.len() == 0 {
        -1
    } else if name.last() == '.' {
        name.len() - 1
    } else {
        last_dot(name.drop_last())
    }
}

/// The extension of the path's file name: what follows the last `.`, unless
/// the name has no `.` or only a leading one.
pub open spec fn extension_spec(path: Seq<char>) -> Option<Seq<char>> {
    let name = file_name_spec(path);
    let d = last_dot(name);
    if d <= 0 {
        None
    } else {
        Some(name.skip(d + 1))
    }
}

/// The file name without its extension: the name up to its last `.`, or the
/// whole name when it has no `.` or only a leading one.
pub open spec fn file_stem_spec(path: Seq<char>) -> Seq<char> {
    let name = file_name_spec(path);
    let d = last_dot(name);
    if d <= 0 {
        name
    } else {
        name.take(d)
    }
}

/// The path up to (not including) the last `/`, or empty when there is none.
pub open spec fn parent_spec(path: Seq<char>) -> Seq<char> {
    if file_name_start(path) == 0 {
        Seq::empty()
    } else {
        path.take(file_name_start(path) - 1)
    }
}

/// The document formats with an adapter.
#[derive(Clone, Copy, Debug, PartialEq, Eq, Structural)]
pub enum FileFormat {
    /// A plain text file, redacted as one blob.
    Txt,
    /// A PDF document, redacted per content-stream text operand.
    Pdf,
    /// A word-processor document, redacted per paragraph run.
    Docx,
}

/// Which adapter a path's extension selects, if any.
pub open spec fn format_of(path: Seq<char>) -> Option<FileFormat> {
    match extension_spec(path) {
        None => None,
        Some(ext) => if ext == "txt"@ {
            Some(FileFormat::Txt)
        } else if ext == "pdf"@ {
            Some(FileFormat::Pdf)
        } else if ext == "docx"@ {
            Some(FileFormat::Docx)
        } else {
            None
        },
    }
}

fn file_name_start_exec(path: &str) -> (r: usize)
    ensures
        r as int == file_name_start(path@),
        r <= path@.len(),
{
    let n = path.unicode_len();
    let mut i: usize = n;
    proof {
        assert(path@.take(n as int) =~= path@);
    }
    loop
        invariant
            0 <= i <= n,
            n == path@.len(),
            file_name_start(path@) == file_name_start(path@.take(i as int)),
        decreases i,
    {
        if i == 0 {
            return 0;
        }
        let c = path.get_char(i - 1);
        proof {
            assert(path@.take(i as int).last() == path@[i - 1]);
        }
        if c == '/' {
            return i;
        }
        proof {
            assert(path@.take(i as int).drop_last() =~= path@.take(i - 1));
        }
        i = i - 1;
    }
}

fn last_dot_exec(name: &str) -> (r: Option<usize>)
    ensures
        match r {
            Some(d) => last_dot(name@) == d as int && d < name@.len(),
            None => last_dot(name@) == -1,
        },
{
    let n = name.unicode_len();
    let mut i: usize = n;
    proof {
        assert(name@.take(n as int) =~= name@);
    }
    loop
        invariant
            0 <= i <= n,
            n == name@.len(),
            last_dot(name@) == last_dot(name@.take(i as int)),
        decreases i,
    {
        if i == 0 {
            return None;
        }
        let c = name.get_char(i - 1);
        proof {
            assert(name@.take(i as int).last() == name@[i - 1]);
        }
        if c == '.' {
            return Some(i - 1);
        }
        proof {
            assert(name@.take(i as int).drop_last() =~= name@.take(i - 1));
        }
        i = i - 1;
    }
}

/// The file name of a path: everything after the last `/`.
pub fn file_name_of(path: &String) -> (r: String)
    ensures
        r@ == file_name_spec(path@),
{
    let n = path.as_str().unicode_len();
    let s = file_name_start_exec(path.as_str());
    path.as_str().substring_char(s, n).to_owned()
}

/// The extension of a path's file name, if it has one.
pub fn extension_of(path: &String) -> (r: Option<String>)
    ensures
        match r {
            Some(e) => extension_spec(path@) == Some(e@),
            None => extension_spec(path@) is None,
        },
{
    let name = file_name_of(path);
    let n = name.as_str().unicode_len();
    match last_dot_exec(name.as_str()) {
        None => None,
        Some(d) => {
            if d == 0 {
                None
            } else {
                Some(name.as_str().substring_char(d + 1, n).to_owned())
            }
        },
    }
}

/// Selects the document adapter for a path by its extension.  Anything but
/// `txt`, `pdf` and `docx` fails with [`RedactError::UnsupportedFormat`]
/// before any output is written.
pub fn detect_format(path: &String) -> (r: Result<FileFormat, RedactError>)
    ensures
        r matches Ok(f) ==> format_of(path@) == Some(f),
        r is Err <==> format_of(path@) is None,
        r matches Err(e) ==> e == RedactError::UnsupportedFormat,
{
    match extension_of(path) {
        None => Err(RedactError::UnsupportedFormat),
        Some(ext) => {
            if ext == "txt".to_owned() {
                Ok(FileFormat::Txt)
            } else if ext == "pdf".to_owned() {
                Ok(FileFormat::Pdf)
            } else if ext == "docx".to_owned() {
                Ok(FileFormat::Docx)
            } else {
                Err(RedactError::UnsupportedFormat)
            }
        },
    }
}

/// The name of the reveal manifest beside a redacted file: the source file's
/// stem followed by `-unredact.json`.  Fails when the path has no file name.
pub fn get_output_file_path(path: &String) -> (r: Result<String, RedactError>)
    ensures
        r is Ok <==> file_name_spec(path@).len() > 0,
        r matches Ok(p) ==> p@ == file_stem_spec(path@) + "-unredact.json"@,
        r matches Err(e) ==> e == RedactError::DocumentWriteError,
{
    let name = file_name_of(path);
    if name.as_str().is_empty() {
        return Err(RedactError::DocumentWriteError);
    }
    let mut out = match last_dot_exec(name.as_str()) {
        Some(d) if d > 0 => {
            let stem = name.as_str().substring_char(0, d).to_owned();
            proof {
                assert(name@.subrange(0, d as int) =~= name@.take(d as int));
            }
            stem
        },
        _ => name,
    };
    out.append("-unredact.json");
    Ok(out)
}

/// Where a redacted copy or manifest named `name` goes under the output
/// folder.
pub fn join_path(folder: &String, name: &String) -> (r: String)
    ensures
        r@ == folder@ + "/"@ + name@,
{
    let mut out = folder.clone();
    out.append("/");
    out.append(name.as_str());
    out
}

/// The output folder used when redacting a single file: `redacted` beside
/// the file, i.e. under its parent directory.
pub fn default_output_folder(path: &String) -> (r: String)
    ensures
        file_name_start(path@) == 0 ==> r@ == "redacted"@,
        file_name_start(path@) > 0 ==> r@ == parent_spec(path@) + "/redacted"@,
{
    let s = file_name_start_exec(path.as_str());
    if s == 0 {
        "redacted".to_owned()
    } else {
        let mut out = path.as_str().substring_char(0, s - 1).to_owned();
        proof {
            assert(path@.subrange(0, s - 1) =~= path@.take(s - 1));
        }
        out.append("/redacted");
        out
    }
}

/// The output folder created inside each visited directory.
pub fn output_folder_for_dir(dir: &String) -> (r: String)
    ensures
        r@ == dir@ + "/redacted"@,
{
    let mut out = dir.clone();
    out.append("/redacted");
    out
}

/// One readable directory entry, as the caller's directory listing reports
/// it: its path and whether it is a file (rather than a directory).
#[derive(Clone, Debug)]
pub struct DirEntry {
    /// The entry's path.
    pub path: String,
    /// Whether the entry is a file; otherwise it counts as a directory.
    pub is_file: bool,
}

/// The paths of the readable file entries, in listing order.
pub open spec fn files_of(entries: Seq<Result<DirEntry, String>>) -> Seq<Seq<char>>
    decreases entries.len(),
{
    if entries.len() == 0 {
        Seq::empty()
    } else {
        let rest = files_of(entries.drop_last());
        match entries.last() {
            Ok(e) => if e.is_file {
                rest.push(e.path@)
            } else {
                rest
            },
            Err(_) => rest,
        }
    }
}

/// The paths of the readable directory entries, in listing order.
pub open spec fn dirs_of(entries: Seq<Result<DirEntry, String>>) -> Seq<Seq<char>>
    decreases entries.len(),
{
    if entries.len() == 0 {
        Seq::empty()
    } else {
        let rest = dirs_of(entries.drop_last());
        match entries.last() {
            Ok(e) => if e.is_file {
                rest
            } else {
                rest.push(e.path@)
            },
            Err(_) => rest,
        }
    }
}

/// The messages of the unreadable entries, in listing order.
pub open spec fn errors_of(entries: Seq<Result<DirEntry, String>>) -> Seq<Seq<char>>
    decreases entries.len(),
{
    if entries.len() == 0 {
        Seq::empty()
    } else {
        let rest = errors_of(entries.drop_last());
        match entries.last() {
            Ok(_) => rest,
            Err(m) => rest.push(m@),
        }
    }
}

/// Partitions a directory listing into files, subdirectories and soft
/// errors, each in listing order.  Unreadable entries are recorded, never
/// fatal.
pub fn get_files_dirs_from_folder(entries: Vec<Result<DirEntry, String>>) -> (r: (
    Vec<String>,
    Vec<String>,
    Vec<String>,
))
    ensures
        r.0@.map_values(|s: String| s@) == files_of(entries@),
        r.1@.map_values(|s: String| s@) == dirs_of(entries@),
        r.2@.map_values(|s: String| s@) == errors_of(entries@),
{
    let mut files: Vec<String> = Vec::new();
    let mut dirs: Vec<String> = Vec::new();
    let mut errors: Vec<String> = Vec::new();
    let mut i: usize = 0;
    while i < entries.len()
        invariant
            0 <= i <= entries@.len(),
            files@.map_values(|s: String| s@) == files_of(entries@.take(i as int)),
            dirs@.map_values(|s: String| s@) == dirs_of(entries@.take(i as int)),
            errors@.map_values(|s: String| s@) == errors_of(entries@.take(i as int)),
        decreases entries@.len() - i,
    {
        proof {
            assert(entries@.take(i + 1).drop_last() =~= entries@.take(i as int));
            assert(entries@.take(i + 1).last() == entries@[i as int]);
        }
        let ghost files0 = files@;
        let ghost dirs0 = dirs@;
        let ghost errors0 = errors@;
        match &entries[i] {
            Ok(e) => {
                if e.is_file {
                    files.push(e.path.clone());
                    proof {
                        assert(files@.map_values(|s: String| s@) =~= files0.map_values(
                            |s: String| s@,
                        ).push(e.path@));
                    }
                } else {
                    dirs.push(e.path.clone());
                    proof {
                        assert(dirs@.map_values(|s: String| s@) =~= dirs0.map_values(
                            |s: String| s@,
                        ).push(e.path@));
                    }
                }
            },
            Err(m) => {
                errors.push(m.clone());
                proof {
                    assert(errors@.map_values(|s: String| s@) =~= errors0.map_values(
                        |s: String| s@,
                    ).push(m@));
                }
            },
        }
        i += 1;
    }
    proof {
        assert(entries@.take(entries@.len() as int) =~= entries@);
    }
    (files, dirs, errors)
}

} // verus!
