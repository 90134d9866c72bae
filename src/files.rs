//! The formats of secret files read by the file provider and of the files
//! values are written to, and the checks made before writing or removing one.
use vstd::prelude::*;
use crate::text::{text_of};
use crate::error::LadeError;
use crate::text::{split, split_by, str_eq};

verus! {

#[derive(PartialEq, Eq, Structural, Clone, Copy, Debug)]
pub enum FileFormat {
    Json,
    Yaml,
    Toml,
    Ini,
}

/// The text after the last `.` of a path.
pub open spec fn extension(path: Seq<char>) -> Seq<char> {
    split_by(path, text_of(".")).last()
}

/// The format a secret file is read in, by its extension.
pub open spec fn read_format(ext: Seq<char>) -> Option<FileFormat> {
    if ext == text_of("yaml") || ext == text_of("yml") {
        Some(FileFormat::Yaml)
    } else if ext == text_of("json") {
        Some(FileFormat::Json)
    } else if ext == text_of("toml") {
        Some(FileFormat::Toml)
    } else if ext == text_of("ini") {
        Some(FileFormat::Ini)
    } else {
        None
    }
}

/// The format values are written in, by the file's extension.
pub open spec fn write_format(ext: Seq<char>) -> Option<FileFormat> {
    if ext == text_of("json") {
        Some(FileFormat::Json)
    } else if ext == text_of("yaml") || ext == text_of("yml") {
        Some(FileFormat::Yaml)
    } else {
        None
    }
}

fn extension_of(path: &str) -> (r: String)
    ensures
        r@ == extension(path@),
{
    proof {
        reveal_strlit(".");
    }
    let pieces = split(path, ".");
    proof {
        crate::text::lemma_split_by_nonempty(path@, text_of("."));
    }
    String::from_str(pieces[pieces.len() - 1].as_str())
}

/// The format of a secret file, by its extension.
pub fn file_format(path: &str) -> (r: Result<FileFormat, LadeError>)
    ensures
        r matches Ok(f) ==> read_format(extension(path@)) == Some(f),
        r matches Err(e) ==> read_format(extension(path@)) is None && (e matches LadeError::UnsupportedFormat(x)
            && x@ == extension(path@)),
{
    let ext = extension_of(path);
    let e = ext.as_str();
    if str_eq(e, "yaml") || str_eq(e, "yml") {
        Ok(FileFormat::Yaml)
    } else if str_eq(e, "json") {
        Ok(FileFormat::Json)
    } else if str_eq(e, "toml") {
        Ok(FileFormat::Toml)
    } else if str_eq(e, "ini") {
        Ok(FileFormat::Ini)
    } else {
        Err(LadeError::UnsupportedFormat(ext))
    }
}

/// Checks that values may be written to `path`: the file must not be there
/// yet, so that no secrets file is overwritten, and its extension must name
/// a format values can be written in.
pub fn check_write(path: &str, exists: bool) -> (r: Result<FileFormat, LadeError>)
    ensures
        exists ==> (r matches Err(e) && (e matches LadeError::FileExists(p) && p@ == path@)),
        !exists ==> match r {
            Ok(f) => write_format(extension(path@)) == Some(f),
            Err(e) => write_format(extension(path@)) is None && (e matches LadeError::UnsupportedFormat(x)
                && x@ == extension(path@)),
        },
{
    if exists {
        return Err(LadeError::FileExists(String::from_str(path)));
    }
    let ext = extension_of(path);
    let e = ext.as_str();
    if str_eq(e, "json") {
        Ok(FileFormat::Json)
    } else if str_eq(e, "yaml") || str_eq(e, "yml") {
        Ok(FileFormat::Yaml)
    } else {
        Err(LadeError::UnsupportedFormat(ext))
    }
}

/// Checks that a file written before is there to be removed.
pub fn check_remove(path: &str, exists: bool) -> (r: Result<(), LadeError>)
    ensures
        exists <==> r is Ok,
        r matches Err(e) ==> e matches LadeError::FileMissing(p) && p@ == path@,
{
    if exists {
        Ok(())
    } else {
        Err(LadeError::FileMissing(String::from_str(path)))
    }
}

} // verus!
