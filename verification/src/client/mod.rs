//! What the remote store's answers mean: names, kinds, statuses, and the rule
//! for asking again.

pub mod auth;
pub mod crypt;
pub mod download;
pub mod list;
pub mod operation;
pub mod stat;

use crate::fid::FidError;
use crate::text::append_chars;
use crate::text::chars_of;
use crate::text::part;
use crate::text::same_chars;
use crate::text::string_of;
use vstd::prelude::*;

verus! {

/// The status that the remote store gives a call that succeeded.
pub const STATUS_OK: i32 = 200;

/// The status that the remote store gives a call whose token has expired.
pub const STATUS_UNAUTHORIZED: i32 = 401;

/// The byte order mark.
pub const BYTE_ORDER_MARK: char = '\u{feff}';

/// The kind of an object: a directory or a regular file.
#[derive(Clone, Copy, Debug, PartialEq, Eq, Structural)]
pub enum FileKind {
    Directory,
    RegularFile,
}

/// Why an answer of the remote store could not be used.
#[derive(Clone, Copy, Debug, PartialEq, Eq, Structural)]
pub enum ClientError {
    /// The answer carries this status, which is not [`STATUS_OK`].
    Status(i32),
    /// The kind of an object is neither `folder` nor `file`.
    UnknownFileType,
    /// The size of an object is neither a text nor a number that fits.
    BadBytes,
    /// The time of an object's last change cannot be read, or lies before
    /// 1970.
    BadTime,
    /// The number of an object is no identifier.
    BadFid(FidError),
    /// The answer holds no address for the object asked for.
    NoUrl,
}

/// The name under which an object is shown: its name alone, or its name, a
/// dot and its extension where it has one.
pub open spec fn display_name(name: Seq<char>, ext: Seq<char>) -> Seq<char> {
    if ext.len() == 0 {
        name
    } else {
        name + seq!['.'] + ext
    }
}

/// The text `folder`.
pub open spec fn folder_word() -> Seq<char> {
    "folder"@
}

/// The text `file`.
pub open spec fn file_word() -> Seq<char> {
    "file"@
}

/// The kind that a word of the remote store names.
pub open spec fn kind_of_word(word: Seq<char>) -> Result<FileKind, ClientError> {
    if word == folder_word() {
        Ok(FileKind::Directory)
    } else if word == file_word() {
        Ok(FileKind::RegularFile)
    } else {
        Err(ClientError::UnknownFileType)
    }
}

/// The word by which the remote store names a kind.
pub open spec fn word_of_kind(kind: FileKind) -> Seq<char> {
    match kind {
        FileKind::Directory => folder_word(),
        FileKind::RegularFile => file_word(),
    }
}

/// A text without the byte order marks that lead it.
pub open spec fn without_bom(s: Seq<char>) -> Seq<char>
    decreases s.len(),
{
    if s.len() > 0 && s[0] == BYTE_ORDER_MARK {
        without_bom(s.drop_first())
    } else {
        s
    }
}

/// The name under which an object is shown.
pub fn filename(name: String, ext: String) -> (r: String)
    ensures
        r@ == display_name(name@, ext@),
{
    let e = chars_of(ext.as_str());
    if e.len() == 0 {
        name
    } else {
        let mut v = chars_of(name.as_str());
        v.push('.');
        append_chars(&mut v, e.as_slice());
        string_of(v.as_slice())
    }
}

/// The kind that `ftype` names.
pub fn filetype(ftype: &str) -> (r: Result<FileKind, ClientError>)
    ensures
        r == kind_of_word(ftype@),
{
    let v = chars_of(ftype);
    if same_chars(v.as_slice(), chars_of("folder").as_slice()) {
        Ok(FileKind::Directory)
    } else if same_chars(v.as_slice(), chars_of("file").as_slice()) {
        Ok(FileKind::RegularFile)
    } else {
        Err(ClientError::UnknownFileType)
    }
}

/// The word by which the remote store names `kind`.
pub fn kind_word(kind: FileKind) -> (r: String)
    ensures
        r@ == word_of_kind(kind),
{
    match kind {
        FileKind::Directory => "folder".to_owned(),
        FileKind::RegularFile => "file".to_owned(),
    }
}

/// Accepts an answer with status [`STATUS_OK`] and refuses every other.
pub fn check_status(status_code: i32) -> (r: Result<(), ClientError>)
    ensures
        r == if status_code == STATUS_OK {
            Ok::<(), ClientError>(())
        } else {
            Err(ClientError::Status(status_code))
        },
{
    if status_code == STATUS_OK {
        Ok(())
    } else {
        Err(ClientError::Status(status_code))
    }
}

/// Whether a call is to be made once more after a new token was fetched:
/// when its first answer has status [`STATUS_UNAUTHORIZED`]. The second
/// answer stands whatever its status.
pub fn retry_after_refresh(status_code: i32, attempt: u32) -> (r: bool)
    ensures
        r == (attempt == 0 && status_code == STATUS_UNAUTHORIZED),
{
    attempt == 0 && status_code == STATUS_UNAUTHORIZED
}

/// The body of an answer without the byte order marks that lead it.
pub fn strip_bom(text: &str) -> (r: String)
    ensures
        r@ == without_bom(text@),
{
    let v = chars_of(text);
    let mut i: usize = 0;
    assert(v@.skip(0) == v@);
    while i < v.len() && v[i] == BYTE_ORDER_MARK
        invariant
            i <= v.len(),
            without_bom(v@) == without_bom(v@.skip(i as int)),
        decreases v.len() - i,
    {
        assert(v@.skip(i as int).drop_first() == v@.skip(i + 1));
        i += 1;
    }
    let rest = part(v.as_slice(), i, v.len());
    assert(rest@ == v@.skip(i as int));
    string_of(rest.as_slice())
}

} // verus!
