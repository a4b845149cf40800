//! The identifier of a remote object and its textual form.

use crate::text::all_digits;
use crate::text::append_chars;
use crate::text::chars_of;
use crate::text::decimal_text;
use crate::text::lemma_decimal_text_len;
use crate::text::lemma_decimal_text_value;
use crate::text::parse_decimal;
use crate::text::parse_usize;
use crate::text::part;
use crate::text::same_chars;
use crate::text::starts_with;
use crate::text::string_of;
use crate::text::usize_text;
use crate::uuid_text::canonical_text;
use crate::uuid_text::lemma_canonical_text_value;
use crate::uuid_text::parse_uuid;
use crate::uuid_text::text_value;
use crate::uuid_text::uuid_string;
use vstd::arithmetic::power::lemma_pow1;
use vstd::arithmetic::power::lemma_pow_adds;
use vstd::arithmetic::power::pow;
use vstd::prelude::*;

verus! {

/// Identifies one object of the remote store.
#[derive(Clone, Copy, Debug, PartialEq, Eq, Hash, PartialOrd, Ord, Structural)]
pub enum Fid {
    /// The root of the account.
    Root,
    /// An object that the remote store listed, by its 128-bit number.
    Remote(u128),
    /// The root of the backup subtree.
    BackupRoot,
    /// The root of the recycle subtree.
    RecycleRoot,
    /// An object created here and not yet uploaded, by its local number.
    LocalWrite(usize),
}

/// Why a text is no identifier.
#[derive(Clone, Copy, Debug, PartialEq, Eq, Structural)]
pub enum FidError {
    /// The text has none of the known forms.
    Unrecognized,
    /// The text begins with `write-` and what follows is no number that fits.
    BadNumber,
}

/// The text `0`.
pub open spec fn root_text() -> Seq<char> {
    "0"@
}

/// The text `B_0`.
pub open spec fn backup_text() -> Seq<char> {
    "B_0"@
}

/// The text `R_0`.
pub open spec fn recycle_text() -> Seq<char> {
    "R_0"@
}

/// The text `write-`.
pub open spec fn write_prefix() -> Seq<char> {
    "write-"@
}

impl Fid {
    /// The text of an identifier, as the remote store writes it.
    pub open spec fn text(self) -> Seq<char> {
        match self {
            Fid::Root => root_text(),
            Fid::BackupRoot => backup_text(),
            Fid::RecycleRoot => recycle_text(),
            Fid::Remote(v) => canonical_text(v),
            Fid::LocalWrite(n) => write_prefix() + decimal_text(n as nat),
        }
    }

    /// What a text means. The forms are tried in this order: a 128-bit
    /// number in one of its accepted forms, the three roots, `write-` and a
    /// number.
    pub open spec fn parse_text(s: Seq<char>) -> Result<Fid, FidError> {
        match text_value(s) {
            Some(v) => Ok(Fid::Remote(v)),
            None => if s == root_text() {
                Ok(Fid::Root)
            } else if s == backup_text() {
                Ok(Fid::BackupRoot)
            } else if s == recycle_text() {
                Ok(Fid::RecycleRoot)
            } else if write_prefix().is_prefix_of(s) {
                match parse_decimal(s.skip(write_prefix().len() as int)) {
                    Some(n) => Ok(Fid::LocalWrite(n)),
                    None => Err(FidError::BadNumber),
                }
            } else {
                Err(FidError::Unrecognized)
            },
        }
    }

    /// The identifier of the account's root.
    pub fn root() -> (r: Fid)
        ensures
            r == Fid::Root,
    {
        Fid::Root
    }

    /// Whether the object was created here and is not yet uploaded.
    pub fn is_created(&self) -> (r: bool)
        ensures
            r == (*self is LocalWrite),
    {
        match self {
            Fid::LocalWrite(_) => true,
            _ => false,
        }
    }

    /// Writes the identifier as text.
    pub fn to_string(&self) -> (r: String)
        ensures
            r@ == self.text(),
    {
        match self {
            Fid::Root => "0".to_owned(),
            Fid::BackupRoot => "B_0".to_owned(),
            Fid::RecycleRoot => "R_0".to_owned(),
            Fid::Remote(v) => uuid_string(*v),
            Fid::LocalWrite(n) => {
                let mut v = chars_of("write-");
                let digits = usize_text(*n);
                append_chars(&mut v, digits.as_slice());
                string_of(v.as_slice())
            },
        }
    }

    /// Reads an identifier from text.
    pub fn parse(s: &str) -> (r: Result<Fid, FidError>)
        ensures
            r == Fid::parse_text(s@),
    {
        match parse_uuid(s) {
            Some(v) => Ok(Fid::Remote(v)),
            None => {
                let v = chars_of(s);
                let prefix = chars_of("write-");
                if same_chars(v.as_slice(), chars_of("0").as_slice()) {
                    Ok(Fid::Root)
                } else if same_chars(v.as_slice(), chars_of("B_0").as_slice()) {
                    Ok(Fid::BackupRoot)
                } else if same_chars(v.as_slice(), chars_of("R_0").as_slice()) {
                    Ok(Fid::RecycleRoot)
                } else if starts_with(v.as_slice(), prefix.as_slice()) {
                    let digits = part(v.as_slice(), prefix.len(), v.len());
                    match parse_usize(digits.as_slice()) {
                        Some(k) => Ok(Fid::LocalWrite(k)),
                        None => Err(FidError::BadNumber),
                    }
                } else {
                    Err(FidError::Unrecognized)
                }
            },
        }
    }
}

impl core::str::FromStr for Fid {
    type Err = FidError;

    fn from_str(s: &str) -> (r: Result<Fid, FidError>)
        ensures
            r == Fid::parse_text(s@),
    {
        Fid::parse(s)
    }
}

/// `10^20` exceeds every `usize`.
pub proof fn lemma_pow10_20()
    ensures
        pow(10, 20) == 100_000_000_000_000_000_000,
        usize::MAX < pow(10, 20),
{
    lemma_pow1(10);
    lemma_pow_adds(10, 1, 1);
    assert(pow(10, 2) == 100);
    lemma_pow_adds(10, 2, 2);
    assert(pow(10, 4) == 10_000);
    lemma_pow_adds(10, 4, 1);
    assert(pow(10, 5) == 100_000);
    lemma_pow_adds(10, 5, 5);
    assert(pow(10, 10) == 10_000_000_000);
    lemma_pow_adds(10, 10, 10);
}

/// The text of an identifier reads back as that identifier.
pub proof fn lemma_parse_text_of_text(v: Fid)
    ensures
        Fid::parse_text(v.text()) == (Ok::<Fid, FidError>(v)),
{
    reveal_strlit("0");
    reveal_strlit("B_0");
    reveal_strlit("R_0");
    reveal_strlit("write-");
    match v {
        Fid::Root => {},
        Fid::BackupRoot => {
            assert(backup_text()[0] != root_text()[0]);
        },
        Fid::RecycleRoot => {
            assert(recycle_text()[0] != backup_text()[0]);
        },
        Fid::Remote(x) => {
            lemma_canonical_text_value(x);
        },
        Fid::LocalWrite(n) => {
            let d = decimal_text(n as nat);
            let s = write_prefix() + d;
            lemma_pow10_20();
            lemma_decimal_text_len(n as nat, 20);
            lemma_decimal_text_value(n as nat);
            assert(s.len() == 6 + d.len());
            assert(s[0] == 'w');
            assert(s[0] != root_text()[0]);
            assert(s[0] != backup_text()[0]);
            assert(s[0] != recycle_text()[0]);
            assert(s.subrange(0, 6) == write_prefix());
            assert(s.skip(6) == d);
            assert(all_digits(d));
            assert(crate::text::is_digit(d[0]));
        },
    }
}

/// Two identifiers with the same text are the same identifier.
pub proof fn lemma_text_injective(a: Fid, b: Fid)
    requires
        a.text() == b.text(),
    ensures
        a == b,
{
    lemma_parse_text_of_text(a);
    lemma_parse_text_of_text(b);
}

} // verus!
