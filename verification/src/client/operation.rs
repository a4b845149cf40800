//! The changes that the remote store can be asked to make to an object.

use crate::fid::backup_text;
use crate::fid::root_text;
use crate::text::chars_of;
use crate::text::same_chars;
use vstd::prelude::*;

verus! {

/// A change to an object.
#[derive(Clone, Copy, Debug, PartialEq, Eq, Structural)]
pub enum Operation {
    Recycle,
    Delete,
    Restore,
    Move,
    Copy,
}

impl Operation {
    /// The word by which the remote store names the change.
    pub open spec fn word(self) -> Seq<char> {
        match self {
            Operation::Recycle => "recycle"@,
            Operation::Delete => "delete"@,
            Operation::Restore => "restore"@,
            Operation::Move => "move"@,
            Operation::Copy => "copy"@,
        }
    }

    /// The word by which the remote store names the change.
    pub fn to_string(&self) -> (r: String)
        ensures
            r@ == self.word(),
    {
        match self {
            Operation::Recycle => "recycle".to_owned(),
            Operation::Delete => "delete".to_owned(),
            Operation::Restore => "restore".to_owned(),
            Operation::Move => "move".to_owned(),
            Operation::Copy => "copy".to_owned(),
        }
    }
}

impl From<Operation> for String {
    fn from(op: Operation) -> (r: String)
        ensures
            r@ == op.word(),
    {
        op.to_string()
    }
}

impl vstd::std_specs::convert::FromSpecImpl<Operation> for String {
    open spec fn obeys_from_spec() -> bool {
        false
    }

    open spec fn from_spec(op: Operation) -> String {
        arbitrary()
    }
}

/// The number of the directory that a change aims at, as the remote store
/// wants it: none is the empty text, the backup root goes by the number of
/// the root, and every other number stands.
pub open spec fn target_number(dst_id: Option<Seq<char>>) -> Seq<char> {
    match dst_id {
        None => Seq::empty(),
        Some(t) => if t == backup_text() {
            root_text()
        } else {
            t
        },
    }
}

/// The number of the directory that a change aims at, as the remote store
/// wants it.
pub fn operation_target(dst_id: Option<String>) -> (r: String)
    ensures
        r@ == target_number(
            match dst_id {
                Some(t) => Some(t@),
                None => None,
            },
        ),
{
    match dst_id {
        None => String::new(),
        Some(t) => {
            let v = chars_of(t.as_str());
            if same_chars(v.as_slice(), chars_of("B_0").as_slice()) {
                "0".to_owned()
            } else {
                t
            }
        },
    }
}

} // verus!
