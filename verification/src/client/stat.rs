//! The account: how much space it has and how much of it is used.

use vstd::prelude::*;

verus! {

/// What the remote store tells of the account and its user.
#[derive(Debug)]
pub struct RecUserInfo {
    pub user_type: i32,
    pub user_group_id: i32,
    pub user_number: String,
    pub gid: String,
    pub username: String,
    pub name: String,
    pub email: String,
    pub mobile: String,
    pub profile: String,
    pub gender: i32,
    pub avatar: String,
    /// The space of the account, in bytes.
    pub total_space: u64,
    /// The space in use, in bytes.
    pub used_space: u64,
    pub user_file_count: i32,
    pub user_share_count: i32,
    pub user_group_count: i32,
    pub is_backup_file: bool,
}

} // verus!
