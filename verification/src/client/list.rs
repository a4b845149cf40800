//! Directory listings: what the remote store sends for one object, and the
//! entry that it becomes.

use crate::client::display_name;
use crate::client::filename;
use crate::client::filetype;
use crate::client::kind_of_word;
use crate::client::check_status;
use crate::client::ClientError;
use crate::client::STATUS_OK;
use crate::client::FileKind;
use crate::fid::Fid;
use crate::text::append_chars;
use crate::text::chars_of;
use crate::text::same_chars;
use crate::text::string_of;
use vstd::prelude::*;

verus! {

/// The seconds by which the time of the remote store is behind UTC.
pub const SECONDS_WEST: i64 = 28_800;

/// The form in which the remote store writes a time.
pub const TIME_FORMAT: &'static str = "%Y-%m-%d %H:%M:%S";

/// The seconds from the start of 1970 to the date and time that `s` spells
/// in the form `format`, read without a time zone; `None` where `s` has not
/// that form or spells no date and time.
pub uninterp spec fn naive_seconds(s: Seq<char>, format: Seq<char>) -> Option<i64>;

/// `chrono::NaiveDateTime::parse_from_str`, with the seconds taken by
/// `and_utc` and `timestamp`.
#[verifier::external_body]
fn read_naive_seconds(s: &str, format: &str) -> (r: Option<i64>)
    ensures
        r == naive_seconds(s@, format@),
{
    match chrono::NaiveDateTime::parse_from_str(s, format) {
        Ok(t) => Some(t.and_utc().timestamp()),
        Err(_) => None,
    }
}

/// The size field of an object as the remote store sent it.
#[derive(Debug)]
pub enum BytesField {
    /// A text: the remote store has no size for the object.
    Text(String),
    /// A whole number that is not negative.
    Number(u64),
    /// Anything else.
    Other,
}

/// One object as the remote store lists it.
#[derive(Debug)]
pub struct RecListData {
    pub bytes: BytesField,
    pub file_ext: String,
    pub file_type: String,
    pub hash: String,
    pub last_update_date: String,
    pub name: String,
    pub number: String,
    pub parent_number: String,
    pub ftype: String,
}

/// The objects that the remote store lists for one directory.
#[derive(Debug)]
pub struct RecListEntity {
    pub datas: Vec<RecListData>,
}

/// What a size field holds.
pub enum BytesView {
    Text,
    Number(u64),
    Other,
}

impl View for BytesField {
    type V = BytesView;

    open spec fn view(&self) -> BytesView {
        match self {
            BytesField::Text(_) => BytesView::Text,
            BytesField::Number(n) => BytesView::Number(*n),
            BytesField::Other => BytesView::Other,
        }
    }
}

/// What an object as the remote store lists it holds.
pub struct DataView {
    pub bytes: BytesView,
    pub file_ext: Seq<char>,
    pub file_type: Seq<char>,
    pub hash: Seq<char>,
    pub last_update_date: Seq<char>,
    pub name: Seq<char>,
    pub number: Seq<char>,
    pub parent_number: Seq<char>,
    pub ftype: Seq<char>,
}

impl View for RecListData {
    type V = DataView;

    open spec fn view(&self) -> DataView {
        DataView {
            bytes: self.bytes@,
            file_ext: self.file_ext@,
            file_type: self.file_type@,
            hash: self.hash@,
            last_update_date: self.last_update_date@,
            name: self.name@,
            number: self.number@,
            parent_number: self.parent_number@,
            ftype: self.ftype@,
        }
    }
}

/// What a sequence of listed objects holds.
pub open spec fn datas_view(datas: Seq<RecListData>) -> Seq<DataView> {
    datas.map_values(|d: RecListData| d@)
}

/// One entry of a directory listing.
#[derive(Debug)]
pub struct RecListItem {
    /// The length of the object in bytes; 0 where the remote store has none.
    pub bytes: usize,
    /// The name under which the object is shown.
    pub name: String,
    /// The hash of the content, where the remote store gave one.
    pub hash: Option<String>,
    pub fid: Fid,
    pub ftype: FileKind,
    /// The time of the last change, in seconds since 1970 UTC.
    pub time_updated: u64,
}

/// What an entry holds.
pub struct ItemView {
    pub bytes: usize,
    pub name: Seq<char>,
    pub hash: Option<Seq<char>>,
    pub fid: Fid,
    pub ftype: FileKind,
    pub time_updated: u64,
}

impl View for RecListItem {
    type V = ItemView;

    open spec fn view(&self) -> ItemView {
        ItemView {
            bytes: self.bytes,
            name: self.name@,
            hash: match self.hash {
                Some(h) => Some(h@),
                None => None,
            },
            fid: self.fid,
            ftype: self.ftype,
            time_updated: self.time_updated,
        }
    }
}

impl Clone for RecListItem {
    fn clone(&self) -> (r: Self)
        ensures
            r == *self,
    {
        RecListItem {
            bytes: self.bytes,
            name: self.name.clone(),
            hash: match &self.hash {
                Some(h) => Some(h.clone()),
                None => None,
            },
            fid: self.fid,
            ftype: self.ftype,
            time_updated: self.time_updated,
        }
    }
}

/// What a sequence of entries holds.
pub open spec fn items_view(items: Seq<RecListItem>) -> Seq<ItemView> {
    items.map_values(|i: RecListItem| i@)
}

/// The entry that stands for the root of the account.
pub open spec fn root_item() -> ItemView {
    ItemView {
        bytes: 0,
        name: Seq::empty(),
        hash: None,
        fid: Fid::Root,
        ftype: FileKind::Directory,
        time_updated: 0,
    }
}

/// The name `?Backup`.
pub open spec fn backup_name() -> Seq<char> {
    "?Backup"@
}

/// The name `?Recycle`.
pub open spec fn recycle_name() -> Seq<char> {
    "?Recycle"@
}

/// The entry under which the root shows the directory `fid` under `name`.
pub open spec fn synthetic_item(name: Seq<char>, fid: Fid) -> ItemView {
    ItemView { bytes: 0, name, hash: None, fid, ftype: FileKind::Directory, time_updated: 0 }
}

/// A listing of `fid` as callers see it: the root's listing ends with the
/// entries of the backup and the recycle subtree, every other is as given.
pub open spec fn with_synthetic(fid: Fid, items: Seq<ItemView>) -> Seq<ItemView> {
    if fid == Fid::Root {
        items.push(synthetic_item(backup_name(), Fid::BackupRoot)).push(
            synthetic_item(recycle_name(), Fid::RecycleRoot),
        )
    } else {
        items
    }
}

/// Whether `i` is the place of the first of `items` with the name `name`.
pub open spec fn is_first_named(items: Seq<ItemView>, name: Seq<char>, i: int) -> bool {
    &&& 0 <= i < items.len()
    &&& items[i].name == name
    &&& forall|j: int| 0 <= j < i ==> (#[trigger] items[j]).name != name
}

/// The place of the first of `items` with the name `name`.
pub open spec fn first_named(items: Seq<ItemView>, name: Seq<char>) -> Option<int> {
    if exists|i: int| is_first_named(items, name, i) {
        Some(choose|i: int| is_first_named(items, name, i))
    } else {
        None
    }
}

/// Whether `i` is the place of the first of `items` with the identifier
/// `fid`.
pub open spec fn is_first_with_fid(items: Seq<ItemView>, fid: Fid, i: int) -> bool {
    &&& 0 <= i < items.len()
    &&& items[i].fid == fid
    &&& forall|j: int| 0 <= j < i ==> (#[trigger] items[j]).fid != fid
}

/// The place of the first of `items` with the identifier `fid`.
pub open spec fn first_with_fid(items: Seq<ItemView>, fid: Fid) -> Option<int> {
    if exists|i: int| is_first_with_fid(items, fid, i) {
        Some(choose|i: int| is_first_with_fid(items, fid, i))
    } else {
        None
    }
}

/// The place of the first of `items` with the name `name`.
pub fn find_named(items: &Vec<RecListItem>, name: &[char]) -> (r: Option<usize>)
    ensures
        first_named(items_view(items@), name@) == match r {
            Some(i) => Some(i as int),
            None => None,
        },
        r matches Some(i) ==> i < items.len() && items[i as int].name@ == name@,
{
    let ghost views = items_view(items@);
    let mut i: usize = 0;
    while i < items.len()
        invariant
            i <= items.len(),
            views == items_view(items@),
            forall|j: int| 0 <= j < i ==> (#[trigger] views[j]).name != name@,
        decreases items.len() - i,
    {
        let n = chars_of(items[i].name.as_str());
        if same_chars(n.as_slice(), name) {
            assert(views[i as int].name == name@);
            assert(is_first_named(views, name@, i as int));
            assert forall|k: int| is_first_named(views, name@, k) implies k == i by {
                if k < i {
                    assert(views[k].name != name@);
                } else if k > i {
                    assert(views[i as int].name == name@);
                }
            }
            return Some(i);
        }
        assert(views[i as int].name != name@);
        i += 1;
    }
    assert forall|k: int| !is_first_named(views, name@, k) by {
        if 0 <= k < views.len() {
            assert(views[k].name != name@);
        }
    }
    None
}

/// The place of the first of `items` with the identifier `fid`.
pub fn find_fid(items: &Vec<RecListItem>, fid: &Fid) -> (r: Option<usize>)
    ensures
        first_with_fid(items_view(items@), *fid) == match r {
            Some(i) => Some(i as int),
            None => None,
        },
        r matches Some(i) ==> i < items.len() && items[i as int].fid == *fid,
{
    let ghost views = items_view(items@);
    let mut i: usize = 0;
    while i < items.len()
        invariant
            i <= items.len(),
            views == items_view(items@),
            forall|j: int| 0 <= j < i ==> (#[trigger] views[j]).fid != *fid,
        decreases items.len() - i,
    {
        if items[i].fid == *fid {
            assert(views[i as int].fid == *fid);
            assert(is_first_with_fid(views, *fid, i as int));
            assert forall|k: int| is_first_with_fid(views, *fid, k) implies k == i by {
                if k < i {
                    assert(views[k].fid != *fid);
                } else if k > i {
                    assert(views[i as int].fid == *fid);
                }
            }
            return Some(i);
        }
        assert(views[i as int].fid != *fid);
        i += 1;
    }
    assert forall|k: int| !is_first_with_fid(views, *fid, k) by {
        if 0 <= k < views.len() {
            assert(views[k].fid != *fid);
        }
    }
    None
}

/// The time in UTC of a time of the remote store, which is
/// [`SECONDS_WEST`] behind: seconds since the start of 1970. A time that
/// could not be read, or that lies before 1970, is refused.
pub open spec fn utc_seconds(local: Option<i64>) -> Result<u64, ClientError> {
    match local {
        Some(t) => if 0 <= t + SECONDS_WEST <= i64::MAX {
            Ok((t + SECONDS_WEST) as u64)
        } else {
            Err(ClientError::BadTime)
        },
        None => Err(ClientError::BadTime),
    }
}

/// The length that a size field stands for: none for a text, the number
/// where it fits.
pub open spec fn bytes_of(field: BytesView) -> Result<usize, ClientError> {
    match field {
        BytesView::Text => Ok(0usize),
        BytesView::Number(n) => if n <= usize::MAX {
            Ok(n as usize)
        } else {
            Err(ClientError::BadBytes)
        },
        BytesView::Other => Err(ClientError::BadBytes),
    }
}

/// The hash of an object: none where the remote store sent an empty one.
pub open spec fn hash_of(hash: Seq<char>) -> Option<Seq<char>> {
    if hash.len() == 0 {
        None
    } else {
        Some(hash)
    }
}

/// The identifier that a number of the remote store stands for.
pub open spec fn fid_of(number: Seq<char>) -> Result<Fid, ClientError> {
    match Fid::parse_text(number) {
        Ok(fid) => Ok(fid),
        Err(e) => Err(ClientError::BadFid(e)),
    }
}

/// The entry that a listed object becomes, given the time of its last
/// change as read without a time zone. Of several faults the first counts:
/// the time, the size, the number, the kind.
pub open spec fn item_of(d: DataView, local: Option<i64>) -> Result<ItemView, ClientError> {
    match utc_seconds(local) {
        Err(e) => Err(e),
        Ok(time_updated) => match bytes_of(d.bytes) {
            Err(e) => Err(e),
            Ok(bytes) => match fid_of(d.number) {
                Err(e) => Err(e),
                Ok(fid) => match kind_of_word(d.ftype) {
                    Err(e) => Err(e),
                    Ok(ftype) => Ok(
                        ItemView {
                            bytes,
                            name: display_name(d.name, d.file_ext),
                            hash: hash_of(d.hash),
                            fid,
                            ftype,
                            time_updated,
                        },
                    ),
                },
            },
        },
    }
}

/// The entry that a listed object becomes.
pub open spec fn item_of_data(d: DataView) -> Result<ItemView, ClientError> {
    item_of(d, naive_seconds(d.last_update_date, TIME_FORMAT@))
}

/// The entries that listed objects become; where one of them is at fault,
/// the fault of the first such.
pub open spec fn items_of(datas: Seq<DataView>) -> Result<Seq<ItemView>, ClientError>
    decreases datas.len(),
{
    if datas.len() == 0 {
        Ok(Seq::empty())
    } else {
        match items_of(datas.drop_last()) {
            Err(e) => Err(e),
            Ok(items) => match item_of_data(datas.last()) {
                Err(e) => Err(e),
                Ok(item) => Ok(items.push(item)),
            },
        }
    }
}

/// What the answer to a listing of `fid` means: an answer with another
/// status than [`STATUS_OK`] is refused; else the objects become entries,
/// and the root gets its two further entries.
pub open spec fn listing_of(fid: Fid, status_code: i32, datas: Seq<DataView>) -> Result<
    Seq<ItemView>,
    ClientError,
> {
    if status_code != STATUS_OK {
        Err(ClientError::Status(status_code))
    } else {
        match items_of(datas) {
            Err(e) => Err(e),
            Ok(items) => Ok(with_synthetic(fid, items)),
        }
    }
}

/// What an entry, or the error in its place, holds.
pub open spec fn item_result_view(r: Result<RecListItem, ClientError>) -> Result<
    ItemView,
    ClientError,
> {
    match r {
        Ok(item) => Ok(item@),
        Err(e) => Err(e),
    }
}

/// What a listing, or the error in its place, holds.
pub open spec fn items_result_view(r: Result<Vec<RecListItem>, ClientError>) -> Result<
    Seq<ItemView>,
    ClientError,
> {
    match r {
        Ok(items) => Ok(items_view(items@)),
        Err(e) => Err(e),
    }
}

/// The text `folder/content/`.
pub open spec fn list_prefix() -> Seq<char> {
    "folder/content/"@
}

/// The path under which the remote store lists `fid`: the backup root goes
/// by the number of the root.
pub open spec fn list_path_of(fid: Fid) -> Seq<char> {
    if fid == Fid::BackupRoot {
        list_prefix() + Fid::Root.text()
    } else {
        list_prefix() + fid.text()
    }
}

/// The part of the store that `fid` is listed from.
pub enum DiskType {
    Cloud,
    Backup,
    Recycle,
}

impl DiskType {
    /// The word by which the remote store names the part.
    pub open spec fn word(self) -> Seq<char> {
        match self {
            DiskType::Cloud => "cloud"@,
            DiskType::Backup => "backup"@,
            DiskType::Recycle => "recycle"@,
        }
    }

    /// The part of the store that `fid` is listed from.
    pub open spec fn of(fid: Fid) -> DiskType {
        match fid {
            Fid::BackupRoot => DiskType::Backup,
            Fid::RecycleRoot => DiskType::Recycle,
            _ => DiskType::Cloud,
        }
    }
}

/// The path under which the remote store lists `fid`.
pub fn list_path(fid: &Fid) -> (r: String)
    ensures
        r@ == list_path_of(*fid),
{
    let mut v = chars_of("folder/content/");
    let number = match fid {
        Fid::BackupRoot => Fid::Root.to_string(),
        _ => fid.to_string(),
    };
    append_chars(&mut v, chars_of(number.as_str()).as_slice());
    string_of(v.as_slice())
}

/// The word for the part of the store that `fid` is listed from.
pub fn disk_type(fid: &Fid) -> (r: String)
    ensures
        r@ == DiskType::of(*fid).word(),
{
    match fid {
        Fid::BackupRoot => "backup".to_owned(),
        Fid::RecycleRoot => "recycle".to_owned(),
        _ => "cloud".to_owned(),
    }
}

/// The time in UTC of a time of the remote store.
pub fn to_utc_seconds(local: Option<i64>) -> (r: Result<u64, ClientError>)
    ensures
        r == utc_seconds(local),
{
    match local {
        None => Err(ClientError::BadTime),
        Some(t) => {
            if t < -SECONDS_WEST || t > i64::MAX - SECONDS_WEST {
                Err(ClientError::BadTime)
            } else {
                Ok((t + SECONDS_WEST) as u64)
            }
        },
    }
}

/// The length that a size field stands for.
pub fn length_of(field: &BytesField) -> (r: Result<usize, ClientError>)
    ensures
        r == bytes_of(field@),
{
    match field {
        BytesField::Text(_) => Ok(0),
        BytesField::Number(n) => {
            if *n <= usize::MAX as u64 {
                Ok(*n as usize)
            } else {
                Err(ClientError::BadBytes)
            }
        },
        BytesField::Other => Err(ClientError::BadBytes),
    }
}

/// What the answer to a listing of `fid` means.
pub fn finish_list(fid: &Fid, status_code: i32, entity: RecListEntity) -> (r: Result<
    Vec<RecListItem>,
    ClientError,
>)
    ensures
        items_result_view(r) == listing_of(*fid, status_code, datas_view(entity.datas@)),
{
    match check_status(status_code) {
        Err(e) => {
            return Err(e);
        },
        Ok(_) => {},
    }
    let ghost all = datas_view(entity.datas@);
    let mut items: Vec<RecListItem> = Vec::new();
    assert(all.take(0) =~= Seq::<DataView>::empty());
    assert(items_view(items@) =~= Seq::<ItemView>::empty());
    for data in it: entity.datas
        invariant
            status_code == STATUS_OK,
            all == datas_view(entity.datas@),
            all == datas_view(it.seq()),
            items_of(all.take(it.index() as int)) == Ok::<Seq<ItemView>, ClientError>(
                items_view(items@),
            ),
    {
        let ghost done = all.take(it.index() as int);
        let ghost next = all.take(it.index() + 1);
        let ghost before = items_view(items@);
        assert(next.drop_last() == done);
        assert(next.last() == data@);
        match RecListItem::try_from(data) {
            Err(e) => {
                proof {
                    lemma_items_of_fails(all, it.index() + 1);
                }
                return Err(e);
            },
            Ok(item) => {
                items.push(item);
                assert(items_view(items@) =~= before.push(item@));
            },
        }
    }
    assert(all.take(all.len() as int) == all);
    let ghost listed = items_view(items@);
    match fid {
        Fid::Root => {
            items.push(RecListItem::backup());
            items.push(RecListItem::recycle());
            assert(items_view(items@) =~= with_synthetic(*fid, listed));
        },
        _ => {},
    }
    Ok(items)
}

/// Where the first objects of a listing are at fault, the listing is at the
/// same fault.
pub proof fn lemma_items_of_fails(datas: Seq<DataView>, n: int)
    requires
        0 <= n <= datas.len(),
        items_of(datas.take(n)) is Err,
    ensures
        items_of(datas) == items_of(datas.take(n)),
    decreases datas.len() - n,
{
    if n < datas.len() {
        assert(datas.take(n + 1).drop_last() == datas.take(n));
        lemma_items_of_fails(datas, n + 1);
    } else {
        assert(datas.take(n) == datas);
    }
}

impl RecListItem {
    /// The entry that a listed object becomes, given the time of its last
    /// change as read without a time zone.
    pub fn from_data(data: RecListData, local_seconds: Option<i64>) -> (r: Result<
        RecListItem,
        ClientError,
    >)
        ensures
            item_result_view(r) == item_of(data@, local_seconds),
    {
        let time_updated = match to_utc_seconds(local_seconds) {
            Ok(t) => t,
            Err(e) => {
                return Err(e);
            },
        };
        let bytes = match length_of(&data.bytes) {
            Ok(b) => b,
            Err(e) => {
                return Err(e);
            },
        };
        let fid = match Fid::parse(data.number.as_str()) {
            Ok(f) => f,
            Err(e) => {
                return Err(ClientError::BadFid(e));
            },
        };
        let ftype = match filetype(data.ftype.as_str()) {
            Ok(k) => k,
            Err(e) => {
                return Err(e);
            },
        };
        let hash = if data.hash.as_str().unicode_len() == 0 {
            None
        } else {
            Some(data.hash)
        };
        let name = filename(data.name, data.file_ext);
        Ok(RecListItem { bytes, name, hash, fid, ftype, time_updated })
    }

    /// The entry that a listed object becomes.
    pub fn try_from(data: RecListData) -> (r: Result<RecListItem, ClientError>)
        ensures
            item_result_view(r) == item_of_data(data@),
    {
        let local = read_naive_seconds(data.last_update_date.as_str(), TIME_FORMAT);
        RecListItem::from_data(data, local)
    }

    /// The entry that stands for the root of the account.
    pub fn root() -> (r: Self)
        ensures
            r@ == root_item(),
    {
        RecListItem {
            bytes: 0,
            name: String::new(),
            hash: None,
            fid: Fid::root(),
            ftype: FileKind::Directory,
            time_updated: 0,
        }
    }

    /// The entry under which the root shows the backup subtree.
    pub fn backup() -> (r: Self)
        ensures
            r@ == synthetic_item(backup_name(), Fid::BackupRoot),
    {
        RecListItem {
            bytes: 0,
            name: "?Backup".to_owned(),
            hash: None,
            fid: Fid::BackupRoot,
            ftype: FileKind::Directory,
            time_updated: 0,
        }
    }

    /// The entry under which the root shows the recycle subtree.
    pub fn recycle() -> (r: Self)
        ensures
            r@ == synthetic_item(recycle_name(), Fid::RecycleRoot),
    {
        RecListItem {
            bytes: 0,
            name: "?Recycle".to_owned(),
            hash: None,
            fid: Fid::RecycleRoot,
            ftype: FileKind::Directory,
            time_updated: 0,
        }
    }
}

} // verus!
