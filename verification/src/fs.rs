//! The filesystem calls: what each one answers from the tables, and what it
//! asks of the outside where the tables have no answer.

use crate::cache::Cache;
use crate::client::list::find_fid;
use crate::client::list::find_named;
use crate::client::list::first_named;
use crate::client::list::first_with_fid;
use crate::client::list::items_view;
use crate::client::list::root_item;
use crate::client::list::ItemView;
use crate::client::list::RecListItem;
use crate::client::stat::RecUserInfo;
use crate::client::FileKind;
use crate::errno::Errno;
use crate::fid::Fid;
use crate::fidmap::FidCachedList;
use crate::fidmap::FidMap;
use crate::fidmap::FidMapView;
use crate::handles::bound_handle;
use crate::handles::MAX_HANDLES;
use crate::resolve::byte_path_names;
use crate::resolve::has_separator;
use crate::resolve::path_components_bytes;
use crate::resolve::path_components;
use crate::resolve::path_names;
use crate::resolve::resumed;
use crate::resolve::settle;
use crate::resolve::start;
use crate::resolve::Pending;
use crate::resolve::Step;
use crate::resolve::SEPARATOR;
use crate::text::chars_of;
use vstd::prelude::*;

verus! {

/// The size in bytes of the blocks in which sizes are counted.
pub const BLOCK_SIZE: u32 = 512;

/// The longest name of a file, in bytes.
pub const NAME_MAX: u32 = 255;

/// The seconds for which the kernel may keep the attributes of an object.
pub const ATTR_TTL: u64 = 1;

/// The seconds for which the kernel may keep the attributes of a directory
/// that was just made.
pub const NEW_ATTR_TTL: u64 = 0;

/// The permission bits of every object: its owner may read and write.
pub const OWNER_READ_WRITE: u16 = 0o600;

/// The bits of the flags of `open` that hold the access mode.
pub const ACCESS_MODE: u32 = 3;

/// The access mode of reading only.
pub const READ_ONLY: u32 = 0;

/// The attributes of an object. Times are seconds since the start of 1970.
#[derive(Clone, Copy, Debug, PartialEq, Eq, Structural)]
pub struct FileAttr {
    pub size: u64,
    pub blocks: u64,
    pub atime: u64,
    pub mtime: u64,
    pub ctime: u64,
    pub crtime: u64,
    pub kind: FileKind,
    pub perm: u16,
    pub nlink: u32,
    pub uid: u32,
    pub gid: u32,
    pub rdev: u32,
    pub flags: u32,
}

/// The attributes of an entry: its length, that length in whole blocks,
/// the time of its last change as the time of access and of change, its
/// kind, and the permissions, owner and counts that all objects share.
pub open spec fn attr_of(item: ItemView) -> FileAttr {
    FileAttr {
        size: item.bytes as u64,
        blocks: (item.bytes as u64 / BLOCK_SIZE as u64) as u64,
        atime: item.time_updated,
        mtime: item.time_updated,
        ctime: 0,
        crtime: 0,
        kind: item.ftype,
        perm: OWNER_READ_WRITE,
        nlink: 0,
        uid: 0,
        gid: 0,
        rdev: 0,
        flags: 0,
    }
}

impl From<RecListItem> for FileAttr {
    fn from(item: RecListItem) -> (r: FileAttr)
        ensures
            r == attr_of(item@),
    {
        FileAttr::of(&item)
    }
}

impl vstd::std_specs::convert::FromSpecImpl<RecListItem> for FileAttr {
    open spec fn obeys_from_spec() -> bool {
        true
    }

    open spec fn from_spec(item: RecListItem) -> FileAttr {
        attr_of(item@)
    }
}

impl FileAttr {
    /// The attributes of `item`.
    pub fn of(item: &RecListItem) -> (r: FileAttr)
        ensures
            r == attr_of(item@),
    {
        FileAttr {
            size: item.bytes as u64,
            blocks: item.bytes as u64 / BLOCK_SIZE as u64,
            atime: item.time_updated,
            mtime: item.time_updated,
            ctime: 0,
            crtime: 0,
            kind: item.ftype,
            perm: OWNER_READ_WRITE,
            nlink: 0,
            uid: 0,
            gid: 0,
            rdev: 0,
            flags: 0,
        }
    }
}

/// What the filesystem tells of its space.
#[derive(Clone, Copy, Debug, PartialEq, Eq, Structural)]
pub struct Statfs {
    pub blocks: u64,
    pub bfree: u64,
    pub bavail: u64,
    pub files: u64,
    pub ffree: u64,
    pub bsize: u32,
    pub namelen: u32,
    pub frsize: u32,
}

/// The space of an account in blocks: all of it, and what is not in use,
/// which is nothing where more is in use than there is.
pub open spec fn statfs_of(total_space: u64, used_space: u64) -> Statfs {
    let free = if used_space <= total_space {
        (total_space - used_space) as u64
    } else {
        0u64
    };
    Statfs {
        blocks: (total_space / BLOCK_SIZE as u64) as u64,
        bfree: (free / BLOCK_SIZE as u64) as u64,
        bavail: (free / BLOCK_SIZE as u64) as u64,
        files: 0,
        ffree: 0,
        bsize: BLOCK_SIZE,
        namelen: NAME_MAX,
        frsize: BLOCK_SIZE,
    }
}

/// One name in a directory.
#[derive(Debug)]
pub struct DirectoryEntry {
    pub name: String,
    pub kind: FileKind,
}

/// What a name in a directory holds.
pub struct EntryView {
    pub name: Seq<char>,
    pub kind: FileKind,
}

impl View for DirectoryEntry {
    type V = EntryView;

    open spec fn view(&self) -> EntryView {
        EntryView { name: self.name@, kind: self.kind }
    }
}

/// What a sequence of names in a directory holds.
pub open spec fn entries_view(entries: Seq<DirectoryEntry>) -> Seq<EntryView> {
    entries.map_values(|e: DirectoryEntry| e@)
}

/// The names that a listing shows: one for each entry, in order.
pub open spec fn entries_of(items: Seq<ItemView>) -> Seq<EntryView> {
    items.map_values(|i: ItemView| EntryView { name: i.name, kind: i.ftype })
}

/// The identifier that `fh` is bound to.
pub open spec fn fid_of_handle(v: FidMapView, fh: u64) -> Result<Fid, Errno> {
    if v.handles.contains_key(fh) {
        Ok(v.handles[fh])
    } else {
        Err(Errno::BadHandle)
    }
}

/// The entry of `fid` in the listing cached for `parent`; without a parent,
/// the entry of the root.
pub open spec fn item_in(v: FidMapView, fid: Fid, parent: Option<Fid>) -> Result<
    ItemView,
    Errno,
> {
    match parent {
        None => Ok(root_item()),
        Some(p) => if !v.listings.contains_key(p) {
            Err(Errno::NoEntry)
        } else {
            match v.listings[p] {
                None => Err(Errno::NotDirectory),
                Some(items) => match first_with_fid(items, fid) {
                    Some(i) => Ok(items[i]),
                    None => Err(Errno::NoEntry),
                },
            }
        },
    }
}

/// The entry named `name` in the listing `listing`.
pub open spec fn item_named(listing: Option<Seq<ItemView>>, name: Seq<char>) -> Result<
    ItemView,
    Errno,
> {
    match listing {
        None => Err(Errno::NotDirectory),
        Some(items) => match first_named(items, name) {
            Some(i) => Ok(items[i]),
            None => Err(Errno::NoEntry),
        },
    }
}

/// The listing cached for `fid`.
pub open spec fn listing_in(v: FidMapView, fid: Fid) -> Result<Option<Seq<ItemView>>, Errno> {
    if v.listings.contains_key(fid) {
        Ok(v.listings[fid])
    } else {
        Err(Errno::NoEntry)
    }
}

/// What an optional listing holds.
pub open spec fn listing_view(listing: Option<Vec<RecListItem>>) -> Option<Seq<ItemView>> {
    match listing {
        Some(items) => Some(items_view(items@)),
        None => None,
    }
}

/// The entry of `fid` in what the remote store listed for its parent;
/// without a parent, the entry of the root.
pub open spec fn item_after(fid: Fid, parent: Option<Fid>, listing: Option<Seq<ItemView>>) -> Result<
    ItemView,
    Errno,
> {
    match parent {
        None => Ok(root_item()),
        Some(p) => match listing {
            None => Err(Errno::NoEntry),
            Some(items) => match first_with_fid(items, fid) {
                Some(i) => Ok(items[i]),
                None => Err(Errno::NoEntry),
            },
        },
    }
}

/// Whether the flags of `open` ask for more than reading.
pub open spec fn wants_write(flags: u32) -> bool {
    flags & ACCESS_MODE != READ_ONLY
}

/// What `opendir` of the object `fid` found in `parent` answers: a handle
/// and no flags for a directory.
pub open spec fn opendir_of(v: FidMapView, fid: Fid, parent: Option<Fid>) -> Result<
    (u64, u32),
    Errno,
> {
    match item_in(v, fid, parent) {
        Err(e) => Err(e),
        Ok(item) => if item.ftype != FileKind::Directory {
            Err(Errno::NotDirectory)
        } else {
            Ok((bound_handle(v.handles, fid), 0u32))
        },
    }
}

/// What `open` of the object `fid` found in `parent` answers: a handle and
/// the flags given, for a regular file that is only to be read.
pub open spec fn open_of(v: FidMapView, fid: Fid, parent: Option<Fid>, flags: u32) -> Result<
    (u64, u32),
    Errno,
> {
    match item_in(v, fid, parent) {
        Err(e) => Err(e),
        Ok(item) => if item.ftype != FileKind::RegularFile {
            Err(Errno::IsDirectory)
        } else if wants_write(flags) {
            Err(Errno::NotImplemented)
        } else {
            Ok((bound_handle(v.handles, fid), flags))
        },
    }
}

/// What `readdir` of the handle `fh` answers: the names of the directory
/// listing cached for the identifier that the handle is bound to; without
/// such a listing, `ENOTDIR`.
pub open spec fn readdir_of(v: FidMapView, fh: u64) -> Result<Seq<EntryView>, Errno> {
    match fid_of_handle(v, fh) {
        Err(e) => Err(e),
        Ok(fid) => match listing_in(v, fid) {
            Ok(Some(items)) => Ok(entries_of(items)),
            _ => Err(Errno::NotDirectory),
        },
    }
}

/// Where some entry has the identifier `fid`, there is a first such.
pub proof fn lemma_first_with_fid(items: Seq<ItemView>, fid: Fid, k: int)
    requires
        0 <= k < items.len(),
        items[k].fid == fid,
    ensures
        first_with_fid(items, fid) is Some,
        0 <= first_with_fid(items, fid)->0 <= k,
        items[first_with_fid(items, fid)->0].fid == fid,
    decreases k,
{
    if exists|j: int| 0 <= j < k && (#[trigger] items[j]).fid == fid {
        let j = choose|j: int| 0 <= j < k && (#[trigger] items[j]).fid == fid;
        lemma_first_with_fid(items, fid, j);
    } else {
        assert(crate::client::list::is_first_with_fid(items, fid, k));
        let f = first_with_fid(items, fid)->0;
        assert(crate::client::list::is_first_with_fid(items, fid, f));
        if f > k {
            assert(items[k].fid != fid);
        }
    }
}

/// Looking an object up in the directory under which it is listed finds an
/// entry with the identifier of that object; and that identifier, written
/// as text, reads back as itself.
pub proof fn lemma_listed_is_found(v: FidMapView, fid: Fid, parent: Option<Fid>)
    requires
        crate::resolve::is_listed(v, fid, parent),
        parent is None ==> fid == Fid::Root,
    ensures
        item_in(v, fid, parent) is Ok,
        item_in(v, fid, parent)->Ok_0.fid == fid,
        Fid::parse_text(item_in(v, fid, parent)->Ok_0.fid.text()) == Ok::<
            Fid,
            crate::fid::FidError,
        >(fid),
{
    crate::fid::lemma_parse_text_of_text(fid);
    if parent is Some {
        let items = v.listings[parent->0]->0;
        let k = choose|k: int| 0 <= k < items.len() && (#[trigger] items[k]).fid == fid;
        lemma_first_with_fid(items, fid, k);
    }
}

/// The object that a path from the root leads to is found again by its
/// identifier in the directory that the resolution found it in.
pub proof fn lemma_resolved_is_found(v: FidMapView, names: Seq<Seq<char>>, fast_path: bool)
    ensures
        settle(v, names, start(), fast_path).1 matches crate::resolve::StepView::Done {
            fid,
            parent,
        } ==> parent is Some ==> {
            let w = settle(v, names, start(), fast_path).0;
            &&& item_in(w, fid, parent) is Ok
            &&& item_in(w, fid, parent)->Ok_0.fid == fid
        },
{
    crate::resolve::lemma_resolved_listed(v, names, fast_path);
    let r = settle(v, names, start(), fast_path);
    match r.1 {
        crate::resolve::StepView::Done { fid, parent } => {
            if parent is Some {
                lemma_listed_is_found(r.0, fid, parent);
            }
        },
        _ => {},
    }
}

/// What a read waits for or ends with.
#[derive(Debug)]
pub enum ReadStep {
    /// The store of bodies is to be asked for the body of the identifier.
    /// `fetched` tells whether the body was fetched before.
    Probe { fid: Fid, offset: u64, fetched: bool },
    /// The remote store is to be asked for the address of the body.
    AskUrl { fid: Fid, offset: u64 },
    /// The body is to be fetched from the address into the store.
    Fetch { fid: Fid, offset: u64, url: String },
    /// The body at the path is to be read from the offset to its end.
    ReadBody { path: String, offset: u64 },
    /// The read fails.
    Fail(Errno),
}

/// What the outside did for a step of a read.
#[derive(Debug)]
pub enum ReadEvent {
    /// The path of the body in the store, if the store has it.
    Probed(Option<String>),
    /// The address of the body, unless the remote store gave none.
    Url(Option<String>),
    /// Whether the body was fetched.
    Fetched(bool),
}

/// What a step of a read holds.
pub enum ReadStepView {
    Probe { fid: Fid, offset: u64, fetched: bool },
    AskUrl { fid: Fid, offset: u64 },
    Fetch { fid: Fid, offset: u64, url: Seq<char> },
    ReadBody { path: Seq<char>, offset: u64 },
    Fail(Errno),
}

/// What an event of a read holds.
pub enum ReadEventView {
    Probed(Option<Seq<char>>),
    Url(Option<Seq<char>>),
    Fetched(bool),
}

impl View for ReadStep {
    type V = ReadStepView;

    open spec fn view(&self) -> ReadStepView {
        match self {
            ReadStep::Probe { fid, offset, fetched } => ReadStepView::Probe {
                fid: *fid,
                offset: *offset,
                fetched: *fetched,
            },
            ReadStep::AskUrl { fid, offset } => ReadStepView::AskUrl { fid: *fid, offset: *offset },
            ReadStep::Fetch { fid, offset, url } => ReadStepView::Fetch {
                fid: *fid,
                offset: *offset,
                url: url@,
            },
            ReadStep::ReadBody { path, offset } => ReadStepView::ReadBody {
                path: path@,
                offset: *offset,
            },
            ReadStep::Fail(e) => ReadStepView::Fail(*e),
        }
    }
}

impl View for ReadEvent {
    type V = ReadEventView;

    open spec fn view(&self) -> ReadEventView {
        match self {
            ReadEvent::Probed(Some(p)) => ReadEventView::Probed(Some(p@)),
            ReadEvent::Probed(None) => ReadEventView::Probed(None),
            ReadEvent::Url(Some(u)) => ReadEventView::Url(Some(u@)),
            ReadEvent::Url(None) => ReadEventView::Url(None),
            ReadEvent::Fetched(ok) => ReadEventView::Fetched(*ok),
        }
    }
}

/// The first step of a read of the handle `fh` from `offset`.
pub open spec fn read_start(v: FidMapView, fh: u64, offset: u64) -> ReadStepView {
    match fid_of_handle(v, fh) {
        Err(e) => ReadStepView::Fail(e),
        Ok(fid) => ReadStepView::Probe { fid, offset, fetched: false },
    }
}

/// The step that follows `step` when `event` comes. A body in the store is
/// read. One that is missing is fetched from the address that the remote
/// store gives, and must be in the store after that. Whatever else the
/// outside answers fails the read with `EIO`.
pub open spec fn read_next(step: ReadStepView, event: ReadEventView) -> ReadStepView {
    match (step, event) {
        (ReadStepView::Probe { fid, offset, fetched }, ReadEventView::Probed(Some(path))) =>
            ReadStepView::ReadBody { path, offset },
        (ReadStepView::Probe { fid, offset, fetched: false }, ReadEventView::Probed(None)) =>
            ReadStepView::AskUrl { fid, offset },
        (ReadStepView::AskUrl { fid, offset }, ReadEventView::Url(Some(url))) =>
            ReadStepView::Fetch { fid, offset, url },
        (ReadStepView::Fetch { fid, offset, url }, ReadEventView::Fetched(true)) =>
            ReadStepView::Probe { fid, offset, fetched: true },
        _ => ReadStepView::Fail(Errno::Io),
    }
}

/// How many steps a read at `step` has before it at most.
pub open spec fn read_steps_left(step: ReadStepView) -> nat {
    match step {
        ReadStepView::Probe { fid, offset, fetched: false } => 4,
        ReadStepView::AskUrl { fid, offset } => 3,
        ReadStepView::Fetch { fid, offset, url } => 2,
        ReadStepView::Probe { fid, offset, fetched: true } => 1,
        ReadStepView::ReadBody { path, offset } => 0,
        ReadStepView::Fail(e) => 0,
    }
}

/// Every step of a read brings it nearer to its end, so that no read
/// fetches a body twice; and a read that has ended fails on every further
/// event.
pub proof fn lemma_read_progress(step: ReadStepView, event: ReadEventView)
    ensures
        read_steps_left(read_next(step, event)) < read_steps_left(step) || read_steps_left(step)
            == 0,
        read_steps_left(step) == 0 ==> read_next(step, event) == ReadStepView::Fail(Errno::Io),
        read_next(step, event) is Fetch ==> step is AskUrl,
{
}

impl ReadStep {
    /// The step that follows this one when `event` comes.
    pub fn next(self, event: ReadEvent) -> (r: ReadStep)
        ensures
            r@ == read_next(self@, event@),
    {
        match (self, event) {
            (ReadStep::Probe { fid, offset, fetched }, ReadEvent::Probed(Some(path))) => {
                ReadStep::ReadBody { path, offset }
            },
            (ReadStep::Probe { fid, offset, fetched }, ReadEvent::Probed(None)) => {
                if fetched {
                    ReadStep::Fail(Errno::Io)
                } else {
                    ReadStep::AskUrl { fid, offset }
                }
            },
            (ReadStep::AskUrl { fid, offset }, ReadEvent::Url(Some(url))) => {
                ReadStep::Fetch { fid, offset, url }
            },
            (ReadStep::Fetch { fid, offset, url }, ReadEvent::Fetched(ok)) => {
                if ok {
                    ReadStep::Probe { fid, offset, fetched: true }
                } else {
                    ReadStep::Fail(Errno::Io)
                }
            },
            _ => ReadStep::Fail(Errno::Io),
        }
    }
}

/// The filesystem: its tables, its store of bodies, and whether paths are
/// resolved through the cached listings.
pub struct RecFs {
    fid_map: FidMap,
    disk_cache: Cache,
    fast_path: bool,
}

/// What the filesystem holds.
pub struct RecFsView {
    pub map: FidMapView,
    /// The path of the scratch directory.
    pub scratch: Seq<char>,
    pub fast_path: bool,
}

impl View for RecFs {
    type V = RecFsView;

    closed spec fn view(&self) -> RecFsView {
        RecFsView { map: self.fid_map@, scratch: self.disk_cache@, fast_path: self.fast_path }
    }
}

impl RecFs {
    /// What holds of every filesystem that this library hands out.
    pub closed spec fn wf(self) -> bool {
        self.fid_map.wf()
    }

    /// Whether nothing but the tables differs between two filesystems.
    pub open spec fn same_but_map(self, other: RecFs) -> bool {
        self@.scratch == other@.scratch && self@.fast_path == other@.fast_path
    }

    /// A filesystem with empty tables over the store `disk_cache`.
    pub fn new(disk_cache: Cache, fast_path: bool) -> (fs: Self)
        ensures
            fs.wf(),
            fs@.scratch == disk_cache@,
            fs@.fast_path == fast_path,
            fs@.map.handles == (Map::<u64, Fid>::empty()),
            fs@.map.listings == (Map::<Fid, Option<Seq<ItemView>>>::empty()),
            fs@.map.parents == (Map::<Fid, Option<Fid>>::empty()).insert(Fid::Root, None),
    {
        RecFs { fid_map: FidMap::new(), disk_cache, fast_path }
    }

    /// The store of bodies.
    pub fn disk_cache(&self) -> (c: &Cache)
        ensures
            c@ == self@.scratch,
    {
        &self.disk_cache
    }

    /// The tables.
    pub fn fid_map(&self) -> (m: &FidMap)
        ensures
            m@ == self@.map,
            self.wf() ==> m.wf(),
    {
        &self.fid_map
    }

    /// The number of handles that are bound.
    pub fn handle_count(&self) -> (n: usize)
        requires
            self.wf(),
        ensures
            self@.map.handles.dom().finite(),
            n == self@.map.handles.dom().len(),
    {
        self.fid_map.handle_count()
    }

    /// Begins to resolve `path`, whose names are separated by `/`.
    pub fn req_fid(&mut self, path: &str) -> (step: Step)
        requires
            old(self).wf(),
        ensures
            final(self).wf(),
            step.wf(),
            old(self).same_but_map(*final(self)),
            (final(self)@.map, step@) == settle(
                old(self)@.map,
                path_names(path@),
                start(),
                old(self)@.fast_path,
            ),
    {
        let names = path_components(path);
        self.fid_map.resolve(names, self.fast_path)
    }

    /// Begins to resolve the path `path`, given as bytes.
    pub fn req_fid_bytes(&mut self, path: &[u8]) -> (step: Step)
        requires
            old(self).wf(),
        ensures
            final(self).wf(),
            step.wf(),
            old(self).same_but_map(*final(self)),
            (final(self)@.map, step@) == settle(
                old(self)@.map,
                byte_path_names(path@),
                start(),
                old(self)@.fast_path,
            ),
    {
        let names = path_components_bytes(path);
        self.fid_map.resolve(names, self.fast_path)
    }

    /// Goes on with a resolution that waited for the listing of
    /// `pending.dir()`: `listing` is what the remote store listed for it, or
    /// `None` where the call failed.
    pub fn req_fid_resume(&mut self, pending: Pending, listing: Option<Vec<RecListItem>>) -> (step:
        Step)
        requires
            old(self).wf(),
            pending.wf(),
        ensures
            final(self).wf(),
            step.wf(),
            old(self).same_but_map(*final(self)),
            (final(self)@.map, step@) == resumed(
                old(self)@.map,
                pending@,
                match listing {
                    Some(items) => Some(items_view(items@)),
                    None => None,
                },
                old(self)@.fast_path,
            ),
    {
        self.fid_map.resume(pending, listing, self.fast_path)
    }

    /// The identifier that the handle `fh` is bound to.
    pub fn get_fid(&self, fh: u64) -> (r: Result<Fid, Errno>)
        requires
            self.wf(),
        ensures
            r == fid_of_handle(self@.map, fh),
    {
        match self.fid_map.get_fid_by_fh(fh) {
            Some(fid) => Ok(fid),
            None => Err(Errno::BadHandle),
        }
    }

    /// The identifier that the handle `fh` is bound to, and its parent.
    pub fn get_fid_with_parent(&self, fh: u64) -> (r: Result<(Fid, Option<Fid>), Errno>)
        requires
            self.wf(),
        ensures
            r == match fid_of_handle(self@.map, fh) {
                Ok(fid) => Ok((fid, self@.map.parents[fid])),
                Err(e) => Err(e),
            },
            r matches Ok(p) ==> self@.map.parents.contains_key(p.0),
    {
        proof {
            self.fid_map.lemma_wf();
        }
        match self.fid_map.get_fid_by_fh(fh) {
            None => Err(Errno::BadHandle),
            Some(fid) => {
                assert(self@.map.handles.contains_key(fh));
                match self.fid_map.get_parent_fid(&fid) {
                    Some(parent) => Ok((fid, parent)),
                    None => Err(Errno::BadHandle),
                }
            },
        }
    }

    /// The entry of `fid` in the listing cached for `parent`; without a
    /// parent, the entry of the root.
    pub fn get_item(&self, fid: Fid, parent: Option<Fid>) -> (r: Result<RecListItem, Errno>)
        ensures
            match r {
                Ok(item) => item_in(self@.map, fid, parent) == Ok::<ItemView, Errno>(item@),
                Err(e) => item_in(self@.map, fid, parent) == Err::<ItemView, Errno>(e),
            },
    {
        let p = match parent {
            Some(p) => p,
            None => {
                return Ok(RecListItem::root());
            },
        };
        match self.fid_map.get_listing(&p) {
            None => Err(Errno::NoEntry),
            Some(list) => match &list.children {
                None => Err(Errno::NotDirectory),
                Some(items) => match find_fid(items, &fid) {
                    None => Err(Errno::NoEntry),
                    Some(i) => Ok(items[i].clone()),
                },
            },
        }
    }

    /// The listing cached for `fid`.
    pub fn get_listing(&self, fid: Fid) -> (r: Result<FidCachedList, Errno>)
        ensures
            match r {
                Ok(list) => listing_in(self@.map, fid) == Ok::<Option<Seq<ItemView>>, Errno>(
                    list@,
                ),
                Err(e) => listing_in(self@.map, fid) == Err::<Option<Seq<ItemView>>, Errno>(e),
            },
    {
        match self.fid_map.get_listing(&fid) {
            None => Err(Errno::NoEntry),
            Some(list) => Ok(list.clone()),
        }
    }

    /// The attributes of the object `fid` found in `parent`, and the
    /// seconds for which they may be kept.
    pub fn getattr(&self, fid: Fid, parent: Option<Fid>) -> (r: Result<(u64, FileAttr), Errno>)
        ensures
            r == match item_in(self@.map, fid, parent) {
                Ok(item) => Ok((ATTR_TTL, attr_of(item))),
                Err(e) => Err(e),
            },
    {
        match self.get_item(fid, parent) {
            Ok(item) => Ok((ATTR_TTL, FileAttr::of(&item))),
            Err(e) => Err(e),
        }
    }

    /// Opens the directory `fid` found in `parent`: binds a handle to it
    /// and answers the handle and no flags.
    pub fn opendir(&mut self, fid: Fid, parent: Option<Fid>) -> (r: Result<(u64, u32), Errno>)
        requires
            old(self).wf(),
            old(self)@.map.handles.dom().len() < MAX_HANDLES,
        ensures
            final(self).wf(),
            old(self).same_but_map(*final(self)),
            r == opendir_of(old(self)@.map, fid, parent),
            final(self)@.map == if r is Ok {
                old(self)@.map.bound(fid, parent, None)
            } else {
                old(self)@.map
            },
    {
        match self.get_item(fid, parent) {
            Err(e) => Err(e),
            Ok(item) => match item.ftype {
                FileKind::RegularFile => Err(Errno::NotDirectory),
                FileKind::Directory => {
                    let fh = self.fid_map.set_fh(&fid, parent.as_ref(), None);
                    Ok((fh, 0))
                },
            },
        }
    }

    /// Opens the file `fid` found in `parent` for reading: binds a handle
    /// to it and answers the handle and the flags given.
    pub fn open(&mut self, fid: Fid, parent: Option<Fid>, flags: u32) -> (r: Result<
        (u64, u32),
        Errno,
    >)
        requires
            old(self).wf(),
            old(self)@.map.handles.dom().len() < MAX_HANDLES,
        ensures
            final(self).wf(),
            old(self).same_but_map(*final(self)),
            r == open_of(old(self)@.map, fid, parent, flags),
            final(self)@.map == if r is Ok {
                old(self)@.map.bound(fid, parent, None)
            } else {
                old(self)@.map
            },
    {
        match self.get_item(fid, parent) {
            Err(e) => Err(e),
            Ok(item) => match item.ftype {
                FileKind::Directory => Err(Errno::IsDirectory),
                FileKind::RegularFile => {
                    if flags & ACCESS_MODE != READ_ONLY {
                        Err(Errno::NotImplemented)
                    } else {
                        let fh = self.fid_map.set_fh(&fid, parent.as_ref(), None);
                        Ok((fh, flags))
                    }
                },
            },
        }
    }

    /// Unbinds the handle `fh`; listings and parents stay.
    pub fn release(&mut self, fh: u64)
        requires
            old(self).wf(),
        ensures
            final(self).wf(),
            old(self).same_but_map(*final(self)),
            final(self)@.map == old(self)@.map.released(fh),
    {
        self.fid_map.release(fh);
    }

    /// The names in the directory that the handle `fh` is bound to, from
    /// the cached listing alone.
    pub fn readdir(&self, fh: u64) -> (r: Result<Vec<DirectoryEntry>, Errno>)
        requires
            self.wf(),
        ensures
            match r {
                Ok(entries) => readdir_of(self@.map, fh) == Ok::<Seq<EntryView>, Errno>(
                    entries_view(entries@),
                ),
                Err(e) => readdir_of(self@.map, fh) == Err::<Seq<EntryView>, Errno>(e),
            },
    {
        let fid = match self.get_fid(fh) {
            Ok(fid) => fid,
            Err(e) => {
                return Err(e);
            },
        };
        match self.fid_map.get_listing(&fid) {
            None => Err(Errno::NotDirectory),
            Some(list) => match &list.children {
                None => Err(Errno::NotDirectory),
                Some(items) => {
                    let ghost views = items_view(items@);
                    let mut entries: Vec<DirectoryEntry> = Vec::new();
                    let mut i: usize = 0;
                    while i < items.len()
                        invariant
                            i <= items.len(),
                            views == items_view(items@),
                            entries_view(entries@) == entries_of(views.take(i as int)),
                        decreases items.len() - i,
                    {
                        let ghost before = entries_view(entries@);
                        let entry = DirectoryEntry {
                            name: items[i].name.clone(),
                            kind: items[i].ftype,
                        };
                        assert(entry@ == EntryView {
                            name: views[i as int].name,
                            kind: views[i as int].ftype,
                        });
                        entries.push(entry);
                        assert(entries_view(entries@) =~= before.push(entry@));
                        assert(entries_of(views.take(i + 1)) =~= entries_of(
                            views.take(i as int),
                        ).push(entry@));
                        i += 1;
                    }
                    assert(views.take(items.len() as int) == views);
                    Ok(entries)
                },
            },
        }
    }

    /// What the filesystem tells of its space, given what the remote store
    /// told of the account, or `None` where it told nothing.
    pub fn statfs(info: Option<&RecUserInfo>) -> (r: Result<Statfs, Errno>)
        ensures
            r == match info {
                Some(i) => Ok(statfs_of(i.total_space, i.used_space)),
                None => Err(Errno::NoEntry),
            },
    {
        match info {
            None => Err(Errno::NoEntry),
            Some(i) => {
                let free: u64 = if i.used_space <= i.total_space {
                    i.total_space - i.used_space
                } else {
                    0
                };
                Ok(
                    Statfs {
                        blocks: i.total_space / BLOCK_SIZE as u64,
                        bfree: free / BLOCK_SIZE as u64,
                        bavail: free / BLOCK_SIZE as u64,
                        files: 0,
                        ffree: 0,
                        bsize: BLOCK_SIZE,
                        namelen: NAME_MAX,
                        frsize: BLOCK_SIZE,
                    },
                )
            },
        }
    }

    /// Begins a read of the handle `fh` from `offset`.
    pub fn read(&self, fh: u64, offset: u64) -> (r: ReadStep)
        requires
            self.wf(),
        ensures
            r@ == read_start(self@.map, fh, offset),
    {
        match self.get_fid(fh) {
            Err(e) => ReadStep::Fail(e),
            Ok(fid) => ReadStep::Probe { fid, offset, fetched: false },
        }
    }

    /// The name that a new directory gets, given as bytes: it must be UTF-8
    /// and hold no separator.
    pub fn mkdir_name(name: &[u8]) -> (r: Result<String, Errno>)
        ensures
            match r {
                Ok(n) => vstd::utf8::valid_utf8(name@) && n@ == vstd::utf8::decode_utf8(name@)
                    && !n@.contains(SEPARATOR),
                Err(e) => e == Errno::Invalid && (!vstd::utf8::valid_utf8(name@)
                    || vstd::utf8::decode_utf8(name@).contains(SEPARATOR)),
            },
    {
        let bytes = crate::text::copy_bytes(name);
        match crate::text::utf8_text(bytes) {
            None => Err(Errno::Invalid),
            Some(n) => {
                let c = chars_of(n.as_str());
                if has_separator(c.as_slice()) {
                    Err(Errno::Invalid)
                } else {
                    Ok(n)
                }
            },
        }
    }

    /// The entry of `fid` after its parent was listed anew: caches what the
    /// remote store listed for the parent, or fails where `listing` is
    /// `None`, and finds the entry in it. Without a parent, the entry of
    /// the root.
    pub fn req_item(
        &mut self,
        fid: Fid,
        parent_fid: Option<Fid>,
        listing: Option<Vec<RecListItem>>,
    ) -> (r: Result<RecListItem, Errno>)
        requires
            old(self).wf(),
        ensures
            final(self).wf(),
            old(self).same_but_map(*final(self)),
            final(self)@.map == match (parent_fid, listing) {
                (Some(p), Some(items)) => old(self)@.map.with_listing(
                    p,
                    Some(items_view(items@)),
                ),
                _ => old(self)@.map,
            },
            match r {
                Ok(item) => item_after(fid, parent_fid, listing_view(listing)) == Ok::<
                    ItemView,
                    Errno,
                >(item@),
                Err(e) => item_after(fid, parent_fid, listing_view(listing)) == Err::<
                    ItemView,
                    Errno,
                >(e),
            },
    {
        let p = match parent_fid {
            Some(p) => p,
            None => {
                return Ok(RecListItem::root());
            },
        };
        let list = match self.req_update_listing(p, listing) {
            Ok(list) => list,
            Err(e) => {
                return Err(e);
            },
        };
        match &list.children {
            None => Err(Errno::NotDirectory),
            Some(items) => match find_fid(items, &fid) {
                None => Err(Errno::NoEntry),
                Some(i) => Ok(items[i].clone()),
            },
        }
    }

    /// Caches what the remote store listed for `fid` and returns it;
    /// `listing` is `None` where the call failed.
    pub fn req_update_listing(&mut self, fid: Fid, listing: Option<Vec<RecListItem>>) -> (r: Result<
        FidCachedList,
        Errno,
    >)
        requires
            old(self).wf(),
        ensures
            final(self).wf(),
            old(self).same_but_map(*final(self)),
            match listing {
                None => r == Err::<FidCachedList, Errno>(Errno::NoEntry) && final(self)@.map
                    == old(self)@.map,
                Some(items) => r is Ok && r->Ok_0@ == Some(items_view(items@)) && final(self)@.map
                    == old(self)@.map.with_listing(fid, Some(items_view(items@))),
            },
    {
        match listing {
            None => Err(Errno::NoEntry),
            Some(items) => {
                let list = FidCachedList { children: Some(items) };
                let copy = list.clone();
                self.fid_map.install_listing(&fid, list);
                Ok(copy)
            },
        }
    }

    /// Ends `mkdir` of `name` in the directory `parent`, after the remote
    /// store made the directory: caches what it then listed for `parent`,
    /// and answers the attributes of the entry named `name`, which the
    /// kernel is not to keep.
    pub fn mkdir(&mut self, parent: Fid, name: &str, listing: Option<Vec<RecListItem>>) -> (r:
        Result<(u64, FileAttr), Errno>)
        requires
            old(self).wf(),
        ensures
            final(self).wf(),
            old(self).same_but_map(*final(self)),
            match listing {
                None => r == Err::<(u64, FileAttr), Errno>(Errno::NoEntry) && final(self)@.map
                    == old(self)@.map,
                Some(items) => final(self)@.map == old(self)@.map.with_listing(
                    parent,
                    Some(items_view(items@)),
                ) && r == match item_named(Some(items_view(items@)), name@) {
                    Ok(item) => Ok((NEW_ATTR_TTL, attr_of(item))),
                    Err(e) => Err(e),
                },
            },
    {
        let list = match self.req_update_listing(parent, listing) {
            Ok(list) => list,
            Err(e) => {
                return Err(e);
            },
        };
        let n = chars_of(name);
        match &list.children {
            None => Err(Errno::NotDirectory),
            Some(items) => match find_named(items, n.as_slice()) {
                None => Err(Errno::NoEntry),
                Some(i) => Ok((NEW_ATTR_TTL, FileAttr::of(&items[i]))),
            },
        }
    }
}

} // verus!
