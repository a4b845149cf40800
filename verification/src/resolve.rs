//! Path resolution: from the names of a path to the identifier of the object
//! that the path leads to, through the cached listings, asking for a remote
//! listing only where the cache has no answer.

use crate::client::list::find_named;
use crate::client::list::first_named;
use crate::client::list::items_view;
use crate::client::list::ItemView;
use crate::client::list::RecListItem;
use crate::client::FileKind;
use crate::errno::Errno;
use crate::fid::Fid;
use crate::fidmap::FidCachedList;
use crate::fidmap::FidMap;
use crate::fidmap::FidMapView;
use crate::text::chars_of;
use crate::text::string_of;
use crate::text::utf8_text;
use vstd::prelude::*;

verus! {

/// The character that separates the names of a path.
pub const SEPARATOR: char = '/';

/// What a sequence of strings holds.
pub open spec fn names_view(names: Seq<String>) -> Seq<Seq<char>> {
    names.map_values(|s: String| s@)
}

/// The names of a path, given the part of it that is read: `current` is the
/// name being read, `done` the names before it. A name ends at a separator
/// or at the end; empty names and the name `.` are left out.
pub open spec fn names_from(
    path: Seq<char>,
    i: int,
    current: Seq<char>,
    done: Seq<Seq<char>>,
) -> Seq<Seq<char>>
    decreases path.len() - i,
{
    if i < 0 || i >= path.len() {
        with_name(done, current)
    } else if path[i] == SEPARATOR {
        names_from(path, i + 1, Seq::empty(), with_name(done, current))
    } else {
        names_from(path, i + 1, current.push(path[i]), done)
    }
}

/// `done` and after it `name`, unless `name` is empty or `.`.
pub open spec fn with_name(done: Seq<Seq<char>>, name: Seq<char>) -> Seq<Seq<char>> {
    if name.len() == 0 || name == seq!['.'] {
        done
    } else {
        done.push(name)
    }
}

/// The names of a path, from the root down.
pub open spec fn path_names(path: Seq<char>) -> Seq<Seq<char>> {
    names_from(path, 0, Seq::empty(), Seq::empty())
}

/// The byte that separates the names of a path.
pub const SEPARATOR_BYTE: u8 = 0x2f;

/// The byte of the name `.`.
pub const DOT_BYTE: u8 = 0x2e;

/// The name that the bytes of a name stand for: their text where they are
/// UTF-8; else the separator alone, a name that no walk accepts.
pub open spec fn name_of_bytes(bytes: Seq<u8>) -> Seq<char> {
    if vstd::utf8::valid_utf8(bytes) {
        vstd::utf8::decode_utf8(bytes)
    } else {
        seq![SEPARATOR]
    }
}

/// `done` and after it the name of `bytes`, unless `bytes` is empty or the
/// name `.`.
pub open spec fn with_bytes(done: Seq<Seq<char>>, bytes: Seq<u8>) -> Seq<Seq<char>> {
    if bytes.len() == 0 || bytes == seq![DOT_BYTE] {
        done
    } else {
        done.push(name_of_bytes(bytes))
    }
}

/// The names of a path given as bytes, given the part of it that is read.
pub open spec fn byte_names_from(
    path: Seq<u8>,
    i: int,
    current: Seq<u8>,
    done: Seq<Seq<char>>,
) -> Seq<Seq<char>>
    decreases path.len() - i,
{
    if i < 0 || i >= path.len() {
        with_bytes(done, current)
    } else if path[i] == SEPARATOR_BYTE {
        byte_names_from(path, i + 1, Seq::empty(), with_bytes(done, current))
    } else {
        byte_names_from(path, i + 1, current.push(path[i]), done)
    }
}

/// The names of a path given as bytes, from the root down. A name ends at a
/// separator or at the end; empty names and the name `.` are left out; a
/// name that is not UTF-8 becomes the separator alone.
pub open spec fn byte_path_names(path: Seq<u8>) -> Seq<Seq<char>> {
    byte_names_from(path, 0, Seq::empty(), Seq::empty())
}

/// Where a walk stands: `next` names are behind it, `fid` is the object
/// reached, `parent` the directory it was found in, and `is_dir` what that
/// directory's listing says of its kind.
pub struct Position {
    pub next: int,
    pub fid: Fid,
    pub parent: Option<Fid>,
    pub is_dir: bool,
}

/// Where every walk begins: at the root, which has no parent.
pub open spec fn start() -> Position {
    Position { next: 0, fid: Fid::Root, parent: None, is_dir: true }
}

/// How far the cache alone leads.
pub enum Walk {
    /// All names are behind the walk.
    Arrived(Position),
    /// The cache does not hold the next name under the object reached.
    Missing(Position),
    /// The walk cannot go on, for this reason.
    Stopped(Errno),
}

/// The walk from `pos` along `names` through the cached listings. The next
/// name must hold no separator, and the object reached must be a directory;
/// with `fast_path` the walk goes on wherever the listing cached for that
/// directory holds the name, taking the first entry of that name.
pub open spec fn walk(
    listings: Map<Fid, Option<Seq<ItemView>>>,
    names: Seq<Seq<char>>,
    pos: Position,
    fast_path: bool,
) -> Walk
    decreases names.len() - pos.next,
{
    if pos.next < 0 || pos.next >= names.len() {
        Walk::Arrived(pos)
    } else if names[pos.next].contains(SEPARATOR) {
        Walk::Stopped(Errno::Invalid)
    } else if !pos.is_dir {
        Walk::Stopped(Errno::NotDirectory)
    } else {
        match cached_child(listings, pos.fid, names[pos.next], fast_path) {
            Some(child) => walk(listings, names, step_into(pos, child), fast_path),
            None => Walk::Missing(pos),
        }
    }
}

/// The entry named `name` that the cache holds under `dir`, where the cache
/// may be used.
pub open spec fn cached_child(
    listings: Map<Fid, Option<Seq<ItemView>>>,
    dir: Fid,
    name: Seq<char>,
    fast_path: bool,
) -> Option<ItemView> {
    if fast_path && listings.contains_key(dir) && listings[dir] is Some {
        named_child(listings[dir]->0, name)
    } else {
        None
    }
}

/// The first of `items` with the name `name`.
pub open spec fn named_child(items: Seq<ItemView>, name: Seq<char>) -> Option<ItemView> {
    match first_named(items, name) {
        Some(i) => Some(items[i]),
        None => None,
    }
}

/// The position after a step from `pos` to the entry `child`.
pub open spec fn step_into(pos: Position, child: ItemView) -> Position {
    Position {
        next: pos.next + 1,
        fid: child.fid,
        parent: Some(pos.fid),
        is_dir: child.ftype == FileKind::Directory,
    }
}

/// What a resolution waits for: the listing of `dir`. With `last` the walk
/// has arrived at `dir`, and the listing is its own; without, the name at
/// `next` is to be found in the listing.
pub struct PendingView {
    pub names: Seq<Seq<char>>,
    pub next: int,
    pub dir: Fid,
    pub parent: Option<Fid>,
    pub last: bool,
}

/// How a step of a resolution ends.
pub enum StepView {
    /// The path leads to `fid`, found in `parent`.
    Done { fid: Fid, parent: Option<Fid> },
    /// The path leads nowhere.
    Failed(Errno),
    /// The listing of a directory is needed to go on.
    NeedListing(PendingView),
}

/// The tables and the step that a resolution from `pos` ends with. Where
/// the walk arrives, the object reached must have a cached listing: one
/// that is a directory and has none needs its listing; one that is no
/// directory is recorded as such.
pub open spec fn settle(
    v: FidMapView,
    names: Seq<Seq<char>>,
    pos: Position,
    fast_path: bool,
) -> (FidMapView, StepView) {
    match walk(v.listings, names, pos, fast_path) {
        Walk::Stopped(e) => (v, StepView::Failed(e)),
        Walk::Missing(p) => (
            v,
            StepView::NeedListing(
                PendingView { names, next: p.next, dir: p.fid, parent: p.parent, last: false },
            ),
        ),
        Walk::Arrived(p) => if v.listings.contains_key(p.fid) {
            (v, StepView::Done { fid: p.fid, parent: p.parent })
        } else if p.is_dir {
            (
                v,
                StepView::NeedListing(
                    PendingView { names, next: p.next, dir: p.fid, parent: p.parent, last: true },
                ),
            )
        } else {
            (v.updated(p.fid, p.parent, None), StepView::Done { fid: p.fid, parent: p.parent })
        },
    }
}

/// The tables and the step that a resolution goes on with once the remote
/// store answered: without a listing the path leads nowhere. The listing of
/// the object arrived at is recorded and ends the resolution. Any other is
/// cached; the name looked for must be in it, and the walk goes on from its
/// first entry of that name.
pub open spec fn resumed(
    v: FidMapView,
    pending: PendingView,
    listing: Option<Seq<ItemView>>,
    fast_path: bool,
) -> (FidMapView, StepView) {
    match listing {
        None => (v, StepView::Failed(Errno::NoEntry)),
        Some(items) => if pending.last {
            (
                v.updated(pending.dir, pending.parent, Some(items)),
                StepView::Done { fid: pending.dir, parent: pending.parent },
            )
        } else {
            let cached = v.with_listing(pending.dir, Some(items));
            match named_child(items, pending.names[pending.next]) {
                None => (cached, StepView::Failed(Errno::NoEntry)),
                Some(child) => settle(
                    cached,
                    pending.names,
                    Position {
                        next: pending.next + 1,
                        fid: child.fid,
                        parent: Some(pending.dir),
                        is_dir: child.ftype == FileKind::Directory,
                    },
                    fast_path,
                ),
            }
        },
    }
}

/// Whether the object at `pos` is an entry of the listing cached for the
/// directory that it was found in.
pub open spec fn is_listed(v: FidMapView, fid: Fid, parent: Option<Fid>) -> bool {
    parent matches Some(dir) ==> v.lists_child(dir, fid)
}

/// A walk that begins at an object listed under its parent ends at one.
pub proof fn lemma_walk_listed(v: FidMapView, names: Seq<Seq<char>>, pos: Position, fast_path: bool)
    requires
        is_listed(v, pos.fid, pos.parent),
    ensures
        walk(v.listings, names, pos, fast_path) matches Walk::Arrived(p) ==> is_listed(
            v,
            p.fid,
            p.parent,
        ),
        walk(v.listings, names, pos, fast_path) matches Walk::Missing(p) ==> is_listed(
            v,
            p.fid,
            p.parent,
        ),
    decreases names.len() - pos.next,
{
    if 0 <= pos.next < names.len() && !names[pos.next].contains(SEPARATOR) && pos.is_dir {
        match cached_child(v.listings, pos.fid, names[pos.next], fast_path) {
            Some(child) => {
                let items = v.listings[pos.fid]->0;
                let i = first_named(items, names[pos.next])->0;
                assert(items[i].fid == child.fid);
                assert(v.lists_child(pos.fid, child.fid));
                lemma_walk_listed(v, names, step_into(pos, child), fast_path);
            },
            None => {},
        }
    }
}

/// The object that a resolution ends at is an entry of the listing cached
/// for the directory that it was found in.
pub proof fn lemma_settle_listed(
    v: FidMapView,
    names: Seq<Seq<char>>,
    pos: Position,
    fast_path: bool,
)
    requires
        is_listed(v, pos.fid, pos.parent),
    ensures
        settle(v, names, pos, fast_path).1 matches StepView::Done { fid, parent } ==> is_listed(
            settle(v, names, pos, fast_path).0,
            fid,
            parent,
        ),
{
    lemma_walk_listed(v, names, pos, fast_path);
    match walk(v.listings, names, pos, fast_path) {
        Walk::Arrived(p) => {
            if !v.listings.contains_key(p.fid) && !p.is_dir {
                let w = v.updated(p.fid, p.parent, None);
                if p.parent is Some {
                    let dir = p.parent->0;
                    assert(v.lists_child(dir, p.fid));
                    assert(dir != p.fid);
                    assert(w.listings[dir] == v.listings[dir]);
                    assert(w.lists_child(dir, p.fid));
                }
            }
        },
        _ => {},
    }
}

/// The object that a path from the root leads to is an entry of the
/// listing cached for the directory that it was found in.
pub proof fn lemma_resolved_listed(v: FidMapView, names: Seq<Seq<char>>, fast_path: bool)
    ensures
        settle(v, names, start(), fast_path).1 matches StepView::Done { fid, parent }
            ==> is_listed(settle(v, names, start(), fast_path).0, fid, parent),
{
    lemma_settle_listed(v, names, start(), fast_path);
}

/// The same holds of a resolution that went on after a listing came,
/// where the directory waited for last is still listed under its parent.
pub proof fn lemma_resumed_listed(
    v: FidMapView,
    pending: PendingView,
    listing: Option<Seq<ItemView>>,
    fast_path: bool,
)
    requires
        pending.last ==> is_listed(v, pending.dir, pending.parent),
        pending.last ==> pending.parent != Some(pending.dir),
        !pending.last ==> 0 <= pending.next < pending.names.len(),
    ensures
        resumed(v, pending, listing, fast_path).1 matches StepView::Done { fid, parent }
            ==> is_listed(resumed(v, pending, listing, fast_path).0, fid, parent),
{
    if listing is Some {
        let items = listing->0;
        if pending.last {
            let w = v.updated(pending.dir, pending.parent, Some(items));
            if pending.parent is Some {
                let dir = pending.parent->0;
                assert(v.lists_child(dir, pending.dir));
                assert(w.listings[dir] == v.listings[dir]);
                assert(w.lists_child(dir, pending.dir));
            }
        } else {
            let cached = v.with_listing(pending.dir, Some(items));
            match named_child(items, pending.names[pending.next]) {
                None => {},
                Some(child) => {
                    let i = first_named(items, pending.names[pending.next])->0;
                    assert(items[i].fid == child.fid);
                    assert(cached.lists_child(pending.dir, child.fid));
                    lemma_settle_listed(
                        cached,
                        pending.names,
                        Position {
                            next: pending.next + 1,
                            fid: child.fid,
                            parent: Some(pending.dir),
                            is_dir: child.ftype == FileKind::Directory,
                        },
                        fast_path,
                    );
                },
            }
        }
    }
}

/// A resolution keeps parents and listings in agreement, from any object
/// that is listed under its parent and is a directory where it has none.
pub proof fn lemma_settle_agrees(
    v: FidMapView,
    names: Seq<Seq<char>>,
    pos: Position,
    fast_path: bool,
)
    requires
        v.parents_agree(),
        is_listed(v, pos.fid, pos.parent),
        pos.parent is None ==> pos.is_dir,
    ensures
        settle(v, names, pos, fast_path).0.parents_agree(),
{
    lemma_walk_listed(v, names, pos, fast_path);
    lemma_walk_rooted(v.listings, names, pos, fast_path);
    match walk(v.listings, names, pos, fast_path) {
        Walk::Arrived(p) => {
            if !v.listings.contains_key(p.fid) && !p.is_dir {
                let dir = p.parent->0;
                assert(v.lists_child(dir, p.fid));
                crate::fidmap::lemma_updated_agrees(v, p.fid, p.parent, None);
            }
        },
        _ => {},
    }
}

/// A walk ends at a directory or at an object that has a parent, where it
/// begins at one.
pub proof fn lemma_walk_rooted(
    listings: Map<Fid, Option<Seq<ItemView>>>,
    names: Seq<Seq<char>>,
    pos: Position,
    fast_path: bool,
)
    requires
        pos.parent is None ==> pos.is_dir,
    ensures
        walk(listings, names, pos, fast_path) matches Walk::Arrived(p) ==> (p.parent is None
            ==> p.is_dir),
    decreases names.len() - pos.next,
{
    if 0 <= pos.next < names.len() && !names[pos.next].contains(SEPARATOR) && pos.is_dir {
        match cached_child(listings, pos.fid, names[pos.next], fast_path) {
            Some(child) => {
                lemma_walk_rooted(listings, names, step_into(pos, child), fast_path);
            },
            None => {},
        }
    }
}

/// Resolving a path from the root keeps parents and listings in
/// agreement.
pub proof fn lemma_resolved_agrees(v: FidMapView, names: Seq<Seq<char>>, fast_path: bool)
    requires
        v.parents_agree(),
    ensures
        settle(v, names, start(), fast_path).0.parents_agree(),
{
    lemma_settle_agrees(v, names, start(), fast_path);
}

/// Going on with a resolution keeps parents and listings in agreement
/// where no entry of the listing that came is listed under another
/// directory, and the directory waited for last is listed under its
/// parent and nowhere else.
pub proof fn lemma_resumed_agrees(
    v: FidMapView,
    pending: PendingView,
    listing: Option<Seq<ItemView>>,
    fast_path: bool,
)
    requires
        v.parents_agree(),
        listing matches Some(items) ==> v.listed_nowhere_else(pending.dir, items),
        pending.last ==> (forall|dir: Fid| #[trigger]
            v.lists_child(dir, pending.dir) ==> pending.parent == Some(dir)),
        !pending.last ==> 0 <= pending.next < pending.names.len(),
    ensures
        resumed(v, pending, listing, fast_path).0.parents_agree(),
{
    if listing is Some {
        let items = listing->0;
        if pending.last {
            crate::fidmap::lemma_updated_agrees(v, pending.dir, pending.parent, Some(items));
        } else {
            let cached = v.with_listing(pending.dir, Some(items));
            crate::fidmap::lemma_with_listing_agrees(v, pending.dir, Some(items));
            match named_child(items, pending.names[pending.next]) {
                None => {},
                Some(child) => {
                    let i = first_named(items, pending.names[pending.next])->0;
                    assert(items[i].fid == child.fid);
                    assert(cached.lists_child(pending.dir, child.fid));
                    lemma_settle_agrees(
                        cached,
                        pending.names,
                        Position {
                            next: pending.next + 1,
                            fid: child.fid,
                            parent: Some(pending.dir),
                            is_dir: child.ftype == FileKind::Directory,
                        },
                        fast_path,
                    );
                },
            }
        }
    }
}

/// A resolution that waits for the listing of a directory.
#[derive(Debug)]
pub struct Pending {
    names: Vec<String>,
    next: usize,
    dir: Fid,
    parent: Option<Fid>,
    last: bool,
}

impl View for Pending {
    type V = PendingView;

    closed spec fn view(&self) -> PendingView {
        PendingView {
            names: names_view(self.names@),
            next: self.next as int,
            dir: self.dir,
            parent: self.parent,
            last: self.last,
        }
    }
}

impl Pending {
    /// Whether the name looked for exists: true of every value that this
    /// library hands out.
    pub closed spec fn wf(self) -> bool {
        self.last || self.next < self.names.len()
    }

    /// What being well-formed means for the view.
    pub proof fn lemma_wf(self)
        requires
            self.wf(),
        ensures
            self@.last || 0 <= self@.next < self@.names.len(),
    {
    }

    /// The directory whose listing is waited for.
    pub fn dir(&self) -> (r: Fid)
        ensures
            r == self@.dir,
    {
        self.dir
    }
}

/// How a step of a resolution ends.
#[derive(Debug)]
pub enum Step {
    /// The path leads to this identifier, found in this parent.
    Done(Fid, Option<Fid>),
    /// The path leads nowhere.
    Failed(Errno),
    /// The listing of a directory is needed to go on.
    NeedListing(Pending),
}

impl View for Step {
    type V = StepView;

    open spec fn view(&self) -> StepView {
        match self {
            Step::Done(fid, parent) => StepView::Done { fid: *fid, parent: *parent },
            Step::Failed(e) => StepView::Failed(*e),
            Step::NeedListing(p) => StepView::NeedListing(p@),
        }
    }
}

impl Step {
    /// Whether what the step waits for is well-formed.
    pub open spec fn wf(self) -> bool {
        self matches Step::NeedListing(p) ==> p.wf()
    }
}

/// Whether `name` holds a separator.
pub fn has_separator(name: &[char]) -> (r: bool)
    ensures
        r == name@.contains(SEPARATOR),
{
    let mut i: usize = 0;
    while i < name.len()
        invariant
            i <= name.len(),
            forall|j: int| 0 <= j < i ==> name@[j] != SEPARATOR,
        decreases name.len() - i,
    {
        if name[i] == SEPARATOR {
            return true;
        }
        i += 1;
    }
    false
}

/// The names of `path`, from the root down.
pub fn path_components(path: &str) -> (names: Vec<String>)
    ensures
        names_view(names@) == path_names(path@),
{
    let p = chars_of(path);
    let mut names: Vec<String> = Vec::new();
    let mut current: Vec<char> = Vec::new();
    let mut i: usize = 0;
    assert(names_view(names@) =~= Seq::<Seq<char>>::empty());
    while i < p.len()
        invariant
            i <= p.len(),
            p@ == path@,
            path_names(path@) == names_from(p@, i as int, current@, names_view(names@)),
        decreases p.len() - i,
    {
        if p[i] == SEPARATOR {
            add_name(&mut names, &current);
            current = Vec::new();
        } else {
            current.push(p[i]);
        }
        i += 1;
    }
    add_name(&mut names, &current);
    names
}

/// Adds `name` to `names`, unless it is empty or `.`.
fn add_name(names: &mut Vec<String>, name: &Vec<char>)
    ensures
        names_view(final(names)@) == with_name(names_view(old(names)@), name@),
{
    if name.len() == 0 || (name.len() == 1 && name[0] == '.') {
        assert(name@.len() == 0 || name@ == seq!['.']);
    } else {
        assert(name@ != seq!['.']) by {
            if name@ == seq!['.'] {
                assert(name@.len() == 1 && name@[0] == '.');
            }
        }
        let s = string_of(name.as_slice());
        names.push(s);
        assert(names_view(names@) =~= names_view(old(names)@).push(name@));
    }
}

/// The names of the path `path`, from the root down.
pub fn path_components_bytes(path: &[u8]) -> (names: Vec<String>)
    ensures
        names_view(names@) == byte_path_names(path@),
{
    let mut names: Vec<String> = Vec::new();
    let mut current: Vec<u8> = Vec::new();
    let mut i: usize = 0;
    assert(names_view(names@) =~= Seq::<Seq<char>>::empty());
    while i < path.len()
        invariant
            i <= path.len(),
            byte_path_names(path@) == byte_names_from(
                path@,
                i as int,
                current@,
                names_view(names@),
            ),
        decreases path.len() - i,
    {
        if path[i] == SEPARATOR_BYTE {
            add_bytes(&mut names, current);
            current = Vec::new();
        } else {
            current.push(path[i]);
        }
        i += 1;
    }
    add_bytes(&mut names, current);
    names
}

/// Adds the name of `bytes` to `names`, unless `bytes` is empty or the name
/// `.`.
fn add_bytes(names: &mut Vec<String>, bytes: Vec<u8>)
    ensures
        names_view(final(names)@) == with_bytes(names_view(old(names)@), bytes@),
{
    if bytes.len() == 0 || (bytes.len() == 1 && bytes[0] == DOT_BYTE) {
        assert(bytes@.len() == 0 || bytes@ == seq![DOT_BYTE]);
    } else {
        assert(bytes@ != seq![DOT_BYTE]) by {
            if bytes@ == seq![DOT_BYTE] {
                assert(bytes@.len() == 1 && bytes@[0] == DOT_BYTE);
            }
        }
        let ghost given = bytes@;
        let name = match utf8_text(bytes) {
            Some(s) => s,
            None => {
                let mut v: Vec<char> = Vec::new();
                v.push(SEPARATOR);
                string_of(v.as_slice())
            },
        };
        assert(name@ == name_of_bytes(given));
        names.push(name);
        assert(names_view(names@) =~= names_view(old(names)@).push(name_of_bytes(given)));
    }
}

impl FidMap {
    /// Begins to resolve the path of these names from the root.
    pub fn resolve(&mut self, names: Vec<String>, fast_path: bool) -> (step: Step)
        requires
            old(self).wf(),
        ensures
            final(self).wf(),
            step.wf(),
            (final(self)@, step@) == settle(old(self)@, names_view(names@), start(), fast_path),
    {
        self.resolve_from(names, 0, Fid::root(), None, true, fast_path)
    }

    /// Goes on with a resolution that waited for the listing of
    /// `pending.dir()`: `listing` is what the remote store listed for it, or
    /// `None` where the call failed.
    pub fn resume(
        &mut self,
        pending: Pending,
        listing: Option<Vec<RecListItem>>,
        fast_path: bool,
    ) -> (step: Step)
        requires
            old(self).wf(),
            pending.wf(),
        ensures
            final(self).wf(),
            step.wf(),
            (final(self)@, step@) == resumed(
                old(self)@,
                pending@,
                match listing {
                    Some(items) => Some(items_view(items@)),
                    None => None,
                },
                fast_path,
            ),
    {
        match listing {
            None => Step::Failed(Errno::NoEntry),
            Some(items) => {
                let Pending { names, next, dir, parent, last } = pending;
                if last {
                    let list = FidCachedList { children: Some(items) };
                    self.update_fid(&dir, parent.as_ref(), &list);
                    Step::Done(dir, parent)
                } else {
                    let name = chars_of(names[next].as_str());
                    let found = find_named(&items, name.as_slice());
                    let hit: Option<(Fid, bool)> = match found {
                        Some(i) => Some((items[i].fid, is_directory(&items[i].ftype))),
                        None => None,
                    };
                    assert(names_view(names@)[next as int] == name@);
                    self.install_listing(&dir, FidCachedList { children: Some(items) });
                    match hit {
                        None => Step::Failed(Errno::NoEntry),
                        Some((fid, is_dir)) => self.resolve_from(
                            names,
                            next + 1,
                            fid,
                            Some(dir),
                            is_dir,
                            fast_path,
                        ),
                    }
                }
            },
        }
    }

    /// Resolves what is left of a path from a position.
    fn resolve_from(
        &mut self,
        names: Vec<String>,
        next: usize,
        fid: Fid,
        parent: Option<Fid>,
        is_dir: bool,
        fast_path: bool,
    ) -> (step: Step)
        requires
            old(self).wf(),
            next <= names.len(),
        ensures
            final(self).wf(),
            step.wf(),
            (final(self)@, step@) == settle(
                old(self)@,
                names_view(names@),
                Position { next: next as int, fid, parent, is_dir },
                fast_path,
            ),
    {
        let ghost all = names_view(names@);
        let ghost from = Position { next: next as int, fid, parent, is_dir };
        let mut at: usize = next;
        let mut cur = fid;
        let mut up = parent;
        let mut cur_is_dir = is_dir;
        while at < names.len()
            invariant
                at <= names.len(),
                *self == *old(self),
                self.wf(),
                all == names_view(names@),
                from == (Position { next: next as int, fid, parent, is_dir }),
                walk(self@.listings, all, from, fast_path) == walk(
                    self@.listings,
                    all,
                    Position { next: at as int, fid: cur, parent: up, is_dir: cur_is_dir },
                    fast_path,
                ),
            decreases names.len() - at,
        {
            let ghost pos = Position { next: at as int, fid: cur, parent: up, is_dir: cur_is_dir };
            let name = chars_of(names[at].as_str());
            assert(all[at as int] == name@);
            if has_separator(name.as_slice()) {
                return Step::Failed(Errno::Invalid);
            }
            if !cur_is_dir {
                return Step::Failed(Errno::NotDirectory);
            }
            let mut hit: Option<(Fid, bool)> = None;
            if fast_path {
                match self.get_listing(&cur) {
                    Some(list) => {
                        match &list.children {
                            Some(items) => {
                                match find_named(items, name.as_slice()) {
                                    Some(i) => {
                                        hit = Some((items[i].fid, is_directory(&items[i].ftype)));
                                    },
                                    None => {},
                                }
                            },
                            None => {},
                        }
                    },
                    None => {},
                }
            }
            match hit {
                Some((child, child_is_dir)) => {
                    proof {
                        let c = cached_child(self@.listings, cur, name@, fast_path);
                        assert(c is Some);
                        assert(step_into(pos, c->0) == Position {
                            next: at + 1,
                            fid: child,
                            parent: Some(cur),
                            is_dir: child_is_dir,
                        });
                    }
                    up = Some(cur);
                    cur = child;
                    cur_is_dir = child_is_dir;
                    at = at + 1;
                },
                None => {
                    assert(cached_child(self@.listings, cur, name@, fast_path) is None);
                    return Step::NeedListing(
                        Pending { names, next: at, dir: cur, parent: up, last: false },
                    );
                },
            }
        }
        if self.get_listing(&cur).is_some() {
            Step::Done(cur, up)
        } else if cur_is_dir {
            Step::NeedListing(Pending { names, next: at, dir: cur, parent: up, last: true })
        } else {
            self.update_fid(&cur, up.as_ref(), &FidCachedList { children: None });
            Step::Done(cur, up)
        }
    }
}

/// Whether `kind` is the kind of a directory.
pub fn is_directory(kind: &FileKind) -> (r: bool)
    ensures
        r == (*kind == FileKind::Directory),
{
    match kind {
        FileKind::Directory => true,
        FileKind::RegularFile => false,
    }
}

} // verus!
