//! The tables that the filesystem keeps in memory: which handle stands for
//! which identifier, the listing cached for each identifier, and the parent
//! of each identifier.

use crate::client::list::items_view;
use crate::client::list::ItemView;
use crate::client::list::RecListItem;
use crate::fid::Fid;
use crate::fid_table::FidTable;
use crate::handles::after_bind;
use crate::handles::bound_handle;
use crate::handles::handle_of;
use crate::handles::table_wf;
use crate::handles::HandleTable;
use crate::handles::MAX_HANDLES;
use vstd::prelude::*;

verus! {

/// The listing cached for one identifier: the entries of a directory, or
/// `None` for what is no directory.
#[derive(Debug)]
pub struct FidCachedList {
    pub children: Option<Vec<RecListItem>>,
}

impl View for FidCachedList {
    type V = Option<Seq<ItemView>>;

    open spec fn view(&self) -> Option<Seq<ItemView>> {
        match self.children {
            Some(items) => Some(items_view(items@)),
            None => None,
        }
    }
}

impl Clone for FidCachedList {
    fn clone(&self) -> (r: Self)
        ensures
            r@ == self@,
    {
        match &self.children {
            Some(items) => {
                let copy = items.clone();
                assert(copy@ =~= items@);
                FidCachedList { children: Some(copy) }
            },
            None => FidCachedList { children: None },
        }
    }
}

impl Default for FidCachedList {
    fn default() -> (r: Self)
        ensures
            r@ is None,
    {
        FidCachedList { children: None }
    }
}

/// Whether one of `items` has the identifier `fid`.
pub open spec fn has_fid(items: Seq<ItemView>, fid: Fid) -> bool {
    exists|i: int| 0 <= i < items.len() && (#[trigger] items[i]).fid == fid
}

/// The parents after each of `items` got the parent `dir`.
pub open spec fn children_parents(
    parents: Map<Fid, Option<Fid>>,
    dir: Fid,
    items: Seq<ItemView>,
) -> Map<Fid, Option<Fid>> {
    Map::new(
        |f: Fid| parents.contains_key(f) || has_fid(items, f),
        |f: Fid|
            if has_fid(items, f) {
                Some(dir)
            } else {
                parents[f]
            },
    )
}

/// What the tables hold.
pub struct FidMapView {
    /// The identifier that each bound handle stands for.
    pub handles: Map<u64, Fid>,
    /// The listing cached for each identifier that has one.
    pub listings: Map<Fid, Option<Seq<ItemView>>>,
    /// The parent of each identifier whose parent is known; the root has
    /// the parent `None`.
    pub parents: Map<Fid, Option<Fid>>,
}

impl FidMapView {
    /// Whether the listing cached for `dir` holds an entry for `fid`.
    pub open spec fn lists_child(self, dir: Fid, fid: Fid) -> bool {
        &&& self.listings.contains_key(dir)
        &&& self.listings[dir] matches Some(items)
        &&& has_fid(items, fid)
    }

    /// Whether every entry of every cached listing has that directory as its
    /// parent.
    pub open spec fn parents_agree(self) -> bool {
        forall|dir: Fid, fid: Fid| #[trigger]
            self.lists_child(dir, fid) ==> self.parents.contains_key(fid) && self.parents[fid]
                == Some(dir)
    }

    /// The tables after `list` was cached for `fid`: the listing is in
    /// place, and each entry of it has `fid` as its parent.
    pub open spec fn with_listing(self, fid: Fid, list: Option<Seq<ItemView>>) -> FidMapView {
        FidMapView {
            handles: self.handles,
            listings: self.listings.insert(fid, list),
            parents: match list {
                Some(items) => children_parents(self.parents, fid, items),
                None => self.parents,
            },
        }
    }

    /// The tables after `fid` got the parent `parent`.
    pub open spec fn with_parent(self, fid: Fid, parent: Option<Fid>) -> FidMapView {
        FidMapView {
            handles: self.handles,
            listings: self.listings,
            parents: self.parents.insert(fid, parent),
        }
    }

    /// The tables after `fid` was recorded with its parent and its listing.
    pub open spec fn updated(
        self,
        fid: Fid,
        parent: Option<Fid>,
        list: Option<Seq<ItemView>>,
    ) -> FidMapView {
        self.with_parent(fid, parent).with_listing(fid, list)
    }

    /// The tables after `fid` got the parent `parent` unless its parent was
    /// known.
    pub open spec fn with_parent_if_unknown(self, fid: Fid, parent: Option<Fid>) -> FidMapView {
        if self.parents.contains_key(fid) {
            self
        } else {
            self.with_parent(fid, parent)
        }
    }

    /// The tables after `fid` was bound: nothing changes for an identifier
    /// that has a handle; another gets a handle, and is recorded with the
    /// listing given or, without one, with its parent unless that is known.
    pub open spec fn bound(
        self,
        fid: Fid,
        parent: Option<Fid>,
        list: Option<Option<Seq<ItemView>>>,
    ) -> FidMapView {
        if handle_of(self.handles, fid) is Some {
            self
        } else {
            let recorded = match list {
                Some(l) => self.updated(fid, parent, l),
                None => self.with_parent_if_unknown(fid, parent),
            };
            FidMapView {
                handles: after_bind(self.handles, fid),
                listings: recorded.listings,
                parents: recorded.parents,
            }
        }
    }

    /// The tables after the handle `fh` was released.
    pub open spec fn released(self, fh: u64) -> FidMapView {
        FidMapView {
            handles: self.handles.remove(fh),
            listings: self.listings,
            parents: self.parents,
        }
    }

    /// Whether no entry of `items` is an entry of a listing cached for a
    /// directory other than `dir`.
    pub open spec fn listed_nowhere_else(self, dir: Fid, items: Seq<ItemView>) -> bool {
        forall|other: Fid, fid: Fid|
            other != dir && has_fid(items, fid) ==> !#[trigger] self.lists_child(other, fid)
    }
}

/// An entry of a cached listing has the directory of that listing as its
/// parent, in tables whose parents agree with their listings.
pub proof fn lemma_child_has_parent(v: FidMapView, dir: Fid, i: int)
    requires
        v.parents_agree(),
        v.listings.contains_key(dir),
        v.listings[dir] is Some,
        0 <= i < v.listings[dir]->0.len(),
    ensures
        v.parents.contains_key(v.listings[dir]->0[i].fid),
        v.parents[v.listings[dir]->0[i].fid] == Some(dir),
{
    let items = v.listings[dir]->0;
    assert(has_fid(items, items[i].fid));
    assert(v.lists_child(dir, items[i].fid));
}

/// Caching a listing keeps parents and listings in agreement where none of
/// its entries is listed under another directory.
pub proof fn lemma_with_listing_agrees(v: FidMapView, fid: Fid, list: Option<Seq<ItemView>>)
    requires
        v.parents_agree(),
        list matches Some(items) ==> v.listed_nowhere_else(fid, items),
    ensures
        v.with_listing(fid, list).parents_agree(),
{
    let w = v.with_listing(fid, list);
    assert forall|dir: Fid, f: Fid| #[trigger] w.lists_child(dir, f) implies w.parents.contains_key(
        f,
    ) && w.parents[f] == Some(dir) by {
        if dir == fid {
        } else {
            assert(v.lists_child(dir, f));
            if list is Some {
                if has_fid(list->0, f) {
                    assert(!v.lists_child(dir, f));
                }
            }
        }
    }
}

/// Giving an identifier a parent keeps parents and listings in agreement
/// where every directory that lists the identifier is that parent.
pub proof fn lemma_with_parent_agrees(v: FidMapView, fid: Fid, parent: Option<Fid>)
    requires
        v.parents_agree(),
        forall|dir: Fid| #[trigger] v.lists_child(dir, fid) ==> parent == Some(dir),
    ensures
        v.with_parent(fid, parent).parents_agree(),
{
    let w = v.with_parent(fid, parent);
    assert forall|dir: Fid, f: Fid| #[trigger] w.lists_child(dir, f) implies w.parents.contains_key(
        f,
    ) && w.parents[f] == Some(dir) by {
        assert(v.lists_child(dir, f));
    }
}

/// Binding an identifier without a listing keeps parents and listings in
/// agreement.
pub proof fn lemma_bound_agrees(v: FidMapView, fid: Fid, parent: Option<Fid>)
    requires
        v.parents_agree(),
    ensures
        v.bound(fid, parent, None).parents_agree(),
{
    let w = v.bound(fid, parent, None);
    if handle_of(v.handles, fid) is None && !v.parents.contains_key(fid) {
        assert forall|dir: Fid, f: Fid| #[trigger] w.lists_child(dir, f) implies w.parents.contains_key(
            f,
        ) && w.parents[f] == Some(dir) by {
            assert(v.lists_child(dir, f));
        }
    } else {
        assert forall|dir: Fid, f: Fid| #[trigger] w.lists_child(dir, f) implies w.parents.contains_key(
            f,
        ) && w.parents[f] == Some(dir) by {
            assert(v.lists_child(dir, f));
        }
    }
}

/// Releasing a handle keeps parents and listings in agreement.
pub proof fn lemma_released_agrees(v: FidMapView, fh: u64)
    requires
        v.parents_agree(),
    ensures
        v.released(fh).parents_agree(),
{
    let w = v.released(fh);
    assert forall|dir: Fid, f: Fid| #[trigger] w.lists_child(dir, f) implies w.parents.contains_key(
        f,
    ) && w.parents[f] == Some(dir) by {
        assert(v.lists_child(dir, f));
    }
}

/// Recording an identifier with its parent and its listing keeps parents
/// and listings in agreement where every directory that lists the
/// identifier is that parent, and no entry of the listing is listed under
/// another directory.
pub proof fn lemma_updated_agrees(
    v: FidMapView,
    fid: Fid,
    parent: Option<Fid>,
    list: Option<Seq<ItemView>>,
)
    requires
        v.parents_agree(),
        forall|dir: Fid| #[trigger] v.lists_child(dir, fid) ==> parent == Some(dir),
        list matches Some(items) ==> v.listed_nowhere_else(fid, items),
    ensures
        v.updated(fid, parent, list).parents_agree(),
{
    lemma_with_parent_agrees(v, fid, parent);
    let w = v.with_parent(fid, parent);
    if list is Some {
        assert forall|other: Fid, f: Fid| other != fid && has_fid(list->0, f) implies !#[trigger] w.lists_child(
            other,
            f,
        ) by {
            assert(!v.lists_child(other, f));
        }
    }
    lemma_with_listing_agrees(w, fid, list);
}

/// The tables of the filesystem. Their view is a [`FidMapView`].
pub struct FidMap {
    fhmap: HandleTable,
    listing_map: FidTable<FidCachedList>,
    parent_map: FidTable<Option<Fid>>,
}

impl View for FidMap {
    type V = FidMapView;

    closed spec fn view(&self) -> FidMapView {
        FidMapView {
            handles: self.fhmap@,
            listings: self.listing_map@.map_values(|l: FidCachedList| l@),
            parents: self.parent_map@,
        }
    }
}

impl FidMap {
    /// What holds of all tables that this library hands out: the handle
    /// table is well-formed, and the parent of each bound identifier is
    /// known.
    pub closed spec fn wf(self) -> bool {
        &&& self.fhmap.wf()
        &&& forall|h: u64| #[trigger]
            self.fhmap@.contains_key(h) ==> self.parent_map@.contains_key(self.fhmap@[h])
    }

    /// What being well-formed means for the view.
    pub proof fn lemma_wf(self)
        requires
            self.wf(),
        ensures
            table_wf(self@.handles),
            forall|h: u64| #[trigger]
                self@.handles.contains_key(h) ==> self@.parents.contains_key(self@.handles[h]),
    {
        self.fhmap.lemma_wf();
    }

    proof fn lemma_view(self)
        ensures
            self@.handles == self.fhmap@,
            self@.parents == self.parent_map@,
            self@.listings.dom() == self.listing_map@.dom(),
            forall|f: Fid| #[trigger]
                self.listing_map@.contains_key(f) ==> self@.listings[f] == self.listing_map@[f]@,
    {
    }

    proof fn lemma_view_listed(self, after: Self, fid: Fid, list: FidCachedList)
        requires
            after.listing_map@ == self.listing_map@.insert(fid, list),
        ensures
            after@.listings == self@.listings.insert(fid, list@),
    {
        assert(after@.listings =~= self@.listings.insert(fid, list@));
    }

    /// Tables without handles and listings, in which the root has no parent.
    pub fn new() -> (m: Self)
        ensures
            m.wf(),
            m@.handles == (Map::<u64, Fid>::empty()),
            m@.listings == (Map::<Fid, Option<Seq<ItemView>>>::empty()),
            m@.parents == (Map::<Fid, Option<Fid>>::empty()).insert(Fid::Root, None),
    {
        let mut parent_map: FidTable<Option<Fid>> = FidTable::new();
        parent_map.insert(Fid::root(), None);
        let m = FidMap { fhmap: HandleTable::new(), listing_map: FidTable::new(), parent_map };
        proof {
            m.lemma_view();
            assert(m@.listings =~= Map::<Fid, Option<Seq<ItemView>>>::empty());
        }
        m
    }

    /// The identifier that the handle `fh` is bound to.
    pub fn get_fid_by_fh(&self, fh: u64) -> (r: Option<Fid>)
        requires
            self.wf(),
        ensures
            r == if self@.handles.contains_key(fh) {
                Some(self@.handles[fh])
            } else {
                None::<Fid>
            },
    {
        proof {
            self.lemma_view();
        }
        self.fhmap.lookup(fh)
    }

    /// The number of handles that are bound.
    pub fn handle_count(&self) -> (n: usize)
        requires
            self.wf(),
        ensures
            self@.handles.dom().finite(),
            n == self@.handles.dom().len(),
    {
        proof {
            self.lemma_view();
        }
        self.fhmap.len()
    }

    /// The parent of `fid`: `None` where it is not known, `Some(None)` for
    /// the root.
    pub fn get_parent_fid(&self, fid: &Fid) -> (r: Option<Option<Fid>>)
        ensures
            r == if self@.parents.contains_key(*fid) {
                Some(self@.parents[*fid])
            } else {
                None::<Option<Fid>>
            },
    {
        proof {
            self.lemma_view();
        }
        match self.parent_map.get(fid) {
            Some(p) => Some(*p),
            None => None,
        }
    }

    /// The listing cached for `fid`.
    pub fn get_listing(&self, fid: &Fid) -> (r: Option<&FidCachedList>)
        ensures
            r is Some <==> self@.listings.contains_key(*fid),
            r matches Some(list) ==> list@ == self@.listings[*fid],
    {
        proof {
            self.lemma_view();
        }
        self.listing_map.get(fid)
    }

    /// Gives each of `items` the parent `dir`.
    fn adopt(&mut self, dir: &Fid, items: &Vec<RecListItem>)
        ensures
            final(self).fhmap == old(self).fhmap,
            final(self).listing_map == old(self).listing_map,
            final(self).parent_map@ == children_parents(
                old(self).parent_map@,
                *dir,
                items_view(items@),
            ),
    {
        let ghost views = items_view(items@);
        let mut i: usize = 0;
        assert(self.parent_map@ =~= children_parents(old(self).parent_map@, *dir, views.take(0)));
        while i < items.len()
            invariant
                i <= items.len(),
                views == items_view(items@),
                self.fhmap == old(self).fhmap,
                self.listing_map == old(self).listing_map,
                self.parent_map@ == children_parents(
                    old(self).parent_map@,
                    *dir,
                    views.take(i as int),
                ),
            decreases items.len() - i,
        {
            let ghost before = self.parent_map@;
            self.parent_map.insert(items[i].fid, Some(*dir));
            proof {
                let done = views.take(i as int);
                let next = views.take(i + 1);
                let f = items[i as int].fid;
                assert(next[i as int].fid == f);
                assert forall|g: Fid| has_fid(next, g) <==> (has_fid(done, g) || g == f) by {
                    if has_fid(done, g) {
                        let k = choose|k: int| 0 <= k < done.len() && (#[trigger] done[k]).fid == g;
                        assert(next[k].fid == g);
                    }
                    if has_fid(next, g) {
                        let k = choose|k: int| 0 <= k < next.len() && (#[trigger] next[k]).fid == g;
                        if k < i {
                            assert(done[k].fid == g);
                        }
                    }
                }
                assert(self.parent_map@ =~= children_parents(old(self).parent_map@, *dir, next));
            }
            i += 1;
        }
        assert(views.take(items.len() as int) == views);
    }

    /// Caches `list` as the listing of `fid` and gives each entry of it the
    /// parent `fid`.
    pub fn install_listing(&mut self, fid: &Fid, list: FidCachedList)
        requires
            old(self).wf(),
        ensures
            final(self).wf(),
            final(self)@ == old(self)@.with_listing(*fid, list@),
            old(self)@.parents_agree() && (list@ matches Some(items)
                ==> old(self)@.listed_nowhere_else(*fid, items)) ==> final(self)@.parents_agree(),
    {
        proof {
            old(self).lemma_view();
            lemma_with_listing_agrees_if(old(self)@, *fid, list@);
        }
        match &list.children {
            Some(items) => {
                self.adopt(fid, items);
            },
            None => {},
        }
        let ghost mid = *self;
        self.listing_map.insert(*fid, list);
        proof {
            self.lemma_view();
            mid.lemma_view();
            mid.lemma_view_listed(*self, *fid, list);
            assert(mid@.listings == old(self)@.listings);
            assert(self@ == old(self)@.with_listing(*fid, list@));
        }
    }

    /// Records `fid` with its parent and its listing; each entry of the
    /// listing gets the parent `fid`.
    pub fn update_fid(&mut self, fid: &Fid, parent: Option<&Fid>, list: &FidCachedList)
        requires
            old(self).wf(),
        ensures
            final(self).wf(),
            final(self)@ == old(self)@.updated(*fid, option_copy(parent), list@),
    {
        proof {
            old(self).lemma_view();
        }
        self.parent_map.insert(*fid, copy_of(parent));
        proof {
            self.lemma_view();
        }
        self.install_listing(fid, list.clone());
    }

    /// Binds `fid` to a handle and returns the handle. An identifier that is
    /// bound keeps its handle, and nothing changes. Another gets the
    /// smallest free handle and is recorded: with `list` where one is given,
    /// else with `parent` unless its parent is known.
    pub fn set_fh(&mut self, fid: &Fid, parent: Option<&Fid>, list: Option<&FidCachedList>) -> (fh:
        u64)
        requires
            old(self).wf(),
            old(self)@.handles.dom().len() < MAX_HANDLES,
        ensures
            final(self).wf(),
            fh == bound_handle(old(self)@.handles, *fid),
            final(self)@ == old(self)@.bound(*fid, option_copy(parent), list_view(list)),
            final(self)@.handles.contains_key(fh) && final(self)@.handles[fh] == *fid,
    {
        proof {
            old(self).lemma_view();
        }
        match self.fhmap.find(fid) {
            Some(fh) => fh,
            None => {
                match list {
                    Some(l) => {
                        self.update_fid(fid, parent, l);
                    },
                    None => {
                        if !self.parent_map.contains(fid) {
                            self.parent_map.insert(*fid, copy_of(parent));
                        }
                    },
                }
                proof {
                    self.lemma_view();
                }
                let ghost recorded = *self;
                let fh = self.fhmap.bind(fid);
                proof {
                    self.lemma_view();
                    recorded.lemma_view();
                    assert(self@.listings == recorded@.listings);
                    assert(self.parent_map@.contains_key(*fid));
                }
                fh
            },
        }
    }

    /// Unbinds the handle `fh`. Listings and parents stay. Returns whether
    /// the handle was bound.
    pub fn release(&mut self, fh: u64) -> (r: bool)
        requires
            old(self).wf(),
        ensures
            final(self).wf(),
            r == old(self)@.handles.contains_key(fh),
            final(self)@ == old(self)@.released(fh),
    {
        proof {
            old(self).lemma_view();
        }
        let r = self.fhmap.release(fh);
        proof {
            self.lemma_view();
            assert(self@.listings == old(self)@.listings);
        }
        r
    }
}

/// What an optional reference refers to.
pub open spec fn option_copy(o: Option<&Fid>) -> Option<Fid> {
    match o {
        Some(f) => Some(*f),
        None => None,
    }
}

/// What an optional listing holds.
pub open spec fn list_view(o: Option<&FidCachedList>) -> Option<Option<Seq<ItemView>>> {
    match o {
        Some(l) => Some(l@),
        None => None,
    }
}

/// [`lemma_with_listing_agrees`], as an implication.
proof fn lemma_with_listing_agrees_if(v: FidMapView, fid: Fid, list: Option<Seq<ItemView>>)
    ensures
        v.parents_agree() && (list matches Some(items) ==> v.listed_nowhere_else(fid, items))
            ==> v.with_listing(fid, list).parents_agree(),
{
    if v.parents_agree() && (list matches Some(items) ==> v.listed_nowhere_else(fid, items)) {
        lemma_with_listing_agrees(v, fid, list);
    }
}

/// The identifier that an optional reference refers to.
fn copy_of(o: Option<&Fid>) -> (r: Option<Fid>)
    ensures
        r == option_copy(o),
{
    match o {
        Some(f) => Some(*f),
        None => None,
    }
}

} // verus!
