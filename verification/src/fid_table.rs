//! A map from identifiers to values.

use crate::fid::Fid;
use std::collections::HashMap;
use vstd::prelude::*;

verus! {

broadcast use vstd::std_specs::hash::group_hash_axioms;

/// A finite map keyed by identifier. Its view is the map it stands for.
pub struct FidTable<V> {
    root: Option<V>,
    backup: Option<V>,
    recycle: Option<V>,
    remote: HashMap<u128, V>,
    local: HashMap<usize, V>,
}

impl<V> View for FidTable<V> {
    type V = Map<Fid, V>;

    closed spec fn view(&self) -> Map<Fid, V> {
        Map::new(|f: Fid| self.holds(f), |f: Fid| self.held(f))
    }
}

impl<V> FidTable<V> {
    /// Whether `f` has a value in this table.
    spec fn holds(self, f: Fid) -> bool {
        match f {
            Fid::Root => self.root is Some,
            Fid::BackupRoot => self.backup is Some,
            Fid::RecycleRoot => self.recycle is Some,
            Fid::Remote(v) => self.remote@.contains_key(v),
            Fid::LocalWrite(n) => self.local@.contains_key(n),
        }
    }

    /// The value that `f` has in this table.
    spec fn held(self, f: Fid) -> V {
        match f {
            Fid::Root => self.root->0,
            Fid::BackupRoot => self.backup->0,
            Fid::RecycleRoot => self.recycle->0,
            Fid::Remote(v) => self.remote@[v],
            Fid::LocalWrite(n) => self.local@[n],
        }
    }

    /// The view holds what the parts hold.
    proof fn lemma_view(self, f: Fid)
        ensures
            self@.contains_key(f) == self.holds(f),
            self@.contains_key(f) ==> self@[f] == self.held(f),
    {
    }

    /// A table of empty parts is the empty map.
    proof fn lemma_view_empty(self)
        requires
            self.root is None,
            self.backup is None,
            self.recycle is None,
            self.remote@ == (Map::<u128, V>::empty()),
            self.local@ == (Map::<usize, V>::empty()),
        ensures
            self@ == (Map::<Fid, V>::empty()),
    {
        assert(self@ =~= Map::<Fid, V>::empty());
    }

    /// Two tables that hold the same but at `f`, where the second holds
    /// `value`, differ by one insertion.
    proof fn lemma_view_insert(self, after: Self, f: Fid, value: V)
        requires
            after.holds(f),
            after.held(f) == value,
            forall|g: Fid| g != f ==> after.holds(g) == self.holds(g),
            forall|g: Fid| g != f && self.holds(g) ==> after.held(g) == self.held(g),
        ensures
            after@ == self@.insert(f, value),
    {
        assert(after@ =~= self@.insert(f, value));
    }

    /// Two tables that hold the same but at `f`, where the second holds
    /// nothing, differ by one removal.
    proof fn lemma_view_remove(self, after: Self, f: Fid)
        requires
            !after.holds(f),
            forall|g: Fid| g != f ==> after.holds(g) == self.holds(g),
            forall|g: Fid| g != f && self.holds(g) ==> after.held(g) == self.held(g),
        ensures
            after@ == self@.remove(f),
    {
        assert(after@ =~= self@.remove(f));
    }

    /// The empty map.
    pub fn new() -> (t: Self)
        ensures
            t@ == (Map::<Fid, V>::empty()),
    {
        let t = FidTable {
            root: None,
            backup: None,
            recycle: None,
            remote: HashMap::new(),
            local: HashMap::new(),
        };
        proof {
            t.lemma_view_empty();
        }
        t
    }

    /// Whether `fid` has a value.
    pub fn contains(&self, fid: &Fid) -> (r: bool)
        ensures
            r == self@.contains_key(*fid),
    {
        proof {
            self.lemma_view(*fid);
        }
        match fid {
            Fid::Root => self.root.is_some(),
            Fid::BackupRoot => self.backup.is_some(),
            Fid::RecycleRoot => self.recycle.is_some(),
            Fid::Remote(v) => self.remote.contains_key(v),
            Fid::LocalWrite(n) => self.local.contains_key(n),
        }
    }

    /// The value of `fid`, if it has one.
    pub fn get(&self, fid: &Fid) -> (r: Option<&V>)
        ensures
            r is Some <==> self@.contains_key(*fid),
            r matches Some(v) ==> *v == self@[*fid],
    {
        proof {
            self.lemma_view(*fid);
        }
        match fid {
            Fid::Root => self.root.as_ref(),
            Fid::BackupRoot => self.backup.as_ref(),
            Fid::RecycleRoot => self.recycle.as_ref(),
            Fid::Remote(v) => self.remote.get(v),
            Fid::LocalWrite(n) => self.local.get(n),
        }
    }

    /// Gives `fid` the value `value`, in place of any it had.
    pub fn insert(&mut self, fid: Fid, value: V)
        ensures
            final(self)@ == old(self)@.insert(fid, value),
    {
        match fid {
            Fid::Root => {
                self.root = Some(value);
            },
            Fid::BackupRoot => {
                self.backup = Some(value);
            },
            Fid::RecycleRoot => {
                self.recycle = Some(value);
            },
            Fid::Remote(v) => {
                self.remote.insert(v, value);
            },
            Fid::LocalWrite(n) => {
                self.local.insert(n, value);
            },
        }
        proof {
            old(self).lemma_view_insert(*self, fid, value);
        }
    }

    /// Takes the value of `fid` out of the map and returns it.
    pub fn remove(&mut self, fid: &Fid) -> (r: Option<V>)
        ensures
            final(self)@ == old(self)@.remove(*fid),
            r is Some <==> old(self)@.contains_key(*fid),
            r matches Some(v) ==> v == old(self)@[*fid],
    {
        proof {
            old(self).lemma_view(*fid);
        }
        let r = match fid {
            Fid::Root => self.root.take(),
            Fid::BackupRoot => self.backup.take(),
            Fid::RecycleRoot => self.recycle.take(),
            Fid::Remote(v) => self.remote.remove(v),
            Fid::LocalWrite(n) => self.local.remove(n),
        };
        proof {
            old(self).lemma_view_remove(*self, *fid);
        }
        r
    }
}

} // verus!
