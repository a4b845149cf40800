//! The table of open handles: which handle stands for which identifier.

use crate::fid::Fid;
use bimap::BiBTreeMap;
use vstd::prelude::*;

verus! {

/// The lowest handle that is ever given out.
pub const FIRST_HANDLE: u64 = 4;

/// The most handles that a table holds.
pub const MAX_HANDLES: u64 = 0xffff_ffff_ffff_fff0;

/// `bimap::BiBTreeMap`, a map that is looked up from both sides. What one
/// holds is seen through [`pairs_of`] alone.
#[verifier::external_type_specification]
#[verifier::external_body]
#[verifier::reject_recursive_types(L)]
#[verifier::reject_recursive_types(R)]
pub struct ExBiBTreeMap<L, R>(BiBTreeMap<L, R>);

/// The pair of numbers that stands for an identifier in the two-way map.
pub type FidCode = (u8, u128);

/// The two-way map between handles and the codes of identifiers.
pub type HandlePairs = BiBTreeMap<u64, FidCode>;

/// The pairs that a two-way map holds, as a map from the left value of each
/// pair to its right value.
pub uninterp spec fn pairs_of(m: BiBTreeMap<u64, (u8, u128)>) -> Map<u64, (u8, u128)>;

/// `BiBTreeMap::new`: a two-way map without pairs.
#[verifier::external_body]
fn pairs_new() -> (table: HandlePairs)
    ensures
        pairs_of(table) == (Map::<u64, FidCode>::empty()),
{
    BiBTreeMap::new()
}

/// `BiBTreeMap::get_by_left`: the right value paired with `left`, if `left`
/// is in a pair.
#[verifier::external_body]
fn right_of(m: &HandlePairs, left: u64) -> (r: Option<FidCode>)
    ensures
        r == if pairs_of(*m).contains_key(left) {
            Some(pairs_of(*m)[left])
        } else {
            None
        },
{
    m.get_by_left(&left).copied()
}

/// `BiBTreeMap::get_by_right`: a left value paired with `right`, if `right`
/// is in a pair.
#[verifier::external_body]
fn left_of(m: &HandlePairs, right: FidCode) -> (r: Option<u64>)
    ensures
        r matches Some(left) ==> pairs_of(*m).contains_key(left) && pairs_of(*m)[left] == right,
        r is None ==> forall|left: u64| #[trigger]
            pairs_of(*m).contains_key(left) ==> pairs_of(*m)[left] != right,
{
    m.get_by_right(&right).copied()
}

/// `BiBTreeMap::insert`: takes out the pair with this left value and every
/// pair with this right value, then puts the pair in.
#[verifier::external_body]
fn put_pair(m: &mut HandlePairs, left: u64, right: FidCode)
    ensures
        pairs_of(*final(m)) == Map::new(
            |l: u64| l == left || (pairs_of(*old(m)).contains_key(l) && pairs_of(*old(m))[l] != right),
            |l: u64|
                if l == left {
                    right
                } else {
                    pairs_of(*old(m))[l]
                },
        ),
{
    m.insert(left, right);
}

/// `BiBTreeMap::remove_by_left`: takes out the pair with this left value, if
/// there is one, and says whether there was.
#[verifier::external_body]
fn take_pair(m: &mut HandlePairs, left: u64) -> (r: bool)
    ensures
        r == pairs_of(*old(m)).contains_key(left),
        pairs_of(*final(m)) == pairs_of(*old(m)).remove(left),
{
    m.remove_by_left(&left).is_some()
}

/// `BiBTreeMap::left_values`: the left values of all pairs, in ascending
/// order.
#[verifier::external_body]
fn lefts_of(m: &HandlePairs) -> (v: Vec<u64>)
    ensures
        forall|i: int, j: int| 0 <= i < j < v@.len() ==> v@[i] < v@[j],
        forall|i: int| 0 <= i < v@.len() ==> pairs_of(*m).contains_key(#[trigger] v@[i]),
        forall|l: u64| #[trigger] pairs_of(*m).contains_key(l) ==> v@.contains(l),
{
    m.left_values().copied().collect()
}

/// The pair of numbers that stands for an identifier in the two-way map.
pub open spec fn fid_code(f: Fid) -> (u8, u128) {
    match f {
        Fid::Root => (0u8, 0u128),
        Fid::Remote(v) => (1u8, v),
        Fid::BackupRoot => (2u8, 0u128),
        Fid::RecycleRoot => (3u8, 0u128),
        Fid::LocalWrite(n) => (4u8, n as u128),
    }
}

/// Whether a pair of numbers stands for an identifier.
pub open spec fn is_fid_code(c: (u8, u128)) -> bool {
    exists|f: Fid| fid_code(f) == c
}

/// The identifier that a pair of numbers stands for.
pub open spec fn code_fid(c: (u8, u128)) -> Fid {
    choose|f: Fid| fid_code(f) == c
}

/// Two identifiers with the same code are the same.
pub proof fn lemma_fid_code_injective(a: Fid, b: Fid)
    requires
        fid_code(a) == fid_code(b),
    ensures
        a == b,
{
}

/// An identifier is what its code stands for.
pub proof fn lemma_code_fid(f: Fid)
    ensures
        is_fid_code(fid_code(f)),
        code_fid(fid_code(f)) == f,
{
    lemma_fid_code_injective(f, code_fid(fid_code(f)));
}

/// Whether `h` is the smallest handle, from [`FIRST_HANDLE`] on, that is not
/// in `bound`.
pub open spec fn is_smallest_free(bound: Set<u64>, h: u64) -> bool {
    &&& h >= FIRST_HANDLE
    &&& !bound.contains(h)
    &&& forall|k: u64| FIRST_HANDLE <= k < h ==> bound.contains(k)
}

/// The handle of `fid` in `m`, if it has one.
pub open spec fn handle_of(m: Map<u64, Fid>, fid: Fid) -> Option<u64> {
    if exists|h: u64| m.contains_key(h) && m[h] == fid {
        Some(choose|h: u64| m.contains_key(h) && m[h] == fid)
    } else {
        None
    }
}

/// What holds of every handle table: handles start at [`FIRST_HANDLE`], and
/// no identifier has two handles.
pub open spec fn table_wf(m: Map<u64, Fid>) -> bool {
    &&& forall|h: u64| m.contains_key(h) ==> h >= FIRST_HANDLE
    &&& forall|h: u64, k: u64| m.contains_key(h) && m.contains_key(k) && m[h] == m[k] ==> h == k
}

/// At most one handle is the smallest free one.
pub proof fn lemma_smallest_free_unique(bound: Set<u64>, a: u64, b: u64)
    requires
        is_smallest_free(bound, a),
        is_smallest_free(bound, b),
    ensures
        a == b,
{
}

/// In a well-formed table, the handle of an identifier is the only one.
pub proof fn lemma_handle_of(m: Map<u64, Fid>, h: u64)
    requires
        table_wf(m),
        m.contains_key(h),
    ensures
        handle_of(m, m[h]) == Some(h),
{
}

/// Whether some handle is the smallest free one: false only of a table that
/// holds every handle from [`FIRST_HANDLE`] on.
pub open spec fn has_free(m: Map<u64, Fid>) -> bool {
    exists|h: u64| is_smallest_free(m.dom(), h)
}

/// The handles from [`FIRST_HANDLE`] up to `n` above it.
pub open spec fn first_handles(n: nat) -> Set<u64> {
    Set::new(|h: u64| FIRST_HANDLE <= h <= FIRST_HANDLE + n)
}

/// There are `n + 1` handles from [`FIRST_HANDLE`] up to `n` above it.
pub proof fn lemma_first_handles(n: nat)
    requires
        FIRST_HANDLE + n <= u64::MAX,
    ensures
        first_handles(n).finite(),
        first_handles(n).len() == n + 1,
    decreases n,
{
    if n == 0 {
        assert(first_handles(0) =~= set![FIRST_HANDLE]);
    } else {
        lemma_first_handles((n - 1) as nat);
        let top = (FIRST_HANDLE + n) as u64;
        assert(first_handles(n) =~= first_handles((n - 1) as nat).insert(top));
    }
}

/// Below a handle that is free lies the smallest free one.
pub proof fn lemma_first_free(bound: Set<u64>, h: u64, k: u64)
    requires
        FIRST_HANDLE <= h <= k,
        !bound.contains(k),
        forall|j: u64| FIRST_HANDLE <= j < h ==> bound.contains(j),
    ensures
        exists|f: u64| is_smallest_free(bound, f),
    decreases k - h,
{
    if !bound.contains(h) {
        assert(is_smallest_free(bound, h));
    } else {
        lemma_first_free(bound, (h + 1) as u64, k);
    }
}

/// A table with fewer than [`MAX_HANDLES`] handles has a free one.
pub proof fn lemma_room_has_free(m: Map<u64, Fid>)
    requires
        m.dom().finite(),
        m.dom().len() < MAX_HANDLES,
    ensures
        has_free(m),
{
    let n = m.dom().len();
    let r = first_handles(n);
    lemma_first_handles(n);
    if r.subset_of(m.dom()) {
        vstd::set_lib::lemma_len_subset(r, m.dom());
    }
    let k = choose|k: u64| r.contains(k) && !m.dom().contains(k);
    lemma_first_free(m.dom(), FIRST_HANDLE, k);
}

/// The smallest handle, from [`FIRST_HANDLE`] on, that is not in `bound`.
pub open spec fn smallest_free(bound: Set<u64>) -> u64 {
    choose|h: u64| is_smallest_free(bound, h)
}

/// The handle that binding `fid` in `m` returns: the one it has, else the
/// smallest free one.
pub open spec fn bound_handle(m: Map<u64, Fid>, fid: Fid) -> u64 {
    match handle_of(m, fid) {
        Some(h) => h,
        None => smallest_free(m.dom()),
    }
}

/// The table after binding `fid` in `m`. A full table stays as it is.
pub open spec fn after_bind(m: Map<u64, Fid>, fid: Fid) -> Map<u64, Fid> {
    if handle_of(m, fid) is Some || !has_free(m) {
        m
    } else {
        m.insert(smallest_free(m.dom()), fid)
    }
}

/// One change to a handle table.
pub enum HandleOp {
    /// Binding an identifier.
    Bind(Fid),
    /// Releasing a handle.
    Release(u64),
}

/// The table after one change.
pub open spec fn after(m: Map<u64, Fid>, op: HandleOp) -> Map<u64, Fid> {
    match op {
        HandleOp::Bind(fid) => after_bind(m, fid),
        HandleOp::Release(h) => m.remove(h),
    }
}

/// The table after a sequence of changes, the first of them first.
pub open spec fn after_all(m: Map<u64, Fid>, ops: Seq<HandleOp>) -> Map<u64, Fid>
    decreases ops.len(),
{
    if ops.len() == 0 {
        m
    } else {
        after(after_all(m, ops.drop_last()), ops.last())
    }
}

/// A change keeps a table well-formed.
pub proof fn lemma_after_wf(m: Map<u64, Fid>, op: HandleOp)
    requires
        table_wf(m),
    ensures
        table_wf(after(m, op)),
{
    match op {
        HandleOp::Bind(fid) => {
            if handle_of(m, fid) is None && has_free(m) {
                let h = smallest_free(m.dom());
                assert(is_smallest_free(m.dom(), h));
                let n = m.insert(h, fid);
                assert forall|a: u64, b: u64|
                    n.contains_key(a) && n.contains_key(b) && n[a] == n[b] implies a == b by {
                    if a == h && b != h {
                        assert(m.contains_key(b) && m[b] == fid);
                    }
                    if b == h && a != h {
                        assert(m.contains_key(a) && m[a] == fid);
                    }
                }
            }
        },
        HandleOp::Release(h) => {},
    }
}

/// Any sequence of changes keeps a table well-formed.
pub proof fn lemma_after_all_wf(m: Map<u64, Fid>, ops: Seq<HandleOp>)
    requires
        table_wf(m),
    ensures
        table_wf(after_all(m, ops)),
    decreases ops.len(),
{
    if ops.len() > 0 {
        lemma_after_all_wf(m, ops.drop_last());
        lemma_after_wf(after_all(m, ops.drop_last()), ops.last());
    }
}

/// Looking up the handle that a bind returned gives the identifier that was
/// bound.
pub proof fn lemma_bind_then_lookup(m: Map<u64, Fid>, fid: Fid)
    requires
        table_wf(m),
        has_free(m),
    ensures
        after_bind(m, fid).contains_key(bound_handle(m, fid)),
        after_bind(m, fid)[bound_handle(m, fid)] == fid,
{
}

/// A handle stays bound to its identifier through every change but its own
/// release.
pub proof fn lemma_bound_until_released(m: Map<u64, Fid>, ops: Seq<HandleOp>, h: u64, fid: Fid)
    requires
        m.contains_key(h),
        m[h] == fid,
        forall|i: int| 0 <= i < ops.len() ==> ops[i] != HandleOp::Release(h),
    ensures
        after_all(m, ops).contains_key(h),
        after_all(m, ops)[h] == fid,
    decreases ops.len(),
{
    if ops.len() > 0 {
        let before = after_all(m, ops.drop_last());
        lemma_bound_until_released(m, ops.drop_last(), h, fid);
        assert(ops.last() == ops[ops.len() - 1]);
        match ops.last() {
            HandleOp::Bind(f) => {
                if handle_of(before, f) is None && has_free(before) {
                    assert(is_smallest_free(before.dom(), smallest_free(before.dom())));
                }
            },
            HandleOp::Release(k) => {},
        }
    }
}

/// After any sequence of binds and releases, binding an identifier that has
/// no handle gives it the smallest handle, from [`FIRST_HANDLE`] on, that is
/// not bound at that time, unless the table is full.
pub proof fn lemma_next_is_smallest_free(start: Map<u64, Fid>, ops: Seq<HandleOp>, fid: Fid)
    requires
        table_wf(start),
    ensures
        ({
            let m = after_all(start, ops);
            handle_of(m, fid) is None && m.dom().finite() && m.dom().len() < MAX_HANDLES
                ==> is_smallest_free(m.dom(), bound_handle(m, fid)) && after_bind(m, fid)
                == m.insert(bound_handle(m, fid), fid)
        }),
{
    let m = after_all(start, ops);
    if m.dom().finite() && m.dom().len() < MAX_HANDLES {
        lemma_room_has_free(m);
    }
}

/// The table of open handles. Its view maps each handle to the identifier
/// that it is bound to.
pub struct HandleTable {
    pairs: HandlePairs,
}

impl View for HandleTable {
    type V = Map<u64, Fid>;

    closed spec fn view(&self) -> Map<u64, Fid> {
        Map::new(
            |h: u64| pairs_of(self.pairs).contains_key(h),
            |h: u64| code_fid(pairs_of(self.pairs)[h]),
        )
    }
}

impl HandleTable {
    spec fn inv(self) -> bool {
        self.coded() && table_wf(self@)
    }

    /// Every right value of the two-way map stands for an identifier.
    spec fn coded(self) -> bool {
        forall|h: u64| #[trigger]
            pairs_of(self.pairs).contains_key(h) ==> is_fid_code(pairs_of(self.pairs)[h])
    }

    /// What holds of every table that this library hands out.
    pub closed spec fn wf(self) -> bool {
        self.inv()
    }

    /// A table that is [`Self::wf`] has a view that is [`table_wf`].
    pub proof fn lemma_wf(self)
        requires
            self.wf(),
        ensures
            table_wf(self@),
    {
    }

    proof fn lemma_view(self, h: u64)
        ensures
            self@.contains_key(h) == pairs_of(self.pairs).contains_key(h),
            self@.contains_key(h) ==> self@[h] == code_fid(pairs_of(self.pairs)[h]),
    {
    }

    proof fn lemma_view_empty(self)
        requires
            pairs_of(self.pairs) == (Map::<u64, FidCode>::empty()),
        ensures
            self@ == (Map::<u64, Fid>::empty()),
            self.inv(),
    {
        assert(self@ =~= Map::<u64, Fid>::empty());
    }

    proof fn lemma_view_removed(self, after: Self, h: u64)
        requires
            self.inv(),
            pairs_of(after.pairs) == pairs_of(self.pairs).remove(h),
        ensures
            after@ == self@.remove(h),
            after.inv(),
    {
        assert(after@ =~= self@.remove(h));
    }

    proof fn lemma_view_bound(self, after: Self, h: u64, fid: Fid)
        requires
            self.inv(),
            h >= FIRST_HANDLE,
            !self@.contains_key(h),
            handle_of(self@, fid) is None,
            pairs_of(after.pairs) == Map::new(
                |l: u64|
                    l == h || (pairs_of(self.pairs).contains_key(l) && pairs_of(self.pairs)[l]
                        != fid_code(fid)),
                |l: u64|
                    if l == h {
                        fid_code(fid)
                    } else {
                        pairs_of(self.pairs)[l]
                    },
            ),
        ensures
            after@ == self@.insert(h, fid),
            after.inv(),
    {
        lemma_code_fid(fid);
        assert forall|l: u64| pairs_of(self.pairs).contains_key(l) implies pairs_of(self.pairs)[l]
            != fid_code(fid) by {
            if pairs_of(self.pairs)[l] == fid_code(fid) {
                assert(self@.contains_key(l) && self@[l] == fid);
            }
        }
        assert(after@ =~= self@.insert(h, fid));
        assert(after.coded());
        assert(table_wf(after@));
    }

    /// A table without handles.
    pub fn new() -> (t: Self)
        ensures
            t@ == (Map::<u64, Fid>::empty()),
            t.wf(),
    {
        let pairs = pairs_new();
        let t = HandleTable { pairs };
        proof {
            t.lemma_view_empty();
        }
        t
    }

    /// The identifier that `fh` is bound to, if it is bound.
    pub fn lookup(&self, fh: u64) -> (r: Option<Fid>)
        requires
            self.wf(),
        ensures
            r == if self@.contains_key(fh) {
                Some(self@[fh])
            } else {
                None::<Fid>
            },
    {
        proof {
            self.lemma_view(fh);
        }
        match right_of(&self.pairs, fh) {
            Some(c) => {
                let f = decode(c);
                Some(f)
            },
            None => None,
        }
    }

    /// The handle that `fid` is bound to, if it is bound.
    pub fn find(&self, fid: &Fid) -> (r: Option<u64>)
        requires
            self.wf(),
        ensures
            r == handle_of(self@, *fid),
    {
        let r = left_of(&self.pairs, encode(fid));
        proof {
            match r {
                Some(h) => {
                    self.lemma_view(h);
                    lemma_code_fid(*fid);
                    lemma_handle_of(self@, h);
                },
                None => {
                    assert forall|h: u64| self@.contains_key(h) implies self@[h] != *fid by {
                        self.lemma_view(h);
                        assert(pairs_of(self.pairs).contains_key(h));
                        let c = pairs_of(self.pairs)[h];
                        assert(c != fid_code(*fid));
                        assert(is_fid_code(c));
                        assert(fid_code(code_fid(c)) == c);
                    }
                },
            }
        }
        r
    }

    /// The number of handles that are bound.
    pub fn len(&self) -> (n: usize)
        ensures
            self@.dom().finite(),
            n == self@.dom().len(),
    {
        let keys = lefts_of(&self.pairs);
        proof {
            self.lemma_keys(keys@);
        }
        keys.len()
    }

    /// The handles, in ascending order, are the domain of the view.
    proof fn lemma_keys(self, keys: Seq<u64>)
        requires
            forall|i: int, j: int| 0 <= i < j < keys.len() ==> keys[i] < keys[j],
            forall|i: int| 0 <= i < keys.len() ==> pairs_of(self.pairs).contains_key(#[trigger] keys[i]),
            forall|l: u64| #[trigger] pairs_of(self.pairs).contains_key(l) ==> keys.contains(l),
        ensures
            self@.dom() == keys.to_set(),
            self@.dom().finite(),
            self@.dom().len() == keys.len(),
    {
        assert(self@.dom() =~= keys.to_set()) by {
            assert forall|h: u64| self@.dom().contains(h) <==> keys.to_set().contains(h) by {
                self.lemma_view(h);
                if keys.contains(h) {
                    let i = choose|i: int| 0 <= i < keys.len() && keys[i] == h;
                    assert(pairs_of(self.pairs).contains_key(keys[i]));
                }
            }
        }
        assert(keys.no_duplicates());
        keys.unique_seq_to_set();
    }

    /// The smallest handle, from [`FIRST_HANDLE`] on, that is not bound.
    pub fn next_fh(&self) -> (h: u64)
        requires
            self.wf(),
            self@.dom().len() < MAX_HANDLES,
        ensures
            is_smallest_free(self@.dom(), h),
    {
        let keys = lefts_of(&self.pairs);
        proof {
            self.lemma_keys(keys@);
            assert forall|i: int| 0 <= i < keys@.len() implies keys@[i] >= FIRST_HANDLE by {
                self.lemma_view(keys@[i]);
            }
        }
        let mut expect: u64 = FIRST_HANDLE;
        let mut i: usize = 0;
        while i < keys.len()
            invariant
                i <= keys.len() < MAX_HANDLES,
                expect == FIRST_HANDLE + i,
                self@.dom() == keys@.to_set(),
                forall|a: int, b: int| 0 <= a < b < keys@.len() ==> keys@[a] < keys@[b],
                forall|a: int| 0 <= a < keys@.len() ==> keys@[a] >= FIRST_HANDLE,
                forall|a: int| 0 <= a < i ==> keys@[a] == FIRST_HANDLE + a,
            decreases keys.len() - i,
        {
            if keys[i] != expect {
                proof {
                    assert(keys@[i as int] > expect) by {
                        if i > 0 {
                            assert(keys@[i - 1] < keys@[i as int]);
                        }
                    }
                    assert(!keys@.contains(expect)) by {
                        if keys@.contains(expect) {
                            let a = choose|a: int| 0 <= a < keys@.len() && keys@[a] == expect;
                            if a < i {
                            } else if a > i {
                                assert(keys@[i as int] < keys@[a]);
                            }
                        }
                    }
                    assert forall|k: u64| FIRST_HANDLE <= k < expect implies self@.dom().contains(
                        k,
                    ) by {
                        assert(keys@[k - FIRST_HANDLE] == k);
                    }
                }
                return expect;
            }
            expect = expect + 1;
            i = i + 1;
        }
        proof {
            assert(!keys@.contains(expect)) by {
                if keys@.contains(expect) {
                    let a = choose|a: int| 0 <= a < keys@.len() && keys@[a] == expect;
                }
            }
            assert forall|k: u64| FIRST_HANDLE <= k < expect implies self@.dom().contains(k) by {
                assert(keys@[k - FIRST_HANDLE] == k);
            }
        }
        expect
    }

    /// Binds `fid` to a handle and returns the handle. An identifier that is
    /// bound keeps its handle; another gets the smallest free one.
    pub fn bind(&mut self, fid: &Fid) -> (h: u64)
        requires
            old(self).wf(),
            old(self)@.dom().len() < MAX_HANDLES,
        ensures
            handle_of(old(self)@, *fid) matches Some(k) ==> h == k && final(self)@ == old(self)@,
            handle_of(old(self)@, *fid) is None ==> is_smallest_free(old(self)@.dom(), h)
                && final(self)@ == old(self)@.insert(h, *fid),
            h == bound_handle(old(self)@, *fid),
            final(self)@ == after_bind(old(self)@, *fid),
            final(self).wf(),
    {
        match self.find(fid) {
            Some(h) => h,
            None => {
                let h = self.next_fh();
                put_pair(&mut self.pairs, h, encode(fid));
                proof {
                    old(self).lemma_view_bound(*self, h, *fid);
                    lemma_smallest_free_unique(old(self)@.dom(), h, smallest_free(old(self)@.dom()));
                }
                h
            },
        }
    }

    /// Unbinds `fh`. Returns whether it was bound.
    pub fn release(&mut self, fh: u64) -> (r: bool)
        requires
            old(self).wf(),
        ensures
            r == old(self)@.contains_key(fh),
            final(self)@ == old(self)@.remove(fh),
            final(self).wf(),
    {
        proof {
            old(self).lemma_view(fh);
        }
        let r = take_pair(&mut self.pairs, fh);
        proof {
            old(self).lemma_view_removed(*self, fh);
        }
        r
    }
}

/// The code of an identifier.
fn encode(fid: &Fid) -> (c: FidCode)
    ensures
        c == fid_code(*fid),
{
    match fid {
        Fid::Root => (0u8, 0u128),
        Fid::Remote(v) => (1u8, *v),
        Fid::BackupRoot => (2u8, 0u128),
        Fid::RecycleRoot => (3u8, 0u128),
        Fid::LocalWrite(n) => (4u8, *n as u128),
    }
}

/// The identifier that a code stands for.
fn decode(c: FidCode) -> (f: Fid)
    requires
        is_fid_code(c),
    ensures
        f == code_fid(c),
{
    let f = if c.0 == 0 {
        Fid::Root
    } else if c.0 == 1 {
        Fid::Remote(c.1)
    } else if c.0 == 2 {
        Fid::BackupRoot
    } else if c.0 == 3 {
        Fid::RecycleRoot
    } else {
        Fid::LocalWrite(c.1 as usize)
    };
    proof {
        let g = code_fid(c);
        assert(fid_code(g) == c);
        assert(fid_code(f) == c);
    }
    f
}

} // verus!
