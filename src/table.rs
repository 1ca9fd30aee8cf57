use vstd::prelude::*;

use crate::values::ModelError;

verus! {

/// One stored record: its internal key, its external identifier, when it was
/// written first and last, and the entity's own fields.
pub struct Entry<R> {
    pub id: i32,
    pub pid: u128,
    pub created_at: i64,
    pub updated_at: i64,
    pub data: R,
}

/// The largest internal key plus one: once `next_id` reaches it no key is left.
pub const KEY_LIMIT: i64 = 2147483648;

/// A table of records with auto-increment keys and unique external identifiers.
pub struct Table<R> {
    pub rows: Vec<Entry<R>>,
    pub next_id: i64,
}

impl<R> View for Table<R> {
    type V = Seq<Entry<R>>;

    open spec fn view(&self) -> Seq<Entry<R>> {
        self.rows@
    }
}

impl<R> Table<R> {
    /// Keys and identifiers are unique, and every key lies below the next one
    /// that will be handed out.
    pub open spec fn wf(&self) -> bool {
        &&& 1 <= self.next_id <= KEY_LIMIT
        &&& forall|i: int| 0 <= i < self@.len() ==> #[trigger] self@[i].id < self.next_id
        &&& forall|i: int, j: int|
            0 <= i < self@.len() && 0 <= j < self@.len() && i != j ==> #[trigger] self@[i].id
                != #[trigger] self@[j].id
        &&& forall|i: int, j: int|
            0 <= i < self@.len() && 0 <= j < self@.len() && i != j ==> #[trigger] self@[i].pid
                != #[trigger] self@[j].pid
    }

    pub open spec fn has_pid(&self, pid: u128) -> bool {
        exists|i: int| 0 <= i < self@.len() && #[trigger] self@[i].pid == pid
    }

    pub open spec fn has_id(&self, id: i32) -> bool {
        exists|i: int| 0 <= i < self@.len() && #[trigger] self@[i].id == id
    }

    /// Where the record with this external identifier stands (meaningful when
    /// there is one).
    pub open spec fn pos_of(&self, pid: u128) -> int {
        choose|i: int| 0 <= i < self@.len() && self@[i].pid == pid
    }

    /// Where the record with this internal key stands (meaningful when there is one).
    pub open spec fn pos_of_key(&self, id: i32) -> int {
        choose|i: int| 0 <= i < self@.len() && self@[i].id == id
    }

    /// The record with this internal key.
    pub open spec fn row_of_key(&self, id: i32) -> Entry<R> {
        self@[self.pos_of_key(id)]
    }

    pub proof fn lemma_pos_of_key(&self, i: int)
        requires
            self.wf(),
            0 <= i < self@.len(),
        ensures
            self.pos_of_key(self@[i].id) == i,
            self.row_of_key(self@[i].id) == self@[i],
    {
        let j = self.pos_of_key(self@[i].id);
        assert(0 <= j < self@.len() && self@[j].id == self@[i].id);
    }

    /// The internal key of the record with this external identifier.
    pub open spec fn key_of(&self, pid: u128) -> i32 {
        self@[self.pos_of(pid)].id
    }

    /// The records after the one at `i` got new fields at time `now`, keeping
    /// its key, identifier and creation time.
    pub open spec fn rewritten(&self, i: int, data: R, now: i64) -> Seq<Entry<R>> {
        self@.update(
            i,
            Entry {
                id: self@[i].id,
                pid: self@[i].pid,
                created_at: self@[i].created_at,
                updated_at: now,
                data,
            },
        )
    }

    /// What inserting a record with this identifier must answer: a taken
    /// identifier or an exhausted key space refuses it, else it succeeds.
    pub open spec fn insert_verdict(&self, pid: u128, r: Result<i32, ModelError>) -> bool {
        &&& self.has_pid(pid) ==> r == Err::<i32, ModelError>(ModelError::DuplicatePid)
        &&& !self.has_pid(pid) && self.next_id == KEY_LIMIT ==> r == Err::<i32, ModelError>(
            ModelError::IdsExhausted,
        )
        &&& !self.has_pid(pid) && self.next_id < KEY_LIMIT ==> r is Ok
    }

    /// What inserting under a freshly drawn identifier can answer: success, or
    /// a clash of the drawn identifier, or an exhausted key space, the last
    /// exactly when no key is left.
    pub open spec fn draw_verdict(&self, r: Result<i32, ModelError>) -> bool {
        &&& r is Ok || r == Err::<i32, ModelError>(ModelError::DuplicatePid) || r == Err::<
            i32,
            ModelError,
        >(ModelError::IdsExhausted)
        &&& self.next_id == KEY_LIMIT ==> r is Err
        &&& self.next_id < KEY_LIMIT ==> r != Err::<i32, ModelError>(ModelError::IdsExhausted)
    }

    /// `after` is this table with one record added under the next key `id`.
    pub open spec fn inserted(&self, after: Self, id: i32, pid: u128, now: i64, data: R) -> bool {
        &&& id == self.next_id
        &&& after.next_id == self.next_id + 1
        &&& after@ == self@.push(Entry { id, pid, created_at: now, updated_at: now, data })
    }

    pub proof fn lemma_pos_of(&self, i: int)
        requires
            self.wf(),
            0 <= i < self@.len(),
        ensures
            self.pos_of(self@[i].pid) == i,
            self.key_of(self@[i].pid) == self@[i].id,
    {
        let j = self.pos_of(self@[i].pid);
        assert(0 <= j < self@.len() && self@[j].pid == self@[i].pid);
    }

    /// An empty table whose first key will be 1.
    pub fn new() -> (t: Self)
        ensures
            t.wf(),
            t@ == Seq::<Entry<R>>::empty(),
            t.next_id == 1,
    {
        Table { rows: Vec::new(), next_id: 1 }
    }

    pub fn len(&self) -> (n: usize)
        ensures
            n == self@.len(),
    {
        self.rows.len()
    }

    pub fn get(&self, i: usize) -> (e: &Entry<R>)
        requires
            i < self@.len(),
        ensures
            *e == self@[i as int],
    {
        &self.rows[i]
    }

    /// Where the record with this external identifier stands.
    pub fn index_of_pid(&self, pid: u128) -> (r: Option<usize>)
        ensures
            match r {
                Some(i) => {
                    &&& i < self@.len()
                    &&& self@[i as int].pid == pid
                    &&& self.wf() ==> self.pos_of(pid) == i
                },
                None => !self.has_pid(pid),
            },
    {
        let mut i: usize = 0;
        while i < self.rows.len()
            invariant
                i <= self@.len(),
                forall|k: int| 0 <= k < i ==> #[trigger] self@[k].pid != pid,
            decreases self@.len() - i,
        {
            if self.rows[i].pid == pid {
                proof {
                    if self.wf() {
                        self.lemma_pos_of(i as int);
                    }
                }
                return Some(i);
            }
            i = i + 1;
        }
        None
    }

    /// Where the record with this internal key stands.
    pub fn index_of_id(&self, id: i32) -> (r: Option<usize>)
        ensures
            match r {
                Some(i) => {
                    &&& i < self@.len()
                    &&& self@[i as int].id == id
                    &&& self.wf() ==> self.pos_of_key(id) == i
                },
                None => !self.has_id(id),
            },
    {
        let mut i: usize = 0;
        while i < self.rows.len()
            invariant
                i <= self@.len(),
                forall|k: int| 0 <= k < i ==> #[trigger] self@[k].id != id,
            decreases self@.len() - i,
        {
            if self.rows[i].id == id {
                proof {
                    if self.wf() {
                        self.lemma_pos_of_key(i as int);
                    }
                }
                return Some(i);
            }
            i = i + 1;
        }
        None
    }

    /// The record with an internal key known to be present.
    pub fn get_by_id(&self, id: i32) -> (e: &Entry<R>)
        requires
            self.wf(),
            self.has_id(id),
        ensures
            *e == self.row_of_key(id),
            e.id == id,
    {
        match self.index_of_id(id) {
            Some(i) => &self.rows[i],
            None => vstd::pervasive::unreached(),
        }
    }

    /// The key of the record with this external identifier.
    pub fn key_of_pid(&self, pid: u128) -> (r: Option<i32>)
        requires
            self.wf(),
        ensures
            r is None <==> !self.has_pid(pid),
            r matches Some(k) ==> k == self.key_of(pid),
    {
        match self.index_of_pid(pid) {
            Some(i) => Some(self.rows[i].id),
            None => None,
        }
    }

    /// The record with this external identifier.
    pub fn find_by_pid(&self, pid: u128) -> (r: Result<&Entry<R>, ModelError>)
        requires
            self.wf(),
        ensures
            r is Err <==> !self.has_pid(pid),
            r is Err ==> r == Err::<&Entry<R>, ModelError>(ModelError::EntityNotFound),
            r matches Ok(e) ==> *e == self@[self.pos_of(pid)],
    {
        match self.index_of_pid(pid) {
            Some(i) => Ok(&self.rows[i]),
            None => Err(ModelError::EntityNotFound),
        }
    }

    /// The record with this internal key.
    pub fn find_by_id(&self, id: i32) -> (r: Result<&Entry<R>, ModelError>)
        ensures
            r is Err <==> !self.has_id(id),
            r is Err ==> r == Err::<&Entry<R>, ModelError>(ModelError::EntityNotFound),
            r matches Ok(e) ==> e.id == id && self@.contains(*e),
    {
        match self.index_of_id(id) {
            Some(i) => Ok(&self.rows[i]),
            None => Err(ModelError::EntityNotFound),
        }
    }

    /// The keys of the records that `keep` does not mark.
    pub fn dropped_ids(&self, keep: &Vec<bool>) -> (v: Vec<i32>)
        requires
            keep@.len() == self@.len(),
        ensures
            forall|key: i32|
                v@.contains(key) <==> exists|i: int|
                    0 <= i < self@.len() && !keep@[i] && #[trigger] self@[i].id == key,
    {
        let mut v: Vec<i32> = Vec::new();
        let mut i: usize = 0;
        while i < self.rows.len()
            invariant
                i <= self@.len(),
                keep@.len() == self@.len(),
                forall|key: i32|
                    v@.contains(key) <==> exists|j: int|
                        0 <= j < i && !keep@[j] && #[trigger] self@[j].id == key,
            decreases self@.len() - i,
        {
            let ghost before = v@;
            if !keep[i] {
                v.push(self.rows[i].id);
            }
            proof {
                assert forall|key: i32| v@.contains(key) <==> exists|j: int|
                    0 <= j < i + 1 && !keep@[j] && #[trigger] self@[j].id == key by {
                    if v@.contains(key) && !before.contains(key) {
                        assert(self@[i as int].id == key);
                    }
                    if exists|j: int| 0 <= j < i + 1 && !keep@[j] && #[trigger] self@[j].id == key {
                        let j = choose|j: int| 0 <= j < i + 1 && !keep@[j] && #[trigger] self@[j].id == key;
                        if j == i {
                            assert(v@[v@.len() - 1] == key);
                        } else {
                            assert(before.contains(key));
                            let m = choose|m: int| 0 <= m < before.len() && before[m] == key;
                            assert(v@[m] == key);
                        }
                    }
                }
            }
            i = i + 1;
        }
        v
    }

    /// A mark for each record: false for the record with key `id` when `hit`
    /// holds, true for all others.
    pub fn keep_all_but(&self, hit: bool, id: i32) -> (keep: Vec<bool>)
        ensures
            keep@.len() == self@.len(),
            forall|i: int| 0 <= i < keep@.len() ==> #[trigger] keep@[i] == !(hit && self@[i].id == id),
    {
        let mut keep: Vec<bool> = Vec::new();
        let mut i: usize = 0;
        while i < self.rows.len()
            invariant
                i <= self@.len(),
                keep@.len() == i,
                forall|j: int| 0 <= j < i ==> #[trigger] keep@[j] == !(hit && self@[j].id == id),
            decreases self@.len() - i,
        {
            keep.push(!(hit && self.rows[i].id == id));
            i = i + 1;
        }
        keep
    }

    /// Adds a record under the next key, with the given identifier, written at `now`.
    pub fn insert(&mut self, pid: u128, now: i64, data: R) -> (r: Result<i32, ModelError>)
        requires
            old(self).wf(),
        ensures
            final(self).wf(),
            old(self).insert_verdict(pid, r),
            r is Err ==> *final(self) == *old(self),
            r matches Ok(id) ==> old(self).inserted(*final(self), id, pid, now, data),
    {
        if self.index_of_pid(pid).is_some() {
            return Err(ModelError::DuplicatePid);
        }
        if self.next_id >= KEY_LIMIT {
            return Err(ModelError::IdsExhausted);
        }
        let id = self.next_id as i32;
        let ghost before = self@;
        self.rows.push(Entry { id, pid, created_at: now, updated_at: now, data });
        self.next_id = self.next_id + 1;
        assert forall|k: int| 0 <= k < before.len() implies #[trigger] self@[k].pid != pid
            && self@[k].id != id by {
            assert(self@[k] == before[k]);
        }
        Ok(id)
    }

    /// Puts back a record with the key and identifier it had, as a restore from
    /// a backup does; later keys are handed out above it.
    pub fn restore(&mut self, e: Entry<R>) -> (r: Result<(), ModelError>)
        requires
            old(self).wf(),
        ensures
            final(self).wf(),
            r == Err::<(), ModelError>(ModelError::DuplicateId) <==> old(self).has_id(e.id),
            r == Err::<(), ModelError>(ModelError::DuplicatePid) <==> !old(self).has_id(e.id)
                && old(self).has_pid(e.pid),
            !old(self).has_id(e.id) && !old(self).has_pid(e.pid) ==> r is Ok,
            r is Err ==> *final(self) == *old(self),
            r is Ok ==> {
                &&& final(self)@ == old(self)@.push(e)
                &&& final(self).next_id == if e.id < old(self).next_id {
                    old(self).next_id as int
                } else {
                    e.id + 1
                }
            },
    {
        if self.index_of_id(e.id).is_some() {
            return Err(ModelError::DuplicateId);
        }
        if self.index_of_pid(e.pid).is_some() {
            return Err(ModelError::DuplicatePid);
        }
        let id = e.id;
        let pid = e.pid;
        let ghost before = self@;
        self.rows.push(e);
        assert forall|k: int| 0 <= k < before.len() implies #[trigger] self@[k].pid != pid
            && self@[k].id != id by {
            assert(self@[k] == before[k]);
        }
        if id as i64 >= self.next_id {
            self.next_id = id as i64 + 1;
        }
        Ok(())
    }

    /// Overwrites the fields of the record at `i`, keeping its key, identifier
    /// and creation time, and stamping it as written at `now`.
    pub fn replace(&mut self, i: usize, data: R, now: i64)
        requires
            old(self).wf(),
            i < old(self)@.len(),
        ensures
            final(self).wf(),
            final(self).next_id == old(self).next_id,
            final(self)@ == old(self).rewritten(i as int, data, now),
    {
        let ghost before = self@;
        let old_entry = self.rows.remove(i);
        let e = Entry {
            id: old_entry.id,
            pid: old_entry.pid,
            created_at: old_entry.created_at,
            updated_at: now,
            data,
        };
        self.rows.insert(i, e);
        assert(self@ =~= before.update(i as int, e));
    }

    /// Keeps the records that `keep` marks and drops the others, in order.
    pub(crate) fn retain(&mut self, keep: &Vec<bool>, Ghost(pred): Ghost<spec_fn(Entry<R>) -> bool>)
        requires
            old(self).wf(),
            keep@.len() == old(self)@.len(),
            forall|i: int| 0 <= i < keep@.len() ==> keep@[i] == pred(#[trigger] old(self)@[i]),
        ensures
            final(self).wf(),
            final(self).next_id == old(self).next_id,
            final(self)@ == old(self)@.filter(pred),
    {
        let ghost s = self@;
        let mut i: usize = self.rows.len();
        while i > 0
            invariant
                i <= s.len(),
                keep@.len() == s.len(),
                forall|k: int| 0 <= k < keep@.len() ==> keep@[k] == pred(#[trigger] s[k]),
                self@ == s.take(i as int) + s.skip(i as int).filter(pred),
                self.next_id == old(self).next_id,
            decreases i,
        {
            let ghost prev = self@;
            i = i - 1;
            proof {
                let x = s[i as int];
                assert(s.skip(i as int) =~= seq![x] + s.skip(i as int + 1));
                Seq::filter_distributes_over_add(seq![x], s.skip(i as int + 1), pred);
                reveal_with_fuel(Seq::filter, 2);
                assert(seq![x].drop_last() =~= Seq::<Entry<R>>::empty());
                assert(prev =~= s.take(i as int).push(x) + s.skip(i as int + 1).filter(pred));
            }
            if !keep[i] {
                self.rows.remove(i);
                assert(self@ =~= s.take(i as int) + s.skip(i as int).filter(pred));
            } else {
                assert(self@ =~= s.take(i as int) + s.skip(i as int).filter(pred));
            }
        }
        assert(s.take(0) + s.skip(0).filter(pred) =~= s.filter(pred)) by {
            assert(s.skip(0) =~= s);
        }
        proof {
            lemma_filter_keeps_unique(s, pred, self.next_id);
        }
    }
}

/// Filtering a sequence of records keeps keys and identifiers unique and below
/// the given bound.
proof fn lemma_filter_keeps_unique<R>(s: Seq<Entry<R>>, pred: spec_fn(Entry<R>) -> bool, bound: i64)
    requires
        forall|i: int| 0 <= i < s.len() ==> #[trigger] s[i].id < bound,
        forall|i: int, j: int|
            0 <= i < s.len() && 0 <= j < s.len() && i != j ==> #[trigger] s[i].id != #[trigger] s[j].id,
        forall|i: int, j: int|
            0 <= i < s.len() && 0 <= j < s.len() && i != j ==> #[trigger] s[i].pid
                != #[trigger] s[j].pid,
    ensures
        ({
            let f = s.filter(pred);
            &&& forall|i: int| 0 <= i < f.len() ==> #[trigger] f[i].id < bound
            &&& forall|i: int, j: int|
                0 <= i < f.len() && 0 <= j < f.len() && i != j ==> #[trigger] f[i].id
                    != #[trigger] f[j].id
            &&& forall|i: int, j: int|
                0 <= i < f.len() && 0 <= j < f.len() && i != j ==> #[trigger] f[i].pid
                    != #[trigger] f[j].pid
        }),
    decreases s.len(),
{
    reveal(Seq::filter);
    if s.len() > 0 {
        let init = s.drop_last();
        lemma_filter_keeps_unique(init, pred, bound);
        let fi = init.filter(pred);
        assert forall|k: int| 0 <= k < fi.len() implies (#[trigger] fi[k]).id != s.last().id
            && fi[k].pid != s.last().pid by {
            let j = lemma_filter_member(init, pred, k);
            assert(s[j] == init[j]);
            assert(s[j].id != s[s.len() - 1].id);
            assert(s[j].pid != s[s.len() - 1].pid);
        }
        let f = s.filter(pred);
        if pred(s.last()) {
            assert(f == fi.push(s.last()));
            assert forall|a: int, b: int| 0 <= a < f.len() && 0 <= b < f.len() && a != b implies
                #[trigger] f[a].id != #[trigger] f[b].id by {
                if a < fi.len() && b < fi.len() {
                    assert(f[a] == fi[a] && f[b] == fi[b]);
                } else if a < fi.len() {
                    assert(f[a] == fi[a]);
                } else if b < fi.len() {
                    assert(f[b] == fi[b]);
                }
            }
            assert forall|a: int, b: int| 0 <= a < f.len() && 0 <= b < f.len() && a != b implies
                #[trigger] f[a].pid != #[trigger] f[b].pid by {
                if a < fi.len() && b < fi.len() {
                    assert(f[a] == fi[a] && f[b] == fi[b]);
                } else if a < fi.len() {
                    assert(f[a] == fi[a]);
                } else if b < fi.len() {
                    assert(f[b] == fi[b]);
                }
            }
            assert forall|a: int| 0 <= a < f.len() implies #[trigger] f[a].id < bound by {
                if a < fi.len() {
                    assert(f[a] == fi[a]);
                }
            }
        } else {
            assert(f == fi);
        }
    }
}

/// Each record of a filtered sequence stands somewhere in the unfiltered one.
pub proof fn lemma_filter_member<R>(s: Seq<Entry<R>>, pred: spec_fn(Entry<R>) -> bool, k: int) -> (j: int)
    requires
        0 <= k < s.filter(pred).len(),
    ensures
        0 <= j < s.len(),
        s[j] == s.filter(pred)[k],
    decreases s.len(),
{
    reveal(Seq::filter);
    let init = s.drop_last();
    if k < init.filter(pred).len() {
        let j = lemma_filter_member(init, pred, k);
        assert(s[j] == init[j]);
        j
    } else {
        s.len() - 1
    }
}

/// Whether a list of keys holds `key`.
pub fn listed(v: &Vec<i32>, key: i32) -> (b: bool)
    ensures
        b == v@.contains(key),
{
    let mut i: usize = 0;
    while i < v.len()
        invariant
            i <= v@.len(),
            forall|j: int| 0 <= j < i ==> v@[j] != key,
        decreases v@.len() - i,
    {
        if v[i] == key {
            return true;
        }
        i = i + 1;
    }
    false
}

/// Filtering a sequence with one more element at its end.
pub proof fn lemma_filter_push<A>(x: Seq<A>, a: A, pred: spec_fn(A) -> bool)
    ensures
        x.push(a).filter(pred) == if pred(a) {
            x.filter(pred).push(a)
        } else {
            x.filter(pred)
        },
{
    reveal_with_fuel(Seq::filter, 1);
    assert(x.push(a).drop_last() =~= x);
    assert(x.push(a).last() == a);
    assert(x.push(a).len() > 0);
}

/// A record that the filter keeps leaves its key in the filtered sequence.
pub proof fn lemma_filter_keeps_id<R>(s: Seq<Entry<R>>, pred: spec_fn(Entry<R>) -> bool, j: int)
    requires
        0 <= j < s.len(),
        pred(s[j]),
    ensures
        exists|k: int| 0 <= k < s.filter(pred).len() && #[trigger] s.filter(pred)[k].id == s[j].id,
{
    s.lemma_filter_contains(pred, j);
    let k = s.filter(pred).index_of(s[j]);
    assert(s.filter(pred)[k].id == s[j].id);
}

/// Every key and identifier of `a` is still in `b` when `b` keeps `a`'s
/// records in place with their keys and identifiers.
pub proof fn lemma_keys_kept<R>(a: Table<R>, b: Table<R>)
    requires
        a@.len() <= b@.len(),
        forall|i: int| 0 <= i < a@.len() ==> (#[trigger] b@[i]).id == a@[i].id && b@[i].pid == a@[i].pid,
    ensures
        forall|id: i32| a.has_id(id) ==> b.has_id(id),
        forall|pid: u128| a.has_pid(pid) ==> b.has_pid(pid),
{
    assert forall|id: i32| a.has_id(id) implies b.has_id(id) by {
        let i = choose|i: int| 0 <= i < a@.len() && #[trigger] a@[i].id == id;
        assert(b@[i].id == id);
    }
    assert forall|pid: u128| a.has_pid(pid) implies b.has_pid(pid) by {
        let i = choose|i: int| 0 <= i < a@.len() && #[trigger] a@[i].pid == pid;
        assert(b@[i].pid == pid);
    }
}

} // verus!
