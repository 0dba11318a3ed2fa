//! The store: a table of image records keyed by a 128-bit identifier, with
//! insert-once semantics, keyed retrieval and deletion, and aggregate
//! accounting (record count and total stored bytes).

use vstd::prelude::*;

verus! {

/// One stored image record: a client-supplied 128-bit identifier, the raw
/// encoded bytes exactly as uploaded, and the Unix timestamp (seconds) that
/// the record was created with.
pub struct Image {
    pub id: u128,
    pub data: Vec<u8>,
    pub date: u32,
}

/// The mathematical model of one record.
pub ghost struct ImageModel {
    pub id: u128,
    pub data: Seq<u8>,
    pub date: u32,
}

impl View for Image {
    type V = ImageModel;

    open spec fn view(&self) -> ImageModel {
        ImageModel { id: self.id, data: self.data@, date: self.date }
    }
}

/// The ways a store operation can fail.
#[derive(Clone, Copy, Debug, PartialEq, Eq, Structural)]
pub enum StoreError {
    /// An insert collided with an existing id.
    DuplicateId,
    /// Any other storage fault (an I/O failure of a persistent backend).
    Fault,
}

/// No two records in the table carry the same id.
pub open spec fn unique_ids(s: Seq<ImageModel>) -> bool {
    forall|i: int, j: int|
        0 <= i < s.len() && 0 <= j < s.len() && i != j ==> s[i].id != s[j].id
}

/// Whether some record in the table carries `id`.
pub open spec fn contains_id(s: Seq<ImageModel>, id: u128) -> bool {
    exists|i: int| 0 <= i < s.len() && s[i].id == id
}

/// The index of the record carrying `id` (meaningful only when present;
/// unique whenever `unique_ids` holds).
pub open spec fn index_of_id(s: Seq<ImageModel>, id: u128) -> int {
    choose|i: int| 0 <= i < s.len() && s[i].id == id
}

/// The record stored under `id`, if any.
pub open spec fn record_of(s: Seq<ImageModel>, id: u128) -> Option<ImageModel> {
    if contains_id(s, id) {
        Some(s[index_of_id(s, id)])
    } else {
        None
    }
}

/// The total number of data bytes held by the table.
pub open spec fn total_size(s: Seq<ImageModel>) -> int
    decreases s.len(),
{
    if s.len() == 0 {
        0
    } else {
        total_size(s.drop_last()) + s.last().data.len()
    }
}

/// The persistence component: owns the table of image records. Records are
/// created only by `add`, never updated, and destroyed only by `delete` or
/// `clear`; ids stay unique across the table's lifetime, an invariant every
/// value of this type carries.
pub struct Database {
    images: Vec<Image>,
}

impl View for Database {
    type V = Seq<ImageModel>;

    closed spec fn view(&self) -> Seq<ImageModel> {
        self.images@.map_values(|img: Image| img@)
    }
}

impl Database {
    /// The table's invariant: ids are unique across its lifetime.
    #[verifier::type_invariant]
    spec fn wf(&self) -> bool {
        unique_ids(self@)
    }

    /// Creates an empty store.
    pub fn new() -> (r: Database)
        ensures
            r@ == Seq::<ImageModel>::empty(),
    {
        let s = Database { images: Vec::new() };
        proof {
            assert(s@ =~= Seq::<ImageModel>::empty());
        }
        s
    }

    /// Finds the position of the record carrying `id`, if any.
    fn find_index(&self, id: u128) -> (r: Option<usize>)
        ensures
            match r {
                Some(j) => j < self@.len() && self@[j as int].id == id,
                None => !contains_id(self@, id),
            },
    {
        let n = self.images.len();
        let mut k: usize = 0;
        while k < n
            invariant
                n == self@.len(),
                k <= n,
                forall|i: int| 0 <= i < k ==> self@[i].id != id,
            decreases n - k,
        {
            if self.images[k].id == id {
                return Some(k);
            }
            k = k + 1;
        }
        None
    }

    /// Inserts a new record `(id, data, date)`. Fails with `DuplicateId`,
    /// leaving the table unchanged, exactly when `id` is already present;
    /// otherwise appends the record.
    pub fn add(&mut self, id: u128, data: Vec<u8>, date: u32) -> (r: Result<(), StoreError>)
        ensures
            contains_id(old(self)@, id) ==> r == Err::<(), StoreError>(StoreError::DuplicateId)
                && final(self)@ == old(self)@,
            !contains_id(old(self)@, id) ==> r == Ok::<(), StoreError>(())
                && final(self)@ == old(self)@.push(
                    (ImageModel { id, data: data@, date }),
                ),
    {
        proof {
            use_type_invariant(&*self);
        }
        match self.find_index(id) {
            Some(_) => Err(StoreError::DuplicateId),
            None => {
                let ghost old_view = self@;
                let img = Image { id, data, date };
                let ghost m = img@;
                let mut imgs: Vec<Image> = Vec::new();
                std::mem::swap(&mut imgs, &mut self.images);
                imgs.push(img);
                proof {
                    let new_view = imgs@.map_values(|i: Image| i@);
                    assert(new_view =~= old_view.push(m));
                    assert forall|i: int, j: int|
                        0 <= i < new_view.len() && 0 <= j < new_view.len() && i != j
                        implies new_view[i].id != new_view[j].id by {
                        if i < old_view.len() && j < old_view.len() {
                        } else if i == old_view.len() {
                            assert(new_view[j] == old_view[j]);
                        } else {
                            assert(new_view[i] == old_view[i]);
                        }
                    }
                }
                std::mem::swap(&mut imgs, &mut self.images);
                Ok(())
            },
        }
    }

    /// Returns the record stored under `id`, or `None` when absent: absence
    /// is a normal outcome, not a fault.
    pub fn get(&self, id: u128) -> (r: Option<&Image>)
        ensures
            match r {
                Some(img) => record_of(self@, id) == Some(img@),
                None => !contains_id(self@, id),
            },
    {
        proof {
            use_type_invariant(self);
        }
        match self.find_index(id) {
            Some(j) => {
                let img = &self.images[j];
                proof {
                    assert(contains_id(self@, id));
                    let i = index_of_id(self@, id);
                    assert(self@[i].id == id);
                    assert(i == j);
                }
                Some(img)
            },
            None => None,
        }
    }

    /// Deletes the record under `id` if present; returns whether a record
    /// was actually removed (`true` = existed and removed, `false` = did
    /// not exist). Absence is signalled, never an error.
    pub fn delete(&mut self, id: u128) -> (r: bool)
        ensures
            r == contains_id(old(self)@, id),
            r ==> final(self)@ == old(self)@.remove(index_of_id(old(self)@, id)),
            !r ==> final(self)@ == old(self)@,
    {
        proof {
            use_type_invariant(&*self);
        }
        match self.find_index(id) {
            Some(j) => {
                let ghost old_view = self@;
                let mut imgs: Vec<Image> = Vec::new();
                std::mem::swap(&mut imgs, &mut self.images);
                let _ = imgs.remove(j);
                proof {
                    assert(contains_id(old_view, id));
                    let i = index_of_id(old_view, id);
                    assert(old_view[i].id == id);
                    assert(i == j);
                    let new_view = imgs@.map_values(|im: Image| im@);
                    assert(new_view =~= old_view.remove(j as int));
                    lemma_remove_keeps_unique(old_view, j as int);
                }
                std::mem::swap(&mut imgs, &mut self.images);
                true
            },
            None => false,
        }
    }

    /// The aggregate summary: how many records the table holds, and the sum
    /// of all their data lengths. An empty table reads `(0, 0)`.
    pub fn stats(&self) -> (r: (usize, u128))
        ensures
            r.0 == self@.len(),
            r.1 == total_size(self@),
    {
        let n = self.images.len();
        let mut total: u128 = 0;
        let mut k: usize = 0;
        while k < n
            invariant
                n == self@.len(),
                n == self.images@.len(),
                k <= n,
                total == total_size(self@.take(k as int)),
                total <= (k as u128) * (usize::MAX as u128),
            decreases n - k,
        {
            let len = self.images[k].data.len();
            proof {
                assert(self@.take(k as int + 1).drop_last() =~= self@.take(k as int));
                assert(self@.take(k as int + 1).last() == self@[k as int]);
                assert(self@[k as int].data.len() == len);
                assert((k as u128) * (usize::MAX as u128) + (usize::MAX as u128) == (
                (k + 1) as u128) * (usize::MAX as u128)) by (nonlinear_arith);
                assert(((k + 1) as u128) * (usize::MAX as u128) <= (n as u128) * (
                usize::MAX as u128)) by (nonlinear_arith)
                    requires
                        k + 1 <= n,
                ;
                assert((n as u128) * (usize::MAX as u128) <= u128::MAX) by (nonlinear_arith)
                    requires
                        n <= usize::MAX,
                        usize::MAX < 0x10000000000000000,
                ;
            }
            total = total + len as u128;
            k = k + 1;
        }
        proof {
            assert(self@.take(n as int) =~= self@);
        }
        (n, total)
    }

    /// Atomically computes the aggregate summary, then deletes every record.
    /// Returns the pre-deletion summary; an already-empty table yields
    /// `(0, 0)`.
    pub fn clear(&mut self) -> (r: (usize, u128))
        ensures
            r.0 == old(self)@.len(),
            r.1 == total_size(old(self)@),
            final(self)@ == Seq::<ImageModel>::empty(),
    {
        let r = self.stats();
        let mut imgs: Vec<Image> = Vec::new();
        std::mem::swap(&mut imgs, &mut self.images);
        proof {
            assert(self@ =~= Seq::<ImageModel>::empty());
        }
        r
    }
}

/// Removing one record from a table of unique ids leaves the ids unique.
proof fn lemma_remove_keeps_unique(s: Seq<ImageModel>, k: int)
    requires
        unique_ids(s),
        0 <= k < s.len(),
    ensures
        unique_ids(s.remove(k)),
{
    let t = s.remove(k);
    assert forall|i: int, j: int|
        0 <= i < t.len() && 0 <= j < t.len() && i != j implies t[i].id != t[j].id by {
        let i0 = if i < k { i } else { i + 1 };
        let j0 = if j < k { j } else { j + 1 };
        assert(t[i] == s[i0]);
        assert(t[j] == s[j0]);
    }
}

/// Relies on std::time::SystemTime: reads the system clock as whole seconds
/// since the Unix epoch, or nothing when the clock reads earlier than the
/// epoch. The reading depends on the moment of the call, so nothing more is
/// assumed of it.
#[verifier::external_body]
fn clock_seconds_since_epoch() -> (r: Option<u64>) {
    match std::time::SystemTime::now().duration_since(std::time::UNIX_EPOCH) {
        Ok(d) => Some(d.as_secs()),
        Err(_) => None,
    }
}

/// Reads the clock as the 32-bit Unix timestamp a new record is stamped
/// with; reports a storage fault when the clock reads earlier than the
/// epoch. Whatever the clock returned, the only error this can report is
/// that fault.
pub fn unix_epoc() -> (r: Result<u32, StoreError>)
    ensures
        r matches Err(e) ==> e == StoreError::Fault,
{
    match clock_seconds_since_epoch() {
        Some(s) => Ok(#[verifier::truncate] (s as u32)),
        None => Err(StoreError::Fault),
    }
}

} // verus!
