//! Laws of the store, stated over its mathematical model and proved once and
//! for all: what an insert makes retrievable, what a delete makes
//! irretrievable, that inserts under distinct ids are independent, and that
//! the aggregate summary accounts for every stored byte.

use vstd::prelude::*;

use crate::store::{contains_id, index_of_id, record_of, total_size, unique_ids, ImageModel};

verus! {

/// Law: a record added under a fresh id is afterwards retrievable, with
/// exactly the bytes and the timestamp it was stored with.
pub proof fn lemma_round_trip(s: Seq<ImageModel>, m: ImageModel)
    requires
        unique_ids(s),
        !contains_id(s, m.id),
    ensures
        record_of(s.push(m), m.id) == Some(m),
{
    let t = s.push(m);
    assert(t[s.len() as int] == m);
    assert(contains_id(t, m.id));
    let i = index_of_id(t, m.id);
    assert(0 <= i < t.len() && t[i].id == m.id);
    if i < s.len() {
        assert(s[i] == t[i]);
        assert(contains_id(s, m.id));
    }
}

/// Law: an insert under one id changes nothing about what is retrievable
/// under any other id.
pub proof fn lemma_add_independent(s: Seq<ImageModel>, m: ImageModel, other: u128)
    requires
        unique_ids(s),
        other != m.id,
    ensures
        record_of(s.push(m), other) == record_of(s, other),
{
    let t = s.push(m);
    if contains_id(s, other) {
        let i = index_of_id(s, other);
        assert(t[i] == s[i]);
        assert(contains_id(t, other));
        let j = index_of_id(t, other);
        assert(0 <= j < t.len() && t[j].id == other);
        assert(j < s.len());
        assert(s[j] == t[j]);
        assert(unique_ids(s) && s[i].id == other && s[j].id == other);
        assert(i == j);
    } else {
        if contains_id(t, other) {
            let j = index_of_id(t, other);
            assert(0 <= j < t.len() && t[j].id == other);
            assert(j < s.len());
            assert(s[j] == t[j]);
            assert(contains_id(s, other));
        }
    }
}

/// Law: after the record under an id is deleted, nothing is retrievable
/// under that id.
pub proof fn lemma_removed_not_found(s: Seq<ImageModel>, id: u128)
    requires
        unique_ids(s),
        contains_id(s, id),
    ensures
        !contains_id(s.remove(index_of_id(s, id)), id),
{
    let k = index_of_id(s, id);
    assert(0 <= k < s.len() && s[k].id == id);
    let t = s.remove(k);
    if contains_id(t, id) {
        let j = index_of_id(t, id);
        assert(0 <= j < t.len() && t[j].id == id);
        let j0 = if j < k {
            j
        } else {
            j + 1
        };
        assert(t[j] == s[j0]);
        assert(s[j0].id == id && s[k].id == id && j0 != k);
    }
}

/// Law: the aggregate accounting is additive — adding one record grows the
/// total size by exactly that record's size and the count by one.
pub proof fn lemma_total_size_push(s: Seq<ImageModel>, m: ImageModel)
    ensures
        total_size(s.push(m)) == total_size(s) + m.data.len(),
        s.push(m).len() == s.len() + 1,
{
    assert(s.push(m).drop_last() =~= s);
    assert(s.push(m).last() == m);
}

/// Law: an empty table reads an aggregate summary of zero records and zero
/// bytes — in particular, stats right after a clear reads `(0, 0)`.
pub proof fn lemma_empty_summary()
    ensures
        total_size(Seq::<ImageModel>::empty()) == 0,
        Seq::<ImageModel>::empty().len() == 0,
{
}

} // verus!
