//! The laws of the catalog: what adding, looking up, borrowing and
//! returning guarantee, stated over the catalog's mathematical model
//! and proved once for all inputs.

use vstd::prelude::*;
use crate::catalog::{
    RecordView, record_matches, find_first, find_id_idx, spec_make_id, spec_new_record,
    spec_insert, spec_add, spec_borrow, spec_return, lemma_find_first, lemma_find_id_idx,
};
use crate::hex::{spec_hex, lemma_spec_hex_injective};

verus! {

/// An inserted record is present in the resulting catalog.
pub proof fn lemma_insert_present(c: Seq<RecordView>, r: RecordView)
    ensures
        exists|i: int| 0 <= i < spec_insert(c, r).len() && spec_insert(c, r)[i] == r,
{
    lemma_find_id_idx(c, r.id);
    match find_id_idx(c, r.id) {
        Some(j) => {
            assert(spec_insert(c, r)[j] == r);
        },
        None => {
            assert(spec_insert(c, r)[c.len() as int] == r);
        },
    }
}

/// Adding a record for a title and author, then looking the same pair
/// up, always yields an identifier, whatever the random component.
pub proof fn lemma_add_then_find(c: Seq<RecordView>, t: Seq<char>, a: Seq<char>, key: u64)
    ensures
        find_first(spec_add(c, t, a, key), t, a) is Some,
{
    let r = spec_new_record(t, a, key);
    let c2 = spec_add(c, t, a, key);
    lemma_insert_present(c, r);
    let i = choose|i: int| 0 <= i < c2.len() && c2[i] == r;
    lemma_find_first(c2, t, a);
    if find_first(c2, t, a) is None {
        assert(!record_matches(c2[i], t, a));
        assert(false);
    }
}

/// A freshly added record is present and not borrowed, whatever the
/// random component.
pub proof fn lemma_added_record_available(c: Seq<RecordView>, t: Seq<char>, a: Seq<char>, key: u64)
    ensures
        spec_new_record(t, a, key).borrowed == false,
        exists|i: int|
            0 <= i < spec_add(c, t, a, key).len() && spec_add(c, t, a, key)[i] == spec_new_record(
                t,
                a,
                key,
            ),
{
    let r = spec_new_record(t, a, key);
    lemma_insert_present(c, r);
    let i = choose|i: int| 0 <= i < spec_insert(c, r).len() && spec_insert(c, r)[i] == r;
    assert(spec_add(c, t, a, key) == spec_insert(c, r));
    assert(0 <= i < spec_add(c, t, a, key).len() && spec_add(c, t, a, key)[i] == r);
}

/// Borrowing a record found available succeeds and changes exactly
/// that record's flag to borrowed.
pub proof fn lemma_borrow_available(c: Seq<RecordView>, t: Seq<char>, a: Seq<char>, i: int)
    requires
        find_first(c, t, a) == Some(i),
        0 <= i < c.len(),
        !c[i].borrowed,
    ensures
        spec_borrow(c, t, a).1,
        spec_borrow(c, t, a).0 == c.update(
            i,
            RecordView { id: c[i].id, title: c[i].title, author: c[i].author, borrowed: true },
        ),
{
}

/// Borrowing a record found already borrowed fails and changes
/// nothing.
pub proof fn lemma_borrow_already_borrowed(c: Seq<RecordView>, t: Seq<char>, a: Seq<char>, i: int)
    requires
        find_first(c, t, a) == Some(i),
        0 <= i < c.len(),
        c[i].borrowed,
    ensures
        !spec_borrow(c, t, a).1,
        spec_borrow(c, t, a).0 == c,
{
}

/// Returning a record found borrowed succeeds and changes exactly
/// that record's flag to available.
pub proof fn lemma_return_borrowed(c: Seq<RecordView>, t: Seq<char>, a: Seq<char>, i: int)
    requires
        find_first(c, t, a) == Some(i),
        0 <= i < c.len(),
        c[i].borrowed,
    ensures
        spec_return(c, t, a).1,
        spec_return(c, t, a).0 == c.update(
            i,
            RecordView { id: c[i].id, title: c[i].title, author: c[i].author, borrowed: false },
        ),
{
}

/// Returning a record found available fails and changes nothing.
pub proof fn lemma_return_available(c: Seq<RecordView>, t: Seq<char>, a: Seq<char>, i: int)
    requires
        find_first(c, t, a) == Some(i),
        0 <= i < c.len(),
        !c[i].borrowed,
    ensures
        !spec_return(c, t, a).1,
        spec_return(c, t, a).0 == c,
{
}

/// A failed borrow changes nothing, so a second attempt on the same
/// pair fails the same way: no state drifts between the two.
pub proof fn lemma_failed_borrow_idempotent(c: Seq<RecordView>, t: Seq<char>, a: Seq<char>)
    requires
        !spec_borrow(c, t, a).1,
    ensures
        spec_borrow(c, t, a).0 == c,
        spec_borrow(spec_borrow(c, t, a).0, t, a) == spec_borrow(c, t, a),
{
}

/// Borrowing or returning a pair that no record matches reports
/// success and changes nothing.
pub proof fn lemma_missing_reports_success(c: Seq<RecordView>, t: Seq<char>, a: Seq<char>)
    requires
        find_first(c, t, a) is None,
    ensures
        spec_borrow(c, t, a) == (c, true),
        spec_return(c, t, a) == (c, true),
{
}

/// Identifiers built for one title from distinct random components
/// are distinct.
pub proof fn lemma_make_id_injective(t: Seq<char>, k1: u64, k2: u64)
    requires
        k1 != k2,
    ensures
        spec_make_id(t, k1) != spec_make_id(t, k2),
{
    let h1 = spec_hex(k1 as nat);
    let h2 = spec_hex(k2 as nat);
    let s1 = spec_make_id(t, k1);
    let s2 = spec_make_id(t, k2);
    if s1 == s2 {
        assert(s1.len() == t.len() + 1 + h1.len());
        assert(s2.len() == t.len() + 1 + h2.len());
        assert(h1 =~= s1.subrange(t.len() as int + 1, s1.len() as int));
        assert(h2 =~= s2.subrange(t.len() as int + 1, s2.len() as int));
        lemma_spec_hex_injective(k1 as nat, k2 as nat);
        assert(false);
    }
}

/// Adding the same title and author twice, with distinct random
/// components, leaves two distinct records in the catalog, under
/// distinct identifiers: duplicate pairs are permitted and not merged.
pub proof fn lemma_duplicate_add_two_records(
    c: Seq<RecordView>,
    t: Seq<char>,
    a: Seq<char>,
    k1: u64,
    k2: u64,
)
    requires
        k1 != k2,
    ensures
        spec_make_id(t, k1) != spec_make_id(t, k2),
        ({
            let c2 = spec_add(spec_add(c, t, a, k1), t, a, k2);
            exists|i: int, j: int|
                0 <= i < c2.len() && 0 <= j < c2.len() && i != j && c2[i] == spec_new_record(
                    t,
                    a,
                    k1,
                ) && c2[j] == spec_new_record(t, a, k2)
        }),
{
    lemma_make_id_injective(t, k1, k2);
    let r1 = spec_new_record(t, a, k1);
    let r2 = spec_new_record(t, a, k2);
    let c1 = spec_add(c, t, a, k1);
    let c2 = spec_add(c1, t, a, k2);
    lemma_insert_present(c, r1);
    let i1 = choose|i: int| 0 <= i < c1.len() && c1[i] == r1;
    lemma_find_id_idx(c1, r2.id);
    match find_id_idx(c1, r2.id) {
        Some(j) => {
            assert(c1[j].id == r2.id);
            assert(c1[i1].id == r1.id);
            assert(j != i1);
            assert(c2[i1] == r1);
            assert(c2[j] == r2);
        },
        None => {
            assert(c2[i1] == r1);
            assert(c2[c1.len() as int] == r2);
            assert(i1 != c1.len() as int);
        },
    }
}

} // verus!
