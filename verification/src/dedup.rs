//! The entity deduplicator: the distinct room, group, and teacher names
//! referenced across a batch of raw records.
//!
//! Names are compared exactly — no case or whitespace normalization — and
//! the distinct set is what gets bulk-inserted per import before any
//! lesson or availability row references an entity by name.

use vstd::prelude::*;
use crate::normalize::{batch_view, names_view, RawRecord, RawRecordV};

verus! {

/// Which multi-valued name field of a record to collect.
#[derive(Clone, Copy, Debug, PartialEq, Eq, Structural)]
pub enum NameField {
    Rooms,
    Groups,
    Teachers,
}

/// The chosen name list of one record.
pub open spec fn record_names(r: RawRecordV, f: NameField) -> Seq<Seq<char>> {
    match f {
        NameField::Rooms => r.rooms,
        NameField::Groups => r.groups,
        NameField::Teachers => r.teachers,
    }
}

/// Every name of the chosen field across a batch, in record order.
pub open spec fn batch_names(b: Seq<RawRecordV>, f: NameField) -> Seq<Seq<char>>
    decreases b.len(),
{
    if b.len() == 0 {
        Seq::empty()
    } else {
        batch_names(b.drop_last(), f) + record_names(b.last(), f)
    }
}

/// Order-preserving deduplication: keeps the first occurrence of each
/// name.
pub open spec fn dedup_seq(s: Seq<Seq<char>>) -> Seq<Seq<char>>
    decreases s.len(),
{
    if s.len() == 0 {
        Seq::empty()
    } else {
        let d = dedup_seq(s.drop_last());
        if d.contains(s.last()) {
            d
        } else {
            d.push(s.last())
        }
    }
}

/// Deduplication keeps exactly the names of its input.
pub proof fn lemma_dedup_contains(s: Seq<Seq<char>>, x: Seq<char>)
    ensures
        dedup_seq(s).contains(x) <==> s.contains(x),
    decreases s.len(),
{
    if s.len() > 0 {
        lemma_dedup_contains(s.drop_last(), x);
        let d = dedup_seq(s.drop_last());
        assert(s.contains(x) <==> (s.drop_last().contains(x) || s.last() == x)) by {
            if s.contains(x) {
                let i = choose|i: int| 0 <= i < s.len() && s[i] == x;
                if i < s.len() - 1 {
                    assert(s.drop_last()[i] == x);
                }
            }
            if s.drop_last().contains(x) {
                let i = choose|i: int| 0 <= i < s.drop_last().len() && s.drop_last()[i] == x;
                assert(s[i] == x);
            }
            if s.last() == x {
                assert(s[s.len() - 1] == x);
            }
        }
        if !d.contains(s.last()) {
            assert(d.push(s.last()).contains(x) <==> (d.contains(x) || s.last() == x)) by {
                if d.push(s.last()).contains(x) {
                    let i = choose|i: int| 0 <= i < d.push(s.last()).len() && d.push(s.last())[i]
                        == x;
                    if i < d.len() {
                        assert(d[i] == x);
                    }
                }
                if d.contains(x) {
                    let i = choose|i: int| 0 <= i < d.len() && d[i] == x;
                    assert(d.push(s.last())[i] == x);
                }
                if s.last() == x {
                    assert(d.push(s.last())[d.len() as int] == x);
                }
            }
        }
    }
}

/// Deduplication yields no duplicates.
pub proof fn lemma_dedup_no_duplicates(s: Seq<Seq<char>>)
    ensures
        forall|i: int, j: int|
            0 <= i < j < dedup_seq(s).len() ==> dedup_seq(s)[i] != dedup_seq(s)[j],
    decreases s.len(),
{
    if s.len() > 0 {
        lemma_dedup_no_duplicates(s.drop_last());
        let d = dedup_seq(s.drop_last());
        if !d.contains(s.last()) {
            assert forall|i: int, j: int|
                0 <= i < j < dedup_seq(s).len() implies dedup_seq(s)[i] != dedup_seq(s)[j] by {
                if j < d.len() {
                } else {
                    assert(dedup_seq(s)[j] == s.last());
                    assert(dedup_seq(s)[i] == d[i]);
                    if d[i] == s.last() {
                        assert(d.contains(s.last()));
                    }
                }
            }
        }
    }
}

/// Deduplication is idempotent: a sequence without duplicates is its own
/// deduplication, so deduplicating twice changes nothing more.
pub proof fn lemma_dedup_of_unique(t: Seq<Seq<char>>)
    requires
        forall|i: int, j: int| 0 <= i < j < t.len() ==> t[i] != t[j],
    ensures
        dedup_seq(t) == t,
    decreases t.len(),
{
    if t.len() > 0 {
        lemma_dedup_of_unique(t.drop_last());
        let d = dedup_seq(t.drop_last());
        if d.contains(t.last()) {
            let i = choose|i: int| 0 <= i < d.len() && d[i] == t.last();
            assert(t[i] == t[t.len() - 1]);
        }
        assert(t.drop_last().push(t.last()) =~= t);
    }
}

/// Deduplication is idempotent.
pub proof fn lemma_dedup_idempotent(s: Seq<Seq<char>>)
    ensures
        dedup_seq(dedup_seq(s)) == dedup_seq(s),
{
    lemma_dedup_no_duplicates(s);
    lemma_dedup_of_unique(dedup_seq(s));
}

/// Deduplication is order-independent: reordering a batch's names leaves
/// the deduplicated result unchanged as a set.
pub proof fn lemma_dedup_order_independent(a: Seq<Seq<char>>, b: Seq<Seq<char>>)
    requires
        a.to_multiset() == b.to_multiset(),
    ensures
        dedup_seq(a).to_set() == dedup_seq(b).to_set(),
{
    broadcast use vstd::seq_lib::group_to_multiset_ensures;

    assert(dedup_seq(a).to_set() =~= dedup_seq(b).to_set()) by {
        assert forall|x: Seq<char>| dedup_seq(a).contains(x) == dedup_seq(b).contains(x) by {
            lemma_dedup_contains(a, x);
            lemma_dedup_contains(b, x);
            assert(a.contains(x) <==> a.to_multiset().count(x) > 0);
            assert(b.contains(x) <==> b.to_multiset().count(x) > 0);
        }
    }
}

/// Removing one record from a batch removes exactly that record's name
/// block from the batch's names, as multisets.
pub proof fn lemma_batch_names_remove(b: Seq<RawRecordV>, i: int, f: NameField)
    requires
        0 <= i < b.len(),
    ensures
        batch_names(b, f).to_multiset() =~= batch_names(b.remove(i), f).to_multiset().add(
            record_names(b[i], f).to_multiset(),
        ),
    decreases b.len(),
{
    broadcast use vstd::multiset::group_multiset_axioms;

    if i == b.len() - 1 {
        assert(b.remove(i) =~= b.drop_last());
        vstd::seq_lib::lemma_multiset_commutative(
            batch_names(b.drop_last(), f),
            record_names(b.last(), f),
        );
    } else {
        lemma_batch_names_remove(b.drop_last(), i, f);
        assert(b.drop_last()[i] == b[i]);
        assert(b.remove(i).drop_last() =~= b.drop_last().remove(i));
        assert(b.remove(i).last() == b.last());
        vstd::seq_lib::lemma_multiset_commutative(
            batch_names(b.drop_last(), f),
            record_names(b.last(), f),
        );
        vstd::seq_lib::lemma_multiset_commutative(
            batch_names(b.drop_last().remove(i), f),
            record_names(b.last(), f),
        );
    }
}

/// Batches holding the same records reference the same names, as
/// multisets, whatever the record order.
pub proof fn lemma_batch_names_permutation(a: Seq<RawRecordV>, b: Seq<RawRecordV>, f: NameField)
    requires
        a.to_multiset() == b.to_multiset(),
    ensures
        batch_names(a, f).to_multiset() == batch_names(b, f).to_multiset(),
    decreases a.len(),
{
    broadcast use vstd::seq_lib::group_to_multiset_ensures;
    broadcast use vstd::multiset::group_multiset_axioms;

    if a.len() == 0 {
        assert(a.to_multiset().len() == a.len());
        assert(b.to_multiset().len() == b.len());
        assert(b =~= a);
    } else {
        let last = a.last();
        assert(a.contains(last));
        assert(a.to_multiset().count(last) > 0);
        assert(b.to_multiset().count(last) > 0);
        assert(b.contains(last));
        let j = choose|j: int| 0 <= j < b.len() && b[j] == last;
        assert(a =~= a.drop_last().push(last));
        assert(a.to_multiset() =~= a.drop_last().to_multiset().insert(last));
        assert(b.remove(j).to_multiset() =~= b.to_multiset().remove(last));
        assert(a.drop_last().to_multiset() =~= b.remove(j).to_multiset());
        lemma_batch_names_permutation(a.drop_last(), b.remove(j), f);
        lemma_batch_names_remove(b, j, f);
        vstd::seq_lib::lemma_multiset_commutative(
            batch_names(a.drop_last(), f),
            record_names(last, f),
        );
        assert(batch_names(a, f).to_multiset() =~= batch_names(b, f).to_multiset());
    }
}

/// Deduplication of a batch's names is order-independent in the records
/// as well: shuffling the batch leaves the distinct-name set unchanged.
pub proof fn lemma_distinct_names_shuffle(a: Seq<RawRecordV>, b: Seq<RawRecordV>, f: NameField)
    requires
        a.to_multiset() == b.to_multiset(),
    ensures
        dedup_seq(batch_names(a, f)).to_set() == dedup_seq(batch_names(b, f)).to_set(),
{
    lemma_batch_names_permutation(a, b, f);
    lemma_dedup_order_independent(batch_names(a, f), batch_names(b, f));
}

/// Collects every name of the chosen field across a batch, in record
/// order.
pub fn collect_names(records: &Vec<RawRecord>, field: NameField) -> (out: Vec<String>)
    ensures
        names_view(out@) == batch_names(batch_view(records@), field),
{
    let ghost bv = batch_view(records@);
    let n = records.len();
    let mut out: Vec<String> = Vec::new();
    let mut i: usize = 0;
    proof {
        assert(bv.subrange(0, 0) =~= Seq::<RawRecordV>::empty());
        assert(names_view(out@) =~= batch_names(bv.subrange(0, 0), field));
    }
    while i < n
        invariant
            i <= n,
            n == records@.len(),
            bv == batch_view(records@),
            names_view(out@) == batch_names(bv.subrange(0, i as int), field),
        decreases n - i,
    {
        let names: &Vec<String> = match field {
            NameField::Rooms => &records[i].rooms,
            NameField::Groups => &records[i].groups,
            NameField::Teachers => &records[i].teachers,
        };
        assert(names_view(names@) == record_names(bv[i as int], field));
        let m = names.len();
        let mut j: usize = 0;
        while j < m
            invariant
                j <= m,
                m == names@.len(),
                names_view(names@) == record_names(bv[i as int], field),
                names_view(out@) == batch_names(bv.subrange(0, i as int), field) + record_names(
                    bv[i as int],
                    field,
                ).subrange(0, j as int),
            decreases m - j,
        {
            let ghost prev = names_view(out@);
            out.push(names[j].clone());
            proof {
                assert(names_view(out@) =~= prev.push(names@[j as int]@));
                assert(record_names(bv[i as int], field).subrange(0, j + 1) =~= record_names(
                    bv[i as int],
                    field,
                ).subrange(0, j as int).push(names@[j as int]@));
                assert(names_view(out@) =~= batch_names(bv.subrange(0, i as int), field)
                    + record_names(bv[i as int], field).subrange(0, j + 1));
            }
            j += 1;
        }
        proof {
            let t = bv.subrange(0, i + 1);
            assert(t.drop_last() =~= bv.subrange(0, i as int));
            assert(t.last() == bv[i as int]);
            assert(record_names(bv[i as int], field).subrange(
                0,
                record_names(bv[i as int], field).len() as int,
            ) =~= record_names(bv[i as int], field));
        }
        i += 1;
    }
    proof {
        assert(bv.subrange(0, n as int) =~= bv);
    }
    out
}

/// Deduplicates a name list, keeping first occurrences in order.
pub fn dedup_names(names: &Vec<String>) -> (out: Vec<String>)
    ensures
        names_view(out@) == dedup_seq(names_view(names@)),
{
    let ghost nv = names_view(names@);
    let n = names.len();
    let mut out: Vec<String> = Vec::new();
    let mut i: usize = 0;
    proof {
        assert(nv.subrange(0, 0) =~= Seq::<Seq<char>>::empty());
        assert(names_view(out@) =~= dedup_seq(nv.subrange(0, 0)));
    }
    while i < n
        invariant
            i <= n,
            n == names@.len(),
            nv == names_view(names@),
            names_view(out@) == dedup_seq(nv.subrange(0, i as int)),
        decreases n - i,
    {
        let target = &names[i];
        let m = out.len();
        let mut j: usize = 0;
        let mut found = false;
        while j < m
            invariant
                j <= m,
                m == out@.len(),
                target == names[i as int],
                i < n == names@.len(),
                found ==> names_view(out@).contains(names@[i as int]@),
                !found ==> forall|k: int| 0 <= k < j ==> out@[k]@ != names@[i as int]@,
            decreases m - j,
        {
            if crate::text::str_eq(out[j].as_str(), target.as_str()) {
                proof {
                    assert(names_view(out@)[j as int] == out@[j as int]@);
                }
                found = true;
            }
            j += 1;
        }
        proof {
            if !found && names_view(out@).contains(names@[i as int]@) {
                let k = choose|k: int|
                    0 <= k < names_view(out@).len() && names_view(out@)[k] == names@[i as int]@;
                assert(out@[k]@ == names@[i as int]@);
            }
            assert(found == names_view(out@).contains(names@[i as int]@));
        }
        let ghost prev = names_view(out@);
        if !found {
            out.push(target.clone());
            proof {
                assert(names_view(out@) =~= prev.push(names@[i as int]@));
            }
        }
        proof {
            let t = nv.subrange(0, i + 1);
            assert(t.drop_last() =~= nv.subrange(0, i as int));
            assert(t.last() == nv[i as int]);
            assert(nv[i as int] == names@[i as int]@);
        }
        i += 1;
    }
    proof {
        assert(nv.subrange(0, n as int) =~= nv);
    }
    out
}

/// The distinct names of the chosen field across a batch, first
/// occurrences in order. This is the set that gets bulk-inserted per
/// import.
pub fn distinct_names(records: &Vec<RawRecord>, field: NameField) -> (out: Vec<String>)
    ensures
        names_view(out@) == dedup_seq(batch_names(batch_view(records@), field)),
{
    let all = collect_names(records, field);
    dedup_names(&all)
}

} // verus!
