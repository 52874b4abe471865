//! The order of a listing: by name.
//!
//! Names are ordered as Rust orders strings, by the bytes of their UTF-8 encoding, which is
//! also the order of their code points. The sort is stable: children with the same name stay
//! in the order in which the directory gave them.

use crate::listing::{File, FileView};
use vstd::prelude::*;
use vstd::utf8::encode_utf8;

verus! {

/// Whether `a` from index `i` on comes before `b` from index `i` on, or equals it, in
/// lexicographic order.
pub open spec fn bytes_le_from(a: Seq<u8>, b: Seq<u8>, i: int) -> bool
    decreases a.len() - i,
{
    if i >= a.len() {
        true
    } else if i >= b.len() {
        false
    } else if a[i] != b[i] {
        a[i] < b[i]
    } else {
        bytes_le_from(a, b, i + 1)
    }
}

/// Whether the name `a` comes before the name `b` or equals it.
pub open spec fn name_le(a: Seq<char>, b: Seq<char>) -> bool {
    bytes_le_from(encode_utf8(a), encode_utf8(b), 0)
}

/// Whether `files` stand in the order of their names.
pub open spec fn in_name_order(files: Seq<FileView>) -> bool {
    forall|i: int, j: int| 0 <= i <= j < files.len() ==> name_le(files[i].name, files[j].name)
}

/// `sorted` with `file` put in after the last child whose name does not come after its own.
pub open spec fn inserted(sorted: Seq<FileView>, file: FileView) -> Seq<FileView>
    decreases sorted.len(),
{
    if sorted.len() == 0 {
        seq![file]
    } else if name_le(sorted.last().name, file.name) {
        sorted.push(file)
    } else {
        inserted(sorted.drop_last(), file).push(sorted.last())
    }
}

/// `files` in the order of their names, those of one name in the order they had.
pub open spec fn sorted_by_name(files: Seq<FileView>) -> Seq<FileView>
    decreases files.len(),
{
    if files.len() == 0 {
        Seq::empty()
    } else {
        inserted(sorted_by_name(files.drop_last()), files.last())
    }
}

/// Of two byte sequences, one comes before the other or equals it, from any index on.
pub proof fn lemma_bytes_le_total(a: Seq<u8>, b: Seq<u8>, i: int)
    requires
        0 <= i,
    ensures
        bytes_le_from(a, b, i) || bytes_le_from(b, a, i),
    decreases a.len() - i,
{
    if i < a.len() && i < b.len() && a[i] == b[i] {
        lemma_bytes_le_total(a, b, i + 1);
    }
}

/// The order of byte sequences is transitive, from any index on.
pub proof fn lemma_bytes_le_transitive(a: Seq<u8>, b: Seq<u8>, c: Seq<u8>, i: int)
    requires
        0 <= i,
        bytes_le_from(a, b, i),
        bytes_le_from(b, c, i),
    ensures
        bytes_le_from(a, c, i),
    decreases a.len() - i,
{
    if i < a.len() && i < b.len() && i < c.len() && a[i] == b[i] && b[i] == c[i] {
        lemma_bytes_le_transitive(a, b, c, i + 1);
    }
}

/// Putting a child into a sequence in name order leaves it in name order, and the child is
/// among its members with all that were there.
pub proof fn lemma_inserted_keeps_order(sorted: Seq<FileView>, file: FileView)
    requires
        in_name_order(sorted),
    ensures
        in_name_order(inserted(sorted, file)),
        inserted(sorted, file).to_multiset() == sorted.to_multiset().insert(file),
        inserted(sorted, file).len() == sorted.len() + 1,
    decreases sorted.len(),
{
    broadcast use vstd::seq_lib::group_to_multiset_ensures;

    let result = inserted(sorted, file);
    if sorted.len() == 0 {
        assert(sorted =~= Seq::empty());
        assert(result =~= Seq::<FileView>::empty().push(file));
        lemma_bytes_le_total(encode_utf8(file.name), encode_utf8(file.name), 0);
    } else if name_le(sorted.last().name, file.name) {
        lemma_bytes_le_total(encode_utf8(file.name), encode_utf8(file.name), 0);
        assert forall|i: int, j: int| 0 <= i <= j < result.len() implies name_le(
            result[i].name,
            result[j].name,
        ) by {
            if j == sorted.len() && i < j {
                assert(name_le(sorted[i].name, sorted.last().name));
                lemma_bytes_le_transitive(
                    encode_utf8(sorted[i].name),
                    encode_utf8(sorted.last().name),
                    encode_utf8(file.name),
                    0,
                );
            }
        }
    } else {
        let front = sorted.drop_last();
        let last = sorted.last();
        assert(in_name_order(front)) by {
            assert forall|i: int, j: int| 0 <= i <= j < front.len() implies name_le(
                front[i].name,
                front[j].name,
            ) by {
                assert(front[i] == sorted[i] && front[j] == sorted[j]);
            }
        }
        lemma_inserted_keeps_order(front, file);
        let inner = inserted(front, file);
        assert(result == inner.push(last));
        lemma_bytes_le_total(encode_utf8(last.name), encode_utf8(file.name), 0);
        assert(name_le(file.name, last.name));
        // every member of `inner` is `file` or a member of `front`, and both come before `last`
        assert forall|i: int| 0 <= i < inner.len() implies name_le(inner[i].name, last.name) by {
            assert(inner.to_multiset().count(inner[i]) > 0);
            if inner[i] != file {
                assert(front.to_multiset().count(inner[i]) > 0);
                assert(front.contains(inner[i]));
                let k = choose|k: int| 0 <= k < front.len() && front[k] == inner[i];
                assert(name_le(sorted[k].name, sorted[sorted.len() - 1].name));
            }
        }
        assert forall|i: int, j: int| 0 <= i <= j < result.len() implies name_le(
            result[i].name,
            result[j].name,
        ) by {
            if j < inner.len() {
                assert(name_le(inner[i].name, inner[j].name));
            } else if i < inner.len() {
                assert(name_le(inner[i].name, last.name));
            } else {
                lemma_bytes_le_total(encode_utf8(last.name), encode_utf8(last.name), 0);
            }
        }
        assert(sorted =~= front.push(last));
        assert(result.to_multiset() =~= sorted.to_multiset().insert(file));
    }
}

/// Sorting gives the same children, in the order of their names.
pub proof fn lemma_sorted_by_name(files: Seq<FileView>)
    ensures
        in_name_order(sorted_by_name(files)),
        sorted_by_name(files).to_multiset() == files.to_multiset(),
        sorted_by_name(files).len() == files.len(),
    decreases files.len(),
{
    broadcast use vstd::seq_lib::group_to_multiset_ensures;

    if files.len() == 0 {
        assert(files =~= Seq::empty());
    } else {
        lemma_sorted_by_name(files.drop_last());
        lemma_inserted_keeps_order(sorted_by_name(files.drop_last()), files.last());
        assert(files =~= files.drop_last().push(files.last()));
    }
}

/// Of two byte sequences that agree before `i`, each of which comes before the other or
/// equals it, one is the other.
pub proof fn lemma_bytes_le_antisymmetric(a: Seq<u8>, b: Seq<u8>, i: int)
    requires
        0 <= i <= a.len(),
        i <= b.len(),
        forall|k: int| 0 <= k < i ==> a[k] == b[k],
        bytes_le_from(a, b, i),
        bytes_le_from(b, a, i),
    ensures
        a == b,
    decreases a.len() - i,
{
    if i < a.len() && i < b.len() {
        lemma_bytes_le_antisymmetric(a, b, i + 1);
    } else {
        assert(a =~= b);
    }
}

/// Two names, each of which comes before the other or equals it, are one name.
pub proof fn lemma_name_le_antisymmetric(a: Seq<char>, b: Seq<char>)
    requires
        name_le(a, b),
        name_le(b, a),
    ensures
        a == b,
{
    lemma_bytes_le_antisymmetric(encode_utf8(a), encode_utf8(b), 0);
    vstd::utf8::encode_utf8_decode_utf8(a);
    vstd::utf8::encode_utf8_decode_utf8(b);
}

/// Whether no two of `files` have the same name.
pub open spec fn names_differ(files: Seq<FileView>) -> bool {
    forall|i: int, j: int| 0 <= i < j < files.len() ==> files[i].name != files[j].name
}

/// Whether names differ is a matter of the members, not of their order.
pub proof fn lemma_names_differ_by_members(a: Seq<FileView>, b: Seq<FileView>)
    requires
        a.to_multiset() == b.to_multiset(),
        names_differ(a),
    ensures
        names_differ(b),
{
    broadcast use vstd::seq_lib::group_to_multiset_ensures;

    assert(a.no_duplicates());
    a.lemma_multiset_has_no_duplicates();
    b.lemma_multiset_has_no_duplicates_conv();
    assert forall|i: int, j: int| 0 <= i < j < b.len() implies b[i].name != b[j].name by {
        assert(b[i] != b[j]);
        assert(b.to_multiset().count(b[i]) > 0);
        assert(b.to_multiset().count(b[j]) > 0);
        assert(a.contains(b[i]));
        assert(a.contains(b[j]));
        let k = choose|k: int| 0 <= k < a.len() && a[k] == b[i];
        let l = choose|l: int| 0 <= l < a.len() && a[l] == b[j];
        if k < l {
            assert(a[k].name != a[l].name);
        } else {
            assert(a[l].name != a[k].name);
        }
    }
}

/// Name order leaves no choice: two sequences in name order with the same members, no two of
/// one name, are the same sequence.
pub proof fn lemma_name_order_is_unique(a: Seq<FileView>, b: Seq<FileView>)
    requires
        in_name_order(a),
        in_name_order(b),
        a.to_multiset() == b.to_multiset(),
        names_differ(a),
    ensures
        a == b,
    decreases a.len(),
{
    broadcast use vstd::seq_lib::group_to_multiset_ensures;

    assert(a.len() == b.len()) by {
        assert(a.to_multiset().len() == a.len());
        assert(b.to_multiset().len() == b.len());
    }
    if a.len() == 0 {
        assert(a =~= b);
    } else {
        let n = a.len() as int;
        let la = a[n - 1];
        let lb = b[n - 1];
        assert(b.to_multiset().count(lb) > 0);
        assert(a.contains(lb));
        let k = choose|k: int| 0 <= k < n && a[k] == lb;
        assert(name_le(a[k].name, a[n - 1].name));
        assert(a.to_multiset().count(la) > 0);
        assert(b.contains(la));
        let j = choose|j: int| 0 <= j < n && b[j] == la;
        assert(name_le(b[j].name, b[n - 1].name));
        lemma_name_le_antisymmetric(la.name, lb.name);
        if k < n - 1 {
            assert(a[k].name != a[n - 1].name);
        }
        assert(la == lb);
        let front_a = a.drop_last();
        let front_b = b.drop_last();
        assert(a =~= front_a.push(la));
        assert(b =~= front_b.push(lb));
        assert(front_a.to_multiset() =~= front_b.to_multiset()) by {
            assert forall|x: FileView| front_a.to_multiset().count(x) == front_b.to_multiset().count(
                x,
            ) by {
                assert(a.to_multiset().count(x) == front_a.to_multiset().insert(la).count(x));
                assert(b.to_multiset().count(x) == front_b.to_multiset().insert(lb).count(x));
            }
        }
        assert(in_name_order(front_a)) by {
            assert forall|i: int, j: int| 0 <= i <= j < front_a.len() implies name_le(
                front_a[i].name,
                front_a[j].name,
            ) by {
                assert(front_a[i] == a[i] && front_a[j] == a[j]);
            }
        }
        assert(in_name_order(front_b)) by {
            assert forall|i: int, j: int| 0 <= i <= j < front_b.len() implies name_le(
                front_b[i].name,
                front_b[j].name,
            ) by {
                assert(front_b[i] == b[i] && front_b[j] == b[j]);
            }
        }
        assert(names_differ(front_a)) by {
            assert forall|i: int, j: int| 0 <= i < j < front_a.len() implies front_a[i].name
                != front_a[j].name by {
                assert(front_a[i] == a[i] && front_a[j] == a[j]);
            }
        }
        lemma_name_order_is_unique(front_a, front_b);
    }
}

/// Sorting does not depend on the order of what is sorted: the same children, no two of one
/// name, come out in the same order however they went in.
pub proof fn lemma_sorted_by_name_ignores_order(a: Seq<FileView>, b: Seq<FileView>)
    requires
        a.to_multiset() == b.to_multiset(),
        names_differ(a),
    ensures
        sorted_by_name(a) == sorted_by_name(b),
{
    lemma_sorted_by_name(a);
    lemma_sorted_by_name(b);
    lemma_names_differ_by_members(a, sorted_by_name(a));
    lemma_name_order_is_unique(sorted_by_name(a), sorted_by_name(b));
}

/// Tells whether the name `a` comes before the name `b` or equals it.
pub fn name_precedes(a: &str, b: &str) -> (le: bool)
    ensures
        le == name_le(a@, b@),
{
    let x = a.as_bytes();
    let y = b.as_bytes();
    let mut i: usize = 0;
    while i < x.len() && i < y.len() && x[i] == y[i]
        invariant
            i <= x.len(),
            i <= y.len(),
            bytes_le_from(x@, y@, 0) == bytes_le_from(x@, y@, i as int),
        decreases x.len() - i,
    {
        i = i + 1;
    }
    if i >= x.len() {
        true
    } else if i >= y.len() {
        false
    } else {
        x[i] < y[i]
    }
}

/// Sorts the children of a directory by name, by insertion: the time is linear for children
/// that come in order and quadratic at worst.
pub fn sort_files(files: Vec<File>) -> (sorted: Vec<File>)
    ensures
        sorted.deep_view() == sorted_by_name(files.deep_view()),
        in_name_order(sorted.deep_view()),
        sorted.deep_view().to_multiset() == files.deep_view().to_multiset(),
{
    let ghost all = files.deep_view();
    let mut sorted: Vec<File> = Vec::new();
    for file in it: files
        invariant
            it.seq().len() == all.len(),
            forall|j: int| 0 <= j < all.len() ==> it.seq()[j]@ == all[j],
            sorted.deep_view() == sorted_by_name(all.take(it.index() as int)),
    {
        let ghost k = it.index() as int;
        let ghost before = sorted.deep_view();
        assert(all.take(k + 1).drop_last() =~= all.take(k));
        assert(all.take(k + 1).last() == file@);
        let mut at: usize = sorted.len();
        assert(before.take(at as int) =~= before);
        assert(inserted(before, file@) + before.skip(at as int) =~= inserted(before, file@));
        while at > 0 && !name_precedes(sorted[at - 1].name.as_str(), file.name.as_str())
            invariant
                at <= sorted.len(),
                before == sorted.deep_view(),
                inserted(before, file@) == inserted(before.take(at as int), file@) + before.skip(
                    at as int,
                ),
            decreases at,
        {
            assert(before.take(at as int).drop_last() =~= before.take(at - 1));
            assert(before.take(at as int).last() == sorted[at - 1]@);
            assert(inserted(before.take(at - 1), file@).push(before[at - 1]) + before.skip(
                at as int,
            ) =~= inserted(before.take(at - 1), file@) + before.skip(at - 1));
            at = at - 1;
        }
        assert(inserted(before, file@) =~= before.insert(at as int, file@)) by {
            if at > 0 {
                assert(before.take(at as int).last() == sorted[at - 1]@);
            }
        }
        sorted.insert(at, file);
        assert(sorted.deep_view() =~= before.insert(at as int, file@));
    }
    assert(all.take(all.len() as int) =~= all);
    proof {
        lemma_sorted_by_name(all);
    }
    sorted
}

} // verus!
