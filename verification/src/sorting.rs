//! Sorting a collection's values by type name.
//!
//! Wire formats that do not preserve association order give no canonical map
//! ordering, so the engine substitutes its own: a uniquely typed collection
//! is always emitted sorted ascending by type name. Sorting is specified as a
//! deterministic insertion sort, so that the encoded form of a collection is
//! a function of the collection alone; two encodes of logically equal
//! collections agree whatever the insertion order was.

use vstd::prelude::*;
use vstd::seq_lib::group_to_multiset_ensures;
use vstd::seq_lib::lemma_multiset_commutative;

use crate::lexical::{lemma_lex_leq_antisymmetric, lemma_lex_leq_total, lex_leq, str_lex_leq};
use crate::value::{distinct_names, values_view, Value, ValueV};

verus! {

/// The sequence is sorted ascending by type name.
pub open spec fn sorted_by_name(s: Seq<ValueV>) -> bool {
    forall|i: int, j: int| 0 <= i < j < s.len() ==> lex_leq(s[i].name, s[j].name)
}

/// Inserts a value in front of the first element whose name is not below the
/// value's own.
pub open spec fn insert_by_name(x: ValueV, s: Seq<ValueV>) -> Seq<ValueV>
    decreases s.len(),
{
    if s.len() == 0 {
        seq![x]
    } else if lex_leq(x.name, s[0].name) {
        seq![x] + s
    } else {
        seq![s[0]] + insert_by_name(x, s.drop_first())
    }
}

/// Sorts the sequence ascending by type name, stably and deterministically.
pub open spec fn sort_by_name(s: Seq<ValueV>) -> Seq<ValueV>
    decreases s.len(),
{
    if s.len() == 0 {
        s
    } else {
        insert_by_name(s.last(), sort_by_name(s.drop_last()))
    }
}

pub proof fn lemma_insert_by_name_ensures(x: ValueV, s: Seq<ValueV>)
    requires
        sorted_by_name(s),
    ensures
        insert_by_name(x, s).len() == s.len() + 1,
        sorted_by_name(insert_by_name(x, s)),
        insert_by_name(x, s).to_multiset() =~= s.to_multiset().insert(x),
        forall|i: int|
            0 <= i < insert_by_name(x, s).len() ==> insert_by_name(x, s)[i] == x || s.contains(
                insert_by_name(x, s)[i],
            ),
    decreases s.len(),
{
    broadcast use group_to_multiset_ensures;

    let r = insert_by_name(x, s);
    if s.len() == 0 {
        assert(seq![x] =~= Seq::<ValueV>::empty().push(x));
        assert(r.to_multiset() =~= s.to_multiset().insert(x));
    } else if lex_leq(x.name, s[0].name) {
        assert forall|i: int, j: int| 0 <= i < j < r.len() implies lex_leq(
            r[i].name,
            r[j].name,
        ) by {
            if i == 0 && j > 1 {
                assert(r[j] == s[j - 1]);
                crate::lexical::lemma_lex_leq_transitive(x.name, s[0].name, s[j - 1].name);
            }
        }
        lemma_multiset_commutative(seq![x], s);
        assert(seq![x] =~= Seq::<ValueV>::empty().push(x));
        assert(r.to_multiset() =~= s.to_multiset().insert(x));
    } else {
        let s1 = s.drop_first();
        lemma_insert_by_name_ensures(x, s1);
        let r1 = insert_by_name(x, s1);
        lemma_lex_leq_total(x.name, s[0].name);
        assert forall|i: int, j: int| 0 <= i < j < r.len() implies lex_leq(
            r[i].name,
            r[j].name,
        ) by {
            if i == 0 {
                if r[j] == x {
                    assert(lex_leq(s[0].name, x.name));
                } else {
                    assert(s1.contains(r1[j - 1]));
                }
            }
        }
        lemma_multiset_commutative(seq![s[0]], r1);
        lemma_multiset_commutative(seq![s[0]], s1);
        assert(seq![s[0]] =~= Seq::<ValueV>::empty().push(s[0]));
        assert(seq![s[0]] + s1 =~= s);
        assert(r.to_multiset() =~= s.to_multiset().insert(x));
        assert forall|i: int| 0 <= i < r.len() implies r[i] == x || s.contains(r[i]) by {
            if i > 0 && r[i] != x {
                assert(r[i] == r1[i - 1]);
                assert(s1.contains(r[i]));
                let k = choose|k: int| 0 <= k < s1.len() && s1[k] == r[i];
                assert(s[k + 1] == r[i]);
            }
        }
    }
}

pub proof fn lemma_sort_by_name_ensures(s: Seq<ValueV>)
    ensures
        sort_by_name(s).len() == s.len(),
        sorted_by_name(sort_by_name(s)),
        sort_by_name(s).to_multiset() =~= s.to_multiset(),
        forall|v: ValueV| sort_by_name(s).contains(v) <==> s.contains(v),
    decreases s.len(),
{
    broadcast use group_to_multiset_ensures;

    if s.len() > 0 {
        let s0 = s.drop_last();
        lemma_sort_by_name_ensures(s0);
        lemma_insert_by_name_ensures(s.last(), sort_by_name(s0));
        assert(s =~= s0.push(s.last()));
        assert(sort_by_name(s).to_multiset() =~= s.to_multiset());
        assert forall|v: ValueV| sort_by_name(s).contains(v) <==> s.contains(v) by {
            assert(sort_by_name(s).to_multiset().count(v) == s.to_multiset().count(v));
        }
    }
}

/// Sorting keeps the collection's invariant: if no two values shared a type
/// name before, none do after.
pub proof fn lemma_sort_preserves_distinct_names(s: Seq<ValueV>)
    requires
        distinct_names(s),
    ensures
        distinct_names(sort_by_name(s)),
{
    broadcast use group_to_multiset_ensures;

    let r = sort_by_name(s);
    lemma_sort_by_name_ensures(s);
    assert(s.no_duplicates());
    s.lemma_multiset_has_no_duplicates();
    r.lemma_multiset_has_no_duplicates_conv();
    assert forall|i: int, j: int| 0 <= i < j < r.len() implies r[i].name != r[j].name by {
        assert(r[i] != r[j]);
        assert(r.contains(r[i]) && r.contains(r[j]));
        assert(s.contains(r[i]) && s.contains(r[j]));
        let a = choose|a: int| 0 <= a < s.len() && s[a] == r[i];
        let b = choose|b: int| 0 <= b < s.len() && s[b] == r[j];
        assert(a != b);
    }
}

/// Two sequences sorted by name, holding the same values with no type name
/// repeated, are the same sequence: the sorted form of a uniquely typed
/// collection is canonical.
pub proof fn lemma_sorted_unique_by_name(x: Seq<ValueV>, y: Seq<ValueV>)
    requires
        sorted_by_name(x),
        sorted_by_name(y),
        distinct_names(x),
        x.to_multiset() == y.to_multiset(),
    ensures
        x =~= y,
    decreases x.len(),
{
    broadcast use group_to_multiset_ensures;

    if x.len() == 0 {
        assert(x.to_multiset().len() == x.len());
        assert(y.to_multiset().len() == y.len());
        assert(y.len() == 0);
    } else {
        assert(x.to_multiset().contains(x[0]));
        assert(y.to_multiset().contains(y[0]));
        assert(x.contains(y[0]));
        assert(y.contains(x[0]));
        let i = choose|i: int| 0 <= i < x.len() && x[i] == y[0];
        let k = choose|k: int| 0 <= k < y.len() && y[k] == x[0];
        crate::lexical::lemma_lex_leq_reflexive(x[0].name);
        crate::lexical::lemma_lex_leq_reflexive(y[0].name);
        assert(lex_leq(x[0].name, x[i].name));
        assert(lex_leq(y[0].name, y[k].name));
        lemma_lex_leq_antisymmetric(x[0].name, y[0].name);
        assert(x[0].name == y[0].name);
        assert(i == 0 ==> x[0] == y[0]);
        assert(x[0] == y[0]);
        assert(x.remove(0) =~= x.drop_first());
        assert(y.remove(0) =~= y.drop_first());
        assert(x.remove(0).to_multiset() =~= x.to_multiset().remove(x[0]));
        assert(y.remove(0).to_multiset() =~= y.to_multiset().remove(y[0]));
        assert(x.drop_first().to_multiset() =~= x.to_multiset().remove(x[0]));
        assert(y.drop_first().to_multiset() =~= y.to_multiset().remove(y[0]));
        lemma_sorted_unique_by_name(x.drop_first(), y.drop_first());
        assert forall|n: int| 0 <= n < x.len() implies x[n] == y[n] by {
            if n > 0 {
                assert(x.drop_first()[n - 1] == y.drop_first()[n - 1]);
            }
        }
    }
}

/// Sorting is a function of the collection's contents alone: collections that
/// hold the same values, in whatever order, sort to the same sequence.
pub proof fn lemma_sort_by_name_deterministic(a: Seq<ValueV>, b: Seq<ValueV>)
    requires
        distinct_names(a),
        a.to_multiset() == b.to_multiset(),
    ensures
        sort_by_name(a) == sort_by_name(b),
{
    lemma_sort_by_name_ensures(a);
    lemma_sort_by_name_ensures(b);
    lemma_sort_preserves_distinct_names(a);
    lemma_sorted_unique_by_name(sort_by_name(a), sort_by_name(b));
}

/// Inserting at the first position whose element's name is not below the new
/// value's own is exactly the specified insertion.
proof fn lemma_insert_at_first_position(x: ValueV, s: Seq<ValueV>, j: int)
    requires
        sorted_by_name(s),
        0 <= j <= s.len(),
        forall|k: int| 0 <= k < j ==> !lex_leq(x.name, s[k].name),
        j < s.len() ==> lex_leq(x.name, s[j].name),
    ensures
        insert_by_name(x, s) =~= s.insert(j, x),
    decreases s.len(),
{
    if s.len() == 0 {
    } else if j == 0 {
        assert(seq![x] + s =~= s.insert(0, x));
    } else {
        lemma_insert_at_first_position(x, s.drop_first(), j - 1);
        assert(seq![s[0]] + s.drop_first().insert(j - 1, x) =~= s.insert(j, x));
    }
}

/// Finds the position the value is inserted at: the first whose element's
/// name is not below the value's own.
fn find_insert_position(sorted: &Vec<Value>, x: &Value) -> (j: usize)
    ensures
        0 <= j <= sorted@.len(),
        forall|k: int| 0 <= k < j ==> !lex_leq(x@.name, #[trigger] sorted@[k]@.name),
        j < sorted@.len() ==> lex_leq(x@.name, sorted@[j as int]@.name),
{
    let mut j: usize = 0;
    while j < sorted.len()
        invariant
            0 <= j <= sorted@.len(),
            forall|k: int| 0 <= k < j ==> !lex_leq(x@.name, #[trigger] sorted@[k]@.name),
        decreases sorted@.len() - j,
    {
        if str_lex_leq(x.name.as_str(), sorted[j].name.as_str()) {
            return j;
        }
        j = j + 1;
    }
    j
}

/// Sorts a collection's values ascending by type name, returning exactly the
/// sequence the specification-level sort describes.
pub fn sort_values(entries: &Vec<Value>) -> (r: Vec<Value>)
    ensures
        values_view(r@) == sort_by_name(values_view(entries@)),
        r@.len() == entries@.len(),
{
    let ghost vv = values_view(entries@);
    let mut r: Vec<Value> = Vec::new();
    let mut i: usize = 0;
    proof {
        assert(values_view(r@) =~= sort_by_name(vv.take(0)));
    }
    while i < entries.len()
        invariant
            0 <= i <= entries@.len(),
            vv == values_view(entries@),
            vv.len() == entries@.len(),
            r@.len() == i,
            values_view(r@) == sort_by_name(vv.take(i as int)),
        decreases entries@.len() - i,
    {
        let x = entries[i].clone();
        proof {
            lemma_sort_by_name_ensures(vv.take(i as int));
        }
        let j = find_insert_position(&r, &x);
        proof {
            assert forall|k: int| 0 <= k < j implies !lex_leq(x@.name, values_view(r@)[k].name) by {
                assert(values_view(r@)[k] == r@[k]@);
            }
            if (j as int) < r@.len() {
                assert(values_view(r@)[j as int] == r@[j as int]@);
            }
            lemma_insert_at_first_position(x@, values_view(r@), j as int);
        }
        let ghost old_r = r@;
        r.insert(j, x);
        proof {
            assert(values_view(r@) =~= values_view(old_r).insert(j as int, x@));
            assert(vv.take(i as int + 1).drop_last() =~= vv.take(i as int));
            assert(vv.take(i as int + 1).last() == vv[i as int]);
            assert(vv[i as int] == entries@[i as int]@);
            assert(values_view(r@) == sort_by_name(vv.take(i as int + 1)));
        }
        i = i + 1;
    }
    proof {
        assert(vv.take(vv.len() as int) =~= vv);
    }
    r
}

} // verus!
