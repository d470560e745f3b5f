use vstd::prelude::*;

use crate::text::chars_vec;

verus! {

/// Whether text `a` comes no later than text `b` in lexicographic order of characters, which
/// is the order of `str`'s `Ord` (UTF-8 bytes compare as the characters they encode).
pub open spec fn text_le(a: Seq<char>, b: Seq<char>) -> bool
    decreases a.len(),
{
    if a.len() == 0 {
        true
    } else if b.len() == 0 {
        false
    } else if a[0] != b[0] {
        a[0] < b[0]
    } else {
        text_le(a.drop_first(), b.drop_first())
    }
}

/// Whether text `a` comes no later than text `b`.
pub fn text_le_exec(a: &str, b: &str) -> (le: bool)
    ensures
        le == text_le(a@, b@),
{
    let x = chars_vec(a);
    let y = chars_vec(b);
    let mut i: usize = 0;
    assert(x@.skip(0) =~= x@);
    assert(y@.skip(0) =~= y@);
    while i < x.len() && i < y.len() && x[i] == y[i]
        invariant
            0 <= i <= x@.len(),
            i <= y@.len(),
            text_le(a@, b@) == text_le(x@.skip(i as int), y@.skip(i as int)),
            x@ == a@,
            y@ == b@,
        decreases x.len() - i,
    {
        assert(x@.skip(i as int).drop_first() =~= x@.skip(i + 1));
        assert(y@.skip(i as int).drop_first() =~= y@.skip(i + 1));
        i = i + 1;
    }
    if i == x.len() {
        assert(x@.skip(i as int).len() == 0);
        true
    } else if i == y.len() {
        assert(y@.skip(i as int).len() == 0);
        false
    } else {
        assert(x@.skip(i as int)[0] == x@[i as int]);
        assert(y@.skip(i as int)[0] == y@[i as int]);
        x[i] < y[i]
    }
}

/// Values that are sorted by a text they carry.
pub trait TextOrdered: View + Sized {
    /// The text a value is sorted by.
    spec fn order_text(v: Self::V) -> Seq<char>;

    fn order_le(&self, other: &Self) -> (le: bool)
        ensures
            le == text_le(Self::order_text(self@), Self::order_text(other@)),
    ;
}

/// `s` with `x` inserted after every element whose text is no later than `x`'s, when `s` is
/// sorted: before the first element that comes strictly later.
pub open spec fn sorted_insert<T: TextOrdered>(s: Seq<T::V>, x: T::V) -> Seq<T::V>
    decreases s.len(),
{
    if s.len() == 0 {
        seq![x]
    } else if text_le(T::order_text(s.last()), T::order_text(x)) {
        s.push(x)
    } else {
        sorted_insert::<T>(s.drop_last(), x).push(s.last())
    }
}

/// `s` stably sorted by text: elements with equal texts keep their order.
pub open spec fn sorted_by_text<T: TextOrdered>(s: Seq<T::V>) -> Seq<T::V>
    decreases s.len(),
{
    if s.len() == 0 {
        Seq::empty()
    } else {
        sorted_insert::<T>(sorted_by_text::<T>(s.drop_last()), s.last())
    }
}

/// The views of the elements of a sequence.
pub open spec fn seq_views<T: View>(s: Seq<T>) -> Seq<T::V> {
    s.map_values(|x: T| x@)
}

/// Inserts `x` into `v` at the place [`sorted_insert`] gives.
fn insert_sorted<T: TextOrdered>(v: &mut Vec<T>, x: T)
    ensures
        seq_views(final(v)@) == sorted_insert::<T>(seq_views(old(v)@), x@),
{
    let mut j: usize = v.len();
    let ghost s = seq_views(v@);
    assert(s.take(j as int) =~= s);
    assert(s.skip(j as int) =~= Seq::<T::V>::empty());
    while j > 0 && !v[j - 1].order_le(&x)
        invariant
            0 <= j <= v@.len(),
            s == seq_views(v@),
            v@ == old(v)@,
            sorted_insert::<T>(s, x@) == sorted_insert::<T>(s.take(j as int), x@) + s.skip(
                j as int,
            ),
        decreases j,
    {
        let ghost t = s.take(j as int);
        assert(t.last() == v@[j - 1]@);
        assert(t.drop_last() =~= s.take(j - 1));
        assert(s.skip(j - 1) =~= seq![t.last()] + s.skip(j as int));
        assert(sorted_insert::<T>(s.take(j - 1), x@).push(t.last()) + s.skip(j as int)
            =~= sorted_insert::<T>(s.take(j - 1), x@) + s.skip(j - 1));
        j = j - 1;
    }
    proof {
        let t = s.take(j as int);
        if j > 0 {
            assert(t.last() == v@[j - 1]@);
        }
        assert(sorted_insert::<T>(t, x@) == t.push(x@));
    }
    v.insert(j, x);
    assert(seq_views(v@) =~= s.take(j as int).push(x@) + s.skip(j as int));
}

/// The elements of `v`, stably sorted by their texts.
pub fn sort_by_text<T: TextOrdered>(v: Vec<T>) -> (sorted: Vec<T>)
    ensures
        seq_views(sorted@) == sorted_by_text::<T>(seq_views(v@)),
{
    let mut input = v;
    let mut sorted: Vec<T> = Vec::new();
    let ghost all = seq_views(input@);
    let mut i: usize = 0;
    let n = input.len();
    assert(all.take(0) =~= Seq::<T::V>::empty());
    assert(seq_views(sorted@) =~= Seq::<T::V>::empty());
    assert(seq_views(input@) =~= all.skip(0));
    while input.len() > 0
        invariant
            i + input@.len() == n,
            n == all.len(),
            seq_views(sorted@) == sorted_by_text::<T>(all.take(i as int)),
            seq_views(input@) == all.skip(i as int),
        decreases input.len(),
    {
        let ghost before = input@;
        let x = input.remove(0);
        assert(seq_views(before)[0] == x@);
        assert(all.skip(i as int)[0] == all[i as int]);
        assert(x@ == all[i as int]);
        assert(seq_views(input@) =~= seq_views(before).drop_first());
        assert(all.skip(i as int).drop_first() =~= all.skip(i + 1));
        assert(all.take(i + 1).drop_last() =~= all.take(i as int));
        assert(all.take(i + 1).last() == all[i as int]);
        insert_sorted(&mut sorted, x);
        assert(seq_views(input@) =~= all.skip(i + 1));
        i = i + 1;
    }
    assert(all.take(n as int) =~= all);
    sorted
}

impl TextOrdered for String {
    open spec fn order_text(v: Seq<char>) -> Seq<char> {
        v
    }

    fn order_le(&self, other: &Self) -> (le: bool) {
        text_le_exec(self.as_str(), other.as_str())
    }
}

/// Any two texts are ordered one way or the other.
pub proof fn lemma_text_le_total(a: Seq<char>, b: Seq<char>)
    ensures
        text_le(a, b) || text_le(b, a),
    decreases a.len(),
{
    if a.len() > 0 && b.len() > 0 {
        if a[0] == b[0] {
            lemma_text_le_total(a.drop_first(), b.drop_first());
        }
    }
}

/// The order of texts is transitive.
pub proof fn lemma_text_le_transitive(a: Seq<char>, b: Seq<char>, c: Seq<char>)
    requires
        text_le(a, b),
        text_le(b, c),
    ensures
        text_le(a, c),
    decreases a.len(),
{
    if a.len() > 0 && b.len() > 0 && c.len() > 0 && a[0] == b[0] && b[0] == c[0] {
        lemma_text_le_transitive(a.drop_first(), b.drop_first(), c.drop_first());
    }
}

/// Two texts each no later than the other are the same text.
pub proof fn lemma_text_le_antisymmetric(a: Seq<char>, b: Seq<char>)
    requires
        text_le(a, b),
        text_le(b, a),
    ensures
        a == b,
    decreases a.len(),
{
    if a.len() > 0 && b.len() > 0 {
        if a[0] == b[0] {
            lemma_text_le_antisymmetric(a.drop_first(), b.drop_first());
            assert(a.drop_first().len() == b.drop_first().len());
            assert(a.len() == b.len());
            assert forall|i: int| 0 <= i < a.len() implies a[i] == b[i] by {
                if i > 0 {
                    assert(a[i] == a.drop_first()[i - 1]);
                    assert(b[i] == b.drop_first()[i - 1]);
                }
            }
        }
    }
    assert(a =~= b);
}

/// Whether the values come in the order of their texts.
pub open spec fn text_sorted<T: TextOrdered>(s: Seq<T::V>) -> bool {
    forall|i: int, j: int|
        0 <= i < j < s.len() ==> text_le(T::order_text(#[trigger] s[i]), T::order_text(#[trigger] s[j]))
}

/// Inserting a value adds exactly that value.
pub proof fn lemma_sorted_insert_multiset<T: TextOrdered>(s: Seq<T::V>, x: T::V)
    ensures
        sorted_insert::<T>(s, x).to_multiset() == s.to_multiset().insert(x),
    decreases s.len(),
{
    broadcast use vstd::seq_lib::group_to_multiset_ensures;
    if s.len() == 0 {
        assert(seq![x] =~= Seq::<T::V>::empty().push(x));
    } else if !text_le(T::order_text(s.last()), T::order_text(x)) {
        let d = s.drop_last();
        lemma_sorted_insert_multiset::<T>(d, x);
        assert(d.push(s.last()) =~= s);
        assert(sorted_insert::<T>(s, x).to_multiset() =~= s.to_multiset().insert(x));
    }
}

/// Inserting a value into values in text order keeps them in text order.
pub proof fn lemma_sorted_insert_sorted<T: TextOrdered>(s: Seq<T::V>, x: T::V)
    requires
        text_sorted::<T>(s),
    ensures
        text_sorted::<T>(sorted_insert::<T>(s, x)),
    decreases s.len(),
{
    broadcast use vstd::seq_lib::group_to_multiset_ensures;
    let r = sorted_insert::<T>(s, x);
    if s.len() == 0 {
    } else if text_le(T::order_text(s.last()), T::order_text(x)) {
        assert forall|i: int, j: int| 0 <= i < j < r.len() implies text_le(
            T::order_text(#[trigger] r[i]),
            T::order_text(#[trigger] r[j]),
        ) by {
            if j == r.len() - 1 && i < s.len() - 1 {
                assert(r[i] == s[i]);
                assert(text_le(T::order_text(s[i]), T::order_text(s[s.len() - 1])));
                lemma_text_le_transitive(
                    T::order_text(s[i]),
                    T::order_text(s.last()),
                    T::order_text(x),
                );
            } else if j < r.len() - 1 {
                assert(r[i] == s[i] && r[j] == s[j]);
            }
        }
    } else {
        let d = s.drop_last();
        let l = s.last();
        assert(text_sorted::<T>(d)) by {
            assert forall|i: int, j: int| 0 <= i < j < d.len() implies text_le(
                T::order_text(#[trigger] d[i]),
                T::order_text(#[trigger] d[j]),
            ) by {
                assert(d[i] == s[i] && d[j] == s[j]);
            }
        }
        lemma_sorted_insert_sorted::<T>(d, x);
        lemma_sorted_insert_multiset::<T>(d, x);
        lemma_text_le_total(T::order_text(l), T::order_text(x));
        let q = sorted_insert::<T>(d, x);
        assert forall|i: int, j: int| 0 <= i < j < r.len() implies text_le(
            T::order_text(#[trigger] r[i]),
            T::order_text(#[trigger] r[j]),
        ) by {
            if j == r.len() - 1 {
                let y = q[i];
                assert(r[i] == y);
                assert(r[j] == l);
                assert(q.contains(y));
                assert(q.to_multiset().count(y) > 0);
                if y != x {
                    assert(d.to_multiset().count(y) > 0);
                    assert(d.contains(y));
                    let m = choose|m: int| 0 <= m < d.len() && d[m] == y;
                    assert(s[m] == y);
                    assert(text_le(T::order_text(s[m]), T::order_text(s[s.len() - 1])));
                }
            } else {
                assert(r[i] == q[i] && r[j] == q[j]);
            }
        }
    }
}

/// Sorting by text keeps exactly the values given and puts them in text order.
pub proof fn law_sorted_by_text_orders_the_same_values<T: TextOrdered>(s: Seq<T::V>)
    ensures
        text_sorted::<T>(sorted_by_text::<T>(s)),
        sorted_by_text::<T>(s).to_multiset() == s.to_multiset(),
    decreases s.len(),
{
    broadcast use vstd::seq_lib::group_to_multiset_ensures;
    if s.len() > 0 {
        law_sorted_by_text_orders_the_same_values::<T>(s.drop_last());
        lemma_sorted_insert_sorted::<T>(sorted_by_text::<T>(s.drop_last()), s.last());
        lemma_sorted_insert_multiset::<T>(sorted_by_text::<T>(s.drop_last()), s.last());
        assert(s.drop_last().push(s.last()) =~= s);
    }
}

/// Texts in order are fixed by which texts they are: two sorted sequences of the same texts
/// are the same sequence.
pub proof fn lemma_sorted_texts_unique(a: Seq<Seq<char>>, b: Seq<Seq<char>>)
    requires
        text_sorted::<String>(a),
        text_sorted::<String>(b),
        a.to_multiset() == b.to_multiset(),
    ensures
        a == b,
    decreases a.len(),
{
    broadcast use vstd::seq_lib::group_to_multiset_ensures;
    vstd::seq_lib::to_multiset_len(a);
    vstd::seq_lib::to_multiset_len(b);
    if a.len() > 0 {
        let n = a.len();
        let x = a.last();
        let y = b.last();
        assert(a.contains(x));
        assert(b.to_multiset().count(x) > 0);
        assert(b.contains(x));
        let i = choose|i: int| 0 <= i < b.len() && b[i] == x;
        if i < n - 1 {
            assert(text_le(b[i], b[n - 1]));
        } else {
            lemma_text_le_total(x, x);
        }
        assert(b.contains(y));
        assert(a.to_multiset().count(y) > 0);
        assert(a.contains(y));
        let j = choose|j: int| 0 <= j < a.len() && a[j] == y;
        if j < n - 1 {
            assert(text_le(a[j], a[n - 1]));
        } else {
            lemma_text_le_total(y, y);
        }
        lemma_text_le_antisymmetric(x, y);
        let da = a.drop_last();
        let db = b.drop_last();
        assert(a.remove(n - 1) =~= da);
        assert(b.remove(n - 1) =~= db);
        assert(text_sorted::<String>(da)) by {
            assert forall|p: int, q: int| 0 <= p < q < da.len() implies text_le(
                #[trigger] da[p],
                #[trigger] da[q],
            ) by {
                assert(da[p] == a[p] && da[q] == a[q]);
                assert(text_le(a[p], a[q]));
            }
        }
        assert(text_sorted::<String>(db)) by {
            assert forall|p: int, q: int| 0 <= p < q < db.len() implies text_le(
                #[trigger] db[p],
                #[trigger] db[q],
            ) by {
                assert(db[p] == b[p] && db[q] == b[q]);
                assert(text_le(b[p], b[q]));
            }
        }
        lemma_sorted_texts_unique(da, db);
        assert(da.push(x) =~= a);
        assert(db.push(y) =~= b);
    } else {
        assert(a =~= b);
    }
}

/// Sorting texts gives the same result whatever order they came in.
pub proof fn law_sorting_texts_ignores_their_order(a: Seq<Seq<char>>, b: Seq<Seq<char>>)
    requires
        a.to_multiset() == b.to_multiset(),
    ensures
        sorted_by_text::<String>(a) == sorted_by_text::<String>(b),
{
    law_sorted_by_text_orders_the_same_values::<String>(a);
    law_sorted_by_text_orders_the_same_values::<String>(b);
    lemma_sorted_texts_unique(sorted_by_text::<String>(a), sorted_by_text::<String>(b));
}

/// Applying a function to the elements of two sequences with the same elements gives two
/// sequences with the same elements.
pub proof fn lemma_map_keeps_same_elements<A, B>(a: Seq<A>, b: Seq<A>, f: spec_fn(A) -> B)
    requires
        a.to_multiset() == b.to_multiset(),
    ensures
        a.map_values(f).to_multiset() == b.map_values(f).to_multiset(),
    decreases a.len(),
{
    broadcast use vstd::seq_lib::group_to_multiset_ensures;
    broadcast use vstd::multiset::group_multiset_axioms;
    vstd::seq_lib::to_multiset_len(a);
    vstd::seq_lib::to_multiset_len(b);
    if a.len() == 0 {
        assert(a.map_values(f) =~= b.map_values(f));
    } else {
        let x = a.last();
        let da = a.drop_last();
        assert(da.push(x) =~= a);
        assert(a.contains(x));
        assert(b.to_multiset().count(x) > 0);
        assert(b.contains(x));
        let i = choose|i: int| 0 <= i < b.len() && b[i] == x;
        let db = b.remove(i);
        assert(db.to_multiset() =~= da.to_multiset()) by {
            assert(a.to_multiset() =~= da.to_multiset().insert(x));
            assert(db.to_multiset() =~= b.to_multiset().remove(x));
        }
        lemma_map_keeps_same_elements(da, db, f);
        let ma = a.map_values(f);
        let mb = b.map_values(f);
        assert(da.map_values(f).push(f(x)) =~= ma);
        assert(mb.remove(i) =~= db.map_values(f));
        assert(mb[i] == f(x));
        assert(mb.remove(i).to_multiset() =~= mb.to_multiset().remove(f(x)));
        assert(ma.to_multiset() =~= da.map_values(f).to_multiset().insert(f(x)));
        assert(mb.to_multiset().count(f(x)) > 0) by {
            assert(mb.contains(f(x)));
        }
        assert(ma.to_multiset() =~= mb.to_multiset());
    }
}

} // verus!
