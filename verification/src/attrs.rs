use vstd::prelude::*;

verus! {

// A node's attribute mapping is an association list of key/value pairs in
// which keys are unique.  The executable representation is a
// `Vec<(String, String)>`; the model below works on its view, a sequence of
// pairs of character sequences.

/// The view of one attribute pair.
pub type AttrPairView = (Seq<char>, Seq<char>);

/// The view of an attribute mapping: key/value pairs in insertion order.
pub type AttrsView = Seq<AttrPairView>;

/// The view of an executable attribute vector.
pub open spec fn attrs_view(attrs: Seq<(String, String)>) -> AttrsView {
    attrs.map_values(|p: (String, String)| (p.0@, p.1@))
}

/// Whether no key occurs twice.
pub open spec fn unique_keys(m: AttrsView) -> bool {
    forall|i: int, j: int| 0 <= i < j < m.len() ==> (#[trigger] m[i]).0 != (#[trigger] m[j]).0
}

/// The value bound to `key`, looking from the front.
pub open spec fn assoc_get(m: AttrsView, key: Seq<char>) -> Option<Seq<char>>
    decreases m.len(),
{
    if m.len() == 0 {
        None
    } else if m[0].0 == key {
        Some(m[0].1)
    } else {
        assoc_get(m.drop_first(), key)
    }
}

/// The mapping after binding `key` to `value`: the first pair with that key
/// is replaced in place, or the pair is appended when the key is absent.
pub open spec fn assoc_set(m: AttrsView, key: Seq<char>, value: Seq<char>) -> AttrsView
    decreases m.len(),
{
    if m.len() == 0 {
        seq![(key, value)]
    } else if m[0].0 == key {
        seq![(key, value)] + m.drop_first()
    } else {
        seq![m[0]] + assoc_set(m.drop_first(), key, value)
    }
}

/// The mapping that reducing a sequence of raw pairs produces: every pair is
/// bound in order, so on duplicate keys the last value wins.
pub open spec fn assoc_fold(pairs: AttrsView) -> AttrsView {
    assoc_set_all(Seq::empty(), pairs)
}

/// The mapping after binding every pair of `pairs` in order on top of `m`.
pub open spec fn assoc_set_all(m: AttrsView, pairs: AttrsView) -> AttrsView
    decreases pairs.len(),
{
    if pairs.len() == 0 {
        m
    } else {
        assoc_set(assoc_set_all(m, pairs.drop_last()), pairs.last().0, pairs.last().1)
    }
}

/// The value that a lookup returns when the first pair with `key` stands at
/// position `j`.
pub proof fn lemma_assoc_get_at(m: AttrsView, key: Seq<char>, j: int)
    requires
        0 <= j < m.len(),
        m[j].0 == key,
        forall|i: int| 0 <= i < j ==> (#[trigger] m[i]).0 != key,
    ensures
        assoc_get(m, key) == Some(m[j].1),
    decreases j,
{
    if j > 0 {
        let t = m.drop_first();
        assert(forall|i: int| 0 <= i < t.len() ==> #[trigger] t[i] == m[i + 1]);
        lemma_assoc_get_at(t, key, j - 1);
    }
}

/// A lookup of an absent key returns nothing.
pub proof fn lemma_assoc_get_none(m: AttrsView, key: Seq<char>)
    requires
        forall|i: int| 0 <= i < m.len() ==> (#[trigger] m[i]).0 != key,
    ensures
        assoc_get(m, key) is None,
    decreases m.len(),
{
    if m.len() > 0 {
        let t = m.drop_first();
        assert(forall|i: int| 0 <= i < t.len() ==> #[trigger] t[i] == m[i + 1]);
        lemma_assoc_get_none(t, key);
    }
}

/// Binding a key keeps every key unique.
pub proof fn lemma_assoc_set_unique(m: AttrsView, key: Seq<char>, value: Seq<char>)
    requires
        unique_keys(m),
    ensures
        unique_keys(assoc_set(m, key, value)),
{
    if exists|i: int| 0 <= i < m.len() && (#[trigger] m[i]).0 == key {
        let j = choose|j: int| 0 <= j < m.len() && (#[trigger] m[j]).0 == key;
        assert(forall|i: int| 0 <= i < j ==> (#[trigger] m[i]).0 != key);
        lemma_assoc_set_found(m, key, value, j);
        assert(unique_keys(m.update(j, (key, value))));
    } else {
        lemma_assoc_set_absent(m, key, value);
        assert(unique_keys(m.push((key, value))));
    }
}

/// Binding a sequence of pairs in order keeps every key unique.
pub proof fn lemma_assoc_set_all_unique(m: AttrsView, pairs: AttrsView)
    requires
        unique_keys(m),
    ensures
        unique_keys(assoc_set_all(m, pairs)),
    decreases pairs.len(),
{
    if pairs.len() > 0 {
        lemma_assoc_set_all_unique(m, pairs.drop_last());
        lemma_assoc_set_unique(assoc_set_all(m, pairs.drop_last()), pairs.last().0, pairs.last().1);
    }
}

/// Reducing a mapping whose keys are already unique changes nothing.
pub proof fn lemma_assoc_fold_identity(m: AttrsView)
    requires
        unique_keys(m),
    ensures
        assoc_fold(m) == m,
    decreases m.len(),
{
    if m.len() == 0 {
        assert(assoc_fold(m) =~= m);
    } else {
        let p = m.drop_last();
        assert(forall|i: int| 0 <= i < p.len() ==> #[trigger] p[i] == m[i]);
        lemma_assoc_fold_identity(p);
        assert(forall|i: int| 0 <= i < p.len() ==> (#[trigger] p[i]).0 != m.last().0);
        lemma_assoc_set_absent(p, m.last().0, m.last().1);
        assert(p.push(m.last()) =~= m);
    }
}

/// Binds every pair of `pairs` in order, so on duplicate keys the last
/// value wins.
pub fn extend_attrs(attrs: &mut Vec<(String, String)>, pairs: &Vec<(String, String)>)
    ensures
        attrs_view(final(attrs)@) == assoc_set_all(attrs_view(old(attrs)@), attrs_view(pairs@)),
{
    let ghost m = attrs_view(old(attrs)@);
    let ghost ps = attrs_view(pairs@);
    let n = pairs.len();
    for i in 0..n
        invariant
            n == pairs.len(),
            ps == attrs_view(pairs@),
            attrs_view(attrs@) == assoc_set_all(m, ps.take(i as int)),
    {
        let key = pairs[i].0.clone();
        let value = pairs[i].1.clone();
        insert_attr(attrs, key, value);
        proof {
            assert(ps.take(i + 1).drop_last() =~= ps.take(i as int));
            assert(ps.take(i + 1).last() == ps[i as int]);
        }
    }
    proof {
        assert(ps.take(n as int) =~= ps);
    }
}

/// Reduces a sequence of raw pairs into an attribute mapping with unique
/// keys; on duplicate keys the last value wins.
pub fn reduce_attrs(pairs: &Vec<(String, String)>) -> (r: Vec<(String, String)>)
    ensures
        attrs_view(r@) == assoc_fold(attrs_view(pairs@)),
        unique_keys(attrs_view(r@)),
{
    let mut r: Vec<(String, String)> = Vec::new();
    proof {
        assert(attrs_view(r@) =~= Seq::<AttrPairView>::empty());
    }
    extend_attrs(&mut r, pairs);
    proof {
        lemma_assoc_set_all_unique(Seq::empty(), attrs_view(pairs@));
    }
    r
}

/// An exact copy of an attribute vector.
pub fn clone_attrs(attrs: &Vec<(String, String)>) -> (r: Vec<(String, String)>)
    ensures
        r@ == attrs@,
{
    let mut r: Vec<(String, String)> = Vec::new();
    let n = attrs.len();
    for i in 0..n
        invariant
            n == attrs.len(),
            r@ == attrs@.take(i as int),
    {
        r.push((attrs[i].0.clone(), attrs[i].1.clone()));
        proof {
            assert(r@ =~= attrs@.take(i + 1));
        }
    }
    proof {
        assert(attrs@.take(n as int) =~= attrs@);
    }
    r
}

/// Binds `key` to `value` in an attribute vector, replacing the first pair
/// with that key or appending a fresh pair.
pub fn insert_attr(attrs: &mut Vec<(String, String)>, key: String, value: String)
    ensures
        attrs_view(final(attrs)@) == assoc_set(attrs_view(old(attrs)@), key@, value@),
{
    let ghost m = attrs_view(old(attrs)@);
    let n = attrs.len();
    for j in 0..n
        invariant
            n == attrs.len(),
            attrs@ == old(attrs)@,
            m == attrs_view(attrs@),
            forall|i: int| 0 <= i < j ==> (#[trigger] m[i]).0 != key@,
    {
        if attrs[j].0 == key {
            attrs.set(j, (key, value));
            proof {
                lemma_assoc_set_found(m, key@, value@, j as int);
                assert(attrs_view(attrs@) =~= m.update(j as int, (key@, value@)));
            }
            return;
        }
    }
    attrs.push((key, value));
    proof {
        lemma_assoc_set_absent(m, key@, value@);
        assert(attrs_view(attrs@) =~= m.push((key@, value@)));
    }
}

/// When the first pair with `key` stands at `j`, binding replaces it there.
proof fn lemma_assoc_set_found(m: AttrsView, key: Seq<char>, value: Seq<char>, j: int)
    requires
        0 <= j < m.len(),
        m[j].0 == key,
        forall|i: int| 0 <= i < j ==> (#[trigger] m[i]).0 != key,
    ensures
        assoc_set(m, key, value) == m.update(j, (key, value)),
    decreases j,
{
    if j == 0 {
        assert(assoc_set(m, key, value) =~= m.update(0, (key, value)));
    } else {
        let t = m.drop_first();
        assert(forall|i: int| 0 <= i < t.len() ==> #[trigger] t[i] == m[i + 1]);
        lemma_assoc_set_found(t, key, value, j - 1);
        assert(assoc_set(m, key, value) =~= m.update(j, (key, value)));
    }
}

/// When `key` is absent, binding appends the pair at the end.
pub proof fn lemma_assoc_set_absent(m: AttrsView, key: Seq<char>, value: Seq<char>)
    requires
        forall|i: int| 0 <= i < m.len() ==> (#[trigger] m[i]).0 != key,
    ensures
        assoc_set(m, key, value) == m.push((key, value)),
    decreases m.len(),
{
    if m.len() == 0 {
        assert(assoc_set(m, key, value) =~= m.push((key, value)));
    } else {
        let t = m.drop_first();
        assert(forall|i: int| 0 <= i < t.len() ==> #[trigger] t[i] == m[i + 1]);
        lemma_assoc_set_absent(t, key, value);
        assert(assoc_set(m, key, value) =~= m.push((key, value)));
    }
}

} // verus!
