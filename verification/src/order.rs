//! Orderings and sorting used by the store's queries.
use vstd::prelude::*;
use vstd::multiset::Multiset;

verus! {

broadcast use vstd::seq_lib::group_to_multiset_ensures;

/// Every earlier element may come before every later one.
pub open spec fn sorted_by_le<T>(s: Seq<T>, le: spec_fn(T, T) -> bool) -> bool {
    forall|i: int, j: int| 0 <= i < j < s.len() ==> #[trigger] le(s[i], #[trigger] s[j])
}

/// `le` is total and transitive.
pub open spec fn total_preorder<T>(le: spec_fn(T, T) -> bool) -> bool {
    &&& forall|a: T, b: T| #[trigger] le(a, b) || le(b, a)
    &&& forall|a: T, b: T, c: T| #[trigger] le(a, b) && #[trigger] le(b, c) ==> le(a, c)
}

/// Lexicographic order on character sequences, by code point.
pub open spec fn lex_le(a: Seq<char>, b: Seq<char>) -> bool
    decreases a.len(),
{
    if a.len() == 0 {
        true
    } else if b.len() == 0 {
        false
    } else if a[0] != b[0] {
        (a[0] as u32) < (b[0] as u32)
    } else {
        lex_le(a.drop_first(), b.drop_first())
    }
}

pub proof fn lemma_lex_total(a: Seq<char>, b: Seq<char>)
    ensures
        lex_le(a, b) || lex_le(b, a),
    decreases a.len(),
{
    if a.len() > 0 && b.len() > 0 {
        vstd::utf8::char_u32_cast(a[0], a[0] as u32);
        vstd::utf8::char_u32_cast(b[0], b[0] as u32);
    }
    if a.len() > 0 && b.len() > 0 && a[0] == b[0] {
        lemma_lex_total(a.drop_first(), b.drop_first());
    }
}

pub proof fn lemma_lex_trans(a: Seq<char>, b: Seq<char>, c: Seq<char>)
    requires
        lex_le(a, b),
        lex_le(b, c),
    ensures
        lex_le(a, c),
    decreases a.len(),
{
    if a.len() > 0 && b.len() > 0 && c.len() > 0 && a[0] == b[0] && b[0] == c[0] {
        lemma_lex_trans(a.drop_first(), b.drop_first(), c.drop_first());
    }
}

pub proof fn lemma_lex_antisym(a: Seq<char>, b: Seq<char>)
    requires
        lex_le(a, b),
        lex_le(b, a),
    ensures
        a == b,
    decreases a.len(),
{
    if a.len() > 0 && b.len() > 0 {
        lemma_lex_antisym(a.drop_first(), b.drop_first());
        assert(a =~= seq![a[0]] + a.drop_first());
        assert(b =~= seq![b[0]] + b.drop_first());
    } else {
        assert(a =~= b);
    }
}

/// Compares two texts in lexicographic code-point order.
pub fn text_le(a: &String, b: &String) -> (r: bool)
    ensures
        r == lex_le(a@, b@),
{
    let x = crate::text::chars_of(a.as_str());
    let y = crate::text::chars_of(b.as_str());
    let mut i: usize = 0;
    assert(a@.skip(0) =~= a@);
    assert(b@.skip(0) =~= b@);
    while i < x.len() && i < y.len()
        invariant
            x@ == a@,
            y@ == b@,
            i <= x.len(),
            i <= y.len(),
            lex_le(a@, b@) == lex_le(a@.skip(i as int), b@.skip(i as int)),
        decreases x.len() - i,
    {
        assert(a@.skip(i as int)[0] == x@[i as int]);
        assert(b@.skip(i as int)[0] == y@[i as int]);
        if x[i] != y[i] {
            return (x[i] as u32) < (y[i] as u32);
        }
        assert(a@.skip(i as int).drop_first() =~= a@.skip(i + 1));
        assert(b@.skip(i as int).drop_first() =~= b@.skip(i + 1));
        i = i + 1;
    }
    i == x.len()
}

proof fn lemma_multiset_insert<T>(s: Seq<T>, k: int, x: T)
    requires
        0 <= k <= s.len(),
    ensures
        s.insert(k, x).to_multiset() =~= s.to_multiset().insert(x),
{
    let t = s.insert(k, x);
    assert(t.remove(k) =~= s);
    assert(t[k] == x);
    assert(t.remove(k).to_multiset() =~= t.to_multiset().remove(x));
    assert(t.contains(x));
    assert(t.to_multiset().count(x) > 0);
}

/// Sorts `v` so that `le` holds between every earlier and later element.
pub fn sort_by<T, F: Fn(&T, &T) -> bool>(v: Vec<T>, le: F, Ghost(spec_le): Ghost<spec_fn(T, T) -> bool>) -> (r: Vec<T>)
    requires
        total_preorder(spec_le),
        forall|a: &T, b: &T| #[trigger] le.requires((a, b)),
        forall|a: &T, b: &T, x: bool| #[trigger] le.ensures((a, b), x) ==> x == spec_le(*a, *b),
    ensures
        sorted_by_le(r@, spec_le),
        r@.to_multiset() == v@.to_multiset(),
        r@.len() == v@.len(),
{
    let ghost orig = v@;
    let mut v = v;
    let mut r: Vec<T> = Vec::new();
    while v.len() > 0
        invariant
            total_preorder(spec_le),
            forall|a: &T, b: &T| #[trigger] le.requires((a, b)),
            forall|a: &T, b: &T, x: bool| #[trigger] le.ensures((a, b), x) ==> x == spec_le(*a, *b),
            sorted_by_le(r@, spec_le),
            r@.to_multiset().add(v@.to_multiset()) == orig.to_multiset(),
        decreases v.len(),
    {
        let ghost v0 = v@;
        let x = v.pop().unwrap();
        assert(v0 =~= v@.push(x));
        let mut k: usize = 0;
        while k < r.len() && le(&r[k], &x)
            invariant
                total_preorder(spec_le),
                forall|a: &T, b: &T| #[trigger] le.requires((a, b)),
                forall|a: &T, b: &T, x: bool| #[trigger] le.ensures((a, b), x) ==> x == spec_le(*a, *b),
                k <= r.len(),
                forall|j: int| 0 <= j < k ==> #[trigger] spec_le(r@[j], x),
            decreases r.len() - k,
        {
            k = k + 1;
        }
        let ghost r0 = r@;
        proof {
            if k < r.len() {
                assert(!spec_le(r0[k as int], x));
                assert(spec_le(x, r0[k as int]));
            }
        }
        r.insert(k, x);
        proof {
            assert forall|i: int, j: int| 0 <= i < j < r@.len() implies #[trigger] spec_le(r@[i], #[trigger] r@[j]) by {
                if j < k {
                    assert(r@[i] == r0[i] && r@[j] == r0[j]);
                } else if j == k {
                    assert(r@[i] == r0[i]);
                } else if i == k {
                    assert(r@[j] == r0[j - 1]);
                    assert(spec_le(r0[k as int], r0[j - 1]) || k == j - 1);
                } else if i < k {
                    assert(r@[i] == r0[i] && r@[j] == r0[j - 1]);
                } else {
                    assert(r@[i] == r0[i - 1] && r@[j] == r0[j - 1]);
                }
            }
            lemma_multiset_insert(r0, k as int, x);
            assert(v0.to_multiset() =~= v@.to_multiset().insert(x));
        }
    }
    assert(v@.to_multiset().len() == 0);
    assert(r@.to_multiset() =~= orig.to_multiset());
    assert(r@.len() == r@.to_multiset().len());
    assert(orig.len() == orig.to_multiset().len());
    r
}

/// What a sequence holds after a push.
pub proof fn lemma_push_contains<T>(s: Seq<T>, x: T)
    ensures
        forall|q: T| #[trigger] s.push(x).contains(q) <==> s.contains(q) || q == x,
{
    assert forall|q: T| #[trigger] s.push(x).contains(q) <==> s.contains(q) || q == x by {
        if s.push(x).contains(q) {
            let k = choose|k: int| 0 <= k < s.push(x).len() && s.push(x)[k] == q;
            if k < s.len() {
                assert(s[k] == q);
            }
        }
        if s.contains(q) {
            let k = choose|k: int| 0 <= k < s.len() && s[k] == q;
            assert(s.push(x)[k] == q);
        }
        if q == x {
            assert(s.push(x)[s.len() as int] == q);
        }
    }
}

/// An element kept by a filter is in the filtered sequence and satisfies the predicate.
pub proof fn lemma_filter_member<T>(s: Seq<T>, p: spec_fn(T) -> bool, x: T)
    requires
        s.filter(p).contains(x),
    ensures
        s.contains(x),
        p(x),
    decreases s.len(),
{
    reveal(Seq::filter);
    if s.len() > 0 {
        let sub = s.drop_last().filter(p);
        if p(s.last()) && x == s.last() {
        } else {
            if p(s.last()) {
                let j = choose|j: int| 0 <= j < s.filter(p).len() && s.filter(p)[j] == x;
                assert(s.filter(p) == sub.push(s.last()));
                assert(j < sub.len());
                assert(sub[j] == x);
            }
            assert(sub.contains(x));
            lemma_filter_member(s.drop_last(), p, x);
            let k = choose|k: int| 0 <= k < s.drop_last().len() && s.drop_last()[k] == x;
            assert(s[k] == x);
        }
    }
}

/// An element of a sequence whose multiset equals a filter's is kept by that filter.
pub proof fn lemma_permuted_filter_member<T>(v: Seq<T>, s: Seq<T>, p: spec_fn(T) -> bool, k: int)
    requires
        v.to_multiset() == s.filter(p).to_multiset(),
        0 <= k < v.len(),
    ensures
        s.contains(v[k]),
        p(v[k]),
{
    assert(v.contains(v[k]));
    assert(v.to_multiset().count(v[k]) > 0);
    assert(s.filter(p).contains(v[k]));
    lemma_filter_member(s, p, v[k]);
}

/// The first `k` elements of `v` (all of them when there are fewer).
pub fn take_prefix<T>(v: Vec<T>, k: usize) -> (r: Vec<T>)
    ensures
        r@ == v@.take(if k <= v@.len() { k as int } else { v@.len() as int }),
{
    let mut v = v;
    if k < v.len() {
        v.truncate(k);
    }
    assert(v@ =~= v@.take(v@.len() as int));
    v
}

/// The multiset of a filter is the filter of the multiset.
pub proof fn lemma_filter_to_multiset<T>(s: Seq<T>, p: spec_fn(T) -> bool)
    ensures
        s.filter(p).to_multiset() =~= s.to_multiset().filter(p),
    decreases s.len(),
{
    broadcast use vstd::multiset::group_multiset_axioms;
    if s.len() == 0 {
        reveal(Seq::filter);
        assert(s.filter(p) =~= Seq::<T>::empty());
        assert(s.to_multiset() =~= Multiset::<T>::empty());
    } else {
        let t = s.drop_last();
        let x = s.last();
        assert(s =~= t.push(x));
        lemma_filter_to_multiset(t, p);
        t.lemma_filter_push(x, p);
        assert(s.to_multiset() =~= t.to_multiset().insert(x));
        if p(x) {
            assert(s.filter(p).to_multiset() =~= t.filter(p).to_multiset().insert(x));
        }
        assert forall|v: T| #[trigger] s.filter(p).to_multiset().count(v) == s.to_multiset().filter(p).count(v) by {
        }
    }
}

/// Filtering two arrangements of the same elements keeps the same elements.
pub proof fn lemma_filter_permutation<T>(a: Seq<T>, b: Seq<T>, p: spec_fn(T) -> bool)
    requires
        a.to_multiset() == b.to_multiset(),
    ensures
        a.filter(p).to_multiset() == b.filter(p).to_multiset(),
{
    lemma_filter_to_multiset(a, p);
    lemma_filter_to_multiset(b, p);
}

/// `r` holds the first `k` elements of some sorted arrangement of `s`.
pub open spec fn is_top_k<T>(r: Seq<T>, s: Seq<T>, le: spec_fn(T, T) -> bool, k: nat) -> bool {
    exists|p: Seq<T>| #![trigger p.to_multiset()]
        p.to_multiset() == s.to_multiset() && sorted_by_le(p, le)
        && r == p.take(if k <= p.len() { k as int } else { p.len() as int })
}

} // verus!
