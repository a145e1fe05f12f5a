//! Lexicographic orders on character sequences and on paths, and a
//! stable insertion sort over values keyed by a path.

use vstd::prelude::*;

use crate::path::{components, components_of, vviews};

verus! {

/// Lexicographic "strictly less" on character sequences (code-point order,
/// a proper prefix first).
pub open spec fn chars_lt(a: Seq<char>, b: Seq<char>) -> bool
    decreases a.len(),
{
    if a.len() == 0 {
        b.len() > 0
    } else if b.len() == 0 {
        false
    } else if a[0] < b[0] {
        true
    } else if a[0] == b[0] {
        chars_lt(a.drop_first(), b.drop_first())
    } else {
        false
    }
}

/// Lexicographic "strictly less" on component lists, components compared
/// with `chars_lt`.
pub open spec fn comps_lt(a: Seq<Seq<char>>, b: Seq<Seq<char>>) -> bool
    decreases a.len(),
{
    if a.len() == 0 {
        b.len() > 0
    } else if b.len() == 0 {
        false
    } else if chars_lt(a[0], b[0]) {
        true
    } else if a[0] == b[0] {
        comps_lt(a.drop_first(), b.drop_first())
    } else {
        false
    }
}

/// Path order (`PathBuf`'s `Ord`): component by component.
pub open spec fn path_lt(a: Seq<char>, b: Seq<char>) -> bool {
    comps_lt(components(a), components(b))
}

proof fn lemma_seq_eq_from_head_tail<T>(a: Seq<T>, b: Seq<T>)
    requires
        a.len() > 0,
        b.len() > 0,
        a[0] == b[0],
        a.drop_first() == b.drop_first(),
    ensures
        a == b,
{
    assert(a.drop_first().len() == a.len() - 1);
    assert(b.drop_first().len() == b.len() - 1);
    assert(a.len() == b.len());
    assert forall|i: int| 0 <= i < a.len() implies a[i] == b[i] by {
        if i > 0 {
            assert(a[i] == a.drop_first()[i - 1]);
            assert(b[i] == b.drop_first()[i - 1]);
        }
    }
    assert(a =~= b);
}

pub proof fn lemma_chars_lt_props(a: Seq<char>, b: Seq<char>, c: Seq<char>)
    ensures
        !chars_lt(a, a),
        chars_lt(a, b) ==> !chars_lt(b, a),
        chars_lt(a, b) && chars_lt(b, c) ==> chars_lt(a, c),
        a != b ==> chars_lt(a, b) || chars_lt(b, a),
    decreases a.len(),
{
    if a.len() > 0 {
        lemma_chars_lt_props(a.drop_first(), a.drop_first(), a.drop_first());
    }
    if a.len() > 0 && b.len() > 0 {
        lemma_chars_lt_props(a.drop_first(), b.drop_first(), b.drop_first());
        if a[0] == b[0] && a != b {
            if a.drop_first() == b.drop_first() {
                lemma_seq_eq_from_head_tail(a, b);
            }
        }
    }
    if a.len() > 0 && b.len() > 0 && c.len() > 0 {
        lemma_chars_lt_props(a.drop_first(), b.drop_first(), c.drop_first());
    }
    if a.len() == 0 && b.len() == 0 {
        assert(a =~= b);
    }
}

pub proof fn lemma_comps_lt_props(a: Seq<Seq<char>>, b: Seq<Seq<char>>, c: Seq<Seq<char>>)
    ensures
        !comps_lt(a, a),
        comps_lt(a, b) ==> !comps_lt(b, a),
        comps_lt(a, b) && comps_lt(b, c) ==> comps_lt(a, c),
        a != b ==> comps_lt(a, b) || comps_lt(b, a),
    decreases a.len(),
{
    if a.len() > 0 {
        lemma_chars_lt_props(a[0], a[0], a[0]);
        lemma_comps_lt_props(a.drop_first(), a.drop_first(), a.drop_first());
    }
    if a.len() > 0 && b.len() > 0 {
        lemma_chars_lt_props(a[0], b[0], b[0]);
        lemma_comps_lt_props(a.drop_first(), b.drop_first(), b.drop_first());
        if a[0] == b[0] && a != b {
            if a.drop_first() == b.drop_first() {
                lemma_seq_eq_from_head_tail(a, b);
            }
        }
    }
    if a.len() > 0 && b.len() > 0 && c.len() > 0 {
        lemma_chars_lt_props(a[0], b[0], c[0]);
        lemma_comps_lt_props(a.drop_first(), b.drop_first(), c.drop_first());
    }
    if a.len() == 0 && b.len() == 0 {
        assert(a =~= b);
    }
}

/// `path_lt` is a strict total order on component lists.
pub proof fn lemma_path_lt_props(a: Seq<char>, b: Seq<char>, c: Seq<char>)
    ensures
        !path_lt(a, a),
        path_lt(a, b) ==> !path_lt(b, a),
        path_lt(a, b) && path_lt(b, c) ==> path_lt(a, c),
        components(a) != components(b) ==> path_lt(a, b) || path_lt(b, a),
{
    lemma_comps_lt_props(components(a), components(b), components(c));
    lemma_comps_lt_props(components(a), components(a), components(a));
}

pub fn chars_lt_exec(a: &Vec<char>, b: &Vec<char>) -> (r: bool)
    ensures
        r == chars_lt(a@, b@),
{
    let mut i: usize = 0;
    assert(a@.subrange(0, a.len() as int) =~= a@);
    assert(b@.subrange(0, b.len() as int) =~= b@);
    while i < a.len() && i < b.len() && a[i] == b[i]
        invariant
            i <= a.len(),
            i <= b.len(),
            chars_lt(a@, b@) == chars_lt(a@.subrange(i as int, a.len() as int), b@.subrange(
                i as int,
                b.len() as int,
            )),
        decreases a.len() - i,
    {
        proof {
            let sa = a@.subrange(i as int, a.len() as int);
            let sb = b@.subrange(i as int, b.len() as int);
            assert(sa.drop_first() =~= a@.subrange(i + 1, a.len() as int));
            assert(sb.drop_first() =~= b@.subrange(i + 1, b.len() as int));
        }
        i = i + 1;
    }
    proof {
        let sa = a@.subrange(i as int, a.len() as int);
        let sb = b@.subrange(i as int, b.len() as int);
        if i < a.len() && i < b.len() {
            assert(sa[0] == a@[i as int] && sb[0] == b@[i as int]);
        }
    }
    if i == a.len() {
        i < b.len()
    } else if i == b.len() {
        false
    } else {
        a[i] < b[i]
    }
}

/// `path_lt` on two path strings.
pub fn path_lt_exec(a: &Vec<char>, b: &Vec<char>) -> (r: bool)
    ensures
        r == path_lt(a@, b@),
{
    let ca = components_of(a);
    let cb = components_of(b);
    let ghost va = vviews(ca@);
    let ghost vb = vviews(cb@);
    let mut i: usize = 0;
    assert(va.subrange(0, va.len() as int) =~= va);
    assert(vb.subrange(0, vb.len() as int) =~= vb);
    while i < ca.len() && i < cb.len()
        invariant
            i <= ca.len(),
            i <= cb.len(),
            va == vviews(ca@),
            vb == vviews(cb@),
            va.len() == ca.len(),
            vb.len() == cb.len(),
            path_lt(a@, b@) == comps_lt(va.subrange(i as int, va.len() as int), vb.subrange(
                i as int,
                vb.len() as int,
            )),
        decreases ca.len() - i,
    {
        let ghost sa = va.subrange(i as int, va.len() as int);
        let ghost sb = vb.subrange(i as int, vb.len() as int);
        assert(sa[0] == ca@[i as int]@ && sb[0] == cb@[i as int]@);
        if chars_lt_exec(&ca[i], &cb[i]) {
            return true;
        }
        if !crate::text::chars_eq(&ca[i], &cb[i]) {
            return false;
        }
        proof {
            assert(sa.drop_first() =~= va.subrange(i + 1, va.len() as int));
            assert(sb.drop_first() =~= vb.subrange(i + 1, vb.len() as int));
        }
        i = i + 1;
    }
    i == ca.len() && i < cb.len()
}

/// A value sorted by a path-valued key.
pub trait PathKeyed: Sized {
    spec fn key(&self) -> Seq<char>;

    fn key_chars(&self) -> (r: Vec<char>)
        ensures
            r@ == self.key(),
    ;
}

/// `s` is sorted by key in path order (no element is strictly less than an
/// earlier one).
pub open spec fn sorted_by_key<T: PathKeyed>(s: Seq<T>) -> bool {
    forall|i: int, j: int| 0 <= i < j < s.len() ==> !path_lt(#[trigger] s[j].key(), #[trigger] s[i].key())
}

/// Holds for the values whose key has the components `c`.
pub open spec fn path_key_is<T: PathKeyed>(c: Seq<Seq<char>>) -> spec_fn(T) -> bool {
    |x: T| components(x.key()) == c
}

/// The values of each key (as a path: the same components) come in `r`
/// in the order they come in `v`.
pub open spec fn stable_by_key<T: PathKeyed>(r: Seq<T>, v: Seq<T>) -> bool {
    forall|c: Seq<Seq<char>>| #[trigger] r.filter(path_key_is::<T>(c)) == v.filter(path_key_is::<T>(c))
}

/// Stable insertion sort by key in path order.
pub fn sort_by_path_key<T: PathKeyed>(v: Vec<T>) -> (r: Vec<T>)
    ensures
        sorted_by_key(r@),
        r@.to_multiset() == v@.to_multiset(),
        stable_by_key(r@, v@),
{
    broadcast use vstd::seq_lib::group_to_multiset_ensures;

    let ghost orig = v@;
    let mut src = v;
    let mut out: Vec<T> = Vec::new();
    let mut k: usize = 0;
    let n = src.len();
    assert(out@ =~= orig.take(0));
    while src.len() > 0
        invariant
            k + src.len() == n,
            n == orig.len(),
            src@ == orig.subrange(k as int, n as int),
            out@.to_multiset() == orig.take(k as int).to_multiset(),
            sorted_by_key(out@),
            stable_by_key(out@, orig.take(k as int)),
        decreases src.len(),
    {
        let x = src.remove(0);
        proof {
            assert(x == orig[k as int]);
            assert(orig.take(k + 1) =~= orig.take(k as int).push(x));
            assert(src@ =~= orig.subrange(k + 1, n as int));
        }
        let xk = x.key_chars();
        let mut p: usize = out.len();
        while p > 0 && path_lt_exec(&xk, &out[p - 1].key_chars())
            invariant
                p <= out.len(),
                xk@ == x.key(),
                forall|m: int| p <= m < out@.len() ==> path_lt(x.key(), #[trigger] out@[m].key()),
            decreases p,
        {
            p = p - 1;
        }
        let ghost before = out@;
        out.insert(p, x);
        proof {
            assert(out@ == before.insert(p as int, x));
            assert(out@.remove(p as int) =~= before);
            out@.to_multiset_ensures();
            before.to_multiset_ensures();
            orig.take(k as int).to_multiset_ensures();
            assert(out@.to_multiset() =~= before.to_multiset().insert(x)) by {
                assert(out@.remove(p as int).to_multiset() == out@.to_multiset().remove(x));
                assert(out@.to_multiset().count(x) > 0) by {
                    assert(out@.contains(x)) by {
                        assert(out@[p as int] == x);
                    }
                }
            }
            assert forall|i: int, j: int| 0 <= i < j < out@.len() implies !path_lt(
                #[trigger] out@[j].key(),
                #[trigger] out@[i].key(),
            ) by {
                if i < p && j < p {
                    assert(out@[i] == before[i] && out@[j] == before[j]);
                } else if i > p && j > p {
                    assert(out@[i] == before[i - 1] && out@[j] == before[j - 1]);
                } else if i < p && j == p {
                    lemma_path_lt_props(x.key(), before[i].key(), before[p - 1].key());
                    lemma_path_lt_props(before[i].key(), before[p - 1].key(), x.key());
                    if i < p - 1 {
                        assert(!path_lt(before[p - 1].key(), before[i].key()));
                    }
                    assert(out@[i] == before[i]);
                    if path_lt(x.key(), before[i].key()) {
                        if components(before[i].key()) == components(before[p - 1].key()) {
                            assert(path_lt(x.key(), before[p - 1].key()));
                        } else {
                            lemma_path_lt_props(before[i].key(), before[p - 1].key(), x.key());
                        }
                    }
                } else if i < p && j > p {
                    assert(out@[i] == before[i] && out@[j] == before[j - 1]);
                } else {
                    // i == p < j
                    assert(out@[j] == before[j - 1]);
                    lemma_path_lt_props(x.key(), before[j - 1].key(), x.key());
                }
            }
            assert forall|c: Seq<Seq<char>>| #[trigger] out@.filter(path_key_is::<T>(c)) == orig.take(
                k + 1,
            ).filter(path_key_is::<T>(c)) by {
                let f = path_key_is::<T>(c);
                lemma_comps_lt_props(components(x.key()), components(x.key()), components(x.key()));
                assert(f(x) ==> forall|m: int| p <= m < before.len() ==> !f(#[trigger] before[m])) by {
                    assert forall|m: int| p <= m < before.len() && f(x) implies !f(#[trigger] before[m]) by {
                        assert(path_lt(x.key(), before[m].key()));
                    }
                }
                lemma_filter_insert(before, p as int, x, f);
                orig.take(k as int).lemma_filter_push(x, f);
                assert(before.filter(f) == orig.take(k as int).filter(f));
            }
        }
        k = k + 1;
    }
    assert(orig.take(n as int) =~= orig);
    out
}


/// Mapping preserves "same elements, any order".
pub proof fn lemma_map_multiset<A, B>(a: Seq<A>, b: Seq<A>, f: spec_fn(A) -> B)
    requires
        a.to_multiset() == b.to_multiset(),
    ensures
        a.map_values(f).to_multiset() == b.map_values(f).to_multiset(),
    decreases a.len(),
{
    a.to_multiset_ensures();
    b.to_multiset_ensures();
    if a.len() == 0 {
        assert(b.len() == 0);
        assert(a.map_values(f) =~= b.map_values(f));
    } else {
        let x = a.last();
        assert(a.contains(x)) by {
            assert(a[a.len() - 1] == x);
        }
        assert(b.to_multiset().count(x) > 0);
        assert(b.contains(x));
        let j = choose|j: int| 0 <= j < b.len() && b[j] == x;
        let a1 = a.drop_last();
        let b1 = b.remove(j);
        assert(a =~= a1.push(x));
        a1.to_multiset_ensures();
        b1.to_multiset_ensures();
        assert(a1.to_multiset() =~= a.to_multiset().remove(x));
        assert(b1.to_multiset() =~= b.to_multiset().remove(x));
        lemma_map_multiset(a1, b1, f);
        let fa = a.map_values(f);
        let fb = b.map_values(f);
        fa.to_multiset_ensures();
        fb.to_multiset_ensures();
        a1.map_values(f).to_multiset_ensures();
        assert(fa =~= a1.map_values(f).push(f(x)));
        assert(fb.remove(j) =~= b1.map_values(f));
        assert(fb[j] == f(x));
        assert(fb.to_multiset().count(f(x)) > 0) by {
            assert(fb.contains(f(x)));
        }
        assert(fb.to_multiset() =~= fb.remove(j).to_multiset().insert(f(x)));
    }
}


/// Inserting `x` at `p` filters like appending it, when `x` fails `f` or
/// nothing from `p` on passes it.
proof fn lemma_filter_insert<A>(s: Seq<A>, p: int, x: A, f: spec_fn(A) -> bool)
    requires
        0 <= p <= s.len(),
        f(x) ==> forall|m: int| p <= m < s.len() ==> !f(#[trigger] s[m]),
    ensures
        s.insert(p, x).filter(f) == if f(x) {
            s.filter(f).push(x)
        } else {
            s.filter(f)
        },
{
    let a = s.take(p);
    let b = s.skip(p);
    let one = Seq::<A>::empty().push(x);
    assert(s =~= a + b);
    assert(s.insert(p, x) =~= (a + one) + b);
    Seq::filter_distributes_over_add(a + one, b, f);
    Seq::filter_distributes_over_add(a, one, f);
    Seq::filter_distributes_over_add(a, b, f);
    Seq::<A>::empty().lemma_filter_push(x, f);
    assert(Seq::<A>::empty().filter(f) =~= Seq::<A>::empty()) by {
        reveal(Seq::filter);
    }
    if f(x) {
        assert(b.all(|y: A| !f(y))) by {
            assert forall|m: int| 0 <= m < b.len() implies !f(#[trigger] b[m]) by {
                assert(b[m] == s[p + m]);
            }
        }
        b.lemma_all_neg_filter_empty(f);
        assert(b.filter(f) =~= Seq::<A>::empty());
        assert(a.filter(f) + one =~= a.filter(f).push(x));
        assert(a.filter(f) + Seq::<A>::empty() =~= a.filter(f));
    } else {
        assert(a.filter(f) + Seq::<A>::empty() =~= a.filter(f));
    }
}

/// Filtering commutes with mapping, when the two tests agree through the
/// map.
pub proof fn lemma_filter_map_values<A, B>(
    s: Seq<A>,
    f: spec_fn(A) -> bool,
    m: spec_fn(A) -> B,
    g: spec_fn(B) -> bool,
)
    requires
        forall|x: A| #[trigger] g(m(x)) == f(x),
    ensures
        s.filter(f).map_values(m) == s.map_values(m).filter(g),
    decreases s.len(),
{
    reveal(Seq::filter);
    if s.len() == 0 {
        assert(s.filter(f).map_values(m) =~= s.map_values(m).filter(g));
    } else {
        lemma_filter_map_values(s.drop_last(), f, m, g);
        assert(s.map_values(m).drop_last() =~= s.drop_last().map_values(m));
        assert(s.map_values(m).last() == m(s.last()));
        assert(g(m(s.last())) == f(s.last()));
        if f(s.last()) {
            assert(s.filter(f).map_values(m) =~= s.drop_last().filter(f).map_values(m).push(m(s.last())));
        } else {
            assert(s.filter(f).map_values(m) =~= s.drop_last().filter(f).map_values(m));
        }
    }
}

/// Values ordered by an integer key.
pub trait IntKeyed: Sized {
    spec fn ikey(&self) -> int;

    fn int_key(&self) -> (r: i64)
        ensures
            r as int == self.ikey(),
    ;
}

/// `s` is ordered by its integer keys, smallest first.
pub open spec fn sorted_by_int_key<T: IntKeyed>(s: Seq<T>) -> bool {
    forall|i: int, j: int| 0 <= i < j < s.len() ==> #[trigger] s[i].ikey() <= #[trigger] s[j].ikey()
}

/// Holds for the values whose integer key is `k`.
pub open spec fn int_key_is<T: IntKeyed>(k: int) -> spec_fn(T) -> bool {
    |x: T| x.ikey() == k
}

/// The values of each key come in `r` in the order they come in `v`.
pub open spec fn stable_by_int_key<T: IntKeyed>(r: Seq<T>, v: Seq<T>) -> bool {
    forall|k: int| #[trigger] r.filter(int_key_is::<T>(k)) == v.filter(int_key_is::<T>(k))
}

/// Stable insertion sort by integer key (`sort_by_key`).
pub fn sort_by_int_key<T: IntKeyed>(v: Vec<T>) -> (r: Vec<T>)
    ensures
        sorted_by_int_key(r@),
        r@.to_multiset() == v@.to_multiset(),
        stable_by_int_key(r@, v@),
{
    broadcast use vstd::seq_lib::group_to_multiset_ensures;

    let ghost orig = v@;
    let mut src = v;
    let mut out: Vec<T> = Vec::new();
    let mut k: usize = 0;
    let n = src.len();
    assert(out@ =~= orig.take(0));
    while src.len() > 0
        invariant
            k + src.len() == n,
            n == orig.len(),
            src@ == orig.subrange(k as int, n as int),
            out@.to_multiset() == orig.take(k as int).to_multiset(),
            sorted_by_int_key(out@),
            stable_by_int_key(out@, orig.take(k as int)),
        decreases src.len(),
    {
        let x = src.remove(0);
        proof {
            assert(x == orig[k as int]);
            assert(orig.take(k + 1) =~= orig.take(k as int).push(x));
            assert(src@ =~= orig.subrange(k + 1, n as int));
        }
        let xk = x.int_key();
        let mut p: usize = out.len();
        while p > 0 && xk < out[p - 1].int_key()
            invariant
                p <= out.len(),
                xk as int == x.ikey(),
                forall|m: int| p <= m < out@.len() ==> x.ikey() < #[trigger] out@[m].ikey(),
            decreases p,
        {
            p = p - 1;
        }
        let ghost before = out@;
        out.insert(p, x);
        proof {
            assert(out@ == before.insert(p as int, x));
            assert(out@.remove(p as int) =~= before);
            out@.to_multiset_ensures();
            before.to_multiset_ensures();
            orig.take(k as int).to_multiset_ensures();
            assert(out@.to_multiset() =~= before.to_multiset().insert(x)) by {
                assert(out@.remove(p as int).to_multiset() == out@.to_multiset().remove(x));
                assert(out@.to_multiset().count(x) > 0) by {
                    assert(out@.contains(x)) by {
                        assert(out@[p as int] == x);
                    }
                }
            }
            assert forall|i: int, j: int| 0 <= i < j < out@.len() implies #[trigger] out@[i].ikey()
                <= #[trigger] out@[j].ikey() by {
                if i < p && j < p {
                    assert(out@[i] == before[i] && out@[j] == before[j]);
                } else if i > p && j > p {
                    assert(out@[i] == before[i - 1] && out@[j] == before[j - 1]);
                } else if i < p && j == p {
                    assert(out@[i] == before[i]);
                    assert(before[p - 1].ikey() <= x.ikey());
                    if i < p - 1 {
                        assert(before[i].ikey() <= before[p - 1].ikey());
                    }
                } else if i < p && j > p {
                    assert(out@[i] == before[i] && out@[j] == before[j - 1]);
                } else {
                    assert(out@[j] == before[j - 1]);
                }
            }
            assert forall|c: int| #[trigger] out@.filter(int_key_is::<T>(c)) == orig.take(k + 1).filter(
                int_key_is::<T>(c),
            ) by {
                let f = int_key_is::<T>(c);
                assert(f(x) ==> forall|m: int| p <= m < before.len() ==> !f(#[trigger] before[m])) by {
                    assert forall|m: int| p <= m < before.len() && f(x) implies !f(#[trigger] before[m]) by {
                        assert(x.ikey() < before[m].ikey());
                    }
                }
                lemma_filter_insert(before, p as int, x, f);
                orig.take(k as int).lemma_filter_push(x, f);
                assert(before.filter(f) == orig.take(k as int).filter(f));
            }
        }
        k = k + 1;
    }
    assert(orig.take(n as int) =~= orig);
    out
}

impl PathKeyed for String {
    open spec fn key(&self) -> Seq<char> {
        self@
    }

    fn key_chars(&self) -> (r: Vec<char>) {
        crate::text::chars_of(self.as_str())
    }
}


/// Values ordered by a text key, compared character by character.
pub trait TextKeyed: Sized {
    spec fn tkey(&self) -> Seq<char>;

    fn text_key(&self) -> (r: Vec<char>)
        ensures
            r@ == self.tkey(),
    ;
}

/// `s` is ordered by its text keys: no element's key is strictly less
/// than an earlier one's.
pub open spec fn sorted_by_text_key<T: TextKeyed>(s: Seq<T>) -> bool {
    forall|i: int, j: int| 0 <= i < j < s.len() ==> !chars_lt(#[trigger] s[j].tkey(), #[trigger] s[i].tkey())
}

/// Holds for the values whose text key is `k`.
pub open spec fn text_key_is<T: TextKeyed>(k: Seq<char>) -> spec_fn(T) -> bool {
    |x: T| x.tkey() == k
}

/// The values of each text key come in `r` in the order they come in `v`.
pub open spec fn stable_by_text_key<T: TextKeyed>(r: Seq<T>, v: Seq<T>) -> bool {
    forall|k: Seq<char>| #[trigger] r.filter(text_key_is::<T>(k)) == v.filter(text_key_is::<T>(k))
}

/// Stable insertion sort by text key (`sort_by` on `String`'s `cmp` of
/// the keys).
pub fn sort_by_text_key<T: TextKeyed>(v: Vec<T>) -> (r: Vec<T>)
    ensures
        sorted_by_text_key(r@),
        r@.to_multiset() == v@.to_multiset(),
        stable_by_text_key(r@, v@),
{
    broadcast use vstd::seq_lib::group_to_multiset_ensures;

    let ghost orig = v@;
    let mut src = v;
    let mut out: Vec<T> = Vec::new();
    let mut k: usize = 0;
    let n = src.len();
    assert(out@ =~= orig.take(0));
    while src.len() > 0
        invariant
            k + src.len() == n,
            n == orig.len(),
            src@ == orig.subrange(k as int, n as int),
            out@.to_multiset() == orig.take(k as int).to_multiset(),
            sorted_by_text_key(out@),
            stable_by_text_key(out@, orig.take(k as int)),
        decreases src.len(),
    {
        let x = src.remove(0);
        proof {
            assert(x == orig[k as int]);
            assert(orig.take(k + 1) =~= orig.take(k as int).push(x));
            assert(src@ =~= orig.subrange(k + 1, n as int));
        }
        let xk = x.text_key();
        let mut p: usize = out.len();
        while p > 0 && chars_lt_exec(&xk, &out[p - 1].text_key())
            invariant
                p <= out.len(),
                xk@ == x.tkey(),
                forall|m: int| p <= m < out@.len() ==> chars_lt(x.tkey(), #[trigger] out@[m].tkey()),
            decreases p,
        {
            p = p - 1;
        }
        let ghost before = out@;
        out.insert(p, x);
        proof {
            assert(out@ == before.insert(p as int, x));
            assert(out@.remove(p as int) =~= before);
            out@.to_multiset_ensures();
            before.to_multiset_ensures();
            orig.take(k as int).to_multiset_ensures();
            assert(out@.to_multiset() =~= before.to_multiset().insert(x)) by {
                assert(out@.remove(p as int).to_multiset() == out@.to_multiset().remove(x));
                assert(out@.to_multiset().count(x) > 0) by {
                    assert(out@.contains(x)) by {
                        assert(out@[p as int] == x);
                    }
                }
            }
            assert forall|i: int, j: int| 0 <= i < j < out@.len() implies !chars_lt(
                #[trigger] out@[j].tkey(),
                #[trigger] out@[i].tkey(),
            ) by {
                if i < p && j < p {
                    assert(out@[i] == before[i] && out@[j] == before[j]);
                } else if i > p && j > p {
                    assert(out@[i] == before[i - 1] && out@[j] == before[j - 1]);
                } else if i < p && j == p {
                    assert(out@[i] == before[i]);
                    lemma_chars_lt_props(x.tkey(), before[i].tkey(), before[p - 1].tkey());
                    lemma_chars_lt_props(before[i].tkey(), before[p - 1].tkey(), x.tkey());
                    lemma_chars_lt_props(x.tkey(), before[p - 1].tkey(), before[i].tkey());
                    if i < p - 1 {
                        assert(!chars_lt(before[p - 1].tkey(), before[i].tkey()));
                    }
                } else if i < p && j > p {
                    assert(out@[i] == before[i] && out@[j] == before[j - 1]);
                } else {
                    assert(out@[j] == before[j - 1]);
                    lemma_chars_lt_props(x.tkey(), before[j - 1].tkey(), x.tkey());
                }
            }
            assert forall|c: Seq<char>| #[trigger] out@.filter(text_key_is::<T>(c)) == orig.take(k + 1).filter(
                text_key_is::<T>(c),
            ) by {
                let f = text_key_is::<T>(c);
                lemma_chars_lt_props(x.tkey(), x.tkey(), x.tkey());
                assert(f(x) ==> forall|m: int| p <= m < before.len() ==> !f(#[trigger] before[m])) by {
                    assert forall|m: int| p <= m < before.len() && f(x) implies !f(#[trigger] before[m]) by {
                        assert(chars_lt(x.tkey(), before[m].tkey()));
                    }
                }
                lemma_filter_insert(before, p as int, x, f);
                orig.take(k as int).lemma_filter_push(x, f);
                assert(before.filter(f) == orig.take(k as int).filter(f));
            }
        }
        k = k + 1;
    }
    assert(orig.take(n as int) =~= orig);
    out
}

} // verus!
