use vstd::prelude::*;

use crate::text::chars_of;

verus! {

/// Whether `a` comes strictly before `b` when strings are compared
/// character by character (by code point), a proper prefix first.  This is
/// the order of `str` in Rust, since UTF-8 keeps the order of code points.
pub open spec fn chars_before(a: Seq<char>, b: Seq<char>) -> bool
    decreases a.len(),
{
    if a.len() == 0 {
        b.len() > 0
    } else if b.len() == 0 {
        false
    } else if a[0] != b[0] {
        a[0] < b[0]
    } else {
        chars_before(a.drop_first(), b.drop_first())
    }
}

pub proof fn lemma_before_irreflexive(a: Seq<char>)
    ensures
        !chars_before(a, a),
    decreases a.len(),
{
    if a.len() > 0 {
        lemma_before_irreflexive(a.drop_first());
    }
}

pub proof fn lemma_before_asymmetric(a: Seq<char>, b: Seq<char>)
    ensures
        chars_before(a, b) ==> !chars_before(b, a),
    decreases a.len(),
{
    if a.len() > 0 && b.len() > 0 && a[0] == b[0] {
        lemma_before_asymmetric(a.drop_first(), b.drop_first());
    }
}

pub proof fn lemma_before_transitive(a: Seq<char>, b: Seq<char>, c: Seq<char>)
    requires
        chars_before(a, b),
        chars_before(b, c),
    ensures
        chars_before(a, c),
    decreases a.len(),
{
    if a.len() > 0 && b.len() > 0 && c.len() > 0 && a[0] == b[0] && b[0] == c[0] {
        lemma_before_transitive(a.drop_first(), b.drop_first(), c.drop_first());
    }
}

pub proof fn lemma_before_total(a: Seq<char>, b: Seq<char>)
    ensures
        a != b ==> chars_before(a, b) || chars_before(b, a),
    decreases a.len(),
{
    if a.len() > 0 && b.len() > 0 && a[0] == b[0] {
        lemma_before_total(a.drop_first(), b.drop_first());
        if a.drop_first() == b.drop_first() {
            assert(a =~= seq![a[0]] + a.drop_first());
            assert(b =~= seq![b[0]] + b.drop_first());
        }
    } else if a.len() == 0 && b.len() == 0 {
        assert(a =~= b);
    }
}

/// Whether `a` comes strictly before `b` (see `chars_before`).
pub fn str_before(a: &str, b: &str) -> (r: bool)
    ensures
        r == chars_before(a@, b@),
{
    let av = chars_of(a);
    let bv = chars_of(b);
    let mut i: usize = 0;
    assert(a@.skip(0) =~= a@);
    assert(b@.skip(0) =~= b@);
    while i < av.len() && i < bv.len()
        invariant
            i <= av.len(),
            i <= bv.len(),
            av@ == a@,
            bv@ == b@,
            chars_before(a@, b@) == chars_before(a@.skip(i as int), b@.skip(i as int)),
        decreases av.len() - i,
    {
        if av[i] != bv[i] {
            assert(a@.skip(i as int)[0] == av@[i as int]);
            assert(b@.skip(i as int)[0] == bv@[i as int]);
            return av[i] < bv[i];
        }
        assert(a@.skip(i as int).drop_first() =~= a@.skip(i + 1));
        assert(b@.skip(i as int).drop_first() =~= b@.skip(i + 1));
        i += 1;
    }
    i < bv.len()
}

/// Values that are ordered by a string key.
pub trait Keyed {
    spec fn key_view(&self) -> Seq<char>;

    fn key(&self) -> (r: &str)
        ensures
            r@ == self.key_view(),
    ;
}

/// Whether the keys of `s` never decrease.
pub open spec fn sorted_by_key<T: Keyed>(s: Seq<T>) -> bool {
    forall|i: int, j: int|
        0 <= i < j < s.len() ==> !chars_before(#[trigger] s[j].key_view(), #[trigger] s[i].key_view())
}

/// Whether `r` is `v` reordered by the one-to-one index map `p`
/// (`r[i] == v[p[i]]`), where values with equal keys keep their order.
pub open spec fn stable_reordering<T: Keyed>(r: Seq<T>, v: Seq<T>, p: Seq<int>) -> bool {
    &&& r.len() == v.len()
    &&& p.len() == v.len()
    &&& forall|i: int| 0 <= i < p.len() ==> 0 <= #[trigger] p[i] < v.len() && r[i] == v[p[i]]
    &&& forall|i: int, j: int| 0 <= i < j < p.len() ==> #[trigger] p[i] != #[trigger] p[j]
    &&& forall|i: int, j: int|
        0 <= i < j < r.len() && (#[trigger] r[i]).key_view() == (#[trigger] r[j]).key_view()
            ==> p[i] < p[j]
}

/// Sorts by key, keeping values with equal keys in their order (a stable
/// sort, as `sort_by` with a key comparison).
pub fn sort_by_key<T: Keyed>(v: Vec<T>) -> (r: Vec<T>)
    ensures
        sorted_by_key(r@),
        exists|p: Seq<int>| stable_reordering(r@, v@, p),
{
    let ghost orig = v@;
    let n = v.len();
    let mut rest = v;
    let mut r: Vec<T> = Vec::new();
    let ghost mut p: Seq<int> = Seq::empty();
    let mut k: usize = 0;
    while rest.len() > 0
        invariant
            k <= orig.len(),
            orig.len() == n,
            rest@ == orig.skip(k as int),
            r.len() == k,
            p.len() == k,
            sorted_by_key(r@),
            forall|i: int| 0 <= i < k ==> 0 <= #[trigger] p[i] < k && r@[i] == orig[p[i]],
            forall|i: int, j: int| 0 <= i < j < k ==> #[trigger] p[i] != #[trigger] p[j],
            forall|i: int, j: int|
                0 <= i < j < k && (#[trigger] r@[i]).key_view() == (#[trigger] r@[j]).key_view()
                    ==> p[i] < p[j],
        decreases rest.len(),
    {
        let x = rest.remove(0);
        assert(x == orig[k as int]);
        let mut pos: usize = 0;
        while pos < r.len()
            invariant
                pos <= r.len(),
                forall|i: int| 0 <= i < pos ==> !chars_before(x.key_view(), #[trigger] r@[i].key_view()),
            ensures
                pos <= r.len(),
                forall|i: int| 0 <= i < pos ==> !chars_before(x.key_view(), #[trigger] r@[i].key_view()),
                pos < r.len() ==> chars_before(x.key_view(), r@[pos as int].key_view()),
            decreases r.len() - pos,
        {
            if str_before(x.key(), r[pos].key()) {
                break;
            }
            pos += 1;
        }
        let ghost old_r = r@;
        let ghost old_p = p;
        r.insert(pos, x);
        proof {
            p = old_p.insert(pos as int, k as int);
            assert(r@ == old_r.insert(pos as int, x));
            // every value after the insertion point comes strictly after `x`
            assert forall|j: int| pos <= j < old_r.len() implies chars_before(
                x.key_view(),
                #[trigger] old_r[j].key_view(),
            ) by {
                if j > pos {
                    let a = old_r[pos as int].key_view();
                    let b = old_r[j].key_view();
                    assert(!chars_before(b, a));
                    lemma_before_total(a, b);
                    if a != b {
                        lemma_before_transitive(x.key_view(), a, b);
                    }
                }
            }
            assert forall|i: int, j: int| 0 <= i < j < r@.len() implies !chars_before(
                #[trigger] r@[j].key_view(),
                #[trigger] r@[i].key_view(),
            ) by {
                if j == pos {
                    lemma_before_asymmetric(r@[i].key_view(), x.key_view());
                    assert(r@[i] == old_r[i]);
                } else if i == pos {
                    assert(r@[j] == old_r[j - 1]);
                    lemma_before_asymmetric(x.key_view(), old_r[j - 1].key_view());
                } else {
                    let oi = if i < pos { i } else { i - 1 };
                    let oj = if j < pos { j } else { j - 1 };
                    assert(r@[i] == old_r[oi]);
                    assert(r@[j] == old_r[oj]);
                }
            }
            assert forall|i: int| 0 <= i < k + 1 implies 0 <= #[trigger] p[i] < k + 1 && r@[i]
                == orig[p[i]] by {
                if i < pos {
                    assert(p[i] == old_p[i]);
                } else if i > pos {
                    assert(p[i] == old_p[i - 1]);
                }
            }
            assert forall|i: int, j: int| 0 <= i < j < k + 1 implies #[trigger] p[i]
                != #[trigger] p[j] by {
                let oi = if i < pos { i } else { i - 1 };
                let oj = if j < pos { j } else { j - 1 };
                if i != pos && j != pos {
                    assert(old_p[oi] != old_p[oj]);
                } else if i == pos {
                    assert(old_p[oj] < k);
                } else {
                    assert(old_p[oi] < k);
                }
            }
            assert forall|i: int, j: int|
                0 <= i < j < k + 1 && (#[trigger] r@[i]).key_view() == (
                #[trigger] r@[j]).key_view() implies p[i] < p[j] by {
                if i == pos {
                    assert(r@[j] == old_r[j - 1]);
                    lemma_before_irreflexive(x.key_view());
                } else if j == pos {
                    assert(p[i] == old_p[i]);
                } else {
                    let oi = if i < pos { i } else { i - 1 };
                    let oj = if j < pos { j } else { j - 1 };
                    assert(r@[i] == old_r[oi]);
                    assert(r@[j] == old_r[oj]);
                    assert(p[i] == old_p[oi]);
                    assert(p[j] == old_p[oj]);
                }
            }
        }
        k += 1;
        assert(orig.skip((k - 1) as int).drop_first() =~= orig.skip(k as int));
    }
    assert(stable_reordering(r@, orig, p));
    r
}

/// A key with the position it came from.
pub struct KeyAt {
    pub key: String,
    pub at: usize,
}

impl Keyed for KeyAt {
    open spec fn key_view(&self) -> Seq<char> {
        self.key@
    }

    fn key(&self) -> (r: &str) {
        self.key.as_str()
    }
}

/// Whether `order` lists the positions of `keys` so that the keys never
/// decrease, positions of equal keys in increasing order: the order in which
/// a stable sort by key puts them.
pub open spec fn is_stable_order(keys: Seq<Seq<char>>, order: Seq<usize>) -> bool {
    &&& order.len() == keys.len()
    &&& forall|i: int| 0 <= i < order.len() ==> #[trigger] order[i] < keys.len()
    &&& forall|i: int, j: int| 0 <= i < j < order.len() ==> #[trigger] order[i] != #[trigger] order[j]
    &&& forall|i: int, j: int|
        0 <= i < j < order.len() ==> !chars_before(
            keys[#[trigger] order[j] as int],
            keys[#[trigger] order[i] as int],
        )
    &&& forall|i: int, j: int|
        0 <= i < j < order.len() && keys[#[trigger] order[i] as int] == keys[#[trigger] order[j] as int]
            ==> order[i] < order[j]
}

/// The views of a list of strings.
pub open spec fn string_views(v: Seq<String>) -> Seq<Seq<char>> {
    v.map_values(|s: String| s@)
}

/// The positions of `keys` in the order of a stable sort by key.
pub fn stable_order(keys: &Vec<String>) -> (order: Vec<usize>)
    ensures
        is_stable_order(string_views(keys@), order@),
{
    let mut items: Vec<KeyAt> = Vec::new();
    let mut i: usize = 0;
    while i < keys.len()
        invariant
            i <= keys.len(),
            items.len() == i,
            forall|j: int| 0 <= j < i ==> (#[trigger] items@[j]).key@ == keys@[j]@ && items@[j].at == j,
        decreases keys.len() - i,
    {
        items.push(KeyAt { key: keys[i].clone(), at: i });
        i += 1;
    }
    let ghost before = items@;
    let sorted = sort_by_key(items);
    let ghost p = choose|p: Seq<int>| stable_reordering(sorted@, before, p);
    let mut order: Vec<usize> = Vec::new();
    let mut k: usize = 0;
    while k < sorted.len()
        invariant
            k <= sorted.len(),
            order.len() == k,
            forall|j: int| 0 <= j < k ==> #[trigger] order@[j] == sorted@[j].at,
        decreases sorted.len() - k,
    {
        order.push(sorted[k].at);
        k += 1;
    }
    proof {
        let kv = string_views(keys@);
        assert forall|j: int| 0 <= j < order.len() implies #[trigger] order@[j] == p[j] && kv[
            order@[j] as int] == sorted@[j].key@ by {
            assert(sorted@[j] == before[p[j]]);
        }
    }
    order
}

} // verus!
