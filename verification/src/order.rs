//! The order in which a manager's packages are listed: by lowercased name.
use vstd::prelude::*;

use crate::package::Package;
use crate::text::to_chars;

verus! {

/// The text std's `str::to_lowercase` makes of `s`.
pub uninterp spec fn lowercase(s: Seq<char>) -> Seq<char>;

/// Lowercases `s`.
///
/// Calls std's `str::to_lowercase`, whose result (Unicode's lowercase mapping,
/// which can change the length) is left to the name `lowercase`.
#[verifier::external_body]
fn to_lowercase(s: &str) -> (r: String)
    ensures
        r@ == lowercase(s@),
{
    s.to_lowercase()
}

/// `a` comes strictly before `b` in the lexicographic order of code points.
/// For text this is the order of the UTF-8 bytes, which is how std orders
/// strings.
pub open spec fn chars_before(a: Seq<char>, b: Seq<char>) -> bool
    decreases a.len(),
{
    if b.len() == 0 {
        false
    } else if a.len() == 0 {
        true
    } else if (a[0] as u32) < (b[0] as u32) {
        true
    } else if a[0] == b[0] {
        chars_before(a.drop_first(), b.drop_first())
    } else {
        false
    }
}

pub proof fn lemma_before_irreflexive(a: Seq<char>)
    ensures
        !chars_before(a, a),
    decreases a.len(),
{
    if a.len() > 0 {
        lemma_before_irreflexive(a.drop_first());
    }
}

pub proof fn lemma_before_transitive(a: Seq<char>, b: Seq<char>, c: Seq<char>)
    requires
        chars_before(a, b),
        chars_before(b, c),
    ensures
        chars_before(a, c),
    decreases a.len(),
{
    if a.len() > 0 && a[0] == b[0] && b[0] == c[0] {
        lemma_before_transitive(a.drop_first(), b.drop_first(), c.drop_first());
    }
}

pub proof fn lemma_before_total(a: Seq<char>, b: Seq<char>)
    requires
        a != b,
    ensures
        chars_before(a, b) || chars_before(b, a),
    decreases a.len(),
{
    if a.len() > 0 && b.len() > 0 && a[0] == b[0] {
        if a.drop_first() == b.drop_first() {
            assert(a =~= seq![a[0]] + a.drop_first());
            assert(b =~= seq![b[0]] + b.drop_first());
        }
        lemma_before_total(a.drop_first(), b.drop_first());
    } else if a.len() > 0 && b.len() > 0 {
        if (a[0] as u32) == (b[0] as u32) {
            vstd::utf8::char_u32_cast(a[0], a[0] as u32);
            vstd::utf8::char_u32_cast(b[0], b[0] as u32);
        }
    } else if a.len() == 0 && b.len() == 0 {
        assert(a =~= b);
    }
}

proof fn lemma_before_skip(a: Seq<char>, b: Seq<char>, i: int)
    requires
        0 <= i <= a.len(),
        i <= b.len(),
        forall|k: int| 0 <= k < i ==> a[k] == b[k],
    ensures
        chars_before(a, b) == chars_before(a.skip(i), b.skip(i)),
    decreases i,
{
    if i > 0 {
        assert(a.drop_first().skip(i - 1) =~= a.skip(i));
        assert(b.drop_first().skip(i - 1) =~= b.skip(i));
        lemma_before_skip(a.drop_first(), b.drop_first(), i - 1);
    } else {
        assert(a.skip(0) =~= a);
        assert(b.skip(0) =~= b);
    }
}

/// The order is the lexicographic order of code points (which for text is
/// std's `str` order): where `a` and `b` agree on their first `k` characters
/// and `k` is where they part (one of them ends there, or the characters
/// differ), `a` comes first exactly when `a` ends there and `b` goes on, or
/// both go on and `a`'s character is the smaller.
pub proof fn lemma_before_is_lexicographic(a: Seq<char>, b: Seq<char>, k: int)
    requires
        0 <= k <= a.len(),
        k <= b.len(),
        a.take(k) == b.take(k),
        k == a.len() || k == b.len() || a[k] != b[k],
    ensures
        chars_before(a, b) <==> ((k == a.len() && k < b.len()) || (k < a.len() && k < b.len() && (
        a[k] as u32) < (b[k] as u32))),
{
    assert forall|m: int| 0 <= m < k implies a[m] == b[m] by {
        assert(a.take(k)[m] == a[m]);
        assert(b.take(k)[m] == b[m]);
    }
    lemma_before_skip(a, b, k);
    if k < a.len() && k < b.len() {
        assert(a.skip(k)[0] == a[k]);
        assert(b.skip(k)[0] == b[k]);
        if (a[k] as u32) == (b[k] as u32) {
            vstd::utf8::char_u32_cast(a[k], a[k] as u32);
            vstd::utf8::char_u32_cast(b[k], b[k] as u32);
        }
    }
}

/// A text comes before every longer text that begins with it.
pub proof fn lemma_prefix_comes_first(a: Seq<char>, s: Seq<char>)
    requires
        s.len() > 0,
    ensures
        chars_before(a, a + s),
        !chars_before(a + s, a),
{
    let b = a + s;
    assert(b.take(a.len() as int) =~= a.take(a.len() as int));
    lemma_before_is_lexicographic(a, b, a.len() as int);
    assert(b.take(a.len() as int) =~= a);
    lemma_before_is_lexicographic(b, a, a.len() as int);
}

/// Whether `a` comes strictly before `b`.
pub fn chars_lt(a: &Vec<char>, b: &Vec<char>) -> (r: bool)
    ensures
        r == chars_before(a@, b@),
{
    let mut i: usize = 0;
    while i < a.len() && i < b.len() && a[i] == b[i]
        invariant
            i <= a@.len(),
            i <= b@.len(),
            forall|k: int| 0 <= k < i ==> a@[k] == b@[k],
        decreases a@.len() - i,
    {
        i = i + 1;
    }
    proof {
        lemma_before_skip(a@, b@, i as int);
    }
    if i == b.len() {
        false
    } else if i == a.len() {
        true
    } else {
        (a[i] as u32) < (b[i] as u32)
    }
}

/// The key a package is listed by: its lowercased name.
pub open spec fn name_key(p: Package) -> Seq<char> {
    lowercase(p.name@)
}

/// Where a package with key `k` goes in `sorted` so that it follows every
/// package whose key does not come after `k`.
pub open spec fn insert_pos(sorted: Seq<Package>, k: Seq<char>) -> nat
    decreases sorted.len(),
{
    if sorted.len() == 0 || chars_before(k, name_key(sorted[0])) {
        0
    } else {
        1 + insert_pos(sorted.drop_first(), k)
    }
}

/// `ps` sorted by name key, packages with equal keys kept in their order: the
/// result of a stable sort.
pub open spec fn sorted_by_name(ps: Seq<Package>) -> Seq<Package>
    decreases ps.len(),
{
    if ps.len() == 0 {
        seq![]
    } else {
        let s = sorted_by_name(ps.drop_last());
        s.insert(insert_pos(s, name_key(ps.last())) as int, ps.last())
    }
}

/// No package of `s` has a key that comes before the key of one ahead of it.
pub open spec fn is_sorted_by_name(s: Seq<Package>) -> bool {
    forall|i: int, j: int| 0 <= i < j < s.len() ==> !chars_before(name_key(s[j]), name_key(s[i]))
}

pub proof fn lemma_insert_pos(sorted: Seq<Package>, k: Seq<char>)
    ensures
        insert_pos(sorted, k) <= sorted.len(),
        forall|m: int| 0 <= m < insert_pos(sorted, k) ==> !chars_before(k, #[trigger] name_key(sorted[m])),
        insert_pos(sorted, k) < sorted.len() ==> chars_before(k, name_key(sorted[insert_pos(sorted, k) as int])),
    decreases sorted.len(),
{
    if sorted.len() > 0 && !chars_before(k, name_key(sorted[0])) {
        lemma_insert_pos(sorted.drop_first(), k);
        assert forall|m: int| 0 <= m < insert_pos(sorted, k) implies !chars_before(
            k,
            #[trigger] name_key(sorted[m]),
        ) by {
            if m > 0 {
                assert(sorted[m] == sorted.drop_first()[m - 1]);
            }
        }
    }
}

/// Sorting by name leaves the packages in name order.
pub proof fn lemma_sorted_by_name_sorted(ps: Seq<Package>)
    ensures
        is_sorted_by_name(sorted_by_name(ps)),
    decreases ps.len(),
{
    if ps.len() > 0 {
        let s = sorted_by_name(ps.drop_last());
        lemma_sorted_by_name_sorted(ps.drop_last());
        let p = ps.last();
        let k = name_key(p);
        let j = insert_pos(s, k) as int;
        lemma_insert_pos(s, k);
        let r = s.insert(j, p);
        assert forall|a: int, b: int| 0 <= a < b < r.len() implies !chars_before(
            name_key(r[b]),
            name_key(r[a]),
        ) by {
            if a < j && b == j {
                assert(r[a] == s[a]);
            } else if a == j && b > j {
                assert(r[b] == s[b - 1]);
                if chars_before(name_key(s[b - 1]), k) {
                    assert(chars_before(k, name_key(s[j])));
                    lemma_before_transitive(name_key(s[b - 1]), k, name_key(s[j]));
                    if b - 1 > j {
                        assert(!chars_before(name_key(s[b - 1]), name_key(s[j])));
                    } else {
                        lemma_before_irreflexive(name_key(s[j]));
                    }
                }
            } else {
                let a0 = if a < j {
                    a
                } else {
                    a - 1
                };
                let b0 = if b < j {
                    b
                } else {
                    b - 1
                };
                assert(r[a] == s[a0]);
                assert(r[b] == s[b0]);
            }
        }
    }
}

/// Sorting by name keeps exactly the packages it was given.
pub proof fn lemma_sorted_by_name_permutes(ps: Seq<Package>)
    ensures
        sorted_by_name(ps).to_multiset() == ps.to_multiset(),
    decreases ps.len(),
{
    broadcast use vstd::seq_lib::to_multiset_insert, vstd::seq_lib::to_multiset_build;

    if ps.len() == 0 {
        assert(sorted_by_name(ps) =~= ps);
    } else {
        let s = sorted_by_name(ps.drop_last());
        lemma_sorted_by_name_permutes(ps.drop_last());
        lemma_insert_pos(s, name_key(ps.last()));
        assert(ps.drop_last().push(ps.last()) =~= ps);
    }
}

/// Whether a package's name key is `k`.
pub open spec fn has_key(k: Seq<char>) -> spec_fn(Package) -> bool {
    |p: Package| name_key(p) == k
}

proof fn lemma_filter_none(s: Seq<Package>, pred: spec_fn(Package) -> bool)
    requires
        forall|i: int| 0 <= i < s.len() ==> !pred(#[trigger] s[i]),
    ensures
        s.filter(pred) == Seq::<Package>::empty(),
    decreases s.len(),
{
    reveal(Seq::filter);
    if s.len() > 0 {
        assert forall|i: int| 0 <= i < s.drop_last().len() implies !pred(#[trigger] s.drop_last()[i]) by {
            assert(s.drop_last()[i] == s[i]);
        }
        lemma_filter_none(s.drop_last(), pred);
        assert(!pred(s[s.len() - 1]));
    }
}

/// Sorting by name is stable: the packages that share a name key come out in
/// the order they went in.
pub proof fn lemma_sorted_by_name_stable(ps: Seq<Package>, k: Seq<char>)
    ensures
        sorted_by_name(ps).filter(has_key(k)) == ps.filter(has_key(k)),
    decreases ps.len(),
{
    let pred = has_key(k);
    reveal(Seq::filter);
    if ps.len() == 0 {
        assert(sorted_by_name(ps) =~= ps);
    } else {
        let s = sorted_by_name(ps.drop_last());
        lemma_sorted_by_name_stable(ps.drop_last(), k);
        lemma_sorted_by_name_sorted(ps.drop_last());
        let x = ps.last();
        let pos = insert_pos(s, name_key(x)) as int;
        lemma_insert_pos(s, name_key(x));
        let front = s.take(pos);
        let back = s.skip(pos);
        assert(sorted_by_name(ps) =~= front + seq![x] + back);
        assert(s =~= front + back);
        Seq::filter_distributes_over_add(front, back, pred);
        Seq::filter_distributes_over_add(front + seq![x], back, pred);
        Seq::filter_distributes_over_add(front, seq![x], pred);
        assert(seq![x].drop_last() =~= Seq::<Package>::empty());
        assert(seq![x].last() == x);
        assert(Seq::<Package>::empty().filter(pred) == Seq::<Package>::empty());
        assert(seq![x].filter(pred) == if pred(x) {
            seq![x]
        } else {
            Seq::<Package>::empty()
        }) by {
            assert(Seq::<Package>::empty().push(x) =~= seq![x]);
        }
        assert(ps.filter(pred) == if pred(x) {
            s.filter(pred).push(x)
        } else {
            s.filter(pred)
        });
        if name_key(x) == k {
            assert forall|i: int| 0 <= i < back.len() implies !pred(#[trigger] back[i]) by {
                let m = pos + i;
                assert(back[i] == s[m]);
                if name_key(s[m]) == k {
                    if m == pos {
                        lemma_before_irreflexive(k);
                    } else {
                        assert(!chars_before(name_key(s[m]), name_key(s[pos])));
                    }
                }
            }
            lemma_filter_none(back, pred);
            assert(front.filter(pred) + Seq::<Package>::empty() =~= front.filter(pred));
            assert(front.filter(pred) + seq![x] =~= front.filter(pred).push(x));
        } else {
            assert(front.filter(pred) + Seq::<Package>::empty() =~= front.filter(pred));
        }
    }
}

/// The packages sorted by lowercased name, equal names kept in their order,
/// as std's stable `sort_by` over `to_lowercase` keys sorts them.
pub fn sort_by_name(ps: &Vec<Package>) -> (r: Vec<Package>)
    ensures
        r@ == sorted_by_name(ps@),
{
    let mut out: Vec<Package> = Vec::new();
    let mut keys: Vec<Vec<char>> = Vec::new();
    let mut i: usize = 0;
    assert(ps@.take(0) =~= Seq::<Package>::empty());
    while i < ps.len()
        invariant
            i <= ps@.len(),
            out@ == sorted_by_name(ps@.take(i as int)),
            keys@.len() == out@.len(),
            forall|m: int| 0 <= m < out@.len() ==> (#[trigger] keys@[m])@ == name_key(out@[m]),
        decreases ps@.len() - i,
    {
        let p = ps[i].clone();
        let key = to_chars(&to_lowercase(p.name.as_str()));
        assert(ps@.take(i + 1).drop_last() =~= ps@.take(i as int));
        let ghost s = out@;
        let mut j: usize = 0;
        while j < out.len() && !chars_lt(&key, &keys[j])
            invariant
                j <= out@.len(),
                out@ == s,
                keys@.len() == out@.len(),
                forall|m: int| 0 <= m < out@.len() ==> (#[trigger] keys@[m])@ == name_key(out@[m]),
                key@ == name_key(p),
                forall|m: int| 0 <= m < j ==> !chars_before(key@, #[trigger] name_key(s[m])),
            decreases out@.len() - j,
        {
            j = j + 1;
        }
        proof {
            lemma_insert_pos(s, key@);
            let q = insert_pos(s, key@) as int;
            if q < j {
                assert(!chars_before(key@, name_key(s[q])));
            } else if j < q {
                assert(!chars_before(key@, name_key(s[j as int])));
            }
        }
        let ghost old_keys = keys@;
        let ghost kv = key@;
        let ghost pv = p;
        out.insert(j, p);
        keys.insert(j, key);
        i = i + 1;
        assert forall|m: int| 0 <= m < out@.len() implies (#[trigger] keys@[m])@ == name_key(out@[m]) by {
            if m < j {
                assert(keys@[m] == old_keys[m] && out@[m] == s[m]);
            } else if m > j {
                assert(keys@[m] == old_keys[m - 1] && out@[m] == s[m - 1]);
            } else {
                assert(keys@[m]@ == kv && out@[m] == pv);
            }
        }
    }
    assert(ps@.take(i as int) =~= ps@);
    out
}

} // verus!
