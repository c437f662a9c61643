//! Byte-wise ordering of strings and a verified insertion sort on
//! (key, position) pairs, which yields the stable order by key.

use vstd::prelude::*;

verus! {

/// Lexicographic order on byte strings (the order of `str::cmp`).
pub open spec fn lex_lt(a: Seq<u8>, b: Seq<u8>) -> bool
    decreases a.len(),
{
    if a.len() == 0 {
        b.len() > 0
    } else if b.len() == 0 {
        false
    } else if a[0] < b[0] {
        true
    } else if a[0] > b[0] {
        false
    } else {
        lex_lt(a.drop_first(), b.drop_first())
    }
}

pub proof fn lemma_lex_irreflexive(a: Seq<u8>)
    ensures
        !lex_lt(a, a),
    decreases a.len(),
{
    if a.len() > 0 {
        lemma_lex_irreflexive(a.drop_first());
    }
}

pub proof fn lemma_lex_transitive(a: Seq<u8>, b: Seq<u8>, c: Seq<u8>)
    requires
        lex_lt(a, b),
        lex_lt(b, c),
    ensures
        lex_lt(a, c),
    decreases a.len(),
{
    if a.len() > 0 && b.len() > 0 && c.len() > 0 && a[0] == b[0] && b[0] == c[0] {
        lemma_lex_transitive(a.drop_first(), b.drop_first(), c.drop_first());
    }
}

pub proof fn lemma_lex_total(a: Seq<u8>, b: Seq<u8>)
    ensures
        a =~= b || lex_lt(a, b) || lex_lt(b, a),
    decreases a.len(),
{
    if a.len() > 0 && b.len() > 0 && a[0] == b[0] {
        lemma_lex_total(a.drop_first(), b.drop_first());
        if a.drop_first() =~= b.drop_first() {
            assert(a =~= b) by {
                assert forall|i: int| 0 <= i < a.len() implies a[i] == b[i] by {
                    if i > 0 {
                        assert(a[i] == a.drop_first()[i - 1]);
                        assert(b[i] == b.drop_first()[i - 1]);
                    }
                }
            }
        }
    }
}

pub proof fn lemma_lex_asymmetric(a: Seq<u8>, b: Seq<u8>)
    requires
        lex_lt(a, b),
    ensures
        !lex_lt(b, a),
{
    if lex_lt(b, a) {
        lemma_lex_transitive(a, b, a);
        lemma_lex_irreflexive(a);
    }
}

/// Whether `a` sorts before `b`.
pub fn bytes_lt(a: &[u8], b: &[u8]) -> (r: bool)
    ensures
        r == lex_lt(a@, b@),
{
    let n = if a.len() < b.len() {
        a.len()
    } else {
        b.len()
    };
    let mut i: usize = 0;
    assert(a@.skip(0) =~= a@);
    assert(b@.skip(0) =~= b@);
    while i < n
        invariant
            n <= a@.len(),
            n <= b@.len(),
            n == a@.len() || n == b@.len(),
            i <= n,
            lex_lt(a@, b@) == lex_lt(a@.skip(i as int), b@.skip(i as int)),
        decreases n - i,
    {
        let x = a[i];
        let y = b[i];
        if x < y {
            return true;
        }
        if x > y {
            return false;
        }
        assert(a@.skip(i as int).drop_first() =~= a@.skip(i + 1));
        assert(b@.skip(i as int).drop_first() =~= b@.skip(i + 1));
        i += 1;
    }
    assert(a@.skip(n as int).len() == a@.len() - n);
    assert(b@.skip(n as int).len() == b@.len() - n);
    a.len() < b.len()
}

/// Key bytes and original position.
pub type Keyed = (Vec<u8>, usize);

pub open spec fn kview(k: Keyed) -> (Seq<u8>, usize) {
    (k.0@, k.1)
}

/// By key, then by position.
pub open spec fn klt(a: Keyed, b: Keyed) -> bool {
    lex_lt(a.0@, b.0@) || (a.0@ == b.0@ && a.1 < b.1)
}

pub open spec fn strictly_sorted(s: Seq<Keyed>) -> bool {
    forall|i: int, j: int| 0 <= i < j < s.len() ==> klt(#[trigger] s[i], #[trigger] s[j])
}

pub open spec fn distinct_positions(s: Seq<Keyed>) -> bool {
    forall|i: int, j: int| 0 <= i < j < s.len() ==> (#[trigger] s[i]).1 != (#[trigger] s[j]).1
}

pub proof fn lemma_klt_transitive(a: Keyed, b: Keyed, c: Keyed)
    requires
        klt(a, b),
        klt(b, c),
    ensures
        klt(a, c),
{
    if lex_lt(a.0@, b.0@) && lex_lt(b.0@, c.0@) {
        lemma_lex_transitive(a.0@, b.0@, c.0@);
    }
}

pub proof fn lemma_klt_total(a: Keyed, b: Keyed)
    requires
        a.1 != b.1,
    ensures
        klt(a, b) || klt(b, a),
{
    lemma_lex_total(a.0@, b.0@);
}

pub proof fn lemma_klt_irreflexive(a: Keyed)
    ensures
        !klt(a, a),
{
    lemma_lex_irreflexive(a.0@);
}

/// Position at which `x` goes into the sorted `out`: before the first element
/// that sorts after it.
fn insertion_point(out: &Vec<Keyed>, x: &Keyed) -> (p: usize)
    ensures
        p <= out@.len(),
        forall|i: int| 0 <= i < p ==> !klt(*x, #[trigger] out@[i]),
        p < out@.len() ==> klt(*x, out@[p as int]),
{
    let n = out.len();
    let mut i: usize = 0;
    while i < n
        invariant
            n == out@.len(),
            i <= n,
            forall|k: int| 0 <= k < i ==> !klt(*x, #[trigger] out@[k]),
        decreases n - i,
    {
        let e = &out[i];
        let before = bytes_lt(x.0.as_slice(), e.0.as_slice()) || (crate::support::bytes_eq(
            x.0.as_slice(),
            e.0.as_slice(),
        ) && x.1 < e.1);
        if before {
            return i;
        }
        i += 1;
    }
    n
}

/// Sorts (key, position) pairs with distinct positions by key and then by
/// position, which is the stable sort by key.
pub fn sort_keyed(v: Vec<Keyed>) -> (r: Vec<Keyed>)
    requires
        distinct_positions(v@),
    ensures
        r@.len() == v@.len(),
        forall|e: Keyed| r@.contains(e) <==> v@.contains(e),
        strictly_sorted(r@),
{
    let mut rest = v;
    let mut out: Vec<Keyed> = Vec::new();
    while rest.len() > 0
        invariant
            distinct_positions(v@),
            out@.len() + rest@.len() == v@.len(),
            forall|e: Keyed| v@.contains(e) <==> (out@.contains(e) || rest@.contains(e)),
            forall|i: int, j: int|
                0 <= i < out@.len() && 0 <= j < rest@.len() ==> (#[trigger] out@[i]).1
                    != (#[trigger] rest@[j]).1,
            distinct_positions(rest@),
            strictly_sorted(out@),
        decreases rest@.len(),
    {
        let ghost old_rest = rest@;
        let ghost old_out = out@;
        let x = rest.pop().unwrap();
        assert(old_rest =~= rest@.push(x));
        let p = insertion_point(&out, &x);
        out.insert(p, x);
        proof {
            old_out.insert_ensures(p as int, x);
            assert(out@ == old_out.insert(p as int, x));
            assert forall|i: int| 0 <= i < old_out.len() implies (#[trigger] old_out[i]).1 != x.1 by {
                assert(old_rest[old_rest.len() - 1] == x);
            }
            assert forall|i: int, j: int| 0 <= i < j < out@.len() implies klt(
                #[trigger] out@[i],
                #[trigger] out@[j],
            ) by {
                if j < p {
                    assert(out@[i] == old_out[i] && out@[j] == old_out[j]);
                } else if j == p {
                    assert(out@[i] == old_out[i]);
                    lemma_klt_total(old_out[i], x);
                } else if i == p {
                    assert(out@[j] == old_out[j - 1]);
                    if j - 1 > p {
                        lemma_klt_transitive(x, old_out[p as int], old_out[j - 1]);
                    }
                } else if i < p {
                    assert(out@[i] == old_out[i] && out@[j] == old_out[j - 1]);
                } else {
                    assert(out@[i] == old_out[i - 1] && out@[j] == old_out[j - 1]);
                }
            }
            assert forall|e: Keyed| out@.contains(e) <==> (old_out.contains(e) || e == x) by {
                if out@.contains(e) {
                    let k = choose|k: int| 0 <= k < out@.len() && out@[k] == e;
                    if k < p {
                        assert(old_out[k] == e);
                    } else if k > p {
                        assert(old_out[k - 1] == e);
                    }
                }
                if old_out.contains(e) {
                    let k = choose|k: int| 0 <= k < old_out.len() && old_out[k] == e;
                    if k < p {
                        assert(out@[k] == e);
                    } else {
                        assert(out@[k + 1] == e);
                    }
                }
                if e == x {
                    assert(out@[p as int] == x);
                }
            }
            assert forall|e: Keyed| old_rest.contains(e) <==> (rest@.contains(e) || e == x) by {
                if old_rest.contains(e) {
                    let k = choose|k: int| 0 <= k < old_rest.len() && old_rest[k] == e;
                    if k < rest@.len() {
                        assert(rest@[k] == e);
                    }
                }
                if rest@.contains(e) {
                    let k = choose|k: int| 0 <= k < rest@.len() && rest@[k] == e;
                    assert(old_rest[k] == e);
                }
                if e == x {
                    assert(old_rest[old_rest.len() - 1] == x);
                }
            }
            assert forall|i: int, j: int|
                0 <= i < out@.len() && 0 <= j < rest@.len() implies (#[trigger] out@[i]).1
                != (#[trigger] rest@[j]).1 by {
                assert(rest@[j] == old_rest[j]);
                assert(old_rest[old_rest.len() - 1] == x);
                if i < p {
                    assert(out@[i] == old_out[i]);
                } else if i > p {
                    assert(out@[i] == old_out[i - 1]);
                }
            }
        }
    }
    out
}

/// `ord` lists each of `0..n` once.
pub open spec fn is_order(ord: Seq<int>, n: nat) -> bool {
    &&& ord.len() == n
    &&& forall|k: int| 0 <= k < ord.len() ==> 0 <= #[trigger] ord[k] < n
    &&& forall|a: int, b: int| 0 <= a < b < ord.len() ==> #[trigger] ord[a] != #[trigger] ord[b]
}

/// An order of `n` positions lists every position.
pub proof fn lemma_order_onto(ord: Seq<int>, n: nat, j: int)
    requires
        is_order(ord, n),
        0 <= j < n,
    ensures
        exists|k: int| 0 <= k < ord.len() && ord[k] == j,
{
    if !(exists|k: int| 0 <= k < ord.len() && ord[k] == j) {
        assert(ord.no_duplicates()) by {
            assert forall|a: int, b: int| 0 <= a < ord.len() && 0 <= b < ord.len() && a != b implies ord[a]
                != ord[b] by {
                if a < b {
                    assert(ord[a] != ord[b]);
                } else {
                    assert(ord[b] != ord[a]);
                }
            }
        }
        ord.unique_seq_to_set();
        let range = vstd::set_lib::set_int_range(0, n as int).remove(j);
        vstd::set_lib::lemma_int_range(0, n as int);
        assert(ord.to_set().subset_of(range));
        vstd::set_lib::lemma_len_subset(ord.to_set(), range);
    }
}

/// Every position `0..n` is listed by an order of `n` positions, and only
/// those.
pub proof fn lemma_order_contents(ord: Seq<int>, n: nat)
    requires
        is_order(ord, n),
    ensures
        forall|x: int| ord.contains(x) <==> 0 <= x < n,
{
    assert forall|x: int| ord.contains(x) <==> 0 <= x < n by {
        if 0 <= x < n {
            lemma_order_onto(ord, n, x);
            let k = choose|k: int| 0 <= k < ord.len() && ord[k] == x;
            assert(ord[k] == x);
        }
    }
}

/// Two sequences that list the same elements, each in strictly ascending
/// order of an asymmetric relation, are equal.
pub proof fn lemma_sorted_unique<A>(s1: Seq<A>, s2: Seq<A>, lt: spec_fn(A, A) -> bool)
    requires
        s1.len() == s2.len(),
        forall|x: A| s1.contains(x) <==> s2.contains(x),
        forall|x: A, y: A| #[trigger] lt(x, y) ==> !lt(y, x),
        forall|a: int, b: int| 0 <= a < b < s1.len() ==> lt(#[trigger] s1[a], #[trigger] s1[b]),
        forall|a: int, b: int| 0 <= a < b < s2.len() ==> lt(#[trigger] s2[a], #[trigger] s2[b]),
    ensures
        s1 == s2,
{
    assert forall|k: int| 0 <= k < s1.len() implies s1[k] == s2[k] by {
        lemma_sorted_agree_at(s1, s2, lt, k);
    }
    assert(s1 =~= s2);
}

proof fn lemma_sorted_agree_at<A>(s1: Seq<A>, s2: Seq<A>, lt: spec_fn(A, A) -> bool, k: int)
    requires
        s1.len() == s2.len(),
        forall|x: A| s1.contains(x) <==> s2.contains(x),
        forall|x: A, y: A| #[trigger] lt(x, y) ==> !lt(y, x),
        forall|a: int, b: int| 0 <= a < b < s1.len() ==> lt(#[trigger] s1[a], #[trigger] s1[b]),
        forall|a: int, b: int| 0 <= a < b < s2.len() ==> lt(#[trigger] s2[a], #[trigger] s2[b]),
        0 <= k < s1.len(),
    ensures
        s1[k] == s2[k],
    decreases k,
{
    assert forall|m: int| 0 <= m < k implies s1[m] == s2[m] by {
        lemma_sorted_agree_at(s1, s2, lt, m);
    }
    if s1[k] != s2[k] {
        let x = s1[k];
        let y = s2[k];
        assert(s2.contains(y));
        assert(s1.contains(y));
        let j = choose|j: int| 0 <= j < s1.len() && s1[j] == y;
        if j < k {
            assert(s2[j] == y);
            assert(lt(s2[j], s2[k]));
        }
        assert(lt(s1[k], s1[j]));
        assert(s1.contains(x));
        assert(s2.contains(x));
        let i = choose|i: int| 0 <= i < s2.len() && s2[i] == x;
        if i < k {
            assert(s1[i] == x);
            assert(lt(s1[i], s1[k]));
        }
        assert(lt(s2[k], s2[i]));
    }
}

/// Positions listed by `ord` come by key, and equal keys keep their order.
pub open spec fn stably_keyed(keys: Seq<u64>, ord: Seq<int>) -> bool {
    forall|a: int, b: int|
        0 <= a < b < ord.len() ==> keys[#[trigger] ord[a]] < keys[#[trigger] ord[b]] || (keys[ord[a]]
            == keys[ord[b]] && ord[a] < ord[b])
}

/// Sorts `items` stably by `keys` (one key per item).
pub fn stable_sort_by_key<T>(items: Vec<T>, keys: &Vec<u64>) -> (r: Vec<T>)
    requires
        items@.len() == keys@.len(),
    ensures
        exists|ord: Seq<int>|
            #![trigger is_order(ord, items@.len())]
            is_order(ord, items@.len()) && stably_keyed(keys@, ord) && r@.len() == items@.len()
                && forall|k: int| 0 <= k < r@.len() ==> r@[k] == items@[#[trigger] ord[k]],
{
    let ghost all = items@;
    let n = items.len();
    let mut rest = items;
    let mut out: Vec<T> = Vec::new();
    let mut out_keys: Vec<u64> = Vec::new();
    let ghost mut ord: Seq<int> = Seq::empty();
    let mut i: usize = 0;
    while i < n
        invariant
            n == all.len(),
            n == keys@.len(),
            i <= n,
            rest@ == all.skip(i as int),
            out@.len() == i,
            out_keys@.len() == i,
            ord.len() == i,
            forall|k: int| 0 <= k < ord.len() ==> out_keys@[k] == keys@[#[trigger] ord[k]],
            forall|k: int| 0 <= k < ord.len() ==> 0 <= #[trigger] ord[k] < i,
            forall|a: int, b: int| 0 <= a < b < ord.len() ==> #[trigger] ord[a] != #[trigger] ord[b],
            stably_keyed(keys@, ord),
            forall|k: int| 0 <= k < out@.len() ==> out@[k] == all[#[trigger] ord[k]],
        decreases n - i,
    {
        let ghost before = rest@;
        let x = rest.remove(0);
        assert(rest@ =~= all.skip(i + 1));
        assert(x == all[i as int]);
        let kx = keys[i];
        let mut p: usize = 0;
        while p < out_keys.len() && out_keys[p] <= kx
            invariant
                out_keys@.len() == ord.len(),
                forall|k: int| 0 <= k < ord.len() ==> out_keys@[k] == keys@[#[trigger] ord[k]],
                ord.len() == i,
                i < keys@.len(),
                kx == keys@[i as int],
                p <= out_keys@.len(),
                forall|k: int| 0 <= k < ord.len() ==> 0 <= #[trigger] ord[k] < i,
                forall|k: int| 0 <= k < p ==> keys@[#[trigger] ord[k]] <= kx,
            decreases out_keys@.len() - p,
        {
            p += 1;
        }
        let ghost old_ord = ord;
        let ghost old_keys = out_keys@;
        out.insert(p, x);
        out_keys.insert(p, kx);
        proof {
            ord = old_ord.insert(p as int, i as int);
            assert forall|a: int, b: int| 0 <= a < b < ord.len() implies keys@[#[trigger] ord[a]]
                < keys@[#[trigger] ord[b]] || (keys@[ord[a]] == keys@[ord[b]] && ord[a] < ord[b]) by {
                if b < p {
                    assert(ord[a] == old_ord[a] && ord[b] == old_ord[b]);
                } else if b == p {
                    assert(ord[a] == old_ord[a]);
                } else if a == p {
                    assert(ord[b] == old_ord[b - 1]);
                    if p < old_ord.len() {
                        assert(old_keys[p as int] > kx);
                        if b - 1 > p {
                            assert(keys@[old_ord[p as int]] <= keys@[old_ord[b - 1]]);
                        }
                    }
                } else if a < p {
                    assert(ord[a] == old_ord[a] && ord[b] == old_ord[b - 1]);
                } else {
                    assert(ord[a] == old_ord[a - 1] && ord[b] == old_ord[b - 1]);
                }
            }
            assert forall|a: int, b: int| 0 <= a < b < ord.len() implies #[trigger] ord[a]
                != #[trigger] ord[b] by {
                if b == p {
                    assert(ord[a] == old_ord[a]);
                } else if a == p {
                    assert(ord[b] == old_ord[b - 1]);
                } else if b < p {
                    assert(ord[a] == old_ord[a] && ord[b] == old_ord[b]);
                } else if a < p {
                    assert(ord[a] == old_ord[a] && ord[b] == old_ord[b - 1]);
                } else {
                    assert(ord[a] == old_ord[a - 1] && ord[b] == old_ord[b - 1]);
                }
            }
            assert forall|k: int| 0 <= k < ord.len() implies 0 <= #[trigger] ord[k] < i + 1 by {
                if k < p {
                    assert(ord[k] == old_ord[k]);
                } else if k > p {
                    assert(ord[k] == old_ord[k - 1]);
                }
            }
            assert forall|k: int| 0 <= k < out@.len() implies out@[k] == all[#[trigger] ord[k]] by {
                if k < p {
                    assert(ord[k] == old_ord[k]);
                } else if k > p {
                    assert(ord[k] == old_ord[k - 1]);
                }
            }
            assert forall|k: int| 0 <= k < ord.len() implies out_keys@[k] == keys@[#[trigger] ord[k]] by {
                if k < p {
                    assert(ord[k] == old_ord[k] && out_keys@[k] == old_keys[k]);
                } else if k > p {
                    assert(ord[k] == old_ord[k - 1] && out_keys@[k] == old_keys[k - 1]);
                }
            }
        }
        i += 1;
    }
    proof {
        assert(is_order(ord, all.len()));
    }
    out
}

/// The UTF-8 bytes of a string.
pub open spec fn str_bytes(s: String) -> Seq<u8> {
    vstd::utf8::encode_utf8(s@)
}

/// Strictly ascending in byte order (so without repeats).
pub open spec fn strings_strictly_sorted(s: Seq<String>) -> bool {
    forall|a: int, b: int| 0 <= a < b < s.len() ==> lex_lt(str_bytes(#[trigger] s[a]), str_bytes(#[trigger] s[b]))
}

/// Whether some element of `s` reads `x`.
pub open spec fn has_text(s: Seq<String>, x: Seq<char>) -> bool {
    exists|i: int| 0 <= i < s.len() && (#[trigger] s[i])@ == x
}

fn string_bytes(s: &String) -> (r: Vec<u8>)
    ensures
        r@ == str_bytes(*s),
{
    let mut out: Vec<u8> = Vec::new();
    crate::support::extend_bytes(&mut out, s.as_str().as_bytes());
    out
}

/// The strings of `v` in byte order, each once.
pub fn sorted_unique_strings(v: &Vec<String>) -> (r: Vec<String>)
    ensures
        strings_strictly_sorted(r@),
        forall|x: Seq<char>| has_text(r@, x) <==> has_text(v@, x),
{
    let n = v.len();
    let mut keyed: Vec<Keyed> = Vec::new();
    let mut i: usize = 0;
    while i < n
        invariant
            n == v@.len(),
            i <= n,
            keyed@.len() == i,
            forall|k: int| 0 <= k < i ==> (#[trigger] keyed@[k]).1 == k && keyed@[k].0@ == str_bytes(v@[k]),
        decreases n - i,
    {
        keyed.push((string_bytes(&v[i]), i));
        i += 1;
    }
    let ghost kv = keyed@;
    assert(distinct_positions(kv));
    let sorted = sort_keyed(keyed);
    let ghost s = sorted@;
    assert forall|t: int| 0 <= t < s.len() implies (#[trigger] s[t]).1 < n && s[t].0@ == str_bytes(
        v@[s[t].1 as int],
    ) by {
        assert(s.contains(s[t]));
        assert(kv.contains(s[t]));
        let j = choose|j: int| 0 <= j < kv.len() && kv[j] == s[t];
    }
    let m = sorted.len();
    let mut out: Vec<String> = Vec::new();
    let mut t: usize = 0;
    while t < m
        invariant
            m == s.len(),
            sorted@ == s,
            strictly_sorted(s),
            t <= m,
            forall|q: int| 0 <= q < s.len() ==> (#[trigger] s[q]).1 < n && s[q].0@ == str_bytes(
                v@[s[q].1 as int],
            ),
            n == v@.len(),
            strings_strictly_sorted(out@),
            t > 0 ==> out@.len() > 0 && str_bytes(out@.last()) == s[t - 1].0@,
            t == 0 ==> out@.len() == 0,
            forall|q: int| 0 <= q < t ==> has_text(out@, #[trigger] v@[s[q].1 as int]@),
            forall|c: int| 0 <= c < out@.len() ==> exists|q: int| 0 <= q < t && (#[trigger] out@[c])@ == v@[s[q].1 as int]@,
        decreases m - t,
    {
        let pos = sorted[t].1;
        let same = t > 0 && crate::support::bytes_eq(sorted[t - 1].0.as_slice(), sorted[t].0.as_slice());
        if same {
            proof {
                let last = out@.last();
                vstd::utf8::encode_utf8_decode_utf8(last@);
                vstd::utf8::encode_utf8_decode_utf8(v@[pos as int]@);
                assert(out@[out@.len() - 1]@ == v@[pos as int]@);
                assert forall|q: int| 0 <= q < t + 1 implies has_text(out@, #[trigger] v@[s[q].1 as int]@) by {
                    if q == t {
                        assert(out@[out@.len() - 1]@ == v@[pos as int]@);
                    }
                }
            }
        } else {
            let ghost before = out@;
            proof {
                if t > 0 {
                    assert(klt(s[t - 1], s[t as int]));
                    assert(lex_lt(s[t - 1].0@, s[t as int].0@));
                }
            }
            out.push(v[pos].clone());
            proof {
                assert forall|a: int, b: int| 0 <= a < b < out@.len() implies lex_lt(
                    str_bytes(#[trigger] out@[a]),
                    str_bytes(#[trigger] out@[b]),
                ) by {
                    if b == out@.len() - 1 {
                        assert(out@[b] == v@[pos as int]);
                        if a < before.len() - 1 {
                            assert(lex_lt(str_bytes(before[a]), str_bytes(before.last())));
                            lemma_lex_transitive(str_bytes(before[a]), str_bytes(before.last()), str_bytes(out@[b]));
                        }
                    } else {
                        assert(out@[a] == before[a] && out@[b] == before[b]);
                    }
                }
                assert forall|q: int| 0 <= q < t + 1 implies has_text(out@, #[trigger] v@[s[q].1 as int]@) by {
                    if q == t {
                        assert(out@[out@.len() - 1]@ == v@[pos as int]@);
                    } else {
                        assert(has_text(before, v@[s[q].1 as int]@));
                        let w = choose|w: int| 0 <= w < before.len() && (#[trigger] before[w])@ == v@[s[q].1 as int]@;
                        assert(out@[w] == before[w]);
                    }
                }
                assert forall|c: int| 0 <= c < out@.len() implies exists|q: int| 0 <= q < t + 1 && (#[trigger] out@[c])@ == v@[s[q].1 as int]@ by {
                    if c == out@.len() - 1 {
                        assert(out@[c]@ == v@[s[t as int].1 as int]@);
                    } else {
                        assert(out@[c] == before[c]);
                    }
                }
            }
        }
        t += 1;
    }
    proof {
        assert forall|x: Seq<char>| has_text(out@, x) <==> has_text(v@, x) by {
            if has_text(out@, x) {
                let c = choose|c: int| 0 <= c < out@.len() && (#[trigger] out@[c])@ == x;
                let q = choose|q: int| 0 <= q < m && (#[trigger] out@[c])@ == v@[s[q].1 as int]@;
                assert(v@[s[q].1 as int]@ == x);
            }
            if has_text(v@, x) {
                let j = choose|j: int| 0 <= j < v@.len() && (#[trigger] v@[j])@ == x;
                assert(kv.contains(kv[j]));
                assert(s.contains(kv[j]));
                let q = choose|q: int| 0 <= q < s.len() && s[q] == kv[j];
                assert(s[q].1 == j);
                assert(has_text(out@, v@[s[q].1 as int]@));
            }
        }
    }
    out
}


/// `ord` lists `keys` by byte order, equal keys in their original order.
pub open spec fn text_sorted(keys: Seq<Seq<u8>>, ord: Seq<int>) -> bool {
    forall|a: int, b: int|
        0 <= a < b < ord.len() ==> lex_lt(keys[#[trigger] ord[a]], keys[#[trigger] ord[b]]) || (keys[ord[a]]
            == keys[ord[b]] && ord[a] < ord[b])
}

pub open spec fn as_ints(v: Seq<usize>) -> Seq<int> {
    v.map_values(|u: usize| u as int)
}

/// The positions of `keys` in stable byte order of the keys.
pub fn text_order(keys: &Vec<String>) -> (ord: Vec<usize>)
    ensures
        is_order(as_ints(ord@), keys@.len()),
        text_sorted(keys@.map_values(|s: String| str_bytes(s)), as_ints(ord@)),
{
    let n = keys.len();
    let mut keyed: Vec<Keyed> = Vec::new();
    let mut i: usize = 0;
    while i < n
        invariant
            n == keys@.len(),
            i <= n,
            keyed@.len() == i,
            forall|k: int| 0 <= k < i ==> (#[trigger] keyed@[k]).1 == k && keyed@[k].0@ == str_bytes(keys@[k]),
        decreases n - i,
    {
        keyed.push((string_bytes(&keys[i]), i));
        i += 1;
    }
    let ghost kv = keyed@;
    let ghost kb = keys@.map_values(|s: String| str_bytes(s));
    assert(distinct_positions(kv));
    let sorted = sort_keyed(keyed);
    let ghost s = sorted@;
    assert forall|t: int| 0 <= t < s.len() implies (#[trigger] s[t]).1 < n && s[t].0@ == kb[s[t].1 as int] by {
        assert(s.contains(s[t]));
        assert(kv.contains(s[t]));
        let j = choose|j: int| 0 <= j < kv.len() && kv[j] == s[t];
    }
    let mut ord: Vec<usize> = Vec::new();
    let mut t: usize = 0;
    while t < sorted.len()
        invariant
            sorted@ == s,
            t <= s.len(),
            ord@.len() == t,
            forall|q: int| 0 <= q < t ==> ord@[q] == (#[trigger] s[q]).1,
        decreases s.len() - t,
    {
        ord.push(sorted[t].1);
        t += 1;
    }
    proof {
        let o = as_ints(ord@);
        assert forall|k: int| 0 <= k < o.len() implies 0 <= #[trigger] o[k] < n by {
            assert(o[k] == s[k].1);
        }
        assert forall|a: int, b: int| 0 <= a < b < o.len() implies #[trigger] o[a] != #[trigger] o[b] by {
            assert(klt(s[a], s[b]));
            if s[a].1 == s[b].1 {
                assert(s[a].0@ == kb[s[a].1 as int]);
                assert(s[b].0@ == kb[s[b].1 as int]);
                lemma_lex_irreflexive(s[a].0@);
            }
        }
        assert forall|a: int, b: int| 0 <= a < b < o.len() implies lex_lt(kb[#[trigger] o[a]], kb[#[trigger] o[b]]) || (kb[o[a]]
            == kb[o[b]] && o[a] < o[b]) by {
            assert(klt(s[a], s[b]));
            assert(o[a] == s[a].1 && o[b] == s[b].1);
        }
    }
    ord
}

} // verus!
