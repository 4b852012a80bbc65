//! The order in which warnings and lint violations are reported: by file,
//! then line, then text, with strings compared character by character (the
//! order of `str::cmp`, since UTF-8 keeps the order of code points).
use vstd::prelude::*;

verus! {

/// Lexicographic order of character sequences by code point.
pub open spec fn chars_lt(a: Seq<char>, b: Seq<char>) -> bool
    decreases a.len(),
{
    if a.len() == 0 {
        b.len() > 0
    } else if b.len() == 0 {
        false
    } else if a[0] != b[0] {
        (a[0] as u32) < (b[0] as u32)
    } else {
        chars_lt(a.drop_first(), b.drop_first())
    }
}

pub proof fn lemma_chars_lt_irreflexive(a: Seq<char>)
    ensures
        !chars_lt(a, a),
    decreases a.len(),
{
    if a.len() > 0 {
        lemma_chars_lt_irreflexive(a.drop_first());
    }
}

pub proof fn lemma_chars_lt_transitive(a: Seq<char>, b: Seq<char>, c: Seq<char>)
    requires
        chars_lt(a, b),
        chars_lt(b, c),
    ensures
        chars_lt(a, c),
    decreases a.len(),
{
    if a.len() > 0 && b.len() > 0 && c.len() > 0 {
        if a[0] == b[0] && b[0] == c[0] {
            lemma_chars_lt_transitive(a.drop_first(), b.drop_first(), c.drop_first());
        }
    }
}

proof fn lemma_char_code_injective(x: char, y: char)
    requires
        x != y,
    ensures
        x as u32 != y as u32,
{
}

pub proof fn lemma_chars_lt_total(a: Seq<char>, b: Seq<char>)
    ensures
        a == b || chars_lt(a, b) || chars_lt(b, a),
    decreases a.len(),
{
    if a.len() > 0 && b.len() > 0 {
        if a[0] == b[0] {
            lemma_chars_lt_total(a.drop_first(), b.drop_first());
            if a.drop_first() == b.drop_first() {
                assert(a.drop_first().len() == a.len() - 1);
                assert(b.drop_first().len() == b.len() - 1);
                assert(a.len() == b.len());
                assert(a =~= b) by {
                    assert forall|i: int| 0 <= i < a.len() implies a[i] == b[i] by {
                        if i > 0 {
                            assert(a[i] == a.drop_first()[i - 1]);
                            assert(b[i] == b.drop_first()[i - 1]);
                        }
                    }
                }
            }
        } else {
            lemma_char_code_injective(a[0], b[0]);
        }
    } else if a.len() == 0 && b.len() == 0 {
        assert(a =~= b);
    }
}

pub proof fn lemma_chars_lt_asymmetric(a: Seq<char>, b: Seq<char>)
    requires
        chars_lt(a, b),
    ensures
        !chars_lt(b, a),
{
    if chars_lt(b, a) {
        lemma_chars_lt_transitive(a, b, a);
        lemma_chars_lt_irreflexive(a);
    }
}

/// A report position: file, line, text.
pub type Key = (Seq<char>, u64, Seq<char>);

pub open spec fn key_lt(a: Key, b: Key) -> bool {
    ||| chars_lt(a.0, b.0)
    ||| a.0 == b.0 && a.1 < b.1
    ||| a.0 == b.0 && a.1 == b.1 && chars_lt(a.2, b.2)
}

pub proof fn lemma_key_lt_order()
    ensures
        forall|a: Key| !#[trigger] key_lt(a, a),
        forall|a: Key, b: Key, c: Key| #[trigger] key_lt(a, b) && #[trigger] key_lt(b, c) ==> key_lt(a, c),
        forall|a: Key, b: Key| a == b || #[trigger] key_lt(a, b) || #[trigger] key_lt(b, a),
{
    assert forall|a: Key| !#[trigger] key_lt(a, a) by {
        lemma_chars_lt_irreflexive(a.0);
        lemma_chars_lt_irreflexive(a.2);
    }
    assert forall|a: Key, b: Key, c: Key| #[trigger] key_lt(a, b) && #[trigger] key_lt(b, c) implies key_lt(a, c) by {
        if chars_lt(a.0, b.0) && chars_lt(b.0, c.0) {
            lemma_chars_lt_transitive(a.0, b.0, c.0);
        }
        if a.0 == b.0 && b.0 == c.0 && a.1 == b.1 && b.1 == c.1 && chars_lt(a.2, b.2) && chars_lt(b.2, c.2) {
            lemma_chars_lt_transitive(a.2, b.2, c.2);
        }
    }
    assert forall|a: Key, b: Key| a == b || #[trigger] key_lt(a, b) || #[trigger] key_lt(b, a) by {
        lemma_chars_lt_total(a.0, b.0);
        lemma_chars_lt_total(a.2, b.2);
    }
}

pub proof fn lemma_key_irreflexive(a: Key)
    ensures
        !key_lt(a, a),
{
    lemma_key_lt_order();
}

pub proof fn lemma_key_transitive(a: Key, b: Key, c: Key)
    requires
        key_lt(a, b),
        key_lt(b, c),
    ensures
        key_lt(a, c),
{
    lemma_key_lt_order();
    assert(key_lt(a, b) && key_lt(b, c));
}

pub proof fn lemma_key_total(a: Key, b: Key)
    ensures
        a == b || key_lt(a, b) || key_lt(b, a),
{
    lemma_chars_lt_total(a.0, b.0);
    lemma_chars_lt_total(a.2, b.2);
}

/// The position of an item in the report order.
pub trait Keyed: Sized {
    spec fn key(&self) -> Key;

    fn key_chars(&self) -> (r: (Vec<char>, u64, Vec<char>))
        ensures
            (r.0@, r.1, r.2@) == self.key(),
    ;
}

pub open spec fn key_of(k: (Vec<char>, u64, Vec<char>)) -> Key {
    (k.0@, k.1, k.2@)
}

/// Compares two character vectors: -1, 0 or 1.
pub fn compare_chars(a: &Vec<char>, b: &Vec<char>) -> (r: i8)
    ensures
        r < 0 <==> chars_lt(a@, b@),
        r == 0 <==> a@ == b@,
        r > 0 <==> chars_lt(b@, a@),
{
    let mut i: usize = 0;
    proof {
        assert(a@.skip(0) == a@);
        assert(b@.skip(0) == b@);
    }
    while i < a.len() && i < b.len() && a[i] == b[i]
        invariant
            0 <= i <= a@.len(),
            i <= b@.len(),
            forall|j: int| 0 <= j < i ==> a@[j] == b@[j],
            chars_lt(a@, b@) == chars_lt(a@.skip(i as int), b@.skip(i as int)),
            chars_lt(b@, a@) == chars_lt(b@.skip(i as int), a@.skip(i as int)),
        decreases a.len() - i,
    {
        assert(a@.skip(i as int).drop_first() == a@.skip(i + 1));
        assert(b@.skip(i as int).drop_first() == b@.skip(i + 1));
        i = i + 1;
    }
    proof {
        lemma_chars_lt_total(a@, b@);
        lemma_chars_lt_irreflexive(a@);
        if chars_lt(a@, b@) {
            lemma_chars_lt_asymmetric(a@, b@);
        }
    }
    if i == a.len() && i == b.len() {
        assert(a@ =~= b@);
        0
    } else if i == a.len() {
        -1
    } else if i == b.len() {
        1
    } else if (a[i] as u32) < (b[i] as u32) {
        -1
    } else {
        1
    }
}

/// Whether `a` comes strictly before `b`.
pub fn key_less(a: &(Vec<char>, u64, Vec<char>), b: &(Vec<char>, u64, Vec<char>)) -> (r: bool)
    ensures
        r == key_lt(key_of(*a), key_of(*b)),
{
    let c0 = compare_chars(&a.0, &b.0);
    if c0 != 0 {
        return c0 < 0;
    }
    if a.1 != b.1 {
        return a.1 < b.1;
    }
    compare_chars(&a.2, &b.2) < 0
}

/// Whether `a` and `b` are the same position.
pub fn key_equal(a: &(Vec<char>, u64, Vec<char>), b: &(Vec<char>, u64, Vec<char>)) -> (r: bool)
    ensures
        r == (key_of(*a) == key_of(*b)),
{
    a.1 == b.1 && compare_chars(&a.0, &b.0) == 0 && compare_chars(&a.2, &b.2) == 0
}

} // verus!

verus! {

proof fn lemma_insert_index<A>(s: Seq<A>, pos: int, x: A)
    requires
        0 <= pos <= s.len(),
    ensures
        s.insert(pos, x).len() == s.len() + 1,
        forall|j: int|
            0 <= j < s.len() + 1 ==> #[trigger] s.insert(pos, x)[j] == if j < pos {
                s[j]
            } else if j == pos {
                x
            } else {
                s[j - 1]
            },
{
    s.insert_ensures(pos, x);
    assert forall|j: int| 0 <= j < s.len() + 1 implies #[trigger] s.insert(pos, x)[j] == if j
        < pos {
        s[j]
    } else if j == pos {
        x
    } else {
        s[j - 1]
    } by {
        if j > pos {
            assert(s.insert(pos, x)[(j - 1) + 1] == s[j - 1]);
        }
    }
}

/// `out` lists `input[perm[0]], input[perm[1]], ...`, each item of `input`
/// once, ordered by `key`, and in input order where keys are equal.
pub open spec fn stable_arrangement_by<A>(
    input: Seq<A>,
    out: Seq<A>,
    perm: Seq<int>,
    key: spec_fn(A) -> Key,
) -> bool {
    &&& perm.len() == input.len()
    &&& out.len() == input.len()
    &&& forall|k: int| 0 <= k < perm.len() ==> 0 <= #[trigger] perm[k] < input.len()
    &&& forall|k: int| 0 <= k < perm.len() ==> #[trigger] out[k] == input[perm[k]]
    &&& forall|k: int, l: int| 0 <= k < l < perm.len() ==> perm[k] != perm[l]
    &&& forall|k: int, l: int|
        0 <= k < l < out.len() ==> key_lt(key(out[k]), key(out[l])) || (key(out[k]) == key(
            out[l],
        ) && perm[k] < perm[l])
}

/// Some entry of `perm` is `i`.
pub open spec fn index_taken(perm: Seq<int>, i: int) -> bool {
    exists|l: int| 0 <= l < perm.len() && perm[l] == i
}

/// An injective list of `n` indices below `n` takes every index below `n`.
pub proof fn lemma_indices_onto(perm: Seq<int>, n: int)
    requires
        perm.len() == n,
        forall|k: int| 0 <= k < n ==> 0 <= #[trigger] perm[k] < n,
        forall|k: int, l: int| 0 <= k < l < n ==> perm[k] != perm[l],
    ensures
        forall|i: int| 0 <= i < n ==> #[trigger] index_taken(perm, i),
{
    broadcast use vstd::seq_lib::seq_to_set_is_finite;
    assert(perm.no_duplicates()) by {
        assert forall|k: int, l: int| 0 <= k < perm.len() && 0 <= l < perm.len() && k != l implies perm[k]
            != perm[l] by {
            if k > l {
                assert(perm[l] != perm[k]);
            }
        }
    }
    perm.unique_seq_to_set();
    vstd::set_lib::lemma_int_range(0, n);
    let range = vstd::set_lib::set_int_range(0, n);
    assert(perm.to_set().subset_of(range)) by {
        assert forall|x: int| perm.to_set().contains(x) implies range.contains(x) by {
            let k = choose|k: int| 0 <= k < perm.len() && perm[k] == x;
        }
    }
    vstd::set_lib::lemma_subset_equality(perm.to_set(), range);
    assert forall|i: int| 0 <= i < n implies #[trigger] index_taken(perm, i) by {
        assert(range.contains(i));
        assert(perm.to_set().contains(i));
    }
}

/// Item `i` of the input comes before item `j` in a stable order by `key`.
pub open spec fn stably_before<A>(input: Seq<A>, key: spec_fn(A) -> Key, i: int, j: int) -> bool {
    key_lt(key(input[i]), key(input[j])) || (key(input[i]) == key(input[j]) && i < j)
}

proof fn lemma_stably_before_asymmetric<A>(input: Seq<A>, key: spec_fn(A) -> Key, i: int, j: int)
    requires
        stably_before(input, key, i, j),
    ensures
        !stably_before(input, key, j, i),
{
    let a = key(input[i]);
    let b = key(input[j]);
    lemma_key_irreflexive(a);
    lemma_key_irreflexive(b);
    if key_lt(a, b) && key_lt(b, a) {
        lemma_key_transitive(a, b, a);
    }
}

proof fn lemma_same_arrangement_prefix<A>(
    input: Seq<A>,
    a: Seq<A>,
    pa: Seq<int>,
    b: Seq<A>,
    pb: Seq<int>,
    key: spec_fn(A) -> Key,
    k: int,
)
    requires
        stable_arrangement_by(input, a, pa, key),
        stable_arrangement_by(input, b, pb, key),
        0 <= k <= input.len(),
    ensures
        forall|j: int| 0 <= j < k ==> #[trigger] pa[j] == pb[j],
    decreases k,
{
    if k > 0 {
        let n = input.len() as int;
        lemma_same_arrangement_prefix(input, a, pa, b, pb, key, k - 1);
        lemma_indices_onto(pa, n);
        lemma_indices_onto(pb, n);
        let x = pa[k - 1];
        let y = pb[k - 1];
        assert(index_taken(pb, x));
        assert(index_taken(pa, y));
        let l = choose|l: int| 0 <= l < pb.len() && pb[l] == x;
        let m = choose|m: int| 0 <= m < pa.len() && pa[m] == y;
        if l < k - 1 {
            assert(pa[l] == pb[l]);
            assert(pa[l] != pa[k - 1]);
        }
        if m < k - 1 {
            assert(pa[m] == pb[m]);
            assert(pb[m] != pb[k - 1]);
        }
        if l > k - 1 && m > k - 1 {
            assert(b[k - 1] == input[y] && b[l] == input[x]);
            assert(stably_before(input, key, y, x));
            assert(a[k - 1] == input[x] && a[m] == input[y]);
            assert(stably_before(input, key, x, y));
            lemma_stably_before_asymmetric(input, key, x, y);
        }
        assert forall|j: int| 0 <= j < k implies #[trigger] pa[j] == pb[j] by {
            if j < k - 1 {
            }
        }
    }
}

/// A stable arrangement of a list by a key is unique: any two are equal.
pub proof fn lemma_stable_arrangement_unique<A>(
    input: Seq<A>,
    a: Seq<A>,
    pa: Seq<int>,
    b: Seq<A>,
    pb: Seq<int>,
    key: spec_fn(A) -> Key,
)
    requires
        stable_arrangement_by(input, a, pa, key),
        stable_arrangement_by(input, b, pb, key),
    ensures
        a == b,
{
    lemma_same_arrangement_prefix(input, a, pa, b, pb, key, input.len() as int);
    assert forall|k: int| 0 <= k < a.len() implies a[k] == b[k] by {
        assert(pa[k] == pb[k]);
    }
    assert(a =~= b);
}

/// The key of an item, as a function.
pub open spec fn item_key<T: Keyed>() -> spec_fn(T) -> Key {
    |x: T| x.key()
}

/// `out` is `input` sorted by key, stably.
pub open spec fn is_stable_sort<T: Keyed>(input: Seq<T>, out: Seq<T>) -> bool {
    exists|perm: Seq<int>| #[trigger] stable_arrangement_by(input, out, perm, item_key::<T>())
}

/// The first position whose key is not before `k`, in keys sorted without descent.
fn lower_bound(keys: &Vec<(Vec<char>, u64, Vec<char>)>, k: &(Vec<char>, u64, Vec<char>)) -> (pos: usize)
    requires
        forall|i: int, j: int|
            0 <= i < j < keys@.len() ==> !key_lt(key_of(keys@[j]), key_of(keys@[i])),
    ensures
        pos <= keys@.len(),
        forall|j: int| 0 <= j < pos ==> key_lt(key_of(#[trigger] keys@[j]), key_of(*k)),
        forall|j: int| pos <= j < keys@.len() ==> !key_lt(key_of(#[trigger] keys@[j]), key_of(*k)),
{
    proof {
        lemma_key_lt_order();
    }
    let mut lo: usize = 0;
    let mut hi: usize = keys.len();
    while lo < hi
        invariant
            0 <= lo <= hi <= keys@.len(),
            forall|i: int, j: int|
                0 <= i < j < keys@.len() ==> !key_lt(key_of(keys@[j]), key_of(keys@[i])),
            forall|j: int| 0 <= j < lo ==> key_lt(key_of(#[trigger] keys@[j]), key_of(*k)),
            forall|j: int| hi <= j < keys@.len() ==> !key_lt(key_of(#[trigger] keys@[j]), key_of(*k)),
        decreases hi - lo,
    {
        let mid = lo + (hi - lo) / 2;
        let ghost km = key_of(keys@[mid as int]);
        if key_less(&keys[mid], k) {
            assert forall|j: int| 0 <= j < mid + 1 implies key_lt(
                key_of(#[trigger] keys@[j]),
                key_of(*k),
            ) by {
                if j < mid {
                    assert(!key_lt(km, key_of(keys@[j])));
                    lemma_key_total(key_of(keys@[j]), km);
                    if key_of(keys@[j]) != km {
                        lemma_key_transitive(key_of(keys@[j]), km, key_of(*k));
                    }
                }
            }
            lo = mid + 1;
        } else {
            assert forall|j: int| mid <= j < keys@.len() implies !key_lt(
                key_of(#[trigger] keys@[j]),
                key_of(*k),
            ) by {
                if j > mid {
                    assert(!key_lt(key_of(keys@[j]), km));
                    lemma_key_total(key_of(keys@[j]), km);
                    if key_lt(key_of(keys@[j]), key_of(*k)) && key_of(keys@[j]) != km {
                        lemma_key_transitive(km, key_of(keys@[j]), key_of(*k));
                    }
                }
            }
            hi = mid;
        }
    }
    lo
}

/// Sorts by key, keeping the input order of items with equal keys.
pub fn stable_sort_by_key<T: Keyed>(items: Vec<T>) -> (out: Vec<T>)
    ensures
        is_stable_sort(items@, out@),
{
    let ghost input = items@;
    let ghost n = items@.len() as int;
    let mut rest = items;
    let mut out: Vec<T> = Vec::new();
    let mut keys: Vec<(Vec<char>, u64, Vec<char>)> = Vec::new();
    let ghost mut perm: Seq<int> = seq![];
    proof {
        lemma_key_lt_order();
    }
    while rest.len() > 0
        invariant
            n == input.len(),
            0 <= rest@.len() <= n,
            rest@ == input.take(rest@.len() as int),
            keys@.len() == out@.len(),
            forall|j: int| 0 <= j < keys@.len() ==> key_of(#[trigger] keys@[j]) == out@[j].key(),
            perm.len() == out@.len(),
            out@.len() == n - rest@.len(),
            forall|j: int| 0 <= j < perm.len() ==> rest@.len() <= #[trigger] perm[j] < n,
            forall|j: int| 0 <= j < perm.len() ==> #[trigger] out@[j] == input[perm[j]],
            forall|j: int, l: int| 0 <= j < l < perm.len() ==> perm[j] != perm[l],
            forall|j: int, l: int|
                0 <= j < l < out@.len() ==> key_lt(out@[j].key(), out@[l].key()) || (
                out@[j].key() == out@[l].key() && perm[j] < perm[l]),
        decreases rest.len(),
    {
        let ghost i = rest@.len() - 1;
        let x = rest.pop().unwrap();
        assert(x == input[i]);
        assert(rest@ == input.take(i));
        let kx = x.key_chars();
        assert forall|a: int, b: int|
            0 <= a < b < keys@.len() implies !key_lt(key_of(keys@[b]), key_of(keys@[a])) by {
            assert(key_of(keys@[a]) == out@[a].key());
            assert(key_of(keys@[b]) == out@[b].key());
            lemma_key_irreflexive(key_of(keys@[a]));
            if key_lt(key_of(keys@[b]), key_of(keys@[a])) && key_lt(key_of(keys@[a]), key_of(keys@[b])) {
                lemma_key_transitive(key_of(keys@[a]), key_of(keys@[b]), key_of(keys@[a]));
            }
        }
        let pos = lower_bound(&keys, &kx);
        let ghost old_out = out@;
        let ghost old_keys = keys@;
        let ghost old_perm = perm;
        out.insert(pos, x);
        keys.insert(pos, kx);
        proof {
            perm = perm.insert(pos as int, i);
            lemma_insert_index(old_out, pos as int, x);
            lemma_insert_index(old_keys, pos as int, kx);
            lemma_insert_index(old_perm, pos as int, i);
            assert forall|j: int, l: int|
                0 <= j < l < out@.len() implies key_lt(out@[j].key(), out@[l].key()) || (
            out@[j].key() == out@[l].key() && perm[j] < perm[l]) by {
                if l == pos {
                    assert(key_lt(key_of(old_keys[j]), key_of(kx)));
                    assert(key_of(old_keys[j]) == old_out[j].key());
                    assert(out@[j] == old_out[j]);
                    assert(out@[l] == x);
                } else if j == pos {
                    assert(!key_lt(key_of(old_keys[l - 1]), key_of(kx)));
                    assert(key_of(old_keys[l - 1]) == old_out[l - 1].key());
                    assert(out@[l] == old_out[l - 1]);
                    assert(out@[j] == x);
                    lemma_key_total(key_of(kx), key_of(old_keys[l - 1]));
                    assert(old_perm[l - 1] >= i + 1);
                    assert(perm[j] == i);
                    assert(perm[l] == old_perm[l - 1]);
                } else {
                    let j0 = if j < pos {
                        j
                    } else {
                        j - 1
                    };
                    let l0 = if l < pos {
                        l
                    } else {
                        l - 1
                    };
                    assert(j0 < l0);
                    assert(out@[j] == old_out[j0] && out@[l] == old_out[l0]);
                    assert(perm[j] == old_perm[j0] && perm[l] == old_perm[l0]);
                }
            }
            assert forall|j: int, l: int| 0 <= j < l < perm.len() implies perm[j] != perm[l] by {
                if j != pos && l != pos {
                    let j0 = if j < pos {
                        j
                    } else {
                        j - 1
                    };
                    let l0 = if l < pos {
                        l
                    } else {
                        l - 1
                    };
                    assert(old_perm[j0] != old_perm[l0]);
                }
            }
            assert(rest@ == input.take(rest@.len() as int));
        }
    }
    assert(stable_arrangement_by(input, out@, perm, item_key::<T>()));
    out
}

} // verus!

verus! {

/// `x` is an item of `input[lo..]` that no earlier item of `input[lo..]`
/// shares its key with.
pub open spec fn first_of_key<T: Keyed>(input: Seq<T>, lo: int, x: T) -> bool {
    exists|j: int|
        lo <= j < input.len() && #[trigger] input[j] == x && forall|i: int|
            lo <= i < j ==> (#[trigger] input[i]).key() != x.key()
}

/// Some item of `out` has key `key`.
pub open spec fn has_key<T: Keyed>(out: Seq<T>, key: Key) -> bool {
    exists|k: int| 0 <= k < out.len() && (#[trigger] out[k]).key() == key
}

/// `out` holds, in strictly increasing key order, one item for each key of
/// `input`: the first item of `input` with that key.
pub open spec fn sorted_unique_of<T: Keyed>(input: Seq<T>, out: Seq<T>) -> bool {
    &&& forall|k: int, l: int| 0 <= k < l < out.len() ==> key_lt(out[k].key(), out[l].key())
    &&& forall|k: int| 0 <= k < out.len() ==> first_of_key(input, 0, #[trigger] out[k])
    &&& forall|j: int| 0 <= j < input.len() ==> has_key(out, (#[trigger] input[j]).key())
}

/// Sorts by key and keeps only the first item of each key.
pub fn sort_unique_by_key<T: Keyed>(items: Vec<T>) -> (out: Vec<T>)
    ensures
        sorted_unique_of(items@, out@),
{
    let ghost input = items@;
    let ghost n = items@.len() as int;
    let mut rest = items;
    let mut out: Vec<T> = Vec::new();
    let mut keys: Vec<(Vec<char>, u64, Vec<char>)> = Vec::new();
    while rest.len() > 0
        invariant
            n == input.len(),
            0 <= rest@.len() <= n,
            rest@ == input.take(rest@.len() as int),
            keys@.len() == out@.len(),
            forall|j: int| 0 <= j < keys@.len() ==> key_of(#[trigger] keys@[j]) == out@[j].key(),
            forall|k: int, l: int| 0 <= k < l < out@.len() ==> key_lt(out@[k].key(), out@[l].key()),
            forall|k: int| 0 <= k < out@.len() ==> first_of_key(input, rest@.len() as int, #[trigger] out@[k]),
            forall|j: int| rest@.len() <= j < n ==> has_key(out@, (#[trigger] input[j]).key()),
        decreases rest.len(),
    {
        let ghost i = rest@.len() - 1;
        let x = rest.pop().unwrap();
        assert(x == input[i]);
        assert(rest@ == input.take(i));
        let kx = x.key_chars();
        assert forall|a: int, b: int|
            0 <= a < b < keys@.len() implies !key_lt(key_of(keys@[b]), key_of(keys@[a])) by {
            assert(key_of(keys@[a]) == out@[a].key());
            assert(key_of(keys@[b]) == out@[b].key());
            if key_lt(key_of(keys@[b]), key_of(keys@[a])) {
                lemma_key_transitive(key_of(keys@[a]), key_of(keys@[b]), key_of(keys@[a]));
                lemma_key_irreflexive(key_of(keys@[a]));
            }
        }
        let pos = lower_bound(&keys, &kx);
        let ghost old_out = out@;
        let ghost old_keys = keys@;
        // No kept item other than the one at `pos` can share the key of `x`.
        assert forall|k: int| 0 <= k < old_out.len() && k != pos implies old_out[k].key() != x.key() by {
            assert(key_of(old_keys[k]) == old_out[k].key());
            lemma_key_irreflexive(key_of(kx));
            if k > pos {
                assert(key_of(old_keys[pos as int]) == old_out[pos as int].key());
                assert(key_lt(old_out[pos as int].key(), old_out[k].key()));
                assert(!key_lt(key_of(old_keys[pos as int]), key_of(kx)));
                lemma_key_total(key_of(kx), key_of(old_keys[pos as int]));
                if old_out[k].key() == x.key() && key_of(kx) != key_of(old_keys[pos as int]) {
                    lemma_key_transitive(key_of(kx), key_of(old_keys[pos as int]), key_of(kx));
                }
            }
        }
        if pos < keys.len() && key_equal(&keys[pos], &kx) {
            // An item with this key is already kept; `x` comes earlier and replaces it.
            out.remove(pos);
            out.insert(pos, x);
            proof {
                old_out.remove_ensures(pos as int);
                lemma_insert_index(old_out.remove(pos as int), pos as int, x);
                assert(out@.len() == old_out.len());
                assert forall|k: int| 0 <= k < out@.len() && k != pos implies out@[k] == old_out[k] by {
                    if k > pos {
                        assert(out@[k] == old_out.remove(pos as int)[k - 1]);
                    }
                }
                assert(out@[pos as int] == x);
                assert(out@[pos as int].key() == old_out[pos as int].key());
                assert forall|k: int| 0 <= k < out@.len() implies first_of_key(input, i, #[trigger] out@[k]) by {
                    if k == pos {
                        assert(input[i] == out@[k]);
                    } else {
                        assert(out@[k] == old_out[k]);
                        assert(first_of_key(input, i + 1, old_out[k]));
                        let j = choose|j: int|
                            i + 1 <= j < input.len() && #[trigger] input[j] == old_out[k] && forall|i2: int|
                                i + 1 <= i2 < j ==> (#[trigger] input[i2]).key() != old_out[k].key();
                        assert(input[i].key() != old_out[k].key());
                        assert(input[j] == out@[k]);
                    }
                }
                assert forall|j: int| i <= j < n implies has_key(out@, (#[trigger] input[j]).key()) by {
                    if j == i {
                        assert(out@[pos as int].key() == input[j].key());
                    } else {
                        assert(has_key(old_out, input[j].key()));
                        let k = choose|k: int| 0 <= k < old_out.len() && (#[trigger] old_out[k]).key() == input[j].key();
                        if k == pos {
                            assert(out@[pos as int].key() == input[j].key());
                        } else {
                            assert(out@[k] == old_out[k]);
                        }
                    }
                }
            }
        } else {
            out.insert(pos, x);
            keys.insert(pos, kx);
            proof {
                lemma_insert_index(old_out, pos as int, x);
                lemma_insert_index(old_keys, pos as int, kx);
                if pos < old_keys.len() {
                    lemma_key_total(key_of(kx), key_of(old_keys[pos as int]));
                }
                assert forall|k: int, l: int|
                    0 <= k < l < out@.len() implies key_lt(out@[k].key(), out@[l].key()) by {
                    if l == pos {
                        assert(key_of(old_keys[k]) == old_out[k].key());
                        assert(out@[k] == old_out[k]);
                    } else if k == pos {
                        assert(!key_lt(key_of(old_keys[l - 1]), key_of(kx)));
                        assert(key_of(old_keys[l - 1]) == old_out[l - 1].key());
                        assert(out@[l] == old_out[l - 1]);
                        lemma_key_total(key_of(kx), key_of(old_keys[l - 1]));
                    } else {
                        let k0 = if k < pos {
                            k
                        } else {
                            k - 1
                        };
                        let l0 = if l < pos {
                            l
                        } else {
                            l - 1
                        };
                        assert(out@[k] == old_out[k0] && out@[l] == old_out[l0]);
                    }
                }
                assert forall|k: int| 0 <= k < out@.len() implies first_of_key(input, i, #[trigger] out@[k]) by {
                    if k == pos {
                        assert(input[i] == out@[k]);
                    } else {
                        let k0 = if k < pos {
                            k
                        } else {
                            k - 1
                        };
                        assert(out@[k] == old_out[k0]);
                        assert(first_of_key(input, i + 1, old_out[k0]));
                        let j = choose|j: int|
                            i + 1 <= j < input.len() && #[trigger] input[j] == old_out[k0] && forall|i2: int|
                                i + 1 <= i2 < j ==> (#[trigger] input[i2]).key() != old_out[k0].key();
                        if pos < old_keys.len() {
                            assert(key_of(old_keys[pos as int]) == old_out[pos as int].key());
                        }
                        assert(input[i].key() != old_out[k0].key());
                        assert(input[j] == out@[k]);
                    }
                }
                assert forall|j: int| i <= j < n implies has_key(out@, (#[trigger] input[j]).key()) by {
                    if j == i {
                        assert(out@[pos as int].key() == input[j].key());
                    } else {
                        assert(has_key(old_out, input[j].key()));
                        let k = choose|k: int| 0 <= k < old_out.len() && (#[trigger] old_out[k]).key() == input[j].key();
                        if k < pos {
                            assert(out@[k] == old_out[k]);
                        } else {
                            assert(out@[k + 1] == old_out[k]);
                        }
                    }
                }
            }
        }
        assert(rest@ == input.take(rest@.len() as int));
    }
    out
}

} // verus!
