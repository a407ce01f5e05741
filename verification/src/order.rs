use vstd::prelude::*;
use vstd::utf8::{encode_utf8, encode_utf8_decode_utf8, is_ascii_chars, is_ascii_chars_encode_utf8};
use vstd::set_lib::{set_int_range, lemma_int_range, lemma_subset_equality};
use crate::models::HasDate;

verus! {

/// The order of `str` values: lexicographic by their UTF-8 bytes.
pub open spec fn bytes_le(a: Seq<u8>, b: Seq<u8>) -> bool
    decreases a.len(),
{
    if a.len() == 0 {
        true
    } else if b.len() == 0 {
        false
    } else if a[0] != b[0] {
        a[0] < b[0]
    } else {
        bytes_le(a.drop_first(), b.drop_first())
    }
}

/// Every byte string is at or before itself.
pub proof fn lemma_bytes_le_reflexive(a: Seq<u8>)
    ensures
        bytes_le(a, a),
    decreases a.len(),
{
    if a.len() > 0 {
        lemma_bytes_le_reflexive(a.drop_first());
    }
}

/// Any two byte strings are ordered one way or the other.
pub proof fn lemma_bytes_le_total(a: Seq<u8>, b: Seq<u8>)
    ensures
        bytes_le(a, b) || bytes_le(b, a),
    decreases a.len(),
{
    if a.len() > 0 && b.len() > 0 && a[0] == b[0] {
        lemma_bytes_le_total(a.drop_first(), b.drop_first());
    }
}

/// The order is transitive.
pub proof fn lemma_bytes_le_transitive(a: Seq<u8>, b: Seq<u8>, c: Seq<u8>)
    requires
        bytes_le(a, b),
        bytes_le(b, c),
    ensures
        bytes_le(a, c),
    decreases a.len(),
{
    if a.len() > 0 && b.len() > 0 && c.len() > 0 && a[0] == b[0] && b[0] == c[0] {
        lemma_bytes_le_transitive(a.drop_first(), b.drop_first(), c.drop_first());
    }
}

/// Two byte strings each at or before the other are equal.
pub proof fn lemma_bytes_le_antisymmetric(a: Seq<u8>, b: Seq<u8>)
    requires
        bytes_le(a, b),
        bytes_le(b, a),
    ensures
        a == b,
    decreases a.len(),
{
    if a.len() > 0 {
        lemma_bytes_le_antisymmetric(a.drop_first(), b.drop_first());
        assert(a =~= seq![a[0]] + a.drop_first());
        assert(b =~= seq![b[0]] + b.drop_first());
    } else {
        assert(b.len() == 0);
        assert(a =~= b);
    }
}

/// Where two byte strings first differ, the one with the smaller byte
/// there comes first.
pub proof fn lemma_bytes_le_first_difference(a: Seq<u8>, b: Seq<u8>, k: int)
    requires
        0 <= k < a.len(),
        k < b.len(),
        a.take(k) == b.take(k),
        a[k] != b[k],
    ensures
        bytes_le(a, b) == (a[k] < b[k]),
    decreases k,
{
    if k > 0 {
        assert(a[0] == a.take(k)[0]);
        assert(b[0] == b.take(k)[0]);
        assert(a.drop_first().take(k - 1) =~= a.take(k).drop_first());
        assert(b.drop_first().take(k - 1) =~= b.take(k).drop_first());
        lemma_bytes_le_first_difference(a.drop_first(), b.drop_first(), k - 1);
    }
}

/// A byte string comes no later than any string it begins.
pub proof fn lemma_bytes_le_prefix(a: Seq<u8>, b: Seq<u8>)
    requires
        a.len() <= b.len(),
        b.take(a.len() as int) == a,
    ensures
        bytes_le(a, b),
    decreases a.len(),
{
    if a.len() > 0 {
        assert(a[0] == b.take(a.len() as int)[0]);
        assert(b.drop_first().take(a.len() - 1) =~= b.take(a.len() as int).drop_first());
        lemma_bytes_le_prefix(a.drop_first(), b.drop_first());
    }
}

/// A byte string comes after every shorter string that begins it.
pub proof fn lemma_bytes_le_longer_after_prefix(a: Seq<u8>, b: Seq<u8>)
    requires
        b.len() < a.len(),
        a.take(b.len() as int) == b,
    ensures
        !bytes_le(a, b),
    decreases b.len(),
{
    if b.len() > 0 {
        assert(b[0] == a.take(b.len() as int)[0]);
        assert(a.drop_first().take(b.len() - 1) =~= a.take(b.len() as int).drop_first());
        lemma_bytes_le_longer_after_prefix(a.drop_first(), b.drop_first());
    }
}

/// Compares two byte strings in the order of `str`.
pub fn bytes_le_exec(a: &[u8], b: &[u8]) -> (le: bool)
    ensures
        le == bytes_le(a@, b@),
        forall|k: int|
            0 <= k < a@.len() && k < b@.len() && a@.take(k) == b@.take(k) && a@[k] != b@[k] ==> le
                == (a@[k] < b@[k]),
        a@.len() <= b@.len() && b@.take(a@.len() as int) == a@ ==> le,
        b@.len() < a@.len() && a@.take(b@.len() as int) == b@ ==> !le,
{
    let le = bytes_le_exec_loop(a, b);
    proof {
        assert forall|k: int|
            0 <= k < a@.len() && k < b@.len() && a@.take(k) == b@.take(k) && a@[k] != b@[k]
            implies le == (a@[k] < b@[k]) by {
            lemma_bytes_le_first_difference(a@, b@, k);
        }
        if a@.len() <= b@.len() && b@.take(a@.len() as int) == a@ {
            lemma_bytes_le_prefix(a@, b@);
        }
        if b@.len() < a@.len() && a@.take(b@.len() as int) == b@ {
            lemma_bytes_le_longer_after_prefix(a@, b@);
        }
    }
    le
}

fn bytes_le_exec_loop(a: &[u8], b: &[u8]) -> (le: bool)
    ensures
        le == bytes_le(a@, b@),
{
    let mut i: usize = 0;
    assert(a@.skip(0) =~= a@);
    assert(b@.skip(0) =~= b@);
    while i < a.len() && i < b.len()
        invariant
            i <= a@.len(),
            i <= b@.len(),
            bytes_le(a@, b@) == bytes_le(a@.skip(i as int), b@.skip(i as int)),
        decreases a@.len() - i,
    {
        if a[i] != b[i] {
            return a[i] < b[i];
        }
        assert(a@.skip(i as int).drop_first() =~= a@.skip(i + 1));
        assert(b@.skip(i as int).drop_first() =~= b@.skip(i + 1));
        i = i + 1;
    }
    i == a.len()
}

/// The text by which a record is ordered: its date, or `0000-00-00`
/// where it has none.
pub open spec fn date_text(date: Option<Seq<char>>) -> Seq<char> {
    match date {
        Some(d) => d,
        None => "0000-00-00"@,
    }
}

/// The UTF-8 bytes by which a record is ordered.
pub open spec fn date_key<T: HasDate>(item: T) -> Seq<u8> {
    encode_utf8(date_text(item.date_view()))
}

/// A record without a date is ordered as one dated `0000-00-00`.
pub proof fn lemma_undated_ranks_as_zero_date<T: HasDate>(undated: T, zero_dated: T)
    requires
        undated.date_view() is None,
        zero_dated.date_view() == Some("0000-00-00"@),
    ensures
        date_key(undated) == date_key(zero_dated),
{
}

/// Two dated records share a place in the order exactly when their dates
/// are the same text.
pub proof fn lemma_dated_keys_tell_dates_apart<T: HasDate>(x: T, y: T)
    requires
        x.date_view() is Some,
        y.date_view() is Some,
    ensures
        date_key(x) == date_key(y) <==> x.date_view() == y.date_view(),
{
    encode_utf8_decode_utf8(x.date_view()->0);
    encode_utf8_decode_utf8(y.date_view()->0);
}

/// Two records dated in ASCII text (such as `2024-08-15`) are ordered by
/// the first character where their dates differ: the record whose date has
/// the smaller character there comes first.
pub proof fn lemma_ascii_dates_order<T: HasDate>(x: T, y: T, k: int)
    requires
        x.date_view() is Some,
        y.date_view() is Some,
        is_ascii_chars(x.date_view()->0),
        is_ascii_chars(y.date_view()->0),
        0 <= k < x.date_view()->0.len(),
        k < y.date_view()->0.len(),
        x.date_view()->0.take(k) == y.date_view()->0.take(k),
        x.date_view()->0[k] != y.date_view()->0[k],
    ensures
        bytes_le(date_key(x), date_key(y)) == ((x.date_view()->0[k] as int) < (y.date_view()->0[k] as int)),
{
    let d1 = x.date_view()->0;
    let d2 = y.date_view()->0;
    is_ascii_chars_encode_utf8(d1);
    is_ascii_chars_encode_utf8(d2);
    let k1 = date_key(x);
    let k2 = date_key(y);
    assert forall|i: int| 0 <= i < k implies #[trigger] k1.take(k)[i] == k2.take(k)[i] by {
        assert(d1.take(k)[i] == d2.take(k)[i]);
        assert(d1[i] as u8 == k1[i]);
        assert(d2[i] as u8 == k2[i]);
    }
    assert(k1.take(k) =~= k2.take(k));
    assert(d1[k] as u8 == k1[k]);
    assert(d2[k] as u8 == k2[k]);
    assert('\0' <= d1[k] <= '\u{7f}');
    assert('\0' <= d2[k] <= '\u{7f}');
    lemma_bytes_le_first_difference(k1, k2, k);
}

/// Each record is dated no later than the next.
pub open spec fn sorted_by_date<T: HasDate>(s: Seq<T>) -> bool {
    forall|i: int, j: int| 0 <= i < j < s.len() ==> bytes_le(date_key(s[i]), date_key(s[j]))
}

/// `p` lists each index of a sequence of length `n` exactly once.
pub open spec fn is_arrangement(p: Seq<int>, n: int) -> bool {
    &&& p.len() == n
    &&& forall|i: int| 0 <= i < n ==> 0 <= #[trigger] p[i] < n
    &&& forall|i: int, j: int| 0 <= i < j < n ==> p[i] != p[j]
}

/// `out` is `inp` rearranged by `p` (`out[i]` is `inp[p[i]]`), ordered by
/// date, with records of equal date keeping their relative order.
pub open spec fn stable_date_arrangement<T: HasDate>(p: Seq<int>, out: Seq<T>, inp: Seq<T>) -> bool {
    &&& out.len() == inp.len()
    &&& is_arrangement(p, inp.len() as int)
    &&& forall|i: int| 0 <= i < out.len() ==> #[trigger] out[i] == inp[p[i]]
    &&& sorted_by_date(out)
    &&& forall|i: int, j: int|
        0 <= i < j < out.len() && date_key(out[i]) == date_key(out[j]) ==> p[i] < p[j]
}

/// `out` is what a stable sort of `inp` by date gives.
pub open spec fn is_date_sort_of<T: HasDate>(out: Seq<T>, inp: Seq<T>) -> bool {
    exists|p: Seq<int>| #[trigger] stable_date_arrangement(p, out, inp)
}


/// Exchanges two entries of a slice.
///
/// Trusted: calls `<[T]>::swap`, which std documents as swapping the
/// elements at the two positions (and panicking when either is out of
/// bounds, which `requires` rules out).
#[verifier::external_body]
fn swap_entries<T>(items: &mut [T], a: usize, b: usize)
    requires
        a < old(items)@.len(),
        b < old(items)@.len(),
    ensures
        final(items)@ == old(items)@.update(a as int, old(items)@[b as int]).update(
            b as int,
            old(items)@[a as int],
        ),
{
    items.swap(a, b);
}

/// The bytes by which a record is ordered.
fn date_bytes<T: HasDate>(item: &T) -> (key: &[u8])
    ensures
        key@ == date_key(*item),
{
    let text: &str = match item.get_date() {
        Some(d) => d,
        None => "0000-00-00",
    };
    text.as_bytes()
}

/// Sorts records by date, oldest first; a record without a date counts as
/// dated `0000-00-00`. The sort is stable: records of equal date keep
/// their relative order.
pub fn sort_by_date_asc<T: HasDate>(items: &mut [T])
    ensures
        is_date_sort_of(final(items)@, old(items)@),
        final(items)@.len() == old(items)@.len(),
        forall|i: int, j: int|
            0 <= i < j < final(items)@.len() ==> bytes_le(
                date_key(#[trigger] final(items)@[i]),
                date_key(#[trigger] final(items)@[j]),
            ),
{
    let ghost inp = items@;
    let n = items.len();
    let ghost mut p: Seq<int> = Seq::new(n as nat, |k: int| k);
    let mut i: usize = 0;
    while i < n
        invariant
            items@.len() == n,
            inp.len() == n,
            i <= n,
            is_arrangement(p, n as int),
            forall|k: int| 0 <= k < n ==> #[trigger] items@[k] == inp[p[k]],
            forall|k: int| i <= k < n ==> #[trigger] p[k] == k,
            forall|k: int| 0 <= k < i ==> #[trigger] p[k] < i,
            forall|a: int, b: int|
                0 <= a < b < i ==> bytes_le(date_key(#[trigger] items@[a]), date_key(#[trigger] items@[b])),
            forall|a: int, b: int|
                0 <= a < b < i && date_key(#[trigger] items@[a]) == date_key(#[trigger] items@[b])
                    ==> p[a] < p[b],
        decreases n - i,
    {
        let ghost x = inp[i as int];
        let mut j: usize = i;
        loop
            invariant
                items@.len() == n,
                inp.len() == n,
                i < n,
                j <= i,
                x == inp[i as int],
                items@[j as int] == x,
                is_arrangement(p, n as int),
                forall|k: int| 0 <= k < n ==> #[trigger] items@[k] == inp[p[k]],
                forall|k: int| i < k < n ==> #[trigger] p[k] == k,
                p[j as int] == i,
                forall|k: int| 0 <= k <= i && k != j ==> #[trigger] p[k] < i,
                forall|a: int, b: int|
                    0 <= a < b <= i && a != j && b != j ==> bytes_le(
                        date_key(#[trigger] items@[a]),
                        date_key(#[trigger] items@[b]),
                    ),
                forall|a: int, b: int|
                    0 <= a < b <= i && a != j && b != j && date_key(#[trigger] items@[a])
                        == date_key(#[trigger] items@[b]) ==> p[a] < p[b],
                forall|k: int| j < k <= i ==> !bytes_le(date_key(#[trigger] items@[k]), date_key(x)),
            ensures
                j == 0 || bytes_le(date_key(items@[j - 1]), date_key(x)),
            decreases j,
        {
            if j == 0 {
                break;
            }
            let in_order = bytes_le_exec(date_bytes(&items[j - 1]), date_bytes(&items[j]));
            if in_order {
                break;
            }
            let ghost before = items@;
            let ghost p_before = p;
            swap_entries(items, j - 1, j);
            proof {
                p = p.update(j - 1, p_before[j as int]).update(j as int, p_before[j - 1]);
                assert forall|a: int, b: int| 0 <= a < b < n implies p[a] != p[b] by {
                    if a != j - 1 && a != j && b != j - 1 && b != j {
                        assert(p[a] == p_before[a] && p[b] == p_before[b]);
                    }
                }
                assert forall|a: int, b: int|
                    0 <= a < b <= i && a != j - 1 && b != j - 1 implies bytes_le(
                        date_key(#[trigger] items@[a]),
                        date_key(#[trigger] items@[b]),
                    ) by {
                    if a == j {
                        assert(before[j - 1] == items@[a]);
                        assert(before[b] == items@[b]);
                    } else if b == j {
                        assert(before[j - 1] == items@[b]);
                        assert(before[a] == items@[a]);
                    } else {
                        assert(before[a] == items@[a]);
                        assert(before[b] == items@[b]);
                    }
                }
                assert forall|a: int, b: int|
                    0 <= a < b <= i && a != j - 1 && b != j - 1 && date_key(#[trigger] items@[a])
                        == date_key(#[trigger] items@[b]) implies p[a] < p[b] by {
                    if a == j {
                        assert(before[j - 1] == items@[a]);
                        assert(before[b] == items@[b]);
                    } else if b == j {
                        assert(before[j - 1] == items@[b]);
                        assert(before[a] == items@[a]);
                    } else {
                        assert(before[a] == items@[a]);
                        assert(before[b] == items@[b]);
                    }
                }
                assert forall|k: int| j - 1 < k <= i implies !bytes_le(
                    date_key(#[trigger] items@[k]),
                    date_key(x),
                ) by {
                    if k == j {
                        assert(items@[k] == before[j - 1]);
                    } else {
                        assert(items@[k] == before[k]);
                    }
                }
            }
            j = j - 1;
        }
        proof {
            assert forall|a: int, b: int| 0 <= a < b < i + 1 implies bytes_le(
                date_key(#[trigger] items@[a]),
                date_key(#[trigger] items@[b]),
            ) by {
                if a == j {
                    lemma_bytes_le_total(date_key(items@[b]), date_key(x));
                } else if b == j {
                    if a < j - 1 {
                        assert(bytes_le(date_key(items@[a]), date_key(items@[j - 1])));
                    } else {
                        lemma_bytes_le_reflexive(date_key(items@[a]));
                    }
                    lemma_bytes_le_transitive(
                        date_key(items@[a]),
                        date_key(items@[j - 1]),
                        date_key(x),
                    );
                }
            }
            assert forall|a: int, b: int|
                0 <= a < b < i + 1 && date_key(#[trigger] items@[a]) == date_key(
                    #[trigger] items@[b],
                ) implies p[a] < p[b] by {
                if a == j {
                    lemma_bytes_le_reflexive(date_key(x));
                }
            }
        }
        i = i + 1;
    }
    proof {
        assert(stable_date_arrangement(p, items@, inp));
    }
}


proof fn lemma_increasing_arrangement_from_below(p: Seq<int>, n: int, k: int)
    requires
        is_arrangement(p, n),
        forall|a: int, b: int| 0 <= a < b < n ==> p[a] < p[b],
        0 <= k < n,
    ensures
        p[k] >= k,
    decreases k,
{
    if k > 0 {
        lemma_increasing_arrangement_from_below(p, n, k - 1);
    }
}

proof fn lemma_increasing_arrangement_from_above(p: Seq<int>, n: int, k: int)
    requires
        is_arrangement(p, n),
        forall|a: int, b: int| 0 <= a < b < n ==> p[a] < p[b],
        0 <= k < n,
    ensures
        p[k] <= k,
    decreases n - k,
{
    if k < n - 1 {
        lemma_increasing_arrangement_from_above(p, n, k + 1);
    }
}

/// Sorting records that are already in date order leaves them as they are.
pub proof fn lemma_sorted_input_is_kept<T: HasDate>(inp: Seq<T>, out: Seq<T>)
    requires
        sorted_by_date(inp),
        is_date_sort_of(out, inp),
    ensures
        out == inp,
{
    let p = choose|p: Seq<int>| #[trigger] stable_date_arrangement(p, out, inp);
    let n = inp.len() as int;
    assert forall|a: int, b: int| 0 <= a < b < n implies p[a] < p[b] by {
        if p[a] > p[b] {
            assert(out[a] == inp[p[a]]);
            assert(out[b] == inp[p[b]]);
            assert(bytes_le(date_key(inp[p[b]]), date_key(inp[p[a]])));
            lemma_bytes_le_antisymmetric(date_key(out[a]), date_key(out[b]));
        }
    }
    assert forall|k: int| 0 <= k < n implies #[trigger] out[k] == inp[k] by {
        lemma_increasing_arrangement_from_below(p, n, k);
        lemma_increasing_arrangement_from_above(p, n, k);
    }
    assert(out =~= inp);
}

/// Sorting by date twice gives what sorting once gives.
pub proof fn lemma_date_sort_idempotent<T: HasDate>(inp: Seq<T>, once: Seq<T>, twice: Seq<T>)
    requires
        is_date_sort_of(once, inp),
        is_date_sort_of(twice, once),
    ensures
        twice == once,
{
    let p = choose|p: Seq<int>| #[trigger] stable_date_arrangement(p, once, inp);
    lemma_sorted_input_is_kept(once, twice);
}


/// Every index of a sequence of length `n` occurs in an arrangement of it.
proof fn lemma_arrangement_covers(p: Seq<int>, n: int, v: int)
    requires
        is_arrangement(p, n),
        0 <= v < n,
    ensures
        exists|i: int| 0 <= i < n && p[i] == v,
{
    broadcast use vstd::seq_lib::group_seq_properties;
    broadcast use vstd::set::group_set_axioms;

    assert forall|i: int, j: int| 0 <= i < p.len() && 0 <= j < p.len() && i != j implies p[i]
        != p[j] by {
        if i > j {
            assert(p[j] != p[i]);
        }
    }
    assert(p.no_duplicates());
    p.unique_seq_to_set();
    lemma_int_range(0, n);
    assert forall|x: int| p.to_set().contains(x) implies set_int_range(0, n).contains(x) by {
        assert(p.contains(x));
        let i = choose|i: int| 0 <= i < p.len() && p[i] == x;
        assert(0 <= p[i] < n);
    }
    lemma_subset_equality(p.to_set(), set_int_range(0, n));
    assert(set_int_range(0, n).contains(v));
    assert(p.to_set().contains(v));
    assert(p.contains(v));
}

/// The order in which a stable sort by date places the records of `inp`
/// given by their indices: by date, and by index among equal dates.
spec fn placed_before<T: HasDate>(inp: Seq<T>, a: int, b: int) -> bool {
    ||| !bytes_le(date_key(inp[b]), date_key(inp[a]))
    ||| (date_key(inp[a]) == date_key(inp[b]) && a < b)
}

proof fn lemma_stable_arrangement_places<T: HasDate>(p: Seq<int>, out: Seq<T>, inp: Seq<T>, i: int, j: int)
    requires
        stable_date_arrangement(p, out, inp),
        0 <= i < j < out.len(),
    ensures
        placed_before(inp, p[i], p[j]),
{
    assert(out[i] == inp[p[i]]);
    assert(out[j] == inp[p[j]]);
    if bytes_le(date_key(out[j]), date_key(out[i])) {
        lemma_bytes_le_antisymmetric(date_key(out[i]), date_key(out[j]));
    }
}

proof fn lemma_placed_before_asymmetric<T: HasDate>(inp: Seq<T>, a: int, b: int)
    ensures
        !(placed_before(inp, a, b) && placed_before(inp, b, a)),
{
    lemma_bytes_le_total(date_key(inp[a]), date_key(inp[b]));
    lemma_bytes_le_reflexive(date_key(inp[a]));
}

proof fn lemma_stable_arrangements_agree_below<T: HasDate>(
    p1: Seq<int>,
    o1: Seq<T>,
    p2: Seq<int>,
    o2: Seq<T>,
    inp: Seq<T>,
    k: int,
)
    requires
        stable_date_arrangement(p1, o1, inp),
        stable_date_arrangement(p2, o2, inp),
        0 <= k <= inp.len(),
    ensures
        forall|m: int| 0 <= m < k ==> p1[m] == p2[m],
    decreases k,
{
    if k > 0 {
        lemma_stable_arrangements_agree_below(p1, o1, p2, o2, inp, k - 1);
        let n = inp.len() as int;
        let c = k - 1;
        let a = p1[c];
        let b = p2[c];
        if a != b {
            lemma_arrangement_covers(p1, n, b);
            let i = choose|i: int| 0 <= i < n && p1[i] == b;
            lemma_arrangement_covers(p2, n, a);
            let j = choose|j: int| 0 <= j < n && p2[j] == a;
            if i < c {
                assert(p2[i] == b);
            }
            if j < c {
                assert(p1[j] == a);
            }
            lemma_stable_arrangement_places(p1, o1, inp, c, i);
            lemma_stable_arrangement_places(p2, o2, inp, c, j);
            lemma_placed_before_asymmetric(inp, a, b);
        }
    }
}

/// A stable sort by date has one outcome: two stable sorts of the same
/// records give the same sequence.
pub proof fn lemma_date_sort_unique<T: HasDate>(inp: Seq<T>, one: Seq<T>, other: Seq<T>)
    requires
        is_date_sort_of(one, inp),
        is_date_sort_of(other, inp),
    ensures
        one == other,
{
    let p1 = choose|p: Seq<int>| #[trigger] stable_date_arrangement(p, one, inp);
    let p2 = choose|p: Seq<int>| #[trigger] stable_date_arrangement(p, other, inp);
    lemma_stable_arrangements_agree_below(p1, one, p2, other, inp, inp.len() as int);
    assert forall|i: int| 0 <= i < one.len() implies #[trigger] one[i] == other[i] by {
        assert(one[i] == inp[p1[i]]);
        assert(other[i] == inp[p2[i]]);
    }
    assert(one =~= other);
}

} // verus!
