//! Sorting by keys that are compared number by number.
use crate::text::chars_of;
use vstd::prelude::*;

verus! {

/// Whether `a` comes before `b` in the order of dictionaries.
pub open spec fn key_less(a: Seq<u32>, b: Seq<u32>) -> bool
    decreases a.len(),
{
    if b.len() == 0 {
        false
    } else if a.len() == 0 {
        true
    } else if a[0] != b[0] {
        a[0] < b[0]
    } else {
        key_less(a.drop_first(), b.drop_first())
    }
}

/// Whether `a` comes before `b` in the order of dictionaries, by code points.
pub open spec fn text_less(a: Seq<char>, b: Seq<char>) -> bool
    decreases a.len(),
{
    if b.len() == 0 {
        false
    } else if a.len() == 0 {
        true
    } else if a[0] != b[0] {
        a[0] < b[0]
    } else {
        text_less(a.drop_first(), b.drop_first())
    }
}

/// A text as part of a key: code points above zero, ended by a zero.
pub open spec fn text_key(s: Seq<char>) -> Seq<u32> {
    s.map_values(|c: char| (c as u32 + 1) as u32).push(0)
}

proof fn lemma_code_point(c: char)
    ensures
        (c as u32) <= 0x10ffff,
{
    vstd::utf8::char_is_scalar(c);
}

/// Two texts with something behind each compare as the texts do, and where these are equal as what
/// is behind them does.
pub proof fn text_key_order(a: Seq<char>, x: Seq<u32>, b: Seq<char>, y: Seq<u32>)
    ensures
        key_less(text_key(a) + x, text_key(b) + y) == (if a == b {
            key_less(x, y)
        } else {
            text_less(a, b)
        }),
    decreases a.len(),
{
    let left = text_key(a) + x;
    let right = text_key(b) + y;
    if a.len() == 0 && b.len() == 0 {
        assert(left.drop_first() =~= x);
        assert(right.drop_first() =~= y);
        assert(a =~= b);
        assert(left[0] == 0 && right[0] == 0);
        assert(key_less(left, right) == key_less(x, y));
    } else if a.len() > 0 && b.len() > 0 {
        assert(left[0] == (a[0] as u32 + 1) as u32);
        assert(right[0] == (b[0] as u32 + 1) as u32);
        lemma_code_point(a[0]);
        lemma_code_point(b[0]);
        if a[0] == b[0] {
            assert(left.drop_first() =~= text_key(a.drop_first()) + x);
            assert(right.drop_first() =~= text_key(b.drop_first()) + y);
            text_key_order(a.drop_first(), x, b.drop_first(), y);
            assert(a.drop_first() == b.drop_first() ==> a =~= b) by {
                assert(a =~= seq![a[0]] + a.drop_first());
                assert(b =~= seq![b[0]] + b.drop_first());
            }
            assert(key_less(left, right) == key_less(left.drop_first(), right.drop_first()));
        } else {
            vstd::utf8::char_u32_cast(a[0], a[0] as u32);
            vstd::utf8::char_u32_cast(b[0], b[0] as u32);
            assert(left[0] == a[0] as u32 + 1);
            assert(right[0] == b[0] as u32 + 1);
            assert((a[0] as u32) != (b[0] as u32));
            assert((a[0] < b[0]) == ((a[0] as u32) < (b[0] as u32)));
        }
    } else if a.len() == 0 {
        assert(left[0] == 0);
        lemma_code_point(b[0]);
        assert(right[0] == (b[0] as u32 + 1) as u32);
    } else {
        assert(right[0] == 0);
        lemma_code_point(a[0]);
        assert(left[0] == (a[0] as u32 + 1) as u32);
    }
}

/// Of two texts one comes first, or they are equal.
pub proof fn text_order_total(a: Seq<char>, b: Seq<char>)
    ensures
        text_less(a, b) || text_less(b, a) || a == b,
        !(text_less(a, b) && text_less(b, a)),
        a == b ==> !text_less(a, b),
    decreases a.len(),
{
    if a.len() > 0 && b.len() > 0 {
        if a[0] == b[0] {
            text_order_total(a.drop_first(), b.drop_first());
            assert(a.drop_first() == b.drop_first() ==> a =~= b) by {
                assert(a =~= seq![a[0]] + a.drop_first());
                assert(b =~= seq![b[0]] + b.drop_first());
            }
        }
    } else if a.len() == 0 && b.len() == 0 {
        assert(a =~= b);
    }
}

/// What comes before something comes before all that follows it.
pub proof fn text_order_transitive(a: Seq<char>, b: Seq<char>, c: Seq<char>)
    requires
        text_less(a, b),
        text_less(b, c),
    ensures
        text_less(a, c),
    decreases a.len(),
{
    if a.len() > 0 && b.len() > 0 && c.len() > 0 && a[0] == b[0] && b[0] == c[0] {
        text_order_transitive(a.drop_first(), b.drop_first(), c.drop_first());
    }
}

/// Whether the first text comes before the second.
pub fn text_before(a: &[char], b: &[char]) -> (r: bool)
    ensures
        r == text_less(a@, b@),
{
    let mut i: usize = 0;
    assert(a@.skip(0) =~= a@);
    assert(b@.skip(0) =~= b@);
    while i < a.len() && i < b.len()
        invariant
            i <= a@.len(),
            i <= b@.len(),
            text_less(a@, b@) == text_less(a@.skip(i as int), b@.skip(i as int)),
        decreases a@.len() - i,
    {
        if a[i] != b[i] {
            return a[i] < b[i];
        }
        assert(a@.skip(i as int).drop_first() =~= a@.skip(i + 1));
        assert(b@.skip(i as int).drop_first() =~= b@.skip(i + 1));
        i = i + 1;
    }
    i < b.len()
}

/// Appends a text to a key.
pub fn push_text_key(key: &mut Vec<u32>, s: &str)
    ensures
        final(key)@ == old(key)@ + text_key(s@),
{
    let chars = chars_of(s);
    let mut i: usize = 0;
    let ghost start = key@;
    let ghost codes = s@.map_values(|c: char| (c as u32 + 1) as u32);
    assert(key@ =~= start + codes.take(0));
    while i < chars.len()
        invariant
            chars@ == s@,
            i <= s@.len(),
            codes == s@.map_values(|c: char| (c as u32 + 1) as u32),
            key@ == start + codes.take(i as int),
        decreases s@.len() - i,
    {
        proof {
            lemma_code_point(chars@[i as int]);
        }
        key.push(chars[i] as u32 + 1);
        i = i + 1;
        assert(key@ =~= start + codes.take(i as int));
    }
    key.push(0);
    assert(key@ =~= start + text_key(s@));
}

fn key_before(a: &[u32], b: &[u32]) -> (r: bool)
    ensures
        r == key_less(a@, b@),
{
    let mut i: usize = 0;
    assert(a@.skip(0) =~= a@);
    assert(b@.skip(0) =~= b@);
    while i < a.len() && i < b.len()
        invariant
            i <= a@.len(),
            i <= b@.len(),
            key_less(a@, b@) == key_less(a@.skip(i as int), b@.skip(i as int)),
        decreases a@.len() - i,
    {
        if a[i] != b[i] {
            return a[i] < b[i];
        }
        assert(a@.skip(i as int).drop_first() =~= a@.skip(i + 1));
        assert(b@.skip(i as int).drop_first() =~= b@.skip(i + 1));
        i = i + 1;
    }
    i < b.len()
}

/// Of two keys one comes first, or they are equal.
pub proof fn key_order_total(a: Seq<u32>, b: Seq<u32>)
    ensures
        key_less(a, b) || key_less(b, a) || a == b,
        !(key_less(a, b) && key_less(b, a)),
        a == b ==> !key_less(a, b),
    decreases a.len(),
{
    if a.len() > 0 && b.len() > 0 {
        if a[0] == b[0] {
            key_order_total(a.drop_first(), b.drop_first());
            assert(a.drop_first() == b.drop_first() ==> a =~= b) by {
                assert(a =~= seq![a[0]] + a.drop_first());
                assert(b =~= seq![b[0]] + b.drop_first());
            }
        }
    } else if a.len() == 0 && b.len() == 0 {
        assert(a =~= b);
    }
}

proof fn lemma_key_transitive(a: Seq<u32>, b: Seq<u32>, c: Seq<u32>)
    requires
        key_less(a, b),
        key_less(b, c),
    ensures
        key_less(a, c),
    decreases a.len(),
{
    if a.len() > 0 && b.len() > 0 && c.len() > 0 && a[0] == b[0] && b[0] == c[0] {
        lemma_key_transitive(a.drop_first(), b.drop_first(), c.drop_first());
    }
}

/// The keys as mathematical values.
pub open spec fn key_views(keys: Seq<Vec<u32>>) -> Seq<Seq<u32>> {
    Seq::new(keys.len(), |i: int| keys[i]@)
}

/// Whether the item at position `a` goes before that at `b`: by its key, and by its position where
/// the keys are equal.
pub open spec fn goes_before(keys: Seq<Seq<u32>>, a: int, b: int) -> bool {
    key_less(keys[a], keys[b]) || (keys[a] == keys[b] && a < b)
}

/// Whether `order` lists all positions of `keys`, sorted by key; equal keys keep their order.
pub open spec fn is_stable_order(keys: Seq<Seq<u32>>, order: Seq<usize>) -> bool {
    &&& order.len() == keys.len()
    &&& forall|i: int| 0 <= i < order.len() ==> #[trigger] order[i] < keys.len()
    &&& forall|x: usize| x < keys.len() ==> #[trigger] order.contains(x)
    &&& forall|i: int, j: int|
        0 <= i < j < order.len() ==> #[trigger] goes_before(
            keys,
            order[i] as int,
            order[j] as int,
        )
}

proof fn lemma_goes_before(keys: Seq<Seq<u32>>, a: int, b: int, c: int)
    ensures
        goes_before(keys, a, b) || goes_before(keys, b, a) || a == b,
        !(goes_before(keys, a, b) && goes_before(keys, b, a)),
        goes_before(keys, a, b) && goes_before(keys, b, c) ==> goes_before(keys, a, c),
        !goes_before(keys, a, a),
{
    key_order_total(keys[a], keys[b]);
    key_order_total(keys[a], keys[a]);
    if goes_before(keys, a, b) && goes_before(keys, b, c) {
        if key_less(keys[a], keys[b]) && key_less(keys[b], keys[c]) {
            lemma_key_transitive(keys[a], keys[b], keys[c]);
        }
    }
}

/// Whether `part` is sorted and lists the positions from `low` to below `high`.
spec fn is_sorted_range(keys: Seq<Seq<u32>>, part: Seq<usize>, low: int, high: int) -> bool {
    &&& part.len() == high - low
    &&& forall|i: int| 0 <= i < part.len() ==> low <= #[trigger] part[i] < high
    &&& forall|x: usize| low <= x < high ==> #[trigger] part.contains(x)
    &&& forall|i: int, j: int|
        0 <= i < j < part.len() ==> #[trigger] goes_before(keys, part[i] as int, part[j] as int)
}

fn merge(keys: &Vec<Vec<u32>>, left: &Vec<usize>, right: &Vec<usize>, Ghost(low): Ghost<int>, Ghost(
    middle,
): Ghost<int>, Ghost(high): Ghost<int>) -> (r: Vec<usize>)
    requires
        0 <= low <= middle <= high <= keys@.len(),
        is_sorted_range(key_views(keys@), left@, low, middle),
        is_sorted_range(key_views(keys@), right@, middle, high),
    ensures
        is_sorted_range(key_views(keys@), r@, low, high),
{
    let ghost views = key_views(keys@);
    let mut out: Vec<usize> = Vec::new();
    let mut i: usize = 0;
    let mut j: usize = 0;
    while i < left.len() || j < right.len()
        invariant
            views == key_views(keys@),
            0 <= low <= middle <= high <= keys@.len(),
            is_sorted_range(views, left@, low, middle),
            is_sorted_range(views, right@, middle, high),
            i <= left@.len(),
            j <= right@.len(),
            out@.len() == i + j,
            forall|k: int| 0 <= k < out@.len() ==> low <= #[trigger] out@[k] < high,
            forall|k: int| 0 <= k < i ==> out@.contains(#[trigger] left@[k]),
            forall|k: int| 0 <= k < j ==> out@.contains(#[trigger] right@[k]),
            forall|a: int, b: int|
                0 <= a < b < out@.len() ==> #[trigger] goes_before(
                    views,
                    out@[a] as int,
                    out@[b] as int,
                ),
            forall|a: int, k: int|
                0 <= a < out@.len() && i <= k < left@.len() ==> #[trigger] goes_before(
                    views,
                    out@[a] as int,
                    left@[k] as int,
                ),
            forall|a: int, k: int|
                0 <= a < out@.len() && j <= k < right@.len() ==> #[trigger] goes_before(
                    views,
                    out@[a] as int,
                    right@[k] as int,
                ),
        decreases left@.len() - i + right@.len() - j,
    {
        let take_left: bool = if i == left.len() {
            false
        } else if j == right.len() {
            true
        } else {
            !key_before(&keys[right[j]], &keys[left[i]])
        };
        let ghost before = out@;
        if take_left {
            let next: usize = left[i];
            proof {
                assert forall|k: int| j <= k < right@.len() implies #[trigger] goes_before(
                    views,
                    next as int,
                    right@[k] as int,
                ) by {
                    key_order_total(views[next as int], views[right@[j as int] as int]);
                    assert(goes_before(views, next as int, right@[j as int] as int));
                    if k > j {
                        assert(goes_before(views, right@[j as int] as int, right@[k] as int));
                        lemma_goes_before(
                            views,
                            next as int,
                            right@[j as int] as int,
                            right@[k] as int,
                        );
                    }
                }
            }
            out.push(next);
            i = i + 1;
            assert(out@[before.len() as int] == next);
            assert forall|k: int| 0 <= k < i implies out@.contains(#[trigger] left@[k]) by {
                if k < i - 1 {
                    let m = choose|m: int| 0 <= m < before.len() && before[m] == left@[k];
                    assert(out@[m] == left@[k]);
                }
            }
            assert forall|k: int| 0 <= k < j implies out@.contains(#[trigger] right@[k]) by {
                let m = choose|m: int| 0 <= m < before.len() && before[m] == right@[k];
                assert(out@[m] == right@[k]);
            }
        } else {
            let next: usize = right[j];
            proof {
                assert forall|k: int| i <= k < left@.len() implies #[trigger] goes_before(
                    views,
                    next as int,
                    left@[k] as int,
                ) by {
                    assert(goes_before(views, next as int, left@[i as int] as int));
                    if k > i {
                        assert(goes_before(views, left@[i as int] as int, left@[k] as int));
                        lemma_goes_before(
                            views,
                            next as int,
                            left@[i as int] as int,
                            left@[k] as int,
                        );
                    }
                }
            }
            out.push(next);
            j = j + 1;
            assert(out@[before.len() as int] == next);
            assert forall|k: int| 0 <= k < j implies out@.contains(#[trigger] right@[k]) by {
                if k < j - 1 {
                    let m = choose|m: int| 0 <= m < before.len() && before[m] == right@[k];
                    assert(out@[m] == right@[k]);
                }
            }
            assert forall|k: int| 0 <= k < i implies out@.contains(#[trigger] left@[k]) by {
                let m = choose|m: int| 0 <= m < before.len() && before[m] == left@[k];
                assert(out@[m] == left@[k]);
            }
        }
    }
    assert forall|x: usize| low <= x < high implies #[trigger] out@.contains(x) by {
        if x < middle {
            assert(left@.contains(x));
            let k = choose|k: int| 0 <= k < left@.len() && left@[k] == x;
            assert(out@.contains(left@[k]));
        } else {
            assert(right@.contains(x));
            let k = choose|k: int| 0 <= k < right@.len() && right@[k] == x;
            assert(out@.contains(right@[k]));
        }
    }
    out
}

fn sort_range(keys: &Vec<Vec<u32>>, low: usize, high: usize) -> (r: Vec<usize>)
    requires
        low <= high <= keys@.len(),
    ensures
        is_sorted_range(key_views(keys@), r@, low as int, high as int),
    decreases high - low,
{
    if high - low <= 1 {
        let mut one: Vec<usize> = Vec::new();
        if low < high {
            one.push(low);
            assert(one@[0] == low);
        }
        return one;
    }
    let middle: usize = low + (high - low) / 2;
    let left = sort_range(keys, low, middle);
    let right = sort_range(keys, middle, high);
    merge(keys, &left, &right, Ghost(low as int), Ghost(middle as int), Ghost(high as int))
}

/// The positions of the keys in sorted order; equal keys keep their order.
pub fn stable_order(keys: &Vec<Vec<u32>>) -> (r: Vec<usize>)
    ensures
        is_stable_order(key_views(keys@), r@),
{
    sort_range(keys, 0, keys.len())
}

/// A stable order is the only one.
pub proof fn stable_order_is_unique(keys: Seq<Seq<u32>>, a: Seq<usize>, b: Seq<usize>)
    requires
        is_stable_order(keys, a),
        is_stable_order(keys, b),
    ensures
        a == b,
{
    if a != b {
        assert(a.take(0) =~= b.take(0));
        lemma_first_difference(keys, a, b, 0);
    }
}

proof fn lemma_first_difference(keys: Seq<Seq<u32>>, a: Seq<usize>, b: Seq<usize>, i: int)
    requires
        is_stable_order(keys, a),
        is_stable_order(keys, b),
        0 <= i <= keys.len(),
        a.take(i) == b.take(i),
    ensures
        a == b,
    decreases keys.len() - i,
{
    if i == keys.len() {
        assert(a.take(i) =~= a);
        assert(b.take(i) =~= b);
    } else {
        if a[i] != b[i] {
            lemma_goes_before(keys, a[i] as int, b[i] as int, a[i] as int);
            lemma_later_item(keys, a, b, i);
            lemma_later_item(keys, b, a, i);
        }
        assert(a.take(i + 1) =~= a.take(i).push(a[i]));
        assert(b.take(i + 1) =~= b.take(i).push(b[i]));
        lemma_first_difference(keys, a, b, i + 1);
    }
}

/// Where two orders agree up to position `i`, what `a` has there comes no later than there in `b`.
proof fn lemma_later_item(keys: Seq<Seq<u32>>, a: Seq<usize>, b: Seq<usize>, i: int)
    requires
        is_stable_order(keys, a),
        is_stable_order(keys, b),
        0 <= i < keys.len(),
        a.take(i) == b.take(i),
    ensures
        b[i] == a[i] || goes_before(keys, b[i] as int, a[i] as int),
{
    assert(a[i] < keys.len());
    assert(b.contains(a[i]));
    let j = choose|j: int| 0 <= j < b.len() && b[j] == a[i];
    if j < i {
        assert(a[j] == a.take(i)[j]);
        assert(b[j] == b.take(i)[j]);
        assert(goes_before(keys, a[j] as int, a[i] as int));
        lemma_goes_before(keys, a[i] as int, a[i] as int, a[i] as int);
    } else if j > i {
        assert(goes_before(keys, b[i] as int, b[j] as int));
    }
}

} // verus!
