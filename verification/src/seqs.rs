//! Small functions on sequences that the rules are stated with: the place of
//! a first occurrence, first occurrences only, set difference, counting.
use vstd::prelude::*;
use vstd::string::*;

verus! {

/// The index of the first occurrence of `x` in `s`, or `s.len()` where there
/// is none.
pub open spec fn position<T>(s: Seq<T>, x: T) -> int
    decreases s.len(),
{
    if s.len() == 0 || s[0] == x {
        0
    } else {
        1 + position(s.drop_first(), x)
    }
}

/// The elements of `s` without repetition, each where it first occurs.
pub open spec fn distinct<T>(s: Seq<T>) -> Seq<T>
    decreases s.len(),
{
    if s.len() == 0 {
        Seq::empty()
    } else {
        let d = distinct(s.drop_last());
        if d.contains(s.last()) {
            d
        } else {
            d.push(s.last())
        }
    }
}

/// The elements of `s` that do not occur in `excluded`, in order.
pub open spec fn without<T>(s: Seq<T>, excluded: Seq<T>) -> Seq<T>
    decreases s.len(),
{
    if s.len() == 0 {
        Seq::empty()
    } else {
        let w = without(s.drop_last(), excluded);
        if excluded.contains(s.last()) {
            w
        } else {
            w.push(s.last())
        }
    }
}

/// How often `x` occurs in `s`.
pub open spec fn occurrences<T>(s: Seq<T>, x: T) -> nat
    decreases s.len(),
{
    if s.len() == 0 {
        0
    } else {
        occurrences(s.drop_last(), x) + if s.last() == x {
            1nat
        } else {
            0nat
        }
    }
}

/// The values that stand beside `key`: `values[i]` for each `i` with
/// `keys[i] == key`, in order.
pub open spec fn values_of<K, V>(keys: Seq<K>, values: Seq<V>, key: K) -> Seq<V>
    decreases keys.len(),
{
    if keys.len() == 0 || values.len() != keys.len() {
        Seq::empty()
    } else {
        let v = values_of(keys.drop_last(), values.drop_last(), key);
        if keys.last() == key {
            v.push(values.last())
        } else {
            v
        }
    }
}

/// The texts that a vector of strings holds.
pub open spec fn texts(v: Seq<String>) -> Seq<Seq<char>> {
    Seq::new(v.len(), |i: int| v[i]@)
}

pub proof fn lemma_position_bounds<T>(s: Seq<T>, x: T)
    ensures
        0 <= position(s, x) <= s.len(),
        position(s, x) < s.len() ==> s[position(s, x)] == x,
        forall|i: int| 0 <= i < position(s, x) ==> s[i] != x,
        position(s, x) < s.len() <==> s.contains(x),
    decreases s.len(),
{
    if s.len() == 0 || s[0] == x {
    } else {
        lemma_position_bounds(s.drop_first(), x);
        assert forall|i: int| 0 <= i < position(s, x) implies s[i] != x by {
            if i > 0 {
                assert(s.drop_first()[i - 1] == s[i]);
            }
        }
        if s.contains(x) {
            let k = choose|k: int| 0 <= k < s.len() && s[k] == x;
            assert(s.drop_first()[k - 1] == x);
        }
    }
}

/// The first index at which `x` stands is its position.
pub proof fn lemma_position_is<T>(s: Seq<T>, x: T, k: int)
    requires
        0 <= k <= s.len(),
        forall|i: int| 0 <= i < k ==> s[i] != x,
        k < s.len() ==> s[k] == x,
    ensures
        position(s, x) == k,
    decreases s.len(),
{
    if s.len() == 0 || s[0] == x {
    } else {
        let t = s.drop_first();
        assert forall|i: int| 0 <= i < k - 1 implies t[i] != x by {
            assert(t[i] == s[i + 1]);
        }
        lemma_position_is(t, x, k - 1);
    }
}

/// `distinct(s)` holds what `s` holds, each element once.
pub proof fn lemma_distinct<T>(s: Seq<T>)
    ensures
        forall|x: T| distinct(s).contains(x) <==> s.contains(x),
        distinct(s).no_duplicates(),
        distinct(s).len() <= s.len(),
    decreases s.len(),
{
    if s.len() > 0 {
        let t = s.drop_last();
        let d = distinct(t);
        lemma_distinct(t);
        assert forall|x: T| distinct(s).contains(x) <==> s.contains(x) by {
            if s.contains(x) {
                let k = choose|k: int| 0 <= k < s.len() && s[k] == x;
                if k < t.len() {
                    assert(t[k] == x);
                    assert(t.contains(x));
                    assert(d.contains(x));
                    if !d.contains(s.last()) {
                        let j = choose|j: int| 0 <= j < d.len() && d[j] == x;
                        assert(d.push(s.last())[j] == x);
                    }
                } else {
                    if !d.contains(s.last()) {
                        assert(d.push(s.last())[d.len() as int] == x);
                    }
                }
            }
            if distinct(s).contains(x) {
                let j = choose|j: int| 0 <= j < distinct(s).len() && distinct(s)[j] == x;
                if j < d.len() {
                    assert(d[j] == x);
                    assert(t.contains(x));
                    let k = choose|k: int| 0 <= k < t.len() && t[k] == x;
                    assert(s[k] == x);
                } else {
                    assert(s[s.len() - 1] == x);
                }
            }
        }
    }
}

/// The index of the first string of `list` that equals `key`, or the length
/// of `list` where there is none.
pub fn find_text(list: &Vec<String>, key: &String) -> (k: usize)
    ensures
        k == position(texts(list@), key@),
        k <= list.len(),
        k < list.len() ==> list@[k as int]@ == key@,
        k < list.len() <==> texts(list@).contains(key@),
{
    let mut i: usize = 0;
    while i < list.len() && list[i] != *key
        invariant
            i <= list.len(),
            forall|j: int| 0 <= j < i ==> texts(list@)[j] != key@,
        decreases list.len() - i,
    {
        i += 1;
    }
    proof {
        lemma_position_is(texts(list@), key@, i as int);
        lemma_position_bounds(texts(list@), key@);
    }
    i
}

/// The strings of `list` without repetition, each where it first occurs.
pub fn distinct_texts(list: &Vec<String>) -> (r: Vec<String>)
    ensures
        texts(r@) == distinct(texts(list@)),
{
    let mut r: Vec<String> = Vec::new();
    let mut i: usize = 0;
    assert(texts(r@) == Seq::<Seq<char>>::empty());
    while i < list.len()
        invariant
            i <= list.len(),
            texts(r@) == distinct(texts(list@).take(i as int)),
        decreases list.len() - i,
    {
        proof {
            assert(texts(list@).take(i + 1).drop_last() == texts(list@).take(i as int));
        }
        if find_text(&r, &list[i]) == r.len() {
            let ghost before = texts(r@);
            r.push(list[i].clone());
            assert(texts(r@) == before.push(list@[i as int]@));
        }
        i += 1;
    }
    assert(texts(list@).take(list.len() as int) == texts(list@));
    r
}

/// How many strings of `list` do not occur in `excluded`.
pub fn count_without(list: &Vec<String>, excluded: &Vec<String>) -> (n: usize)
    ensures
        n == without(texts(list@), texts(excluded@)).len(),
{
    let mut n: usize = 0;
    let mut i: usize = 0;
    while i < list.len()
        invariant
            i <= list.len(),
            n <= i,
            n == without(texts(list@).take(i as int), texts(excluded@)).len(),
        decreases list.len() - i,
    {
        proof {
            assert(texts(list@).take(i + 1).drop_last() == texts(list@).take(i as int));
        }
        if find_text(excluded, &list[i]) == excluded.len() {
            n += 1;
        }
        i += 1;
    }
    assert(texts(list@).take(list.len() as int) == texts(list@));
    n
}

/// The strings of `values` that stand beside `key` in `keys`.
pub fn values_beside(keys: &Vec<String>, values: &Vec<String>, key: &String) -> (r: Vec<String>)
    requires
        keys.len() == values.len(),
    ensures
        texts(r@) == values_of(texts(keys@), texts(values@), key@),
{
    let mut r: Vec<String> = Vec::new();
    let mut i: usize = 0;
    assert(texts(r@) == Seq::<Seq<char>>::empty());
    while i < keys.len()
        invariant
            i <= keys.len(),
            keys.len() == values.len(),
            texts(r@) == values_of(
                texts(keys@).take(i as int),
                texts(values@).take(i as int),
                key@,
            ),
        decreases keys.len() - i,
    {
        proof {
            assert(texts(keys@).take(i + 1).drop_last() == texts(keys@).take(i as int));
            assert(texts(values@).take(i + 1).drop_last() == texts(values@).take(i as int));
        }
        if keys[i] == *key {
            let ghost before = texts(r@);
            r.push(values[i].clone());
            assert(texts(r@) == before.push(values@[i as int]@));
        }
        i += 1;
    }
    assert(texts(keys@).take(keys.len() as int) == texts(keys@));
    assert(texts(values@).take(keys.len() as int) == texts(values@));
    r
}

/// The text of `items` with `separator` between each two of them.
pub open spec fn join(items: Seq<Seq<char>>, separator: Seq<char>) -> Seq<char>
    decreases items.len(),
{
    if items.len() == 0 {
        Seq::empty()
    } else if items.len() == 1 {
        items[0]
    } else {
        join(items.drop_last(), separator) + separator + items.last()
    }
}

/// The pairs that two lists of strings make, place by place.
pub open spec fn text_pairs(a: Seq<String>, b: Seq<String>) -> Seq<(Seq<char>, Seq<char>)> {
    Seq::new(a.len(), |i: int| (a[i]@, b[i]@))
}

/// An element stands among the first `i` of `s` just where its first
/// occurrence lies before `i`.
pub proof fn lemma_position_in_prefix<T>(s: Seq<T>, x: T, i: int)
    requires
        0 <= i <= s.len(),
    ensures
        s.take(i).contains(x) <==> position(s, x) < i,
{
    lemma_position_bounds(s, x);
    if s.take(i).contains(x) {
        let k = choose|k: int| 0 <= k < s.take(i).len() && s.take(i)[k] == x;
        assert(s[k] == x);
    }
    if position(s, x) < i {
        assert(s.take(i)[position(s, x)] == x);
    }
}

/// The strings of `items` with `separator` between each two of them.
pub fn join_texts(items: &Vec<String>, separator: &str) -> (r: String)
    ensures
        r@ == join(texts(items@), separator@),
{
    let mut r = String::new();
    let mut i: usize = 0;
    while i < items.len()
        invariant
            i <= items.len(),
            r@ == join(texts(items@).take(i as int), separator@),
        decreases items.len() - i,
    {
        proof {
            assert(texts(items@).take(i + 1).drop_last() == texts(items@).take(i as int));
            assert(texts(items@).take(i + 1).last() == items@[i as int]@);
            if i == 0 {
                assert(r@ + items@[0]@ == items@[0]@);
            }
        }
        if i > 0 {
            r.append(separator);
        }
        r.append(items[i].as_str());
        i += 1;
    }
    assert(texts(items@).take(items.len() as int) == texts(items@));
    r
}

/// The index of the first place at which `a` holds `x` and `b` holds `y`, or
/// the length of the lists where there is none.
pub fn find_pair(a: &Vec<String>, b: &Vec<String>, x: &String, y: &String) -> (k: usize)
    requires
        a.len() == b.len(),
    ensures
        k == position(text_pairs(a@, b@), (x@, y@)),
        k <= a.len(),
{
    let mut i: usize = 0;
    while i < a.len() && !(a[i] == *x && b[i] == *y)
        invariant
            i <= a.len(),
            a.len() == b.len(),
            forall|j: int| 0 <= j < i ==> text_pairs(a@, b@)[j] != (x@, y@),
        decreases a.len() - i,
    {
        i += 1;
    }
    proof {
        lemma_position_is(text_pairs(a@, b@), (x@, y@), i as int);
    }
    i
}

/// At how many places `a` holds `x` and `b` holds `y`.
pub fn count_pair(a: &Vec<String>, b: &Vec<String>, x: &String, y: &String) -> (n: usize)
    requires
        a.len() == b.len(),
    ensures
        n == occurrences(text_pairs(a@, b@), (x@, y@)),
{
    let ghost pairs = text_pairs(a@, b@);
    let mut n: usize = 0;
    let mut i: usize = 0;
    while i < a.len()
        invariant
            i <= a.len(),
            a.len() == b.len(),
            pairs == text_pairs(a@, b@),
            n <= i,
            n == occurrences(pairs.take(i as int), (x@, y@)),
        decreases a.len() - i,
    {
        proof {
            assert(pairs.take(i + 1).drop_last() == pairs.take(i as int));
        }
        if a[i] == *x && b[i] == *y {
            n += 1;
        }
        i += 1;
    }
    assert(pairs.take(a.len() as int) == pairs);
    n
}

/// What occurs at least once in `s` is an element of `s`.
pub proof fn lemma_occurrences_contains<T>(s: Seq<T>, x: T)
    ensures
        occurrences(s, x) > 0 ==> s.contains(x),
    decreases s.len(),
{
    if s.len() > 0 {
        lemma_occurrences_contains(s.drop_last(), x);
        if s.last() == x {
            assert(s[s.len() - 1] == x);
        } else if occurrences(s, x) > 0 {
            let k = choose|k: int| 0 <= k < s.drop_last().len() && s.drop_last()[k] == x;
            assert(s[k] == x);
        }
    }
}

/// Where a value stands beside `key`, `key` is among the keys.
pub proof fn lemma_values_of_contains<K, V>(keys: Seq<K>, values: Seq<V>, key: K)
    ensures
        values_of(keys, values, key).len() > 0 ==> keys.contains(key),
    decreases keys.len(),
{
    if keys.len() > 0 && values.len() == keys.len() {
        lemma_values_of_contains(keys.drop_last(), values.drop_last(), key);
        if keys.last() == key {
            assert(keys[keys.len() - 1] == key);
        } else if values_of(keys, values, key).len() > 0 {
            let k = choose|k: int| 0 <= k < keys.drop_last().len() && keys.drop_last()[k] == key;
            assert(keys[k] == key);
        }
    }
}

/// A sequence without repetition stays one when its last element goes, and
/// that element is not among the others.
pub proof fn lemma_no_duplicates_drop_last<T>(s: Seq<T>)
    requires
        s.no_duplicates(),
        s.len() > 0,
    ensures
        s.drop_last().no_duplicates(),
        !s.drop_last().contains(s.last()),
        forall|x: T| s.contains(x) <==> s.drop_last().contains(x) || x == s.last(),
{
    let t = s.drop_last();
    assert forall|i: int, j: int| 0 <= i < t.len() && 0 <= j < t.len() && i != j implies t[i]
        != t[j] by {
        assert(t[i] == s[i] && t[j] == s[j]);
    }
    if t.contains(s.last()) {
        let k = choose|k: int| 0 <= k < t.len() && t[k] == s.last();
        assert(s[k] == s[s.len() - 1]);
    }
    assert forall|x: T| s.contains(x) <==> t.contains(x) || x == s.last() by {
        if s.contains(x) {
            let k = choose|k: int| 0 <= k < s.len() && s[k] == x;
            if k < t.len() {
                assert(t[k] == x);
            }
        }
        if t.contains(x) {
            let k = choose|k: int| 0 <= k < t.len() && t[k] == x;
            assert(s[k] == x);
        }
        if x == s.last() {
            assert(s[s.len() - 1] == x);
        }
    }
}

} // verus!
