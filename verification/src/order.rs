//! Ordering files by name: by file name in code-point order, a missing name
//! first, and entries with equal names kept in the order they came in.
use vstd::prelude::*;
use crate::paths::{path_file_name, std_file_name};
use crate::text::{
    lemma_text_lt_first_difference, lemma_text_lt_proper_prefix, lemma_text_lt_irreflexive, lemma_text_lt_total, lemma_text_lt_transitive, same_text,
    text_less, text_lt, texts,
};

verus! {

/// Order on optional names: no name comes before any name, names go by
/// code point.
pub open spec fn name_lt(a: Option<Seq<char>>, b: Option<Seq<char>>) -> bool {
    match (a, b) {
        (None, Some(_)) => true,
        (Some(x), Some(y)) => text_lt(x, y),
        _ => false,
    }
}

/// Entry `i` comes before entry `j` when its name is smaller, or the names
/// are equal and it came first.
pub open spec fn comes_before(keys: Seq<Option<Seq<char>>>, i: int, j: int) -> bool {
    name_lt(keys[i], keys[j]) || (keys[i] == keys[j] && i < j)
}

/// `order` lists every index of `keys` once, each before all that it
/// comes before.
pub open spec fn is_name_order(keys: Seq<Option<Seq<char>>>, order: Seq<usize>) -> bool {
    &&& order.len() == keys.len()
    &&& forall|k: int| 0 <= k < order.len() ==> #[trigger] order[k] < keys.len()
    &&& forall|x: usize| x < keys.len() ==> #[trigger] order.contains(x)
    &&& forall|a: int, b: int|
        0 <= a < b < order.len() ==> comes_before(keys, #[trigger] order[a] as int, #[trigger] order[b] as int)
}

proof fn lemma_comes_before_irreflexive(keys: Seq<Option<Seq<char>>>, i: int)
    ensures
        !comes_before(keys, i, i),
{
    if let Some(x) = keys[i] {
        lemma_text_lt_irreflexive(x);
    }
}

proof fn lemma_comes_before_transitive(keys: Seq<Option<Seq<char>>>, i: int, j: int, k: int)
    requires
        comes_before(keys, i, j),
        comes_before(keys, j, k),
    ensures
        comes_before(keys, i, k),
{
    match (keys[i], keys[j], keys[k]) {
        (Some(x), Some(y), Some(z)) => {
            if text_lt(x, y) && text_lt(y, z) {
                lemma_text_lt_transitive(x, y, z);
            }
        },
        _ => {},
    }
}

proof fn lemma_comes_before_total(keys: Seq<Option<Seq<char>>>, i: int, j: int)
    requires
        i != j,
    ensures
        comes_before(keys, i, j) || comes_before(keys, j, i),
{
    if keys[i] != keys[j] {
        match (keys[i], keys[j]) {
            (Some(x), Some(y)) => {
                lemma_text_lt_total(x, y);
            },
            _ => {},
        }
    }
}

/// `comes_before` on distinct entries is a strict total order, so there is
/// exactly one name order: two of them are the same sequence.
pub proof fn lemma_name_order_unique(
    keys: Seq<Option<Seq<char>>>,
    o1: Seq<usize>,
    o2: Seq<usize>,
)
    requires
        keys.len() <= usize::MAX,
        is_name_order(keys, o1),
        is_name_order(keys, o2),
    ensures
        o1 == o2,
{
    assert forall|k: int| 0 <= k < o1.len() implies o1[k] == o2[k] by {
        lemma_rank(keys, o1, k);
        lemma_rank(keys, o2, k);
        // In each order, the entry at `k` is the one with exactly `k`
        // entries before it.
        let x = o1[k] as int;
        let y = o2[k] as int;
        if x != y {
            lemma_comes_before_total(keys, x, y);
            let below1 = Set::new(|z: int| 0 <= z < keys.len() && comes_before(keys, z, x));
            let below2 = Set::new(|z: int| 0 <= z < keys.len() && comes_before(keys, z, y));
            if comes_before(keys, x, y) {
                assert forall|z: int| #[trigger] below1.insert(x).contains(z) implies below2.contains(z) by {
                    if z != x {
                        lemma_comes_before_transitive(keys, z, x, y);
                    }
                }
                assert(!below1.contains(x)) by {
                    lemma_comes_before_irreflexive(keys, x);
                }
                vstd::set_lib::lemma_len_subset(below1.insert(x), below2);
            } else {
                assert forall|z: int| #[trigger] below2.insert(y).contains(z) implies below1.contains(z) by {
                    if z != y {
                        lemma_comes_before_transitive(keys, z, y, x);
                    }
                }
                assert(!below2.contains(y)) by {
                    lemma_comes_before_irreflexive(keys, y);
                }
                vstd::set_lib::lemma_len_subset(below2.insert(y), below1);
            }
        }
    }
    assert(o1 =~= o2);
}

/// In a name order, an entry without a name never follows one with a name,
/// and entries with equal names keep their given order.
pub proof fn lemma_name_order_none_first_and_stable(
    keys: Seq<Option<Seq<char>>>,
    order: Seq<usize>,
    a: int,
    b: int,
)
    requires
        is_name_order(keys, order),
        0 <= a < b < order.len(),
    ensures
        keys[order[b] as int] is None ==> keys[order[a] as int] is None,
        keys[order[a] as int] == keys[order[b] as int] ==> order[a] < order[b],
{
    assert(comes_before(keys, order[a] as int, order[b] as int));
    if let Some(x) = keys[order[a] as int] {
        lemma_text_lt_irreflexive(x);
    }
}

/// In a name order, of two named entries the earlier one's name is smaller
/// by code point: where the names first differ, its character has the
/// smaller code point, and it is not a longer name that extends the other.
pub proof fn lemma_name_order_by_code_points(
    keys: Seq<Option<Seq<char>>>,
    order: Seq<usize>,
    a: int,
    b: int,
    x: Seq<char>,
    y: Seq<char>,
)
    requires
        is_name_order(keys, order),
        0 <= a < b < order.len(),
        keys[order[a] as int] == Some(x),
        keys[order[b] as int] == Some(y),
    ensures
        forall|i: int|
            #![trigger x[i], y[i]]
            0 <= i < x.len() && i < y.len() && x[i] != y[i] && (forall|j: int|
                0 <= j < i ==> x[j] == y[j]) ==> x[i] < y[i],
        !(y.len() < x.len() && forall|j: int| 0 <= j < y.len() ==> y[j] == x[j]),
{
    assert(comes_before(keys, order[a] as int, order[b] as int));
    assert forall|i: int|
        #![trigger x[i], y[i]]
        0 <= i < x.len() && i < y.len() && x[i] != y[i] && (forall|j: int|
            0 <= j < i ==> x[j] == y[j]) implies x[i] < y[i] by {
        assert(x != y);
        lemma_text_lt_first_difference(x, y, i);
    }
    if y.len() < x.len() && forall|j: int| 0 <= j < y.len() ==> y[j] == x[j] {
        lemma_text_lt_proper_prefix(y, x);
        assert(x.len() != y.len());
    }
}

/// In a name order, the entry at position `k` has exactly `k` entries
/// before it.
proof fn lemma_rank(keys: Seq<Option<Seq<char>>>, o: Seq<usize>, k: int)
    requires
        keys.len() <= usize::MAX,
        is_name_order(keys, o),
        0 <= k < o.len(),
    ensures
        Set::new(|z: int| 0 <= z < keys.len() && comes_before(keys, z, o[k] as int)).finite(),
        Set::new(|z: int| 0 <= z < keys.len() && comes_before(keys, z, o[k] as int)).len() == k,
{
    let x = o[k] as int;
    let below = Set::new(|z: int| 0 <= z < keys.len() && comes_before(keys, z, x));
    let firsts = Set::new(|z: int| exists|a: int| 0 <= a < k && o[a] as int == z);
    assert forall|z: int| below.contains(z) implies firsts.contains(z) by {
        assert(o.contains(z as usize));
        let a = choose|a: int| 0 <= a < o.len() && o[a] == z as usize;
        if a >= k {
            if a == k {
                lemma_comes_before_irreflexive(keys, x);
            } else {
                assert(comes_before(keys, o[k] as int, o[a] as int));
                lemma_comes_before_transitive(keys, x, z, x);
                lemma_comes_before_irreflexive(keys, x);
            }
        }
        assert(o[a] as int == z);
    }
    assert forall|z: int| firsts.contains(z) implies below.contains(z) by {
        let a = choose|a: int| 0 <= a < k && o[a] as int == z;
        assert(comes_before(keys, o[a] as int, o[k] as int));
    }
    assert(below =~= firsts);
    let prefix = o.take(k);
    assert forall|a: int, b: int| 0 <= a < b < prefix.len() implies prefix[a] != prefix[b] by {
        assert(comes_before(keys, o[a] as int, o[b] as int));
        if prefix[a] == prefix[b] {
            lemma_comes_before_irreflexive(keys, o[a] as int);
        }
    }
    assert(prefix.no_duplicates());
    let as_ints = prefix.map_values(|u: usize| u as int);
    assert(as_ints.no_duplicates()) by {
        assert forall|a: int, b: int| 0 <= a < as_ints.len() && 0 <= b < as_ints.len() && a != b
            implies as_ints[a] != as_ints[b] by {
            if a < b {
                assert(prefix[a] != prefix[b]);
            } else {
                assert(prefix[b] != prefix[a]);
            }
        }
    }
    as_ints.unique_seq_to_set();
    assert(as_ints.to_set() =~= firsts) by {
        assert forall|z: int| firsts.contains(z) implies as_ints.to_set().contains(z) by {
            let a = choose|a: int| 0 <= a < k && o[a] as int == z;
            assert(as_ints[a] == z);
        }
        assert forall|z: int| as_ints.to_set().contains(z) implies firsts.contains(z) by {
            let a = choose|a: int| 0 <= a < as_ints.len() && as_ints[a] == z;
            assert(o[a] as int == z);
        }
    }
}

/// Whether entry `i` comes before entry `j`.
fn key_before(keys: &Vec<Option<String>>, i: usize, j: usize) -> (r: bool)
    requires
        i < keys@.len(),
        j < keys@.len(),
    ensures
        r == comes_before(keys.deep_view(), i as int, j as int),
{
    match (&keys[i], &keys[j]) {
        (None, Some(_)) => true,
        (None, None) => i < j,
        (Some(_), None) => false,
        (Some(a), Some(b)) => {
            if text_less(a.as_str(), b.as_str()) {
                true
            } else {
                same_text(a.as_str(), b.as_str()) && i < j
            }
        },
    }
}

/// The order in which entries with the names `keys` are listed: by name,
/// ties in their given order.
pub fn order_by_names(keys: &Vec<Option<String>>) -> (order: Vec<usize>)
    ensures
        is_name_order(keys.deep_view(), order@),
{
    let ghost ks = keys.deep_view();
    let n = keys.len();
    let mut order: Vec<usize> = Vec::new();
    let mut j: usize = 0;
    while j < n
        invariant
            n == keys@.len(),
            ks == keys.deep_view(),
            j <= n,
            order@.len() == j,
            forall|k: int| 0 <= k < order@.len() ==> #[trigger] order@[k] < j,
            forall|x: usize| x < j ==> #[trigger] order@.contains(x),
            forall|a: int, b: int|
                0 <= a < b < order@.len() ==> comes_before(ks, #[trigger] order@[a] as int, #[trigger] order@[b] as int),
        decreases n - j,
    {
        let mut p: usize = 0;
        while p < order.len() && key_before(keys, order[p], j)
            invariant
                n == keys@.len(),
                ks == keys.deep_view(),
                j < n,
                p <= order@.len(),
                forall|k: int| 0 <= k < order@.len() ==> #[trigger] order@[k] < j,
                forall|q: int| 0 <= q < p ==> comes_before(ks, #[trigger] order@[q] as int, j as int),
            decreases order@.len() - p,
        {
            p = p + 1;
        }
        let ghost old_order = order@;
        order.insert(p, j);
        proof {
            old_order.insert_ensures(p as int, j);
            let o = order@;
            if p < old_order.len() {
                lemma_comes_before_total(ks, old_order[p as int] as int, j as int);
            }
            assert forall|a: int, b: int| 0 <= a < b < o.len() implies comes_before(
                ks,
                #[trigger] o[a] as int,
                #[trigger] o[b] as int,
            ) by {
                if b < p {
                    assert(o[a] == old_order[a] && o[b] == old_order[b]);
                } else if b == p {
                    assert(o[a] == old_order[a]);
                } else if a < p {
                    assert(o[a] == old_order[a] && o[b] == old_order[b - 1]);
                } else if a == p {
                    assert(o[b] == old_order[b - 1]);
                    if b - 1 > p {
                        assert(comes_before(ks, old_order[p as int] as int, old_order[b - 1] as int));
                        lemma_comes_before_transitive(
                            ks,
                            j as int,
                            old_order[p as int] as int,
                            old_order[b - 1] as int,
                        );
                    }
                } else {
                    assert(o[a] == old_order[a - 1] && o[b] == old_order[b - 1]);
                }
            }
            assert forall|x: usize| x < j + 1 implies #[trigger] o.contains(x) by {
                if x == j {
                    assert(o[p as int] == j);
                } else {
                    assert(old_order.contains(x));
                    let q = choose|q: int| 0 <= q < old_order.len() && old_order[q] == x;
                    if q < p {
                        assert(o[q] == x);
                    } else {
                        assert(o[q + 1] == x);
                    }
                }
            }
            assert forall|k: int| 0 <= k < o.len() implies #[trigger] o[k] < j + 1 by {
                if k < p {
                    assert(o[k] == old_order[k]);
                } else if k > p {
                    assert(o[k] == old_order[k - 1]);
                }
            }
        }
        j = j + 1;
    }
    order
}

/// The names of `paths`, as `Path::file_name` gives them.
pub open spec fn file_names(paths: Seq<Seq<char>>) -> Seq<Option<Seq<char>>> {
    paths.map_values(|p: Seq<char>| std_file_name(p))
}

/// `result` is `paths` listed in file-name order.
pub open spec fn in_file_name_order(paths: Seq<Seq<char>>, result: Seq<Seq<char>>) -> bool {
    exists|order: Seq<usize>|
        #[trigger] is_name_order(file_names(paths), order) && result == order.map_values(
            |i: usize| paths[i as int],
        )
}

/// `paths` sorted by file name (as a stable sort by `Path::file_name`).
pub fn sort_by_file_name(paths: &Vec<String>) -> (sorted: Vec<String>)
    ensures
        in_file_name_order(texts(paths@), texts(sorted@)),
{
    let mut keys: Vec<Option<String>> = Vec::new();
    let mut i: usize = 0;
    while i < paths.len()
        invariant
            i <= paths@.len(),
            keys.deep_view() == file_names(texts(paths@)).take(i as int),
        decreases paths@.len() - i,
    {
        let name = path_file_name(paths[i].as_str());
        let ghost prev = keys.deep_view();
        keys.push(name);
        assert(keys.deep_view() =~= prev.push(std_file_name(paths@[i as int]@)));
        assert(file_names(texts(paths@)).take(i + 1) =~= file_names(texts(paths@)).take(
            i as int,
        ).push(std_file_name(paths@[i as int]@)));
        i = i + 1;
    }
    assert(keys.deep_view() =~= file_names(texts(paths@)));
    let order = order_by_names(&keys);
    let mut sorted: Vec<String> = Vec::new();
    let mut k: usize = 0;
    while k < order.len()
        invariant
            is_name_order(file_names(texts(paths@)), order@),
            order@.len() == paths@.len(),
            k <= order@.len(),
            texts(sorted@) == order@.take(k as int).map_values(|i: usize| texts(paths@)[i as int]),
        decreases order@.len() - k,
    {
        let idx = order[k];
        assert(idx < paths@.len());
        let ghost prev = texts(sorted@);
        sorted.push(paths[idx].clone());
        assert(texts(sorted@) =~= prev.push(texts(paths@)[idx as int]));
        assert(order@.take(k + 1) =~= order@.take(k as int).push(idx));
        assert(order@.take(k + 1).map_values(|i: usize| texts(paths@)[i as int])
            =~= order@.take(k as int).map_values(|i: usize| texts(paths@)[i as int]).push(
            texts(paths@)[idx as int],
        ));
        k = k + 1;
    }
    assert(order@.take(order@.len() as int) =~= order@);
    assert(is_name_order(file_names(texts(paths@)), order@));
    sorted
}

} // verus!
