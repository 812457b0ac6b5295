//! Duplicate-key reporting shared by the scanners: every logical key
//! carried by two or more records is listed exactly once, at its first
//! occurrence, as an advisory beside the records themselves.

use vstd::prelude::*;

verus! {

/// How many of the keys equal `k`.
pub open spec fn g_key_count(keys: Seq<Option<Seq<char>>>, k: Seq<char>) -> nat
    decreases keys.len(),
{
    if keys.len() == 0 {
        0
    } else {
        (if keys.last() == Some(k) {
            1nat
        } else {
            0nat
        }) + g_key_count(keys.drop_last(), k)
    }
}

/// Whether `k` appears among the keys before index `i`.
pub open spec fn g_seen_before(keys: Seq<Option<Seq<char>>>, i: int, k: Seq<char>) -> bool {
    exists|j: int| 0 <= j < i && keys[j] == Some(k)
}

/// The duplicate keys found at or after index `i`.
pub open spec fn g_dup_keys_from(keys: Seq<Option<Seq<char>>>, i: int) -> Seq<Seq<char>>
    decreases keys.len() - i + 1,
{
    if i < 0 || i >= keys.len() {
        Seq::empty()
    } else {
        let rest = g_dup_keys_from(keys, i + 1);
        match keys[i] {
            Some(k) => if g_key_count(keys, k) >= 2 && !g_seen_before(keys, i, k) {
                seq![k] + rest
            } else {
                rest
            },
            None => rest,
        }
    }
}

/// The duplicate keys of a key list: every key carried twice or more,
/// exactly once, in first-occurrence order.
pub open spec fn g_dup_keys(keys: Seq<Option<Seq<char>>>) -> Seq<Seq<char>> {
    g_dup_keys_from(keys, 0)
}

/// The view of a list of optional keys.
pub open spec fn keys_view(keys: Seq<Option<String>>) -> Seq<Option<Seq<char>>> {
    keys.map_values(|o: Option<String>| crate::weapons::opt_str(o))
}

/// Counts the keys equal to `k`.
fn count_key(keys: &Vec<Option<String>>, k: &String) -> (r: u64)
    requires
        keys@.len() <= u64::MAX,
    ensures
        r == g_key_count(keys_view(keys@), k@),
{
    let ghost gks = keys_view(keys@);
    let mut n: u64 = 0;
    let mut j: usize = 0;
    proof {
        assert(gks.subrange(0, 0) =~= Seq::<Option<Seq<char>>>::empty());
    }
    while j < keys.len()
        invariant
            j <= keys.len(),
            gks == keys_view(keys@),
            gks.len() == keys@.len(),
            n <= j,
            n == g_key_count(gks.subrange(0, j as int), k@),
        decreases keys.len() - j,
    {
        let ghost pre = gks.subrange(0, j as int);
        let ghost post = gks.subrange(0, j as int + 1);
        proof {
            assert(post.drop_last() =~= pre);
            assert(post.last() == gks[j as int]);
        }
        match &keys[j] {
            Some(wk) => {
                if crate::text::str_eq(wk.as_str(), k.as_str()) {
                    n = n + 1;
                }
            },
            None => {},
        }
        j = j + 1;
    }
    proof {
        assert(gks.subrange(0, gks.len() as int) =~= gks);
    }
    n
}

/// Collects the duplicate keys of `keys`: each key seen twice or more,
/// once, at its first occurrence.
pub fn duplicate_keys_of(keys: &Vec<Option<String>>) -> (r: Vec<String>)
    requires
        keys@.len() <= u64::MAX,
    ensures
        r@.map_values(|s: String| s@) == g_dup_keys(keys_view(keys@)),
{
    let ghost gks = keys_view(keys@);
    let mut r: Vec<String> = Vec::new();
    let mut i: usize = 0;
    proof {
        assert(r@.map_values(|s: String| s@) =~= Seq::<Seq<char>>::empty());
        assert(Seq::<Seq<char>>::empty() + g_dup_keys_from(gks, 0) =~= g_dup_keys_from(gks, 0));
    }
    while i < keys.len()
        invariant
            i <= keys.len(),
            gks == keys_view(keys@),
            gks.len() == keys@.len(),
            gks.len() <= u64::MAX,
            g_dup_keys(gks) == r@.map_values(|s: String| s@) + g_dup_keys_from(gks, i as int),
        decreases keys.len() - i,
    {
        match &keys[i] {
            Some(k) => {
                let cnt = count_key(keys, k);
                let mut first = true;
                let mut j: usize = 0;
                while j < i
                    invariant
                        j <= i,
                        i < keys@.len(),
                        gks == keys_view(keys@),
                        gks.len() == keys@.len(),
                        gks[i as int] == Some(k@),
                        first ==> forall|m: int| 0 <= m < j ==> gks[m] != Some(k@),
                        !first ==> g_seen_before(gks, i as int, k@),
                    decreases i - j,
                {
                    match &keys[j] {
                        Some(pk) => {
                            if crate::text::str_eq(pk.as_str(), k.as_str()) {
                                first = false;
                                proof {
                                    assert(gks[j as int] == Some(k@));
                                }
                                j = i;
                            } else {
                                j = j + 1;
                            }
                        },
                        None => {
                            j = j + 1;
                        },
                    }
                }
                let ghost m0 = r@.map_values(|s: String| s@);
                if cnt >= 2 && first {
                    proof {
                        assert(!g_seen_before(gks, i as int, k@));
                    }
                    r.push(k.clone());
                    proof {
                        assert(r@.map_values(|s: String| s@) =~= m0.push(k@));
                        assert(m0 + (seq![k@] + g_dup_keys_from(gks, i as int + 1)) =~= m0.push(k@)
                            + g_dup_keys_from(gks, i as int + 1));
                    }
                } else {
                    proof {
                        if cnt < 2 {
                            assert(g_dup_keys_from(gks, i as int) == g_dup_keys_from(
                                gks,
                                i as int + 1,
                            ));
                        }
                    }
                }
            },
            None => {},
        }
        i = i + 1;
    }
    proof {
        assert(g_dup_keys_from(gks, gks.len() as int) =~= Seq::<Seq<char>>::empty());
        assert(r@.map_values(|s: String| s@) + Seq::<Seq<char>>::empty() =~= r@.map_values(
            |s: String| s@,
        ));
    }
    r
}

/// A duplicate key is reported if and only if two or more of the keys
/// carry it.
pub proof fn lemma_dup_keys_iff(keys: Seq<Option<Seq<char>>>, k: Seq<char>)
    ensures
        g_dup_keys(keys).contains(k) <==> g_key_count(keys, k) >= 2,
{
    lemma_dup_keys_from_iff(keys, 0, k);
    if g_key_count(keys, k) >= 2 {
        lemma_count_pos(keys, k);
        let j = choose|j: int| 0 <= j < keys.len() && keys[j] == Some(k);
        lemma_first_occ_below(keys, j, k);
    }
}

/// A positive count means the key occurs somewhere.
proof fn lemma_count_pos(keys: Seq<Option<Seq<char>>>, k: Seq<char>)
    requires
        g_key_count(keys, k) >= 1,
    ensures
        exists|j: int| 0 <= j < keys.len() && keys[j] == Some(k),
    decreases keys.len(),
{
    if keys.len() > 0 {
        if keys.last() == Some(k) {
            assert(keys[keys.len() - 1] == Some(k));
        } else {
            lemma_count_pos(keys.drop_last(), k);
            let j = choose|j: int| 0 <= j < keys.len() - 1 && keys.drop_last()[j] == Some(k);
            assert(keys[j] == Some(k));
        }
    }
}

/// Any occurrence of a key has a first occurrence at or before it.
proof fn lemma_first_occ_below(keys: Seq<Option<Seq<char>>>, j: int, k: Seq<char>)
    requires
        0 <= j < keys.len(),
        keys[j] == Some(k),
    ensures
        exists|m: int| 0 <= m <= j && keys[m] == Some(k) && !g_seen_before(keys, m, k),
    decreases j,
{
    if g_seen_before(keys, j, k) {
        let m = choose|m: int| 0 <= m < j && keys[m] == Some(k);
        lemma_first_occ_below(keys, m, k);
    }
}



proof fn lemma_dup_keys_from_iff(keys: Seq<Option<Seq<char>>>, i: int, k: Seq<char>)
    requires
        0 <= i <= keys.len(),
    ensures
        g_dup_keys_from(keys, i).contains(k) <==> (g_key_count(keys, k) >= 2 && exists|j: int|
            i <= j < keys.len() && keys[j] == Some(k) && !g_seen_before(keys, j, k)),
    decreases keys.len() - i,
{
    if i >= keys.len() {
    } else {
        lemma_dup_keys_from_iff(keys, i + 1, k);
        let rest = g_dup_keys_from(keys, i + 1);
        match keys[i] {
            Some(ki) => {
                if g_key_count(keys, ki) >= 2 && !g_seen_before(keys, i, ki) {
                    let cur = seq![ki] + rest;
                    assert(cur[0] == ki);
                    if k == ki {
                        assert(cur.contains(k));
                    } else {
                        if cur.contains(k) {
                            let m = choose|m: int| 0 <= m < cur.len() && cur[m] == k;
                            assert(rest[m - 1] == k);
                            assert(rest.contains(k));
                        }
                        if rest.contains(k) {
                            let m = choose|m: int| 0 <= m < rest.len() && rest[m] == k;
                            assert(cur[m + 1] == k);
                        }
                    }
                }
            },
            None => {},
        }
    }
}

/// No key is reported twice.
pub proof fn lemma_dup_keys_distinct(keys: Seq<Option<Seq<char>>>, a: int, b: int)
    requires
        0 <= a < b < g_dup_keys(keys).len(),
    ensures
        g_dup_keys(keys)[a] != g_dup_keys(keys)[b],
{
    lemma_dup_keys_from_distinct(keys, 0, a, b);
}

proof fn lemma_dup_keys_from_entries(keys: Seq<Option<Seq<char>>>, i: int, m: int)
    requires
        0 <= i <= keys.len(),
        0 <= m < g_dup_keys_from(keys, i).len(),
    ensures
        exists|j: int|
            i <= j < keys.len() && keys[j] == Some(g_dup_keys_from(keys, i)[m])
                && !g_seen_before(keys, j, g_dup_keys_from(keys, i)[m]),
    decreases keys.len() - i,
{
    let cur = g_dup_keys_from(keys, i);
    let rest = g_dup_keys_from(keys, i + 1);
    if i >= keys.len() {
    } else {
        match keys[i] {
            Some(ki) => {
                if g_key_count(keys, ki) >= 2 && !g_seen_before(keys, i, ki) {
                    if m == 0 {
                        assert(cur[0] == ki);
                        assert(keys[i] == Some(ki) && !g_seen_before(keys, i, ki));
                    } else {
                        assert(cur[m] == rest[m - 1]);
                        lemma_dup_keys_from_entries(keys, i + 1, m - 1);
                    }
                } else {
                    lemma_dup_keys_from_entries(keys, i + 1, m);
                }
            },
            None => {
                lemma_dup_keys_from_entries(keys, i + 1, m);
            },
        }
    }
}

proof fn lemma_dup_keys_from_distinct(keys: Seq<Option<Seq<char>>>, i: int, a: int, b: int)
    requires
        0 <= i <= keys.len(),
        0 <= a < b < g_dup_keys_from(keys, i).len(),
    ensures
        g_dup_keys_from(keys, i)[a] != g_dup_keys_from(keys, i)[b],
    decreases keys.len() - i,
{
    let cur = g_dup_keys_from(keys, i);
    let rest = g_dup_keys_from(keys, i + 1);
    if i >= keys.len() {
    } else {
        match keys[i] {
            Some(ki) => {
                if g_key_count(keys, ki) >= 2 && !g_seen_before(keys, i, ki) {
                    if a == 0 {
                        assert(cur[0] == ki);
                        assert(cur[b] == rest[b - 1]);
                        lemma_dup_keys_from_entries(keys, i + 1, b - 1);
                        let j = choose|j: int|
                            i + 1 <= j < keys.len() && keys[j] == Some(rest[b - 1])
                                && !g_seen_before(keys, j, rest[b - 1]);
                        if rest[b - 1] == ki {
                            assert(keys[i] == Some(ki) && 0 <= i < j);
                            assert(g_seen_before(keys, j, ki));
                        }
                    } else {
                        assert(cur[a] == rest[a - 1]);
                        assert(cur[b] == rest[b - 1]);
                        lemma_dup_keys_from_distinct(keys, i + 1, a - 1, b - 1);
                    }
                } else {
                    lemma_dup_keys_from_distinct(keys, i + 1, a, b);
                }
            },
            None => {
                lemma_dup_keys_from_distinct(keys, i + 1, a, b);
            },
        }
    }
}

} // verus!
