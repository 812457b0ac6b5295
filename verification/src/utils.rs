//! Package-root location: given a base directory, the candidate package
//! roots across the supported installation layouts, filtered by the
//! caller's existence probes, de-duplicated, order preserved.

use vstd::prelude::*;

use crate::fspath::FsPath;

verus! {

/// Whether `v` holds the path `p`.
pub open spec fn g_has_path(v: Seq<Seq<Seq<char>>>, p: Seq<Seq<char>>) -> bool {
    exists|i: int| 0 <= i < v.len() && v[i] == p
}

/// `v` with later repetitions of a path removed, first occurrences kept
/// in order.
pub open spec fn g_dedup(v: Seq<Seq<Seq<char>>>) -> Seq<Seq<Seq<char>>>
    decreases v.len(),
{
    if v.len() == 0 {
        Seq::empty()
    } else {
        let r = g_dedup(v.drop_last());
        if g_has_path(r, v.last()) {
            r
        } else {
            r.push(v.last())
        }
    }
}

/// The app-bundle candidate root under `base`.
pub open spec fn g_bundle_candidate(base: Seq<Seq<char>>) -> Seq<Seq<char>> {
    base.push("RunningWithRifles.app"@).push("Contents"@).push("Resources"@).push("media"@).push(
        "packages"@,
    )
}

/// The `media/packages` candidate root under `base`.
pub open spec fn g_media_candidate(base: Seq<Seq<char>>) -> Seq<Seq<char>> {
    base.push("media"@).push("packages"@)
}

/// The direct `packages` candidate root under `base`.
pub open spec fn g_direct_candidate(base: Seq<Seq<char>>) -> Seq<Seq<char>> {
    base.push("packages"@)
}

/// The package roots resolved for `base` against the set of paths the
/// caller found to exist: `base` itself when it already is the packages
/// folder; otherwise exactly the existing candidates in priority order
/// (app bundle, `media/packages`, direct `packages`), de-duplicated.
/// When no candidate exists the list is empty: reporting that no root
/// was found is the scan orchestrator's job, not the locator's.
pub open spec fn g_resolve_packages_dirs(
    base: Seq<Seq<char>>,
    existing: Seq<Seq<Seq<char>>>,
) -> Seq<Seq<Seq<char>>> {
    if base.len() > 0 && base.last() == "packages"@ {
        seq![base]
    } else {
        let c1 = g_bundle_candidate(base);
        let c2 = g_media_candidate(base);
        let c3 = g_direct_candidate(base);
        g_dedup(
            (if g_has_path(existing, c1) {
                seq![c1]
            } else {
                Seq::empty()
            }) + (if g_has_path(existing, c2) {
                seq![c2]
            } else {
                Seq::empty()
            }) + (if g_has_path(existing, c3) {
                seq![c3]
            } else {
                Seq::empty()
            }),
        )
    }
}

/// Whether `v` (as a vector of paths) holds `p`.
fn vec_has_path(v: &Vec<FsPath>, p: &FsPath) -> (r: bool)
    ensures
        r == g_has_path(v@.map_values(|q: FsPath| q@), p@),
{
    let ghost gv = v@.map_values(|q: FsPath| q@);
    let mut i: usize = 0;
    while i < v.len()
        invariant
            i <= v.len(),
            gv == v@.map_values(|q: FsPath| q@),
            gv.len() == v@.len(),
            forall|j: int| 0 <= j < i ==> gv[j] != p@,
        decreases v.len() - i,
    {
        if v[i].eq_path(p) {
            proof {
                assert(gv[i as int] == p@);
            }
            return true;
        }
        i = i + 1;
    }
    false
}

/// Appends `p` to `out` unless an equal path is already there.
pub(crate) fn push_dedup(out: &mut Vec<FsPath>, p: FsPath)
    ensures
        final(out)@.map_values(|q: FsPath| q@) == (if g_has_path(
            old(out)@.map_values(|q: FsPath| q@),
            p@,
        ) {
            old(out)@.map_values(|q: FsPath| q@)
        } else {
            old(out)@.map_values(|q: FsPath| q@).push(p@)
        }),
{
    let ghost m0 = out@.map_values(|q: FsPath| q@);
    if !vec_has_path(out, &p) {
        out.push(p);
        proof {
            assert(out@.map_values(|q: FsPath| q@) =~= m0.push(out@.last()@));
        }
    }
}

/// Resolves the package roots for `base`. `existing` names the paths the
/// caller found to exist on disk; the result is exactly the existing
/// candidates in priority order, de-duplicated with first-seen order
/// kept, and empty when no candidate exists.
pub fn resolve_packages_dirs(base: &FsPath, existing: &Vec<FsPath>) -> (r: Vec<FsPath>)
    ensures
        r@.map_values(|q: FsPath| q@) == g_resolve_packages_dirs(
            base@,
            existing@.map_values(|q: FsPath| q@),
        ),
{
    let ghost gex = existing@.map_values(|q: FsPath| q@);
    if base.ends_with_seg("packages") {
        let mut r: Vec<FsPath> = Vec::new();
        r.push(base.duplicate());
        proof {
            assert(r@.map_values(|q: FsPath| q@) =~= seq![base@]);
        }
        return r;
    }
    let bundle = base.child("RunningWithRifles.app").child("Contents").child("Resources").child(
        "media",
    ).child("packages");
    let media = base.child("media").child("packages");
    let direct = base.child("packages");
    let mut picked: Vec<FsPath> = Vec::new();
    proof {
        assert(picked@.map_values(|q: FsPath| q@) =~= Seq::<Seq<Seq<char>>>::empty());
    }
    let ghost c1 = g_bundle_candidate(base@);
    let ghost c2 = g_media_candidate(base@);
    let ghost c3 = g_direct_candidate(base@);
    if vec_has_path(existing, &bundle) {
        picked.push(bundle);
        proof {
            assert(picked@.map_values(|q: FsPath| q@) =~= seq![c1]);
        }
    }
    let ghost p1 = picked@.map_values(|q: FsPath| q@);
    if vec_has_path(existing, &media) {
        let ghost m0 = picked@.map_values(|q: FsPath| q@);
        picked.push(media);
        proof {
            assert(picked@.map_values(|q: FsPath| q@) =~= m0.push(c2));
        }
    }
    let ghost p2 = picked@.map_values(|q: FsPath| q@);
    if vec_has_path(existing, &direct) {
        let ghost m0 = picked@.map_values(|q: FsPath| q@);
        picked.push(direct);
        proof {
            assert(picked@.map_values(|q: FsPath| q@) =~= m0.push(c3));
        }
    }
    // de-duplicate while keeping first-seen order
    let mut out: Vec<FsPath> = Vec::new();
    let mut i: usize = 0;
    let ghost gpicked = picked@.map_values(|q: FsPath| q@);
    proof {
        assert(gpicked.subrange(0, 0) =~= Seq::<Seq<Seq<char>>>::empty());
        assert(out@.map_values(|q: FsPath| q@) =~= g_dedup(gpicked.subrange(0, 0)));
    }
    while i < picked.len()
        invariant
            i <= picked.len(),
            gpicked == picked@.map_values(|q: FsPath| q@),
            gpicked.len() == picked@.len(),
            out@.map_values(|q: FsPath| q@) == g_dedup(gpicked.subrange(0, i as int)),
        decreases picked.len() - i,
    {
        let ghost pre = gpicked.subrange(0, i as int);
        let ghost post = gpicked.subrange(0, i as int + 1);
        proof {
            assert(post.drop_last() =~= pre);
            assert(post.last() == gpicked[i as int]);
        }
        push_dedup(&mut out, picked[i].duplicate());
        i = i + 1;
    }
    proof {
        assert(gpicked.subrange(0, gpicked.len() as int) =~= gpicked);
        // the spec's dedup runs over the same picked sequence
        assert(gpicked =~= (if g_has_path(gex, c1) {
            seq![c1]
        } else {
            Seq::<Seq<Seq<char>>>::empty()
        }) + (if g_has_path(gex, c2) {
            seq![c2]
        } else {
            Seq::<Seq<Seq<char>>>::empty()
        }) + (if g_has_path(gex, c3) {
            seq![c3]
        } else {
            Seq::<Seq<Seq<char>>>::empty()
        }));
    }
    out
}

/// The de-duplicated list has no repeated member.
pub proof fn lemma_dedup_distinct(v: Seq<Seq<Seq<char>>>, a: int, b: int)
    requires
        0 <= a < b < g_dedup(v).len(),
    ensures
        g_dedup(v)[a] != g_dedup(v)[b],
    decreases v.len(),
{
    if v.len() > 0 {
        let r = g_dedup(v.drop_last());
        if g_has_path(r, v.last()) {
            lemma_dedup_distinct(v.drop_last(), a, b);
        } else {
            if b < r.len() {
                lemma_dedup_distinct(v.drop_last(), a, b);
            } else {
                assert(g_dedup(v)[b] == v.last());
                assert(g_dedup(v)[a] == r[a]);
                assert(g_has_path(r, r[a]));
            }
        }
    }
}

/// A path is in the de-duplicated list exactly when it was in the
/// original list.
pub proof fn lemma_dedup_members(v: Seq<Seq<Seq<char>>>, p: Seq<Seq<char>>)
    ensures
        g_has_path(g_dedup(v), p) <==> g_has_path(v, p),
    decreases v.len(),
{
    if v.len() > 0 {
        lemma_dedup_members(v.drop_last(), p);
        let r = g_dedup(v.drop_last());
        if g_has_path(v, p) {
            let i = choose|i: int| 0 <= i < v.len() && v[i] == p;
            if i < v.len() - 1 {
                assert(v.drop_last()[i] == p);
                assert(g_has_path(v.drop_last(), p));
                if g_has_path(r, v.last()) {
                } else {
                    let j = choose|j: int| 0 <= j < r.len() && r[j] == p;
                    assert(g_dedup(v)[j] == p);
                }
            } else {
                if g_has_path(r, v.last()) {
                } else {
                    assert(g_dedup(v).last() == p);
                }
            }
        }
        if g_has_path(g_dedup(v), p) {
            if g_has_path(r, v.last()) {
            } else {
                let j = choose|j: int| 0 <= j < g_dedup(v).len() && g_dedup(v)[j] == p;
                if j < r.len() {
                    assert(g_has_path(r, p));
                } else {
                    assert(p == v.last());
                    assert(v[v.len() - 1] == p);
                }
            }
        }
    }
}

/// Root location over a synthetic tree: when the base is not itself the
/// packages folder, the resolved list has no repeated member, and its
/// members are exactly the candidate paths that exist (so it is empty
/// when none does).
pub proof fn lemma_root_locator(base: Seq<Seq<char>>, existing: Seq<Seq<Seq<char>>>)
    requires
        !(base.len() > 0 && base.last() == "packages"@),
    ensures
        forall|a: int, b: int|
            0 <= a < b < g_resolve_packages_dirs(base, existing).len()
                ==> g_resolve_packages_dirs(base, existing)[a] != g_resolve_packages_dirs(
                base,
                existing,
            )[b],
        forall|p: Seq<Seq<char>>|
            g_has_path(g_resolve_packages_dirs(base, existing), p) <==> ((p == g_bundle_candidate(
                base,
            ) || p == g_media_candidate(base) || p == g_direct_candidate(base)) && g_has_path(
                existing,
                p,
            )),
{
    let c1 = g_bundle_candidate(base);
    let c2 = g_media_candidate(base);
    let c3 = g_direct_candidate(base);
    let picked = (if g_has_path(existing, c1) {
        seq![c1]
    } else {
        Seq::<Seq<Seq<char>>>::empty()
    }) + (if g_has_path(existing, c2) {
        seq![c2]
    } else {
        Seq::<Seq<Seq<char>>>::empty()
    }) + (if g_has_path(existing, c3) {
        seq![c3]
    } else {
        Seq::<Seq<Seq<char>>>::empty()
    });
    let out = g_resolve_packages_dirs(base, existing);
    assert(out == g_dedup(picked));
    assert forall|a: int, b: int| 0 <= a < b < out.len() implies out[a] != out[b] by {
        lemma_dedup_distinct(picked, a, b);
    }
    assert forall|p: Seq<Seq<char>>|
        g_has_path(out, p) <==> ((p == c1 || p == c2 || p == c3) && g_has_path(existing, p)) by {
        lemma_dedup_members(picked, p);
        if g_has_path(picked, p) {
            let i = choose|i: int| 0 <= i < picked.len() && picked[i] == p;
            assert(p == c1 || p == c2 || p == c3);
            assert(g_has_path(existing, p));
        }
        if (p == c1 || p == c2 || p == c3) && g_has_path(existing, p) {
            let n1: int = if g_has_path(existing, c1) {
                1
            } else {
                0
            };
            let n2: int = if g_has_path(existing, c2) {
                1
            } else {
                0
            };
            if p == c1 {
                assert(picked[0] == c1);
            } else if p == c2 {
                assert(picked[n1] == c2);
            } else {
                assert(picked[n1 + n2] == c3);
            }
            assert(g_has_path(picked, p));
        }
    }
}

} // verus!
