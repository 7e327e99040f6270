use vstd::prelude::*;
use crate::package::{
    Package, PackageModel, pkg_lt, lemma_pkg_lt_connected, lemma_pkg_lt_transitive,
    lemma_pkg_lt_asymmetric,
};

verus! {

/// The models of a sequence of packages, element by element.
pub open spec fn models_of(s: Seq<Package>) -> Seq<PackageModel> {
    s.map_values(|p: Package| p@)
}

/// Strictly ascending in the `(repo, name)` order; this also rules out
/// duplicates, so such a sequence carries set semantics.
pub open spec fn strictly_sorted(s: Seq<PackageModel>) -> bool {
    forall|i: int, j: int| 0 <= i < j < s.len() ==> pkg_lt(s[i], s[j])
}

/// `r` is exactly the set difference `from − minus`, strictly sorted by
/// `(repo, name)`.
pub open spec fn is_sorted_difference(
    r: Seq<PackageModel>,
    from: Seq<PackageModel>,
    minus: Seq<PackageModel>,
) -> bool {
    &&& strictly_sorted(r)
    &&& forall|q: PackageModel| r.contains(q) <==> from.contains(q) && !minus.contains(q)
}

/// Whether `v` holds a package equal (as a `(repo, name)` pair) to `p`.
pub fn contains_pkg(v: &Vec<Package>, p: &Package) -> (r: bool)
    ensures
        r == models_of(v@).contains(p@),
{
    let mut i: usize = 0;
    while i < v.len()
        invariant
            0 <= i <= v@.len(),
            forall|k: int| 0 <= k < i ==> models_of(v@)[k] != p@,
        decreases v@.len() - i,
    {
        let cur = &v[i];
        if cur.same_as(p) {
            proof {
                assert(models_of(v@)[i as int] == p@);
            }
            return true;
        }
        i += 1;
    }
    proof {
        if models_of(v@).contains(p@) {
            let k = choose|k: int|
                0 <= k < models_of(v@).len() && models_of(v@)[k] == p@;
            assert(models_of(v@)[k] != p@);
        }
    }
    false
}

pub proof fn lemma_models_push(before: Seq<Package>, x: Package)
    ensures
        models_of(before.push(x)) == models_of(before).push(x@),
{
    assert(models_of(before.push(x)) =~= models_of(before).push(x@)) by {
        assert forall|t: int| 0 <= t < before.len() + 1 implies models_of(before.push(x))[t]
            == models_of(before).push(x@)[t] by {
            if t < before.len() {
                assert(before.push(x)[t] == before[t]);
            } else {
                assert(before.push(x)[t] == x);
            }
        }
    }
}

pub proof fn lemma_models_concat(a: Seq<Package>, b: Seq<Package>)
    ensures
        models_of(a + b) == models_of(a) + models_of(b),
{
    assert(models_of(a + b) =~= models_of(a) + models_of(b)) by {
        assert forall|t: int| 0 <= t < a.len() + b.len() implies models_of(a + b)[t]
            == (models_of(a) + models_of(b))[t] by {
            if t < a.len() {
                assert((a + b)[t] == a[t]);
            } else {
                assert((a + b)[t] == b[t - a.len()]);
            }
        }
    }
}

/// Append a copy of every package in `src` to `dst`, in order.
pub fn append_clones(dst: &mut Vec<Package>, src: &Vec<Package>)
    ensures
        models_of(final(dst)@) == models_of(old(dst)@) + models_of(src@),
{
    proof {
        assert(models_of(dst@) =~= models_of(dst@) + models_of(src@.take(0)));
    }
    let mut k: usize = 0;
    while k < src.len()
        invariant
            0 <= k <= src@.len(),
            models_of(dst@) == models_of(old(dst)@) + models_of(src@.take(k as int)),
        decreases src@.len() - k,
    {
        let p = &src[k];
        let c = p.clone();
        let ghost cm = c@;
        let ghost dst_before = dst@;
        dst.push(c);
        proof {
            assert(models_of(dst@) =~= models_of(dst_before).push(cm)) by {
                assert forall|t: int| 0 <= t < dst@.len() implies models_of(dst@)[t]
                    == models_of(dst_before).push(cm)[t] by {
                    if t < dst_before.len() {
                        assert(dst@[t] == dst_before[t]);
                    } else {
                        assert(models_of(dst@)[t] == cm);
                    }
                }
            }
            assert(models_of(src@.take(k as int + 1)) =~= models_of(src@.take(k as int)).push(
                src@[k as int]@,
            ));
            assert(cm == src@[k as int]@);
            assert(models_of(dst@) =~= models_of(old(dst)@) + models_of(src@.take(k as int + 1)));
        }
        k += 1;
    }
    proof {
        assert(src@.take(src@.len() as int) =~= src@);
    }
}

/// The position where `p` belongs in the sorted vector `v`: everything before
/// it is strictly smaller, and the element at it (if any) is not smaller.
fn insertion_index(v: &Vec<Package>, p: &Package) -> (i: usize)
    ensures
        i <= v@.len(),
        forall|k: int| 0 <= k < i ==> pkg_lt(models_of(v@)[k], p@),
        i < v@.len() ==> !pkg_lt(models_of(v@)[i as int], p@),
{
    let mut i: usize = 0;
    while i < v.len()
        invariant
            0 <= i <= v@.len(),
            forall|k: int| 0 <= k < i ==> pkg_lt(models_of(v@)[k], p@),
        decreases v@.len() - i,
    {
        let cur = &v[i];
        if !cur.comes_before(p) {
            proof {
                assert(models_of(v@)[i as int] == cur@);
            }
            return i;
        }
        proof {
            assert(models_of(v@)[i as int] == cur@);
        }
        i += 1;
    }
    i
}

/// Insert `p` into the strictly sorted vector `v`, keeping it strictly sorted.
fn insert_sorted(v: &mut Vec<Package>, p: Package)
    requires
        strictly_sorted(models_of(old(v)@)),
        !models_of(old(v)@).contains(p@),
    ensures
        strictly_sorted(models_of(final(v)@)),
        forall|q: PackageModel|
            models_of(final(v)@).contains(q) <==> (models_of(old(v)@).contains(q) || q == p@),
{
    let i = insertion_index(v, &p);
    let ghost oldm = models_of(v@);
    let ghost pm = p@;
    proof {
        // Everything at or after the insertion point is strictly greater than p.
        assert forall|k: int| i <= k < oldm.len() implies pkg_lt(pm, oldm[k]) by {
            if !pkg_lt(pm, oldm[i as int]) {
                lemma_pkg_lt_connected(oldm[i as int], pm);
                assert(oldm.contains(pm));
            }
            if k > i {
                lemma_pkg_lt_transitive(pm, oldm[i as int], oldm[k]);
            }
        }
    }
    v.insert(i, p);
    proof {
        let newm = models_of(v@);
        oldm.insert_ensures(i as int, pm);
        assert(newm =~= oldm.insert(i as int, pm)) by {
            assert(v@ == old(v)@.insert(i as int, p));
            old(v)@.insert_ensures(i as int, p);
            assert forall|k: int| 0 <= k < newm.len() implies
                newm[k] == oldm.insert(i as int, pm)[k] by {
                if k < i {
                    assert(v@[k] == old(v)@[k]);
                } else if k == i {
                    assert(v@[k] == p);
                } else {
                    assert(v@[k] == old(v)@[k - 1]);
                    assert(oldm.insert(i as int, pm)[(k - 1) + 1] == oldm[k - 1]);
                }
            }
        }
        assert(strictly_sorted(newm)) by {
            assert forall|x: int, y: int| 0 <= x < y < newm.len() implies
                pkg_lt(newm[x], newm[y]) by {
                if y < i {
                } else if x == i {
                    assert(newm[x] == pm);
                    assert(newm[y] == oldm[y - 1]);
                } else if y == i {
                    assert(newm[x] == oldm[x]);
                    assert(newm[y] == pm);
                } else if x < i && y > i {
                    assert(newm[x] == oldm[x]);
                    assert(newm[y] == oldm[y - 1]);
                    if x == y - 1 {
                        assert(pkg_lt(oldm[x], pm));
                        lemma_pkg_lt_transitive(oldm[x], pm, oldm[y - 1]);
                    }
                } else {
                    assert(newm[x] == oldm[x - 1]);
                    assert(newm[y] == oldm[y - 1]);
                }
            }
        }
        assert forall|q: PackageModel|
            newm.contains(q) <==> (oldm.contains(q) || q == pm) by {
            if newm.contains(q) {
                let k = choose|k: int| 0 <= k < newm.len() && newm[k] == q;
                if k < i {
                    assert(oldm[k] == q);
                } else if k > i {
                    assert(oldm[k - 1] == q);
                }
            }
            if oldm.contains(q) {
                let k = choose|k: int| 0 <= k < oldm.len() && oldm[k] == q;
                if k < i {
                    assert(newm[k] == q);
                } else {
                    assert(newm[k + 1] == q);
                }
            }
            if q == pm {
                assert(newm[i as int] == q);
            }
        }
    }
}

/// The set difference `from − minus`, returned strictly sorted by
/// `(repo, name)` and without duplicates.
pub fn sorted_difference(from: &Vec<Package>, minus: &Vec<Package>) -> (r: Vec<Package>)
    ensures
        is_sorted_difference(models_of(r@), models_of(from@), models_of(minus@)),
{
    let mut r: Vec<Package> = Vec::new();
    let ghost fromm = models_of(from@);
    let ghost minusm = models_of(minus@);
    let mut i: usize = 0;
    proof {
        assert(models_of(r@) =~= Seq::<PackageModel>::empty());
    }
    while i < from.len()
        invariant
            0 <= i <= from@.len(),
            fromm == models_of(from@),
            minusm == models_of(minus@),
            strictly_sorted(models_of(r@)),
            forall|q: PackageModel| #![trigger models_of(r@).contains(q)]
                models_of(r@).contains(q) <==> (fromm.take(i as int).contains(q)
                    && !minusm.contains(q)),
        decreases from@.len() - i,
    {
        let cur = &from[i];
        proof {
            assert(fromm[i as int] == cur@);
        }
        let in_minus = contains_pkg(minus, cur);
        let in_r = contains_pkg(&r, cur);
        let ghost r_before = models_of(r@);
        proof {
            assert forall|q: PackageModel|
                r_before.contains(q) <==> (fromm.take(i as int).contains(q)
                    && !minusm.contains(q)) by {
                assert(models_of(r@).contains(q) <==> (fromm.take(i as int).contains(q)
                    && !minusm.contains(q)));
            }
        }
        if !in_minus && !in_r {
            insert_sorted(&mut r, cur.clone());
            proof {
                assert forall|q: PackageModel|
                    models_of(r@).contains(q) <==> (r_before.contains(q) || q == cur@) by {
                    assert(models_of(r@).contains(q) <==> (r_before.contains(q)
                        || q == cur@));
                }
            }
        } else {
            proof {
                assert(models_of(r@) == r_before);
                if in_r {
                    assert(r_before.contains(cur@));
                    assert(!minusm.contains(cur@));
                }
            }
        }
        proof {
            let tk = fromm.take(i as int + 1);
            assert forall|q: PackageModel|
                models_of(r@).contains(q) <==> (tk.contains(q) && !minusm.contains(q)) by {
                assert(r_before.contains(q) <==> (fromm.take(i as int).contains(q)
                    && !minusm.contains(q)));
                if tk.contains(q) {
                    let k = choose|k: int| 0 <= k < tk.len() && tk[k] == q;
                    if k < i {
                        assert(fromm.take(i as int)[k] == q);
                        assert(fromm.take(i as int).contains(q));
                    } else {
                        assert(q == cur@);
                    }
                }
                if fromm.take(i as int).contains(q) {
                    assert(tk.contains(q)) by {
                        let k = choose|k: int|
                            0 <= k < i && fromm.take(i as int)[k] == q;
                        assert(tk[k] == q);
                    }
                }
                if q == cur@ {
                    assert(tk[i as int] == q);
                }
            }
        }
        i += 1;
    }
    proof {
        assert(fromm.take(from@.len() as int) =~= fromm);
    }
    r
}

/// Two strictly sorted sequences holding the same set of packages are equal.
pub proof fn lemma_sorted_unique(s1: Seq<PackageModel>, s2: Seq<PackageModel>)
    requires
        strictly_sorted(s1),
        strictly_sorted(s2),
        forall|q: PackageModel| s1.contains(q) <==> s2.contains(q),
    ensures
        s1 == s2,
    decreases s1.len(),
{
    if s1.len() == 0 {
        if s2.len() > 0 {
            assert(s2.contains(s2[0]));
        }
        assert(s1 =~= s2);
    } else if s2.len() == 0 {
        assert(s1.contains(s1[0]));
    } else {
        assert(s1[0] == s2[0]) by {
            assert(s1.contains(s1[0]));
            assert(s2.contains(s2[0]));
            if s1[0] != s2[0] {
                let k1 = choose|k: int| 0 <= k < s2.len() && s2[k] == s1[0];
                let k2 = choose|k: int| 0 <= k < s1.len() && s1[k] == s2[0];
                if k1 > 0 {
                    assert(pkg_lt(s2[0], s1[0]));
                }
                if k2 > 0 {
                    assert(pkg_lt(s1[0], s2[0]));
                }
                if k1 > 0 && k2 > 0 {
                    lemma_pkg_lt_asymmetric(s1[0], s2[0]);
                }
            }
        }
        let t1 = s1.skip(1);
        let t2 = s2.skip(1);
        assert forall|q: PackageModel| t1.contains(q) <==> t2.contains(q) by {
            lemma_tail_membership(s1, q);
            lemma_tail_membership(s2, q);
        }
        assert(strictly_sorted(t1)) by {
            assert forall|i: int, j: int| 0 <= i < j < t1.len() implies pkg_lt(t1[i], t1[j]) by {
                assert(t1[i] == s1[i + 1]);
                assert(t1[j] == s1[j + 1]);
            }
        }
        assert(strictly_sorted(t2)) by {
            assert forall|i: int, j: int| 0 <= i < j < t2.len() implies pkg_lt(t2[i], t2[j]) by {
                assert(t2[i] == s2[i + 1]);
                assert(t2[j] == s2[j + 1]);
            }
        }
        lemma_sorted_unique(t1, t2);
        assert(s1 =~= s2) by {
            assert(forall|k: int| 1 <= k < s1.len() ==> s1[k] == t1[k - 1]);
            assert(forall|k: int| 1 <= k < s2.len() ==> s2[k] == t2[k - 1]);
        }
    }
}

/// In a strictly sorted sequence, the tail holds exactly the members other
/// than the head.
proof fn lemma_tail_membership(s: Seq<PackageModel>, q: PackageModel)
    requires
        strictly_sorted(s),
        s.len() > 0,
    ensures
        s.skip(1).contains(q) <==> (s.contains(q) && q != s[0]),
{
    let t = s.skip(1);
    if t.contains(q) {
        let k = choose|k: int| 0 <= k < t.len() && t[k] == q;
        assert(s[k + 1] == q);
        assert(pkg_lt(s[0], s[k + 1]));
        lemma_pkg_lt_asymmetric(s[0], q);
        if q == s[0] {
            assert(pkg_lt(q, q));
        }
    }
    if s.contains(q) && q != s[0] {
        let k = choose|k: int| 0 <= k < s.len() && s[k] == q;
        assert(k > 0);
        assert(t[k - 1] == q);
    }
}

/// Recomputing a diff on the same declared and installed snapshots yields an
/// identical result: the sorted difference is uniquely determined.
pub proof fn lemma_diff_deterministic(
    r1: Seq<PackageModel>,
    r2: Seq<PackageModel>,
    from: Seq<PackageModel>,
    minus: Seq<PackageModel>,
)
    requires
        is_sorted_difference(r1, from, minus),
        is_sorted_difference(r2, from, minus),
    ensures
        r1 == r2,
{
    lemma_sorted_unique(r1, r2);
}

/// Installing everything in a `missing` diff makes the installed set a
/// superset of the old diff, and leaves nothing missing: if `after` holds
/// everything from `before` plus everything from the diff, every previously
/// missing package is now installed, and the recomputed diff is empty.
pub proof fn lemma_install_round_trip(
    missing: Seq<PackageModel>,
    declared: Seq<PackageModel>,
    before: Seq<PackageModel>,
    after: Seq<PackageModel>,
)
    requires
        is_sorted_difference(missing, declared, before),
        forall|q: PackageModel| before.contains(q) || missing.contains(q) ==> after.contains(q),
    ensures
        forall|q: PackageModel| missing.contains(q) ==> after.contains(q),
        forall|r2: Seq<PackageModel>|
            is_sorted_difference(r2, declared, after) ==> r2 == Seq::<PackageModel>::empty(),
{
    assert forall|r2: Seq<PackageModel>|
        is_sorted_difference(r2, declared, after) implies r2 == Seq::<PackageModel>::empty() by {
        if r2.len() > 0 {
            assert(r2.contains(r2[0]));
            assert(declared.contains(r2[0]) && !after.contains(r2[0]));
            if before.contains(r2[0]) {
                assert(after.contains(r2[0]));
            } else {
                assert(missing.contains(r2[0]));
            }
        }
        assert(r2 =~= Seq::<PackageModel>::empty());
    }
}

} // verus!
