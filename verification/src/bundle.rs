//! The bundle orchestrator's ordering decision: nested components are
//! signed strictly before the components that embed them. The filesystem
//! walk stays with the caller; this module turns the discovered
//! parent-of relation into a signing order.

use vstd::prelude::*;
use crate::errors::SignError;

verus! {

/// Every declared parent is another component, never the component itself.
pub open spec fn valid_parents(parents: Seq<Option<usize>>) -> bool {
    forall|k: int| 0 <= k < parents.len() ==> ((#[trigger] parents[k]) matches Some(p) ==> p
        < parents.len() && p != k)
}

/// A nesting-depth labeling: roots at depth zero, every component one
/// deeper than its parent, all depths below the component count.
pub open spec fn is_depth_labeling(parents: Seq<Option<usize>>, dep: Seq<int>) -> bool {
    &&& dep.len() == parents.len()
    &&& forall|k: int| 0 <= k < parents.len() ==> {
        &&& 0 <= #[trigger] dep[k] < parents.len()
        &&& (match parents[k] {
            Option::Some(p) => p < parents.len() && dep[k] == dep[p as int] + 1,
            Option::None => dep[k] == 0,
        })
    }
}

/// The parent relation is a forest: some depth labeling witnesses it.
pub open spec fn acyclic(parents: Seq<Option<usize>>) -> bool {
    exists|dep: Seq<int>| is_depth_labeling(parents, dep)
}

/// A signing order over the components: every component exactly once, and
/// each one strictly before the component that embeds it.
pub open spec fn spec_postorder(parents: Seq<Option<usize>>, ord: Seq<usize>) -> bool {
    &&& ord.len() == parents.len()
    &&& forall|i: int| 0 <= i < ord.len() ==> (#[trigger] ord[i]) < parents.len()
    &&& forall|i: int, j: int| 0 <= i < j < ord.len() ==> ord[i] != ord[j]
    &&& forall|i: int, j: int|
        #![trigger ord[i], ord[j]]
        (0 <= i < ord.len() && 0 <= j < ord.len() && (parents[ord[i] as int] matches Some(p)
            && ord[j] == p)) ==> i < j
}

/// Number of components below `upto` whose depth is at least `d`.
pub open spec fn count_depth_ge(dep: Seq<int>, d: int, upto: int) -> int
    decreases upto,
{
    if upto <= 0 {
        0
    } else {
        count_depth_ge(dep, d, upto - 1) + if dep[upto - 1] >= d {
            1int
        } else {
            0int
        }
    }
}

/// Number of components below `upto` whose depth is exactly `d`.
pub open spec fn count_depth_eq(dep: Seq<int>, d: int, upto: int) -> int
    decreases upto,
{
    if upto <= 0 {
        0
    } else {
        count_depth_eq(dep, d, upto - 1) + if dep[upto - 1] == d {
            1int
        } else {
            0int
        }
    }
}

/// Counting at least `d` splits into exactly `d` and at least `d + 1`.
pub proof fn lemma_count_split(dep: Seq<int>, d: int, upto: int)
    ensures
        count_depth_ge(dep, d, upto) == count_depth_ge(dep, d + 1, upto) + count_depth_eq(
            dep,
            d,
            upto,
        ),
    decreases upto,
{
    if upto > 0 {
        lemma_count_split(dep, d, upto - 1);
    }
}

/// Every depth is at least zero, so counting at least zero counts all.
pub proof fn lemma_count_ge_zero(dep: Seq<int>, upto: int)
    requires
        forall|k: int| 0 <= k < upto ==> #[trigger] dep[k] >= 0,
    ensures
        count_depth_ge(dep, 0, upto) == if upto >= 0 {
            upto
        } else {
            0
        },
    decreases upto,
{
    if upto > 0 {
        lemma_count_ge_zero(dep, upto - 1);
    }
}

/// No depth reaches `bound`, so counting at least `bound` counts nothing.
pub proof fn lemma_count_ge_bound(dep: Seq<int>, bound: int, upto: int)
    requires
        forall|k: int| 0 <= k < upto ==> #[trigger] dep[k] < bound,
    ensures
        count_depth_ge(dep, bound, upto) == 0,
    decreases upto,
{
    if upto > 0 {
        lemma_count_ge_bound(dep, bound, upto - 1);
    }
}

/// Plans the signing order of a bundle's components from the parent-of
/// relation: children strictly before the components that embed them
/// (deepest components first). A relation that is not a forest is
/// `InvalidInput`; every forest gets an order.
#[verifier::rlimit(100)]
pub fn plan_order(parents: &Vec<Option<usize>>) -> (r: Result<Vec<usize>, SignError>)
    ensures
        r matches Ok(ord) ==> spec_postorder(parents@, ord@),
        r is Err ==> r == Err::<Vec<usize>, SignError>(SignError::InvalidInput),
        valid_parents(parents@) && acyclic(parents@) ==> r is Ok,
{
    let n = parents.len();
    let mut v: usize = 0;
    while v < n
        invariant
            v <= n,
            n == parents@.len(),
            forall|k: int| 0 <= k < v ==> ((#[trigger] parents@[k]) matches Some(p) ==> p < n && p
                != k),
        decreases n - v,
    {
        match parents[v] {
            Option::Some(p) => {
                if p >= n || p == v {
                    proof {
                        assert(!valid_parents(parents@));
                    }
                    return Err(SignError::InvalidInput);
                }
            },
            Option::None => {},
        }
        v = v + 1;
    }
    let ghost l: Seq<int> = if acyclic(parents@) {
        choose|dep: Seq<int>| is_depth_labeling(parents@, dep)
    } else {
        Seq::empty()
    };
    let mut dep: Vec<usize> = Vec::new();
    let mut done: Vec<bool> = Vec::new();
    let mut f: usize = 0;
    while f < n
        invariant
            f <= n,
            dep@.len() == f,
            done@.len() == f,
            forall|k: int| 0 <= k < f ==> !done@[k],
        decreases n - f,
    {
        dep.push(0);
        done.push(false);
        f = f + 1;
    }
    let mut round: usize = 0;
    while round < n
        invariant
            round <= n,
            n == parents@.len() == dep@.len() == done@.len(),
            valid_parents(parents@),
            acyclic(parents@) ==> is_depth_labeling(parents@, l),
            forall|k: int| 0 <= k < n ==> (#[trigger] done@[k] ==> {
                &&& dep@[k] < n
                &&& (match parents@[k] {
                    Option::Some(p) => done@[p as int] && dep@[k] == dep@[p as int] + 1,
                    Option::None => dep@[k] == 0,
                })
            }),
            acyclic(parents@) ==> forall|k: int| 0 <= k < n ==> (#[trigger] done@[k] ==> dep@[k]
                == l[k]),
            acyclic(parents@) ==> forall|k: int| 0 <= k < n && l[k] < round ==> #[trigger] done@[k],
        decreases n - round,
    {
        let mut k: usize = 0;
        while k < n
            invariant
                k <= n,
                round < n,
                n == parents@.len() == dep@.len() == done@.len(),
                valid_parents(parents@),
                acyclic(parents@) ==> is_depth_labeling(parents@, l),
                forall|t: int| 0 <= t < n ==> (#[trigger] done@[t] ==> {
                    &&& dep@[t] < n
                    &&& (match parents@[t] {
                        Option::Some(p) => done@[p as int] && dep@[t] == dep@[p as int] + 1,
                        Option::None => dep@[t] == 0,
                    })
                }),
                acyclic(parents@) ==> forall|t: int| 0 <= t < n ==> (#[trigger] done@[t] ==> dep@[t]
                    == l[t]),
                acyclic(parents@) ==> forall|t: int| 0 <= t < n && l[t] < round ==> #[trigger] done@[t],
                acyclic(parents@) ==> forall|t: int| 0 <= t < k && l[t] <= round ==> #[trigger] done@[t],
            decreases n - k,
        {
            if !done[k] {
                match parents[k] {
                    Option::None => {
                        dep.set(k, 0);
                        done.set(k, true);
                    },
                    Option::Some(p) => {
                        if done[p] {
                            let dv = dep[p];
                            if dv + 1 >= n {
                                proof {
                                    if acyclic(parents@) {
                                        assert(l[k as int] == l[p as int] + 1);
                                        assert(false);
                                    }
                                }
                                return Err(SignError::InvalidInput);
                            }
                            dep.set(k, dv + 1);
                            done.set(k, true);
                        }
                    },
                }
            }
            k = k + 1;
        }
        round = round + 1;
    }
    let mut c: usize = 0;
    while c < n
        invariant
            c <= n,
            n == parents@.len() == dep@.len() == done@.len(),
            valid_parents(parents@),
            acyclic(parents@) ==> is_depth_labeling(parents@, l),
            forall|t: int| 0 <= t < n ==> (#[trigger] done@[t] ==> {
                &&& dep@[t] < n
                &&& (match parents@[t] {
                    Option::Some(p) => done@[p as int] && dep@[t] == dep@[p as int] + 1,
                    Option::None => dep@[t] == 0,
                })
            }),
            acyclic(parents@) ==> forall|t: int| 0 <= t < n ==> #[trigger] done@[t],
            forall|t: int| 0 <= t < c ==> #[trigger] done@[t],
        decreases n - c,
    {
        if !done[c] {
            proof {
                assert(!acyclic(parents@));
            }
            return Err(SignError::InvalidInput);
        }
        c = c + 1;
    }
    let ghost depi: Seq<int> = dep@.map_values(|x: usize| x as int);
    proof {
        assert forall|t: int| 0 <= t < n implies 0 <= #[trigger] depi[t] < n by {
            assert(done@[t]);
            assert(depi[t] == dep@[t] as int);
        }
        assert forall|t: int| 0 <= t < n implies (match parents@[t] {
            Option::Some(p) => #[trigger] depi[t] == depi[p as int] + 1,
            Option::None => depi[t] == 0,
        }) by {
            assert(done@[t]);
            assert(depi[t] == dep@[t] as int);
            match parents@[t] {
                Option::Some(p) => {
                    assert(done@[p as int]);
                    assert(depi[p as int] == dep@[p as int] as int);
                },
                Option::None => {},
            }
        }
        lemma_count_ge_bound(depi, n as int, n as int);
    }
    let mut ord: Vec<usize> = Vec::new();
    let mut dd: usize = n;
    while dd > 0
        invariant
            dd <= n,
            n == parents@.len() == dep@.len() == done@.len(),
            valid_parents(parents@),
            depi == dep@.map_values(|x: usize| x as int),
            forall|t: int| 0 <= t < n ==> 0 <= #[trigger] depi[t] < n,
            forall|t: int| 0 <= t < n ==> (match parents@[t] {
                Option::Some(p) => #[trigger] depi[t] == depi[p as int] + 1,
                Option::None => depi[t] == 0,
            }),
            ord@.len() == count_depth_ge(depi, dd as int, n as int),
            forall|i: int| 0 <= i < ord@.len() ==> (#[trigger] ord@[i]) < n,
            forall|i: int| 0 <= i < ord@.len() ==> depi[#[trigger] ord@[i] as int] >= dd,
            forall|i: int, j: int|
                #![trigger ord@[i], ord@[j]]
                0 <= i < j < ord@.len() ==> (depi[ord@[i] as int] > depi[ord@[j] as int] || (
                depi[ord@[i] as int] == depi[ord@[j] as int] && ord@[i] < ord@[j])),
        decreases dd,
    {
        let d: usize = dd - 1;
        let mut k: usize = 0;
        while k < n
            invariant
                k <= n,
                d == dd - 1,
                0 < dd <= n,
                n == parents@.len() == dep@.len(),
                depi == dep@.map_values(|x: usize| x as int),
                forall|t: int| 0 <= t < n ==> 0 <= #[trigger] depi[t] < n,
                ord@.len() == count_depth_ge(depi, dd as int, n as int) + count_depth_eq(
                    depi,
                    d as int,
                    k as int,
                ),
                forall|i: int| 0 <= i < ord@.len() ==> (#[trigger] ord@[i]) < n,
                forall|i: int| 0 <= i < ord@.len() ==> depi[#[trigger] ord@[i] as int] >= d,
                forall|i: int| 0 <= i < ord@.len() ==> (depi[#[trigger] ord@[i] as int] > d || ord@[i]
                    < k),
                forall|i: int, j: int|
                    #![trigger ord@[i], ord@[j]]
                    0 <= i < j < ord@.len() ==> (depi[ord@[i] as int] > depi[ord@[j] as int] || (
                    depi[ord@[i] as int] == depi[ord@[j] as int] && ord@[i] < ord@[j])),
            decreases n - k,
        {
            if dep[k] == d {
                ord.push(k);
            }
            k = k + 1;
        }
        proof {
            lemma_count_split(depi, d as int, n as int);
        }
        dd = d;
    }
    proof {
        assert(forall|t: int| 0 <= t < n ==> #[trigger] depi[t] >= 0);
        lemma_count_ge_zero(depi, n as int);
        assert(ord@.len() == n);
        assert forall|i: int, j: int|
            #![trigger ord@[i], ord@[j]]
            (0 <= i < ord@.len() && 0 <= j < ord@.len() && (parents@[ord@[i] as int] matches Some(
                p,
            ) && ord@[j] == p)) implies i < j by {
            assert(depi[ord@[i] as int] == depi[ord@[j] as int] + 1);
            if i > j {
                assert(depi[ord@[j] as int] > depi[ord@[i] as int] || (depi[ord@[j] as int]
                    == depi[ord@[i] as int] && ord@[j] < ord@[i]));
                assert(false);
            }
            if i == j {
                assert(false);
            }
        }
        assert(spec_postorder(parents@, ord@));
    }
    Ok(ord)
}

} // verus!
