//! Max-clique inlier selection: what surrounds the search itself.
//!
//! The search for a maximum clique of the compatibility graph is an outside
//! engine. Decided here are the number of threads it is given and what
//! becomes of the vertices it reports: the inlier list is the sorted list
//! of the distinct reported vertices that are indices of correspondences.

use vstd::prelude::*;

verus! {

/// The number of logical cores that `num_cpus::get` reports for this
/// machine. The number depends on the machine and on the limits the process
/// runs under; all that is claimed of it is what the documentation of
/// `num_cpus::get` promises, that it is at least one.
#[verifier::external_body]
fn logical_cores() -> (cores: usize)
    ensures
        cores >= 1,
{
    num_cpus::get()
}

/// The thread count for `cores` logical cores: one thread per core, as far
/// as the engine's counter reaches.
pub open spec fn thread_count_of(cores: int) -> int {
    if cores > i32::MAX {
        i32::MAX as int
    } else {
        cores
    }
}

/// The number of threads to run the engine with on a machine with `cores` logical cores.
pub fn thread_count_for(cores: usize) -> (threads: i32)
    ensures
        threads == thread_count_of(cores as int),
{
    if cores > i32::MAX as usize {
        i32::MAX
    } else {
        cores as i32
    }
}

/// The number of threads to run the engine with on this machine: one per
/// logical core, and so at least one.
pub fn pmc_thread_count() -> (threads: i32)
    ensures
        threads >= 1,
{
    thread_count_for(logical_cores())
}

/// `list` is strictly increasing.
pub open spec fn strictly_increasing(list: Seq<usize>) -> bool {
    forall|a: int, b: int| 0 <= a < b < list.len() ==> list[a] < list[b]
}

/// `v` is among the reported vertices.
pub open spec fn reported(clique: Seq<i32>, v: int) -> bool {
    exists|j: int| 0 <= j < clique.len() && #[trigger] clique[j] == v
}

/// `list` is the inlier list of the reported vertices `clique` among `n`
/// correspondences: strictly increasing, and holding exactly the reported
/// vertices that lie in `[0, n)`.
pub open spec fn is_inlier_list(list: Seq<usize>, n: int, clique: Seq<i32>) -> bool {
    &&& strictly_increasing(list)
    &&& forall|k: int| 0 <= k < list.len() ==> 0 <= #[trigger] list[k] < n
    &&& forall|k: int| 0 <= k < list.len() ==> reported(clique, #[trigger] list[k] as int)
    &&& forall|v: int| 0 <= v < n && reported(clique, v) ==> #[trigger] list.contains(v as usize)
}

/// A strictly increasing list that holds every value below `bound` of a
/// second one is at least as long up to that bound: position by position,
/// it has not run ahead.
proof fn lemma_prefix_agree(a: Seq<usize>, b: Seq<usize>, k: int)
    requires
        strictly_increasing(a),
        strictly_increasing(b),
        forall|i: int| 0 <= i < a.len() ==> b.contains(#[trigger] a[i]),
        forall|i: int| 0 <= i < b.len() ==> a.contains(#[trigger] b[i]),
        0 <= k <= a.len(),
    ensures
        k <= b.len(),
        forall|i: int| 0 <= i < k ==> a[i] == b[i],
    decreases k,
{
    if k > 0 {
        lemma_prefix_agree(a, b, k - 1);
        let p = k - 1;
        // a[p] occurs in b at some position q; it cannot be before p, since
        // those positions hold a[0..p], which are all smaller.
        assert(b.contains(a[p]));
        let q = choose|q: int| 0 <= q < b.len() && b[q] == a[p];
        if q < p {
            assert(a[q] == b[q]);
            assert(a[q] < a[p]);
        }
        assert(p < b.len());
        // b[p] occurs in a at some position r >= p.
        assert(a.contains(b[p]));
        let r = choose|r: int| 0 <= r < a.len() && a[r] == b[p];
        if r < p {
            assert(a[r] == b[r]);
            assert(b[r] < b[p]);
        }
        if q > p {
            assert(b[p] < b[q]);
            if r > p {
                assert(a[p] < a[r]);
            }
        }
    }
}

/// The inlier list of given reported vertices is unique.
pub proof fn lemma_inlier_list_unique(a: Seq<usize>, b: Seq<usize>, n: int, clique: Seq<i32>)
    requires
        is_inlier_list(a, n, clique),
        is_inlier_list(b, n, clique),
    ensures
        a == b,
{
    assert forall|i: int| 0 <= i < a.len() implies b.contains(#[trigger] a[i]) by {
        assert(reported(clique, a[i] as int));
        assert(b.contains((a[i] as int) as usize));
    }
    assert forall|i: int| 0 <= i < b.len() implies a.contains(#[trigger] b[i]) by {
        assert(reported(clique, b[i] as int));
        assert(a.contains((b[i] as int) as usize));
    }
    lemma_prefix_agree(a, b, a.len() as int);
    lemma_prefix_agree(b, a, b.len() as int);
    assert(a =~= b);
}

/// When every two distinct reported vertices are compatible, so are every
/// two listed inliers: the inlier list of a clique is a clique, and it lies
/// within the indices of the correspondences.
pub proof fn lemma_inliers_of_a_clique(
    list: Seq<usize>,
    n: int,
    clique: Seq<i32>,
    compatible: spec_fn(int, int) -> bool,
)
    requires
        is_inlier_list(list, n, clique),
        forall|p: int, q: int|
            0 <= p < clique.len() && 0 <= q < clique.len() && clique[p] != clique[q]
                ==> #[trigger] compatible(clique[p] as int, clique[q] as int),
    ensures
        forall|a: int, b: int|
            0 <= a < b < list.len() ==> #[trigger] compatible(list[a] as int, list[b] as int),
        forall|a: int| 0 <= a < list.len() ==> 0 <= #[trigger] list[a] < n,
{
    assert forall|a: int, b: int| 0 <= a < b < list.len() implies #[trigger] compatible(
        list[a] as int,
        list[b] as int,
    ) by {
        assert(reported(clique, list[a] as int));
        assert(reported(clique, list[b] as int));
        let p = choose|p: int| 0 <= p < clique.len() && #[trigger] clique[p] == list[a] as int;
        let q = choose|q: int| 0 <= q < clique.len() && #[trigger] clique[q] == list[b] as int;
        assert(list[a] < list[b]);
        assert(compatible(clique[p] as int, clique[q] as int));
    }
}

/// The inliers among `n` correspondences, given the vertices that the
/// engine reported: the distinct reported vertices that are indices of
/// correspondences, in ascending order. Whatever else was reported is left out.
pub fn inlier_indices(n: usize, clique: &Vec<i32>) -> (inliers: Vec<usize>)
    ensures
        is_inlier_list(inliers@, n as int, clique@),
{
    let mut marked: Vec<bool> = Vec::with_capacity(n);
    let mut k: usize = 0;
    while k < n
        invariant
            k <= n,
            marked@.len() == k,
            forall|p: int| 0 <= p < k ==> !marked@[p],
        decreases n - k,
    {
        marked.push(false);
        k += 1;
    }
    let mut j: usize = 0;
    while j < clique.len()
        invariant
            j <= clique@.len(),
            marked@.len() == n,
            forall|v: int|
                0 <= v < n ==> (#[trigger] marked@[v] <==> exists|q: int|
                    0 <= q < j && #[trigger] clique@[q] == v),
        decreases clique@.len() - j,
    {
        let v: i32 = clique[j];
        let ghost before = marked@;
        if v >= 0 && (v as usize) < n {
            marked.set(v as usize, true);
        }
        proof {
            assert forall|w: int| 0 <= w < n implies (#[trigger] marked@[w] <==> exists|q: int|
                0 <= q < j + 1 && #[trigger] clique@[q] == w) by {
                if marked@[w] {
                    if before[w] {
                        let q = choose|q: int| 0 <= q < j && #[trigger] clique@[q] == w;
                        assert(0 <= q < j + 1 && clique@[q] == w);
                    } else {
                        assert(clique@[j as int] == w);
                    }
                } else {
                    assert(!before[w]);
                    assert(clique@[j as int] != w);
                    assert forall|q: int| 0 <= q < j + 1 implies #[trigger] clique@[q] != w by {
                        if q < j {
                        }
                    }
                }
            }
        }
        j += 1;
    }
    let mut inliers: Vec<usize> = Vec::new();
    let mut v: usize = 0;
    while v < n
        invariant
            v <= n,
            marked@.len() == n,
            strictly_increasing(inliers@),
            forall|k: int| 0 <= k < inliers@.len() ==> #[trigger] inliers@[k] < v,
            forall|k: int| 0 <= k < inliers@.len() ==> marked@[#[trigger] inliers@[k] as int],
            forall|w: int| 0 <= w < v && marked@[w] ==> #[trigger] inliers@.contains(w as usize),
        decreases n - v,
    {
        if marked[v] {
            let ghost before = inliers@;
            inliers.push(v);
            proof {
                assert forall|w: int| 0 <= w < v + 1 && marked@[w] implies #[trigger] inliers@.contains(
                    w as usize,
                ) by {
                    if w < v {
                        assert(before.contains(w as usize));
                        let p = choose|p: int| 0 <= p < before.len() && before[p] == w as usize;
                        assert(inliers@[p] == w as usize);
                    } else {
                        assert(inliers@[inliers@.len() - 1] == v);
                    }
                }
            }
        }
        v += 1;
    }
    proof {
        assert forall|k: int| 0 <= k < inliers@.len() implies reported(
            clique@,
            #[trigger] inliers@[k] as int,
        ) by {
            let w = inliers@[k] as int;
            assert(marked@[w]);
            let q = choose|q: int| 0 <= q < clique@.len() && #[trigger] clique@[q] == w;
            assert(clique@[q] == w);
        }
        assert forall|w: int| 0 <= w < n && reported(clique@, w) implies #[trigger] inliers@.contains(
            w as usize,
        ) by {
            let q = choose|q: int| 0 <= q < clique@.len() && #[trigger] clique@[q] == w;
            assert(0 <= q < clique@.len() && clique@[q] == w);
            assert(marked@[w]);
        }
    }
    inliers
}

/// Whether every two distinct listed vertices are compatible, that is,
/// whether the listed vertices form a clique of the graph whose edges
/// `compatible` tests.
pub fn is_clique<C: Fn(usize, usize) -> bool>(indices: &Vec<usize>, compatible: C) -> (r: bool)
    requires
        forall|a: usize, b: usize| call_requires(compatible, (a, b)),
    ensures
        r ==> forall|a: int, b: int|
            0 <= a < b < indices@.len() ==> call_ensures(
                compatible,
                (#[trigger] indices@[a], #[trigger] indices@[b]),
                true,
            ),
        !r ==> exists|a: int, b: int|
            0 <= a < b < indices@.len() && call_ensures(
                compatible,
                (#[trigger] indices@[a], #[trigger] indices@[b]),
                false,
            ),
{
    let n: usize = indices.len();
    let mut a: usize = 0;
    while a < n
        invariant
            a <= n,
            n == indices@.len(),
            forall|x: usize, y: usize| call_requires(compatible, (x, y)),
            forall|p: int, q: int|
                0 <= p < q < n && p < a ==> call_ensures(
                    compatible,
                    (#[trigger] indices@[p], #[trigger] indices@[q]),
                    true,
                ),
        decreases n - a,
    {
        let mut b: usize = a + 1;
        while b < n
            invariant
                a < n,
                a < b <= n,
                n == indices@.len(),
                forall|x: usize, y: usize| call_requires(compatible, (x, y)),
                forall|p: int, q: int|
                    0 <= p < q < n && (p < a || (p == a && q < b)) ==> call_ensures(
                        compatible,
                        (#[trigger] indices@[p], #[trigger] indices@[q]),
                        true,
                    ),
            decreases n - b,
        {
            if !compatible(indices[a], indices[b]) {
                return false;
            }
            b += 1;
        }
        a += 1;
    }
    true
}

/// Selects the inliers among `n` correspondences: runs `engine`, the
/// max-clique search, with one thread per logical core, at least one, and
/// returns the inlier list of the vertices it reports.
pub fn max_clique_inlier_selection<E: FnOnce(i32) -> Vec<i32>>(n: usize, engine: E) -> (inliers:
    Vec<usize>)
    requires
        forall|threads: i32| threads >= 1 ==> call_requires(engine, (threads,)),
    ensures
        exists|threads: i32, clique: Vec<i32>|
            threads >= 1 && #[trigger] call_ensures(engine, (threads,), clique) && is_inlier_list(
                inliers@,
                n as int,
                clique@,
            ),
        strictly_increasing(inliers@),
        forall|k: int| 0 <= k < inliers@.len() ==> #[trigger] inliers@[k] < n,
{
    let threads: i32 = pmc_thread_count();
    let clique = engine(threads);
    let inliers = inlier_indices(n, &clique);
    proof {
        assert(call_ensures(engine, (threads,), clique));
    }
    inliers
}

} // verus!
