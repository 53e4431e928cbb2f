//! Cheapest chain of packages from a revision (or from nothing) to a goal.
//!
//! The graph has one node per revision plus a node for "no revision"; each
//! package is an edge weighted by its size, and a standalone package may
//! always be taken from the starting node.
use vstd::prelude::*;
use vstd::set_lib::{lemma_int_range, lemma_len_subset, set_int_range};

use crate::metadata::{Package, opt_name};
use crate::names::CleanName;

verus! {

/// The node a chain has reached after its first `i` packages.
pub open spec fn node_after(
    pkgs: Seq<Package>,
    start: Option<Seq<char>>,
    chain: Seq<int>,
    i: int,
) -> Option<Seq<char>> {
    if i == 0 {
        start
    } else {
        Some(pkgs[chain[i - 1]].to@)
    }
}

/// Package `p` can be applied at `node`: it starts there, or it is standalone
/// and `node` is where the whole chain started.
pub open spec fn can_follow(
    pkgs: Seq<Package>,
    start: Option<Seq<char>>,
    node: Option<Seq<char>>,
    p: int,
) -> bool {
    opt_name(pkgs[p].from) == node || (pkgs[p].from is None && node == start)
}

/// `chain` lists package indices that can be applied one after the other.
pub open spec fn is_chain(pkgs: Seq<Package>, start: Option<Seq<char>>, chain: Seq<int>) -> bool {
    forall|i: int|
        0 <= i < chain.len() ==> 0 <= #[trigger] chain[i] < pkgs.len() && can_follow(
            pkgs,
            start,
            node_after(pkgs, start, chain, i),
            chain[i],
        )
}

/// `chain` can be applied from `start` and ends at revision `goal`.
pub open spec fn reaches(
    pkgs: Seq<Package>,
    start: Option<Seq<char>>,
    chain: Seq<int>,
    goal: Seq<char>,
) -> bool {
    &&& is_chain(pkgs, start, chain)
    &&& node_after(pkgs, start, chain, chain.len() as int) == Some(goal)
}

/// Total size of the packages of a chain.
pub open spec fn chain_cost(pkgs: Seq<Package>, chain: Seq<int>) -> nat
    decreases chain.len(),
{
    if chain.len() == 0 {
        0
    } else {
        chain_cost(pkgs, chain.drop_last()) + pkgs[chain.last()].size as nat
    }
}

/// `chain` reaches `goal` from `start`, and no chain that does costs less.
pub open spec fn is_cheapest(
    pkgs: Seq<Package>,
    start: Option<Seq<char>>,
    chain: Seq<int>,
    goal: Seq<char>,
) -> bool {
    &&& reaches(pkgs, start, chain, goal)
    &&& forall|c: Seq<int>| #[trigger]
        reaches(pkgs, start, c, goal) ==> chain_cost(pkgs, chain) <= chain_cost(pkgs, c)
}

/// No chain reaches `goal` from `start`.
pub open spec fn no_chain_reaches(pkgs: Seq<Package>, start: Option<Seq<char>>, goal: Seq<char>) -> bool {
    forall|c: Seq<int>| !#[trigger] reaches(pkgs, start, c, goal)
}

/// Among the cheapest chains, `chain` ends with the package of lowest index.
pub open spec fn ends_first(
    pkgs: Seq<Package>,
    start: Option<Seq<char>>,
    chain: Seq<int>,
    goal: Seq<char>,
) -> bool {
    forall|c: Seq<int>|
        #[trigger] reaches(pkgs, start, c, goal) && c.len() > 0 && chain.len() > 0 && chain_cost(
            pkgs,
            c,
        ) == chain_cost(pkgs, chain) ==> c.last() >= chain.last()
}

/// Package indices as integers.
pub open spec fn as_ints(v: Seq<usize>) -> Seq<int> {
    v.map_values(|i: usize| i as int)
}

/// The best chain known for one package: its cost and the chain, which ends
/// with that package.
type Best = Option<(u128, Vec<usize>)>;

spec fn entry_ok(pkgs: Seq<Package>, start: Option<Seq<char>>, e: Best, q: int) -> bool {
    e is Some ==> {
        let ch = as_ints(e->Some_0.1@);
        &&& is_chain(pkgs, start, ch)
        &&& 1 <= ch.len()
        &&& ch.last() == q
        &&& chain_cost(pkgs, ch) == e->Some_0.0
    }
}

spec fn covers(pkgs: Seq<Package>, start: Option<Seq<char>>, e: Best, q: int, k: int) -> bool {
    forall|c: Seq<int>|
        #[trigger] is_chain(pkgs, start, c) && 1 <= c.len() <= k && c.last() == q ==> e is Some
            && e->Some_0.0 <= chain_cost(pkgs, c)
}

proof fn lemma_cost_concat(pkgs: Seq<Package>, a: Seq<int>, b: Seq<int>)
    ensures
        chain_cost(pkgs, a + b) == chain_cost(pkgs, a) + chain_cost(pkgs, b),
    decreases b.len(),
{
    if b.len() == 0 {
        assert(a + b =~= a);
    } else {
        lemma_cost_concat(pkgs, a, b.drop_last());
        assert((a + b).drop_last() =~= a + b.drop_last());
    }
}

proof fn lemma_cost_bound(pkgs: Seq<Package>, c: Seq<int>)
    ensures
        chain_cost(pkgs, c) <= c.len() * 0xffff_ffff_ffff_ffff,
    decreases c.len(),
{
    if c.len() > 0 {
        lemma_cost_bound(pkgs, c.drop_last());
        assert(chain_cost(pkgs, c.drop_last()) + 0xffff_ffff_ffff_ffffnat <= c.len()
            * 0xffff_ffff_ffff_ffff) by (nonlinear_arith)
            requires
                chain_cost(pkgs, c.drop_last()) <= (c.len() - 1) * 0xffff_ffff_ffff_ffff,
        ;
    }
}

proof fn lemma_chain_prefix(pkgs: Seq<Package>, start: Option<Seq<char>>, c: Seq<int>, n: int)
    requires
        is_chain(pkgs, start, c),
        0 <= n <= c.len(),
    ensures
        is_chain(pkgs, start, c.subrange(0, n)),
{
    let d = c.subrange(0, n);
    assert forall|i: int| 0 <= i < d.len() implies 0 <= #[trigger] d[i] < pkgs.len() && can_follow(
        pkgs,
        start,
        node_after(pkgs, start, d, i),
        d[i],
    ) by {
        assert(d[i] == c[i]);
        assert(node_after(pkgs, start, d, i) == node_after(pkgs, start, c, i));
    }
}

proof fn lemma_chain_push(pkgs: Seq<Package>, start: Option<Seq<char>>, c: Seq<int>, q: int)
    requires
        is_chain(pkgs, start, c),
        0 <= q < pkgs.len(),
        can_follow(pkgs, start, node_after(pkgs, start, c, c.len() as int), q),
    ensures
        is_chain(pkgs, start, c.push(q)),
        chain_cost(pkgs, c.push(q)) == chain_cost(pkgs, c) + pkgs[q].size,
{
    let d = c.push(q);
    assert(d.drop_last() =~= c);
    assert forall|i: int| 0 <= i < d.len() implies 0 <= #[trigger] d[i] < pkgs.len() && can_follow(
        pkgs,
        start,
        node_after(pkgs, start, d, i),
        d[i],
    ) by {
        if i < c.len() {
            assert(d[i] == c[i]);
            assert(node_after(pkgs, start, d, i) == node_after(pkgs, start, c, i));
        }
    }
}

/// A chain longer than the number of packages uses some package twice.
proof fn lemma_repeat(pkgs: Seq<Package>, start: Option<Seq<char>>, c: Seq<int>) -> (r: (int, int))
    requires
        is_chain(pkgs, start, c),
        c.len() > pkgs.len(),
    ensures
        0 <= r.0 < r.1 < c.len(),
        c[r.0] == c[r.1],
{
    if c.no_duplicates() {
        c.unique_seq_to_set();
        lemma_int_range(0, pkgs.len() as int);
        assert(c.to_set().subset_of(set_int_range(0, pkgs.len() as int))) by {
            assert forall|x: int| c.to_set().contains(x) implies set_int_range(
                0,
                pkgs.len() as int,
            ).contains(x) by {
                let i = choose|i: int| 0 <= i < c.len() && c[i] == x;
                assert(0 <= c[i] < pkgs.len());
            }
        }
        lemma_len_subset(c.to_set(), set_int_range(0, pkgs.len() as int));
        assert(false);
        (0, 0)
    } else {
        let (i, j) = choose|i: int, j: int|
            0 <= i < c.len() && 0 <= j < c.len() && i != j && c[i] == c[j];
        if i < j {
            (i, j)
        } else {
            (j, i)
        }
    }
}

/// Every chain to `goal` can be replaced by one no longer than the number of
/// packages and no more expensive.
proof fn lemma_shorten(pkgs: Seq<Package>, start: Option<Seq<char>>, c: Seq<int>, goal: Seq<char>) -> (r:
    Seq<int>)
    requires
        reaches(pkgs, start, c, goal),
    ensures
        reaches(pkgs, start, r, goal),
        r.len() <= pkgs.len(),
        r.len() <= c.len(),
        c.len() > 0 ==> r.len() > 0 && r.last() == c.last(),
        chain_cost(pkgs, r) <= chain_cost(pkgs, c),
    decreases c.len(),
{
    if c.len() <= pkgs.len() {
        c
    } else {
        let (i, j) = lemma_repeat(pkgs, start, c);
        let n = c.len() as int;
        let a = c.subrange(0, i);
        let m = c.subrange(i, j);
        let b = c.subrange(j, n);
        let d = a + b;
        assert(c =~= a + m + b);
        lemma_cost_concat(pkgs, a + m, b);
        lemma_cost_concat(pkgs, a, m);
        lemma_cost_concat(pkgs, a, b);
        assert forall|t: int| 0 <= t < d.len() implies 0 <= #[trigger] d[t] < pkgs.len()
            && can_follow(pkgs, start, node_after(pkgs, start, d, t), d[t]) by {
            if t < i {
                assert(d[t] == c[t]);
                assert(node_after(pkgs, start, d, t) == node_after(pkgs, start, c, t));
            } else if t == i {
                assert(d[t] == c[j]);
                assert(c[j] == c[i]);
                assert(node_after(pkgs, start, d, t) == node_after(pkgs, start, c, i));
            } else {
                assert(d[t] == c[t + (j - i)]);
                assert(d[t - 1] == c[t - 1 + (j - i)]);
                assert(node_after(pkgs, start, d, t) == node_after(pkgs, start, c, t + (j - i)));
            }
        }
        assert(d[d.len() - 1] == c[n - 1]);
        lemma_shorten(pkgs, start, d, goal)
    }
}

fn can_follow_exec(p: &Package, node: Option<&CleanName>, start: Option<&CleanName>) -> (r: bool)
    ensures
        r == (opt_name(p.from) == opt_name_ref(node) || (p.from is None && opt_name_ref(node)
            == opt_name_ref(start))),
{
    let same = match (&p.from, node) {
        (Some(a), Some(b)) => a.equals(b),
        (None, None) => true,
        _ => false,
    };
    if same {
        return true;
    }
    if p.from.is_some() {
        return false;
    }
    match (node, start) {
        (Some(a), Some(b)) => a.equals(b),
        (None, None) => true,
        _ => false,
    }
}

/// The view of an optional borrowed name.
pub open spec fn opt_name_ref(n: Option<&CleanName>) -> Option<Seq<char>> {
    match n {
        Some(n) => Some(n@),
        None => None,
    }
}

/// The cheapest chain ending with each package, found by relaxing every
/// edge once per package.
fn relax_rounds(start: Option<&CleanName>, packages: &[Package]) -> (best: Vec<Best>)
    ensures
        best@.len() == packages@.len(),
        forall|y: int|
            0 <= y < packages@.len() ==> entry_ok(packages@, opt_name_ref(start), #[trigger] best@[y], y),
        forall|y: int|
            0 <= y < packages@.len() ==> covers(
                packages@,
                opt_name_ref(start),
                #[trigger] best@[y],
                y,
                packages@.len() as int,
            ),
{
    let ghost pkgs = packages@;
    let ghost st = opt_name_ref(start);
    let m = packages.len();
    let mut best: Vec<Best> = Vec::new();
    let mut x: usize = 0;
    while x < m
        invariant
            x <= m,
            best@.len() == x,
            forall|y: int| 0 <= y < x ==> (#[trigger] best@[y]) is None,
        decreases m - x,
    {
        best.push(None);
        x = x + 1;
    }
    proof {
        assert forall|y: int| 0 <= y < m implies covers(pkgs, st, #[trigger] best@[y], y, 0) by {}
    }
    let mut round: usize = 0;
    while round < m
        invariant
            round <= m,
            m == pkgs.len(),
            pkgs == packages@,
            st == opt_name_ref(start),
            best@.len() == m,
            forall|y: int| 0 <= y < m ==> entry_ok(pkgs, st, #[trigger] best@[y], y),
            forall|y: int| 0 <= y < m ==> covers(pkgs, st, #[trigger] best@[y], y, round as int),
        decreases m - round,
    {
        let mut q: usize = 0;
        while q < m
            invariant
                q <= m,
                round < m,
                m == pkgs.len(),
                pkgs == packages@,
                st == opt_name_ref(start),
                best@.len() == m,
                forall|y: int|
                    0 <= y < m ==> entry_ok(pkgs, st, #[trigger] best@[y], y),
                forall|y: int| 0 <= y < m ==> covers(pkgs, st, #[trigger] best@[y], y, round as int),
                forall|y: int| 0 <= y < q ==> covers(pkgs, st, #[trigger] best@[y], y, round + 1),
            decreases m - q,
        {
            let pq = &packages[q];
            // a chain of one package, applied at the start
            if can_follow_exec(pq, start, start) {
                let cand = pq.size as u128;
                let improves = match &best[q] {
                    Some(e) => cand < e.0,
                    None => true,
                };
                if improves {
                    let mut ch: Vec<usize> = Vec::new();
                    ch.push(q);
                    proof {
                        let c = as_ints(ch@);
                        assert(c =~= Seq::<int>::empty().push(q as int));
                        assert(Seq::<int>::empty().push(q as int).drop_last() =~= Seq::<int>::empty());
                        lemma_chain_push(pkgs, st, Seq::<int>::empty(), q as int);
                    }
                    let ghost old_best = best@;
                    best.set(q, Some((cand, ch)));
                    proof {
                        assert forall|y: int| 0 <= y < m implies covers(
                            pkgs,
                            st,
                            #[trigger] best@[y],
                            y,
                            round as int,
                        ) by {
                            assert(covers(pkgs, st, old_best[y], y, round as int));
                        }
                        assert forall|y: int| 0 <= y < q implies covers(
                            pkgs,
                            st,
                            #[trigger] best@[y],
                            y,
                            round + 1,
                        ) by {
                            assert(covers(pkgs, st, old_best[y], y, round + 1));
                        }
                    }
                }
            }
            let mut p: usize = 0;
            while p < m
                invariant
                    p <= m,
                    q < m,
                    round < m,
                    m == pkgs.len(),
                    pkgs == packages@,
                    st == opt_name_ref(start),
                    pq == &packages@[q as int],
                    best@.len() == m,
                    forall|y: int|
                        0 <= y < m ==> entry_ok(pkgs, st, #[trigger] best@[y], y),
                    forall|y: int|
                        0 <= y < m ==> covers(pkgs, st, #[trigger] best@[y], y, round as int),
                    forall|y: int|
                        0 <= y < q ==> covers(pkgs, st, #[trigger] best@[y], y, round + 1),
                    can_follow(pkgs, st, st, q as int) ==> best@[q as int] is Some
                        && best@[q as int]->Some_0.0 <= pkgs[q as int].size,
                    forall|z: int, c: Seq<int>|
                        0 <= z < p && #[trigger] is_chain(pkgs, st, c) && 1 <= c.len() <= round
                            && c.last() == z && #[trigger] can_follow(
                            pkgs,
                            st,
                            Some(pkgs[z].to@),
                            q as int,
                        ) ==> best@[q as int] is Some && best@[q as int]->Some_0.0 <= chain_cost(
                            pkgs,
                            c,
                        ) + pkgs[q as int].size,
                decreases m - p,
            {
                let pp = &packages[p];
                let follows = can_follow_exec(pq, Some(&pp.to), start);
                let ghost before = best@;
                let ghost mut weighed = false;
                if follows && best[p].is_some() {
                    let (cost_p, chain_p) = match &best[p] {
                        Some(e) => (e.0, &e.1),
                        None => {
                            proof {
                                assert(false);
                            }
                            return best;
                        },
                    };
                    match cost_p.checked_add(pq.size as u128) {
                        Some(cand) => {
                            let improves = match &best[q] {
                                Some(e) => cand < e.0,
                                None => true,
                            };
                            if improves {
                                let mut ch = chain_p.clone();
                                ch.push(q);
                                proof {
                                    let c0 = as_ints(chain_p@);
                                    assert(as_ints(ch@) =~= c0.push(q as int));
                                    assert(c0[c0.len() - 1] == p);
                                    assert(node_after(pkgs, st, c0, c0.len() as int) == Some(
                                        pkgs[p as int].to@,
                                    ));
                                    lemma_chain_push(pkgs, st, c0, q as int);
                                }
                                best.set(q, Some((cand, ch)));
                                proof {
                                    assert forall|y: int| 0 <= y < m implies covers(
                                        pkgs,
                                        st,
                                        #[trigger] best@[y],
                                        y,
                                        round as int,
                                    ) by {
                                        assert(covers(pkgs, st, before[y], y, round as int));
                                    }
                                    assert forall|y: int| 0 <= y < q implies covers(
                                        pkgs,
                                        st,
                                        #[trigger] best@[y],
                                        y,
                                        round + 1,
                                    ) by {
                                        assert(covers(pkgs, st, before[y], y, round + 1));
                                    }
                                }
                            }
                            proof {
                                weighed = true;
                            }
                        },
                        None => {
                            proof {
                                assert forall|c: Seq<int>|
                                    #[trigger] is_chain(pkgs, st, c) && 1 <= c.len() <= round
                                        && c.last() == p implies false by {
                                    assert(covers(pkgs, st, before[p as int], p as int, round as int));
                                    lemma_cost_bound(pkgs, c);
                                    assert(chain_cost(pkgs, c) + pkgs[q as int].size
                                        <= 0xffff_ffff_ffff_ffff_ffff_ffff_ffff_ffffnat)
                                        by (nonlinear_arith)
                                        requires
                                            chain_cost(pkgs, c) <= c.len() * 0xffff_ffff_ffff_ffff,
                                            c.len() <= m - 1,
                                            m <= 0xffff_ffff_ffff_ffff,
                                            pkgs[q as int].size <= 0xffff_ffff_ffff_ffff,
                                    ;
                                }
                            }
                        },
                    }
                }
                proof {
                    assert forall|z: int, c: Seq<int>|
                        0 <= z < p + 1 && #[trigger] is_chain(pkgs, st, c) && 1 <= c.len() <= round
                            && c.last() == z && #[trigger] can_follow(
                            pkgs,
                            st,
                            Some(pkgs[z].to@),
                            q as int,
                        ) implies best@[q as int] is Some && best@[q as int]->Some_0.0
                        <= chain_cost(pkgs, c) + pkgs[q as int].size by {
                        if z == p {
                            assert(covers(pkgs, st, before[z], z, round as int));
                        }
                    }
                }
                p = p + 1;
            }
            proof {
                assert forall|c: Seq<int>|
                    #[trigger] is_chain(pkgs, st, c) && 1 <= c.len() <= round + 1 && c.last()
                        == q implies best@[q as int] is Some && best@[q as int]->Some_0.0
                    <= chain_cost(pkgs, c) by {
                    if c.len() == 1 {
                        assert(c[0] == q);
                        assert(node_after(pkgs, st, c, 0) == st);
                        assert(c.drop_last() =~= Seq::<int>::empty());
                    } else {
                        let c0 = c.drop_last();
                        lemma_chain_prefix(pkgs, st, c, c.len() - 1);
                        assert(c0 =~= c.subrange(0, c.len() - 1));
                        let z = c0.last();
                        assert(c0[c0.len() - 1] == c[c.len() - 2]);
                        assert(0 <= c[c.len() - 2] < m);
                        assert(node_after(pkgs, st, c, c.len() - 1) == Some(pkgs[z].to@));
                        assert(can_follow(pkgs, st, Some(pkgs[z].to@), q as int));
                        assert(is_chain(pkgs, st, c0));
                    }
                }
                assert(covers(pkgs, st, best@[q as int], q as int, round + 1));
            }
            q = q + 1;
        }
        round = round + 1;
    }
    best
}

/// The cheapest of the best chains that end at `goal`.
/// The first package landing on `goal` whose best chain is the cheapest.
fn first_cheapest(goal: &CleanName, packages: &[Package], best: &Vec<Best>) -> (pick: Option<usize>)
    requires
        best@.len() == packages@.len(),
    ensures
        match pick {
            Some(k) => k < packages@.len() && best@[k as int] is Some && packages@[k as int].to@
                == goal@ && forall|y: int|
                0 <= y < packages@.len() && packages@[y].to@ == goal@ && (#[trigger] best@[y]) is Some
                    ==> best@[k as int]->Some_0.0 <= best@[y]->Some_0.0 && (y < k
                    ==> best@[k as int]->Some_0.0 < best@[y]->Some_0.0),
            None => forall|y: int|
                0 <= y < packages@.len() && packages@[y].to@ == goal@ ==> (#[trigger] best@[y]) is None,
        },
{
    let ghost pkgs = packages@;
    let m = packages.len();
    let mut pick: Option<usize> = None;
    let mut i: usize = 0;
    while i < m
        invariant
            i <= m,
            m == pkgs.len(),
            pkgs == packages@,
            best@.len() == m,
            match pick {
                Some(k) => k < m && k < i && best@[k as int] is Some && pkgs[k as int].to@ == goal@
                    && forall|y: int|
                    0 <= y < i && pkgs[y].to@ == goal@ && (#[trigger] best@[y]) is Some
                        ==> best@[k as int]->Some_0.0 <= best@[y]->Some_0.0 && (y < k
                        ==> best@[k as int]->Some_0.0 < best@[y]->Some_0.0),
                None => forall|y: int|
                    0 <= y < i && pkgs[y].to@ == goal@ ==> (#[trigger] best@[y]) is None,
            },
        decreases m - i,
    {
        if packages[i].to.equals(goal) {
            match &best[i] {
                Some(e) => {
                    let better = match pick {
                        Some(k) => match &best[k] {
                            Some(b) => e.0 < b.0,
                            None => true,
                        },
                        None => true,
                    };
                    let ghost old_pick = pick;
                    if better {
                        pick = Some(i);
                        proof {
                            assert forall|y: int|
                                0 <= y < i + 1 && pkgs[y].to@ == goal@ && (#[trigger] best@[y]) is Some
                                    implies best@[i as int]->Some_0.0 <= best@[y]->Some_0.0 && (y < i
                                    ==> best@[i as int]->Some_0.0 < best@[y]->Some_0.0) by {
                                if y < i {
                                    match old_pick {
                                        Some(k) => {
                                            assert(best@[k as int]->Some_0.0 <= best@[y]->Some_0.0);
                                        },
                                        None => {},
                                    }
                                }
                            }
                        }
                    } else {
                        proof {
                            let k = old_pick->Some_0;
                            assert forall|y: int|
                                0 <= y < i + 1 && pkgs[y].to@ == goal@ && (#[trigger] best@[y]) is Some
                                    implies best@[k as int]->Some_0.0 <= best@[y]->Some_0.0 && (y < k
                                    ==> best@[k as int]->Some_0.0 < best@[y]->Some_0.0) by {
                                if y == i {
                                    assert(best@[y]->Some_0.0 == e.0);
                                    assert(!(e.0 < best@[k as int]->Some_0.0));
                                } else {
                                    assert(best@[k as int]->Some_0.0 <= best@[y]->Some_0.0);
                                }
                            }
                        }
                    }
                },
                None => {},
            }
        }
        i = i + 1;
    }
    pick
}

fn pick_cheapest(start: Option<&CleanName>, goal: &CleanName, packages: &[Package], best: &Vec<Best>) -> (r:
    Option<Vec<usize>>)
    requires
        opt_name_ref(start) != Some(goal@),
        best@.len() == packages@.len(),
        forall|y: int|
            0 <= y < packages@.len() ==> entry_ok(packages@, opt_name_ref(start), #[trigger] best@[y], y),
        forall|y: int|
            0 <= y < packages@.len() ==> covers(
                packages@,
                opt_name_ref(start),
                #[trigger] best@[y],
                y,
                packages@.len() as int,
            ),
    ensures
        match r {
            None => no_chain_reaches(packages@, opt_name_ref(start), goal@),
            Some(v) => {
                &&& is_cheapest(packages@, opt_name_ref(start), as_ints(v@), goal@)
                &&& ends_first(packages@, opt_name_ref(start), as_ints(v@), goal@)
                &&& forall|i: int| 0 <= i < v@.len() ==> #[trigger] v@[i] < packages@.len()
            },
        },
{
    let ghost pkgs = packages@;
    let ghost st = opt_name_ref(start);
    let m = packages.len();
    // pick the cheapest chain ending at the goal
    let pick = first_cheapest(goal, packages, best);
    match pick {
        None => {
            proof {
                assert forall|c: Seq<int>| !#[trigger] reaches(pkgs, st, c, goal@) by {
                    if reaches(pkgs, st, c, goal@) {
                        let d = lemma_shorten(pkgs, st, c, goal@);
                        if d.len() == 0 {
                            assert(st == Some(goal@));
                        } else {
                            let z = d.last();
                            assert(d[d.len() - 1] == z);
                            assert(covers(pkgs, st, best@[z], z, m as int));
                        }
                    }
                }
                assert(no_chain_reaches(pkgs, st, goal@));
            }
            None
        },
        Some(k) => {
            let v = match &best[k] {
                Some(e) => e.1.clone(),
                None => {
                    return None;
                },
            };
            proof {
                let ch = as_ints(v@);
                assert(entry_ok(pkgs, st, best@[k as int], k as int));
                assert(ch[ch.len() - 1] == k);
                assert forall|i: int| 0 <= i < v@.len() implies #[trigger] v@[i] < pkgs.len() by {
                    assert(ch[i] == v@[i] as int);
                }
                assert forall|c: Seq<int>| #[trigger]
                    reaches(pkgs, st, c, goal@) implies chain_cost(pkgs, ch) <= chain_cost(
                    pkgs,
                    c,
                ) by {
                    let d = lemma_shorten(pkgs, st, c, goal@);
                    if d.len() == 0 {
                        assert(st == Some(goal@));
                    } else {
                        let z = d.last();
                        assert(d[d.len() - 1] == z);
                        assert(covers(pkgs, st, best@[z], z, m as int));
                    }
                }
                assert forall|c: Seq<int>|
                    #[trigger] reaches(pkgs, st, c, goal@) && c.len() > 0 && ch.len() > 0
                        && chain_cost(pkgs, c) == chain_cost(pkgs, ch) implies c.last() >= ch.last() by {
                    let d = lemma_shorten(pkgs, st, c, goal@);
                    let z = d.last();
                    assert(d[d.len() - 1] == z);
                    assert(c[c.len() - 1] == z);
                    assert(0 <= z < m);
                    assert(pkgs[z].to@ == goal@);
                    assert(covers(pkgs, st, best@[z], z, m as int));
                    if z < k {
                        assert(best@[z] is Some);
                    }
                }
            }
            Some(v)
        },
    }
}

/// Finds the cheapest chain of packages that takes a workspace at `start`
/// (`None`: an empty workspace) to revision `goal`.
///
/// The result lists indices into `packages`, in the order of application.
/// It is empty when `start` already is `goal`. `None` means that no chain
/// reaches `goal`.
pub fn shortest_path(start: Option<&CleanName>, goal: &CleanName, packages: &[Package]) -> (r:
    Option<Vec<usize>>)
    ensures
        match r {
            None => no_chain_reaches(packages@, opt_name_ref(start), goal@),
            Some(v) => {
                &&& is_cheapest(packages@, opt_name_ref(start), as_ints(v@), goal@)
                &&& ends_first(packages@, opt_name_ref(start), as_ints(v@), goal@)
                &&& forall|i: int| 0 <= i < v@.len() ==> #[trigger] v@[i] < packages@.len()
                &&& (v@.len() == 0 <==> opt_name_ref(start) == Some(goal@))
            },
        },
{
    let ghost pkgs = packages@;
    let ghost st = opt_name_ref(start);
    let starts_at_goal = match start {
        Some(s) => s.equals(goal),
        None => false,
    };
    if starts_at_goal {
        let v: Vec<usize> = Vec::new();
        proof {
            assert(as_ints(v@) =~= Seq::<int>::empty());
        }
        return Some(v);
    }
    let best = relax_rounds(start, packages);
    pick_cheapest(start, goal, packages, &best)
}

} // verus!
