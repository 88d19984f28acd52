//! The processes that descend from the browser process.

use vstd::prelude::*;

use crate::procfs::{fallback_process, RawProcess};

verus! {

/// Some sampled process with id `child` names `parent` as its parent, and is
/// not its own parent.
pub open spec fn parent_of(procs: Seq<RawProcess>, parent: u32, child: u32) -> bool {
    exists|i: int|
        0 <= i < procs.len() && #[trigger] procs[i].pid == child && procs[i].ppid == parent && child
            != parent
}

/// `chain` walks from parent to child at every step.
pub open spec fn is_chain(procs: Seq<RawProcess>, chain: Seq<u32>) -> bool {
    &&& chain.len() >= 1
    &&& forall|k: int| 0 <= k < chain.len() - 1 ==> #[trigger] parent_of(procs, chain[k], chain[k + 1])
}

/// `pid` is `root` or a descendant of it through the sampled parent links.
pub open spec fn in_tree(procs: Seq<RawProcess>, root: u32, pid: u32) -> bool {
    exists|chain: Seq<u32>| #[trigger] is_chain(procs, chain) && chain[0] == root && chain.last() == pid
}

/// Some sampled process has id `pid`.
pub open spec fn has_pid(procs: Seq<RawProcess>, pid: u32) -> bool {
    exists|i: int| 0 <= i < procs.len() && #[trigger] procs[i].pid == pid
}

/// The processes of `procs` whose id is in `keep`, in their order.
pub open spec fn with_pids_in(procs: Seq<RawProcess>, keep: Set<u32>) -> Seq<RawProcess>
    decreases procs.len(),
{
    if procs.len() == 0 {
        Seq::empty()
    } else if keep.contains(procs.last().pid) {
        with_pids_in(procs.drop_last(), keep).push(procs.last())
    } else {
        with_pids_in(procs.drop_last(), keep)
    }
}

/// The ids that belong to the tree below `root`.
pub open spec fn tree_pids(procs: Seq<RawProcess>, root: u32) -> Set<u32> {
    Set::new(|pid: u32| in_tree(procs, root, pid))
}

proof fn lemma_push_contains(s: Seq<u32>, x: u32)
    ensures
        s.push(x).contains(x),
        forall|c: u32| s.contains(c) ==> #[trigger] s.push(x).contains(c),
{
    assert(s.push(x)[s.len() as int] == x);
    assert forall|c: u32| s.contains(c) implies #[trigger] s.push(x).contains(c) by {
        let i = choose|i: int| 0 <= i < s.len() && s[i] == c;
        assert(s.push(x)[i] == c);
    }
}

fn contains_pid(v: &Vec<u32>, x: u32) -> (r: bool)
    ensures
        r == v@.contains(x),
{
    for i in 0..v.len()
        invariant
            forall|j: int| 0 <= j < i ==> v@[j] != x,
    {
        if v[i] == x {
            return true;
        }
    }
    false
}

/// Every member of a chain from `root` is kept when `kept` holds `root` and
/// holds every child of each of its members.
proof fn lemma_chain_kept(procs: Seq<RawProcess>, root: u32, kept: Seq<u32>, chain: Seq<u32>, k: int)
    requires
        kept.contains(root),
        is_chain(procs, chain),
        chain[0] == root,
        0 <= k < chain.len(),
        forall|p: u32, c: u32| #[trigger] kept.contains(p) && parent_of(procs, p, c) ==> #[trigger] kept.contains(c),
    ensures
        kept.contains(chain[k]),
    decreases k,
{
    if k > 0 {
        lemma_chain_kept(procs, root, kept, chain, k - 1);
        let j = k - 1;
        assert(parent_of(procs, chain[j], chain[j + 1]));
    }
}

/// The processes of `procs` that descend from the browser process `root`
/// (it included), in their order; `None` when `root` was not sampled.
pub fn process_tree(procs: Vec<RawProcess>, root: u32) -> (r: Option<Vec<RawProcess>>)
    ensures
        r is None <==> !has_pid(procs@, root),
        r matches Some(out) ==> out@ == with_pids_in(procs@, tree_pids(procs@, root)),
{
    let n = procs.len();
    let mut found = false;
    for i in 0..n
        invariant
            n == procs@.len(),
            found <==> exists|j: int| 0 <= j < i && #[trigger] procs@[j].pid == root,
    {
        if procs[i].pid == root {
            found = true;
        }
    }
    if !found {
        return None;
    }
    let ghost ps = procs@;
    // Breadth-first walk: `kept[..head]` have had their children added.
    let mut kept: Vec<u32> = Vec::new();
    kept.push(root);
    proof {
        let chain = seq![root];
        assert(is_chain(ps, chain));
    }
    let mut head: usize = 0;
    while head < kept.len()
        invariant
            ps == procs@,
            n == ps.len(),
            head <= kept@.len(),
            kept@.len() >= 1,
            kept@[0] == root,
            kept@.no_duplicates(),
            forall|k: int| 0 <= k < kept@.len() ==> in_tree(ps, root, #[trigger] kept@[k]),
            forall|k: int| 0 <= k < kept@.len() ==> has_pid(ps, #[trigger] kept@[k]),
            forall|k: int, c: u32|
                0 <= k < head && #[trigger] parent_of(ps, kept@[k], c) ==> kept@.contains(c),
        decreases n + 1 - head,
    {
        proof {
            // `kept` holds distinct ids of sampled processes, so it is no longer than `procs`.
            let ids = ps.map_values(|p: RawProcess| p.pid).to_set();
            assert(kept@.to_set().subset_of(ids)) by {
                assert forall|x: u32| kept@.to_set().contains(x) implies ids.contains(x) by {
                    let k = choose|k: int| 0 <= k < kept@.len() && kept@[k] == x;
                    assert(has_pid(ps, kept@[k]));
                    let i = choose|i: int| 0 <= i < ps.len() && #[trigger] ps[i].pid == x;
                    assert(ps.map_values(|p: RawProcess| p.pid)[i] == x);
                }
            }
            kept@.unique_seq_to_set();
            ps.map_values(|p: RawProcess| p.pid).lemma_cardinality_of_set();
            vstd::set_lib::lemma_len_subset(kept@.to_set(), ids);
        }
        let parent = kept[head];
        let ghost before = kept@;
        for j in 0..n
            invariant
                ps == procs@,
                n == ps.len(),
                head < before.len(),
                parent == before[head as int],
                kept@.len() >= before.len(),
                forall|k: int| 0 <= k < before.len() ==> kept@[k] == before[k],
                kept@[0] == root,
                kept@.no_duplicates(),
                forall|k: int| 0 <= k < kept@.len() ==> in_tree(ps, root, #[trigger] kept@[k]),
                forall|k: int| 0 <= k < kept@.len() ==> has_pid(ps, #[trigger] kept@[k]),
                forall|k: int, c: u32|
                    0 <= k < head && #[trigger] parent_of(ps, before[k], c) ==> kept@.contains(c),
                forall|i: int|
                    0 <= i < j && ps[i].ppid == parent && ps[i].pid != parent ==> kept@.contains(
                        #[trigger] ps[i].pid,
                    ),
        {
            let child = procs[j].pid;
            if procs[j].ppid == parent && child != parent && !contains_pid(&kept, child) {
                proof {
                    assert(parent_of(ps, parent, child));
                    assert(in_tree(ps, root, parent));
                    let chain = choose|chain: Seq<u32>|
                        #[trigger] is_chain(ps, chain) && chain[0] == root && chain.last()
                            == parent;
                    let longer = chain.push(child);
                    assert forall|k: int| 0 <= k < longer.len() - 1 implies #[trigger] parent_of(
                        ps,
                        longer[k],
                        longer[k + 1],
                    ) by {
                        if k < chain.len() - 1 {
                            assert(longer[k] == chain[k] && longer[k + 1] == chain[k + 1]);
                        }
                    }
                    assert(is_chain(ps, longer));
                    assert(has_pid(ps, child)) by {
                        assert(ps[j as int].pid == child);
                    }
                }
                let ghost prev = kept@;
                kept.push(child);
                proof {
                    lemma_push_contains(prev, child);
                    assert forall|k: int| 0 <= k < kept@.len() implies in_tree(
                        ps,
                        root,
                        #[trigger] kept@[k],
                    ) by {
                        if k == kept@.len() - 1 {
                            let chain = choose|chain: Seq<u32>|
                                #[trigger] is_chain(ps, chain) && chain[0] == root && chain.last()
                                    == parent;
                            let longer = chain.push(child);
                            assert(is_chain(ps, longer) && longer[0] == root && longer.last()
                                == child);
                        }
                    }
                }
            }
        }
        proof {
            assert forall|k: int, c: u32|
                0 <= k < head + 1 && #[trigger] parent_of(ps, kept@[k], c) implies kept@.contains(
                c,
            ) by {
                assert(kept@[k] == before[k]);
                if k == head {
                    let i = choose|i: int|
                        0 <= i < ps.len() && #[trigger] ps[i].pid == c && ps[i].ppid == parent
                            && c != parent;
                    assert(ps[i].pid == c);
                }
            }
        }
        head = head + 1;
    }
    proof {
        assert forall|p: u32, c: u32| #[trigger]
            kept@.contains(p) && parent_of(ps, p, c) implies #[trigger] kept@.contains(c) by {
            let k = choose|k: int| 0 <= k < kept@.len() && kept@[k] == p;
            assert(parent_of(ps, kept@[k], c));
        }
    }
    // Keep the processes of the tree, in their order.
    let ghost members = tree_pids(ps, root);
    proof {
        assert(kept@.contains(root)) by {
            assert(kept@[0] == root);
        }
        assert forall|q: u32| kept@.contains(q) <==> #[trigger] members.contains(q) by {
            if kept@.contains(q) {
                let k = choose|k: int| 0 <= k < kept@.len() && kept@[k] == q;
                assert(in_tree(ps, root, kept@[k]));
            }
            if members.contains(q) {
                let chain = choose|chain: Seq<u32>|
                    #[trigger] is_chain(ps, chain) && chain[0] == root && chain.last() == q;
                lemma_chain_kept(ps, root, kept@, chain, chain.len() - 1);
            }
        }
    }
    let mut out: Vec<RawProcess> = Vec::new();
    for p in it: procs
        invariant
            it.seq() == ps,
            kept@.contains(root),
            forall|q: u32| kept@.contains(q) <==> #[trigger] members.contains(q),
            out@ == with_pids_in(ps.take(it.index() as int), members),
    {
        let ghost idx = it.index() as int;
        proof {
            assert(ps.take(idx + 1).drop_last() =~= ps.take(idx));
        }
        if contains_pid(&kept, p.pid) {
            out.push(p);
        }
    }
    assert(ps.take(ps.len() as int) =~= ps);
    Some(out)
}

/// The processes to list: the tree below the browser process `root`, or, when
/// `root` was not sampled, the browser alone with nothing known of it.
pub fn process_tree_or_fallback(procs: Vec<RawProcess>, root: u32) -> (out: Vec<RawProcess>)
    ensures
        has_pid(procs@, root) ==> out@ == with_pids_in(procs@, tree_pids(procs@, root)),
        !has_pid(procs@, root) ==> {
            &&& out@.len() == 1
            &&& out@[0].pid == root
            &&& out@[0].ppid == 0
            &&& out@[0].name@ == "Browser"@
            &&& out@[0].memory is None
            &&& out@[0].cpu_ticks == 0
            &&& out@[0].threads@.len() == 0
        },
{
    match process_tree(procs, root) {
        Some(tree) => tree,
        None => {
            let mut out: Vec<RawProcess> = Vec::new();
            out.push(fallback_process(root));
            out
        },
    }
}

proof fn lemma_with_pids_in_keeps(procs: Seq<RawProcess>, keep: Set<u32>, i: int)
    requires
        0 <= i < procs.len(),
        keep.contains(procs[i].pid),
    ensures
        with_pids_in(procs, keep).contains(procs[i]),
    decreases procs.len(),
{
    let out = with_pids_in(procs, keep);
    if i == procs.len() - 1 {
        assert(out[out.len() - 1] == procs[i]);
    } else {
        lemma_with_pids_in_keeps(procs.drop_last(), keep, i);
        assert(procs.drop_last()[i] == procs[i]);
        let inner = with_pids_in(procs.drop_last(), keep);
        let k = choose|k: int| 0 <= k < inner.len() && inner[k] == procs[i];
        if keep.contains(procs.last().pid) {
            assert(out[k] == inner[k]);
        }
    }
}

proof fn lemma_with_pids_in_only(procs: Seq<RawProcess>, keep: Set<u32>, k: int)
    requires
        0 <= k < with_pids_in(procs, keep).len(),
    ensures
        keep.contains(with_pids_in(procs, keep)[k].pid),
        procs.contains(with_pids_in(procs, keep)[k]),
    decreases procs.len(),
{
    let out = with_pids_in(procs, keep);
    let inner = with_pids_in(procs.drop_last(), keep);
    if k < inner.len() {
        lemma_with_pids_in_only(procs.drop_last(), keep, k);
        assert(out[k] == inner[k]);
        let q = choose|q: int| 0 <= q < procs.drop_last().len() && procs.drop_last()[q] == inner[k];
        assert(procs[q] == procs.drop_last()[q]);
    } else {
        assert(out[k] == procs.last());
        assert(procs[procs.len() - 1] == procs.last());
    }
}

/// The tree lists exactly the sampled processes that descend from the
/// browser process: each of them, the browser itself included, and no other.
pub proof fn law_tree_members(procs: Seq<RawProcess>, root: u32, i: int, k: int)
    ensures
        0 <= i < procs.len() && in_tree(procs, root, procs[i].pid) ==> with_pids_in(
            procs,
            tree_pids(procs, root),
        ).contains(procs[i]),
        0 <= i < procs.len() && procs[i].pid == root ==> with_pids_in(procs, tree_pids(procs, root)).contains(procs[i]),
        0 <= k < with_pids_in(procs, tree_pids(procs, root)).len() ==> in_tree(
            procs,
            root,
            with_pids_in(procs, tree_pids(procs, root))[k].pid,
        ),
{
    if 0 <= i < procs.len() && procs[i].pid == root {
        assert(is_chain(procs, seq![root]));
        assert(in_tree(procs, root, root));
    }
    if 0 <= i < procs.len() && in_tree(procs, root, procs[i].pid) {
        lemma_with_pids_in_keeps(procs, tree_pids(procs, root), i);
    }
    if 0 <= k < with_pids_in(procs, tree_pids(procs, root)).len() {
        lemma_with_pids_in_only(procs, tree_pids(procs, root), k);
    }
}


proof fn lemma_with_pids_in_filter(procs: Seq<RawProcess>, keep: Set<u32>, kept: spec_fn(RawProcess) -> bool)
    requires
        forall|p: RawProcess| #[trigger] kept(p) == keep.contains(p.pid),
    ensures
        with_pids_in(procs, keep) == procs.filter(kept),
    decreases procs.len(),
{
    reveal(Seq::filter);
    if procs.len() > 0 {
        lemma_with_pids_in_filter(procs.drop_last(), keep, kept);
    }
}

/// The tree keeps the sampled processes that belong to it in the order they
/// were sampled.
pub proof fn law_tree_keeps_sample_order(procs: Seq<RawProcess>, root: u32)
    ensures
        with_pids_in(procs, tree_pids(procs, root)) == procs.filter(|p: RawProcess| in_tree(procs, root, p.pid)),
{
    let kept = |p: RawProcess| in_tree(procs, root, p.pid);
    lemma_with_pids_in_filter(procs, tree_pids(procs, root), kept);
}

} // verus!
