use vstd::prelude::*;

use crate::dependency_graph::{lemma_dependencies_are_references, LanternFileDependencyMap};

verus! {

/// Module `u` depends on module `v`.
pub open spec fn dep_edge(g: LanternFileDependencyMap, u: usize, v: usize) -> bool {
    g.spec_has_edge(u as int, v)
}

/// `c` is a cycle of the graph: each module depends on the next one, and the
/// last one on the first.
pub open spec fn is_cycle(g: LanternFileDependencyMap, c: Seq<usize>) -> bool {
    &&& c.len() >= 1
    &&& forall|i: int| 0 <= i < c.len() - 1 ==> #[trigger] dep_edge(g, c[i], c[i + 1])
    &&& dep_edge(g, c.last(), c[0])
}

/// Some modules of the graph depend on each other in a circle.
pub open spec fn has_cycle(g: LanternFileDependencyMap) -> bool {
    exists|c: Seq<usize>| #[trigger] is_cycle(g, c)
}

pub open spec fn count_zero(s: Seq<u8>) -> nat
    decreases s.len(),
{
    if s.len() == 0 {
        0
    } else {
        count_zero(s.drop_last()) + if s.last() == 0 {
            1nat
        } else {
            0nat
        }
    }
}

proof fn lemma_count_zero_mono(a: Seq<u8>, b: Seq<u8>, x: int)
    requires
        a.len() == b.len(),
        forall|i: int| 0 <= i < a.len() && a[i] != 0 ==> #[trigger] b[i] != 0,
    ensures
        count_zero(b) <= count_zero(a),
        0 <= x < a.len() && a[x] == 0 && b[x] != 0 ==> count_zero(b) < count_zero(a),
    decreases a.len(),
{
    if a.len() > 0 {
        let (a2, b2) = (a.drop_last(), b.drop_last());
        assert forall|i: int| 0 <= i < a2.len() && a2[i] != 0 implies #[trigger] b2[i] != 0 by {
            assert(a[i] != 0);
        }
        lemma_count_zero_mono(a2, b2, x);
    }
}

/// The on-stack modules are exactly those of `path`, and the finished ones
/// exactly those of `finished`; while no cycle is reported, each finished module
/// finished after all its dependencies.
pub open spec fn dfs_state(
    g: LanternFileDependencyMap,
    visited: Seq<u8>,
    cycles: Seq<Vec<usize>>,
    path: Seq<usize>,
    finished: Seq<usize>,
) -> bool {
    let n = g.symbols_map.modules@.len();
    &&& g.wf()
    &&& visited.len() == n
    &&& forall|x: int| 0 <= x < n ==> #[trigger] visited[x] <= 2
    &&& forall|i: int| 0 <= i < path.len() ==> #[trigger] path[i] < n && visited[path[i] as int] == 1
    &&& path.no_duplicates()
    &&& forall|x: int| 0 <= x < n && #[trigger] visited[x] == 1 ==> path.contains(x as usize)
    &&& forall|i: int| 0 <= i < path.len() - 1 ==> #[trigger] dep_edge(g, path[i], path[i + 1])
    &&& forall|i: int| 0 <= i < cycles.len() ==> is_cycle(g, #[trigger] cycles[i]@) && cycles[i]@.no_duplicates()
    &&& finished.no_duplicates()
    &&& forall|i: int| 0 <= i < finished.len() ==> #[trigger] finished[i] < n
    &&& forall|x: int| 0 <= x < n ==> (#[trigger] visited[x] == 2 <==> finished.contains(x as usize))
    &&& cycles.len() == 0 ==> forall|i: int, v: usize|
        0 <= i < finished.len() && #[trigger] dep_edge(g, finished[i], v) ==> finished.subrange(0, i).contains(v)
}

/// The cycles as sequences of module ids.
pub open spec fn cycle_views(cs: Seq<Vec<usize>>) -> Seq<Seq<usize>> {
    cs.map_values(|c: Vec<usize>| c@)
}

/// The depth-first search from module `u`, with the colours `visited` (0 not
/// seen, 1 on the current path `path`, 2 finished): the colours afterwards and
/// the cycles reported, in order. Reaching a module on the path reports the
/// part of the path from that module on; a finished module is skipped; a new
/// one goes on the path, its dependencies are searched in order, and it finishes.
pub open spec fn dfs_node(g: LanternFileDependencyMap, visited: Seq<u8>, path: Seq<usize>, u: usize) -> (
    Seq<u8>,
    Seq<Seq<usize>>,
)
    decreases count_zero(visited), 0nat,
{
    if visited[u as int] == 2 {
        (visited, Seq::empty())
    } else if visited[u as int] == 1 {
        (visited, seq![path.subrange(pos_in(path, u), path.len() as int)])
    } else {
        let v1 = visited.update(u as int, 1);
        if count_zero(v1) < count_zero(visited) {
            let r = dfs_children(g, v1, path.push(u), u, 0);
            (r.0.update(u as int, 2), r.1)
        } else {
            (visited, Seq::empty())
        }
    }
}

/// The search from the dependencies of `u`, from the `k`-th on, in order.
pub open spec fn dfs_children(
    g: LanternFileDependencyMap,
    visited: Seq<u8>,
    path: Seq<usize>,
    u: usize,
    k: int,
) -> (Seq<u8>, Seq<Seq<usize>>)
    decreases count_zero(visited), (g.dependency_map@[u as int]@.len() - k + 1) as nat,
{
    let deps = g.dependency_map@[u as int]@;
    if k < 0 || k >= deps.len() {
        (visited, Seq::empty())
    } else {
        let a = dfs_node(g, visited, path, deps[k]);
        if count_zero(a.0) <= count_zero(visited) {
            let b = dfs_children(g, a.0, path, u, k + 1);
            (b.0, a.1 + b.1)
        } else {
            a
        }
    }
}

/// The search started from each module not yet finished, from module `k` on, in
/// id order: the cycles reported.
pub open spec fn dfs_from(g: LanternFileDependencyMap, visited: Seq<u8>, k: int) -> Seq<Seq<usize>>
    decreases g.symbols_map.modules@.len() - k,
{
    if k < 0 || k >= g.symbols_map.modules@.len() {
        Seq::empty()
    } else if visited[k] == 2 {
        dfs_from(g, visited, k + 1)
    } else {
        let a = dfs_node(g, visited, Seq::empty(), k as usize);
        a.1 + dfs_from(g, a.0, k + 1)
    }
}

/// The cycles the depth-first search over the whole graph reports.
pub open spec fn dfs_cycles(g: LanternFileDependencyMap) -> Seq<Seq<usize>> {
    dfs_from(g, Seq::new(g.symbols_map.modules@.len(), |i: int| 0u8), 0)
}

fn dfs(
    dep_map: &LanternFileDependencyMap,
    visited: &mut Vec<u8>,
    cycles: &mut Vec<Vec<usize>>,
    path: &mut Vec<usize>,
    finished: &mut Vec<usize>,
    module_id: usize,
)
    requires
        dfs_state(*dep_map, old(visited)@, old(cycles)@, old(path)@, old(finished)@),
        module_id < dep_map.symbols_map.modules@.len(),
        old(path)@.len() > 0 ==> dep_edge(*dep_map, old(path)@.last(), module_id),
    ensures
        dfs_state(*dep_map, final(visited)@, final(cycles)@, final(path)@, final(finished)@),
        final(path)@ == old(path)@,
        final(cycles)@.len() >= old(cycles)@.len(),
        forall|x: int| 0 <= x < old(visited)@.len() ==> (#[trigger] final(visited)@[x] == 1 <==> old(visited)@[x] == 1),
        forall|x: int| 0 <= x < old(visited)@.len() && old(visited)@[x] == 2 ==> #[trigger] final(visited)@[x] == 2,
        final(visited)@[module_id as int] != 0,
        old(visited)@[module_id as int] == 1 ==> final(cycles)@.len() > old(cycles)@.len(),
        count_zero(final(visited)@) <= count_zero(old(visited)@),
        final(visited)@ == dfs_node(*dep_map, old(visited)@, old(path)@, module_id).0,
        cycle_views(final(cycles)@) == cycle_views(old(cycles)@) + dfs_node(
            *dep_map,
            old(visited)@,
            old(path)@,
            module_id,
        ).1,
    decreases count_zero(old(visited)@),
{
    let ghost g = *dep_map;
    let nn = dep_map.symbols_map.modules.len();
    let ghost n = dep_map.symbols_map.modules@.len();
    if visited[module_id] == 2 {
        return;
    }
    if visited[module_id] == 1 {
        assert(path@.contains(module_id));
        let plen = path.len();
        let mut pos: usize = 0;
        proof {
            let j = choose|j: int| 0 <= j < path@.len() && path@[j] == module_id;
        }
        while path[pos] != module_id
            invariant
                path@.contains(module_id),
                plen == path@.len(),
                pos < path@.len(),
                forall|j: int| 0 <= j < pos ==> path@[j] != module_id,
            decreases path@.len() - pos,
        {
            proof {
                let j = choose|j: int| 0 <= j < path@.len() && path@[j] == module_id;
                assert(j > pos);
            }
            pos = pos + 1;
        }
        let mut cycle: Vec<usize> = Vec::new();
        let mut i: usize = pos;
        while i < path.len()
            invariant
                pos <= i <= path@.len(),
                cycle@ == path@.subrange(pos as int, i as int),
            decreases path@.len() - i,
        {
            cycle.push(path[i]);
            i = i + 1;
            assert(cycle@ =~= path@.subrange(pos as int, i as int));
        }
        proof {
            let c = cycle@;
            assert(c.len() >= 1);
            assert forall|j: int| 0 <= j < c.len() - 1 implies #[trigger] dep_edge(g, c[j], c[j + 1]) by {
                assert(c[j] == path@[pos + j]);
                assert(c[j + 1] == path@[pos + j + 1]);
                assert(dep_edge(g, path@[pos + j], path@[pos + j + 1]));
            }
            assert(c.last() == path@.last());
            assert forall|a: int, b: int| 0 <= a < c.len() && 0 <= b < c.len() && a != b implies c[a] != c[b] by {
                assert(c[a] == path@[pos + a]);
                assert(c[b] == path@[pos + b]);
            }
        }
        let ghost c0 = cycles@;
        proof {
            let j = pos_in(path@, module_id);
            assert(path@[j] == module_id);
            assert(path@[pos as int] == module_id);
            assert(j == pos as int);
        }
        cycles.push(cycle);
        proof {
            assert(cycle_views(cycles@) =~= cycle_views(c0) + seq![path@.subrange(pos as int, path@.len() as int)]);
            assert forall|i: int| 0 <= i < cycles@.len() implies is_cycle(g, #[trigger] cycles@[i]@) && cycles@[i]@.no_duplicates() by {
                if i < c0.len() {
                    assert(cycles@[i] == c0[i]);
                }
            }
        }
        return;
    }
    let ghost v0 = visited@;
    let ghost p0 = path@;
    proof {
        lemma_count_zero_mono(v0, v0.update(module_id as int, 1u8), module_id as int);
    }
    visited.set(module_id, 1);
    path.push(module_id);
    proof {
        assert forall|x: int| 0 <= x < n && #[trigger] visited@[x] == 1 implies path@.contains(x as usize) by {
            if x == module_id as int {
                assert(path@[p0.len() as int] == module_id);
            } else {
                let j = choose|j: int| 0 <= j < p0.len() && p0[j] == x as usize;
                assert(path@[j] == x as usize);
            }
        }
        assert forall|i: int| 0 <= i < path@.len() - 1 implies #[trigger] dep_edge(g, path@[i], path@[i + 1]) by {
            if i < p0.len() - 1 {
                assert(path@[i] == p0[i] && path@[i + 1] == p0[i + 1]);
            }
        }
        assert forall|a: int, b: int| 0 <= a < path@.len() && 0 <= b < path@.len() && a != b implies path@[a] != path@[b] by {
            if a == p0.len() as int {
                assert(visited@[path@[b] as int] == 1);
            } else if b == p0.len() as int {
                assert(visited@[path@[a] as int] == 1);
            }
        }
    }
    let deps = &dep_map.dependency_map[module_id];
    proof {
        lemma_dependencies_are_references(g, module_id as int);
        assert forall|q: int| 0 <= q < deps@.len() implies #[trigger] deps@[q] < n by {
            assert(deps@.contains(deps@[q]));
        }
    }
    let ghost full = dfs_children(g, v0.update(module_id as int, 1), p0.push(module_id), module_id, 0);
    proof {
        assert(visited@ == v0.update(module_id as int, 1));
        assert(cycle_views(old(cycles)@) + full.1 =~= cycle_views(cycles@) + full.1);
    }
    let mut k: usize = 0;
    while k < deps.len()
        invariant
            g == *dep_map,
            n == g.symbols_map.modules@.len(),
            nn == n,
            v0 == old(visited)@,
            module_id < n,
            dfs_state(g, visited@, cycles@, path@, finished@),
            path@ == p0.push(module_id),
            v0.len() == n,
            forall|x: int| 0 <= x < n && x != module_id ==> (#[trigger] visited@[x] == 1 <==> v0[x] == 1),
            forall|x: int| 0 <= x < n && v0[x] == 2 ==> #[trigger] visited@[x] == 2,
            visited@[module_id as int] == 1,
            v0[module_id as int] == 0,
            count_zero(visited@) < count_zero(v0),
            cycles@.len() >= old(cycles)@.len(),
            k <= deps@.len(),
            forall|q: int| 0 <= q < deps@.len() ==> #[trigger] deps@[q] < n,
            forall|x: usize| #[trigger] deps@.contains(x) <==> dep_edge(g, module_id, x),
            cycles@.len() == 0 ==> forall|q: int| 0 <= q < k ==> visited@[#[trigger] deps@[q] as int] == 2,
            deps@ == g.dependency_map@[module_id as int]@,
            full == dfs_children(g, v0.update(module_id as int, 1), p0.push(module_id), module_id, 0),
            full.0 == dfs_children(g, visited@, p0.push(module_id), module_id, k as int).0,
            cycle_views(old(cycles)@) + full.1 == cycle_views(cycles@) + dfs_children(
                g,
                visited@,
                p0.push(module_id),
                module_id,
                k as int,
            ).1,
        decreases deps@.len() - k,
    {
        let to = deps[k];
        let ghost vb = visited@;
        let ghost cb = cycles@;
        proof {
            assert(deps@.contains(to));
            assert(path@.last() == module_id);
        }
        dfs(dep_map, visited, cycles, path, finished, to);
        proof {
            lemma_count_zero_mono(vb, visited@, 0);
            if cycles@.len() == 0 {
                assert(vb[to as int] != 1);
            }
            let a = dfs_node(g, vb, p0.push(module_id), to);
            let b = dfs_children(g, a.0, p0.push(module_id), module_id, k + 1);
            assert(dfs_children(g, vb, p0.push(module_id), module_id, k as int) == (b.0, a.1 + b.1));
            assert(cycle_views(cycles@) + b.1 =~= cycle_views(cb) + (a.1 + b.1));
        }
        k = k + 1;
    }
    let ghost f0 = finished@;
    let ghost v1 = visited@;
    proof {
        assert(cycle_views(cycles@) =~= cycle_views(cycles@) + Seq::<Seq<usize>>::empty());
        lemma_count_zero_mono(v0, v0.update(module_id as int, 1u8), module_id as int);
    }
    visited.set(module_id, 2);
    path.pop();
    finished.push(module_id);
    proof {
        assert(path@ =~= p0);
        assert(!f0.contains(module_id));
        assert forall|a: int, b: int| 0 <= a < finished@.len() && 0 <= b < finished@.len() && a != b implies finished@[a] != finished@[b] by {
            if a == f0.len() as int {
                assert(f0.contains(finished@[b]));
            } else if b == f0.len() as int {
                assert(f0.contains(finished@[a]));
            }
        }
        assert forall|x: int| 0 <= x < n implies (#[trigger] visited@[x] == 2 <==> finished@.contains(x as usize)) by {
            if x == module_id as int {
                assert(finished@[f0.len() as int] == module_id);
            } else {
                if f0.contains(x as usize) {
                    let j = choose|j: int| 0 <= j < f0.len() && f0[j] == x as usize;
                    assert(finished@[j] == x as usize);
                }
                if finished@.contains(x as usize) {
                    let j = choose|j: int| 0 <= j < finished@.len() && finished@[j] == x as usize;
                    assert(f0[j] == x as usize);
                }
            }
        }
        assert forall|i: int| 0 <= i < path@.len() implies #[trigger] path@[i] < n && visited@[path@[i] as int] == 1 by {
            assert(path@[i] == p0[i]);
            assert(p0[i] != module_id);
            assert(v1[p0[i] as int] == 1);
        }
        assert forall|x: int| 0 <= x < n && #[trigger] visited@[x] == 1 implies path@.contains(x as usize) by {
            assert(v0[x] == 1);
        }
        if cycles@.len() == 0 {
            assert forall|i: int, v: usize|
                0 <= i < finished@.len() && #[trigger] dep_edge(g, finished@[i], v) implies finished@.subrange(0, i).contains(v) by {
                if i == f0.len() as int {
                    assert(deps@.contains(v));
                    let q = choose|q: int| 0 <= q < deps@.len() && deps@[q] == v;
                    assert(v1[v as int] == 2);
                    assert(f0.contains(v));
                    assert(finished@.subrange(0, i) =~= f0);
                } else {
                    assert(finished@[i] == f0[i]);
                    assert(f0.subrange(0, i).contains(v));
                    assert(finished@.subrange(0, i) =~= f0.subrange(0, i));
                }
            }
        }
        lemma_count_zero_mono(v0, visited@, 0);
    }
}

/// The position of `x` in `f`.
pub open spec fn pos_in(f: Seq<usize>, x: usize) -> int {
    choose|j: int| 0 <= j < f.len() && f[j] == x
}

/// Each finished module finished after all its dependencies.
pub open spec fn finished_in_order(g: LanternFileDependencyMap, f: Seq<usize>) -> bool {
    forall|i: int, v: usize| 0 <= i < f.len() && #[trigger] dep_edge(g, f[i], v) ==> f.subrange(0, i).contains(v)
}

proof fn lemma_edge_pos(g: LanternFileDependencyMap, f: Seq<usize>, u: usize, v: usize)
    requires
        f.no_duplicates(),
        f.contains(u),
        dep_edge(g, u, v),
        finished_in_order(g, f),
    ensures
        f.contains(v),
        pos_in(f, v) < pos_in(f, u),
{
    let i = pos_in(f, u);
    assert(f[i] == u);
    assert(f.subrange(0, i).contains(v));
    let k = choose|k: int| 0 <= k < i && f.subrange(0, i)[k] == v;
    assert(f[k] == v);
    let pv = pos_in(f, v);
    assert(f[pv] == v);
}

proof fn lemma_walk_pos(g: LanternFileDependencyMap, f: Seq<usize>, c: Seq<usize>, k: int)
    requires
        f.no_duplicates(),
        f.contains(c[0]),
        0 <= k < c.len(),
        forall|i: int| 0 <= i < c.len() - 1 ==> #[trigger] dep_edge(g, c[i], c[i + 1]),
        finished_in_order(g, f),
    ensures
        f.contains(c[k]),
        pos_in(f, c[k]) <= pos_in(f, c[0]) - k,
    decreases k,
{
    if k > 0 {
        lemma_walk_pos(g, f, c, k - 1);
        let a = k - 1;
        assert(dep_edge(g, c[a], c[a + 1]));
        lemma_edge_pos(g, f, c[a], c[a + 1]);
    }
}

/// No cycle runs through finished modules, where each finished after all its
/// dependencies.
proof fn lemma_finished_acyclic(g: LanternFileDependencyMap, f: Seq<usize>, c: Seq<usize>)
    requires
        f.no_duplicates(),
        c.len() >= 1 ==> f.contains(c[0]),
        finished_in_order(g, f),
    ensures
        !is_cycle(g, c),
{
    if is_cycle(g, c) {
        let last = c.len() - 1;
        lemma_walk_pos(g, f, c, last);
        assert(c.last() == c[last]);
        lemma_edge_pos(g, f, c[last], c[0]);
        assert(false);
    }
}

/// The cycles that a depth-first search over the graph meets (`dfs_cycles`):
/// start modules in id order, dependencies in order, one report for each
/// dependency that leads back onto the current path, as the part of the path
/// from that module on. Each is a cycle with no module twice, and there are none
/// exactly when the graph has no cycle.
pub fn find_cycles(dep_map: &LanternFileDependencyMap) -> (r: Vec<Vec<usize>>)
    requires
        dep_map.wf(),
    ensures
        forall|i: int| 0 <= i < r@.len() ==> is_cycle(*dep_map, #[trigger] r@[i]@) && r@[i]@.no_duplicates(),
        r@.len() == 0 <==> !has_cycle(*dep_map),
        cycle_views(r@) == dfs_cycles(*dep_map),
{
    let n = dep_map.symbols_map.modules.len();
    let mut visited: Vec<u8> = Vec::new();
    let mut i: usize = 0;
    while i < n
        invariant
            i <= n,
            visited@.len() == i,
            forall|j: int| 0 <= j < i ==> #[trigger] visited@[j] == 0,
        decreases n - i,
    {
        visited.push(0);
        i = i + 1;
    }
    let mut cycles: Vec<Vec<usize>> = Vec::new();
    let mut finished: Vec<usize> = Vec::new();
    proof {
        assert(visited@ =~= Seq::new(n as nat, |i: int| 0u8));
        assert(cycle_views(cycles@) + dfs_cycles(*dep_map) =~= dfs_cycles(*dep_map));
    }
    let mut module_id: usize = 0;
    while module_id < n
        invariant
            cycle_views(cycles@) + dfs_from(*dep_map, visited@, module_id as int) == dfs_cycles(*dep_map),
            n == dep_map.symbols_map.modules@.len(),
            module_id <= n,
            dfs_state(*dep_map, visited@, cycles@, Seq::empty(), finished@),
            forall|x: int| 0 <= x < n ==> #[trigger] visited@[x] != 1,
            forall|x: int| 0 <= x < module_id ==> #[trigger] visited@[x] == 2,
        decreases n - module_id,
    {
        let ghost vb = visited@;
        let ghost cb = cycles@;
        if visited[module_id] != 2 {
            let mut path: Vec<usize> = Vec::new();
            dfs(dep_map, &mut visited, &mut cycles, &mut path, &mut finished, module_id);
            proof {
                let a = dfs_node(*dep_map, vb, Seq::empty(), module_id);
                assert(path@ =~= Seq::<usize>::empty());
                assert(cycle_views(cycles@) + dfs_from(*dep_map, visited@, module_id + 1) =~= cycle_views(cb) + (a.1
                    + dfs_from(*dep_map, a.0, module_id + 1)));
            }
        }
        module_id = module_id + 1;
    }
    proof {
        assert(cycle_views(cycles@) + dfs_from(*dep_map, visited@, n as int) =~= cycle_views(cycles@));
        if cycles@.len() == 0 && has_cycle(*dep_map) {
            let c = choose|c: Seq<usize>| #[trigger] is_cycle(*dep_map, c);
            assert(visited@[c[0] as int] == 2);
            lemma_finished_acyclic(*dep_map, finished@, c);
        }
        if cycles@.len() > 0 {
            assert(is_cycle(*dep_map, cycles@[0]@));
        }
    }
    cycles
}

} // verus!
