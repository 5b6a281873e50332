use vstd::prelude::*;

use crate::symbol::LNSymbolData;
use crate::symbols_map::LNSymbolsMap;

verus! {

/// The module that symbol `k` of module `m` refers to, if any.
pub open spec fn sym_target(map: LNSymbolsMap, m: int, k: int) -> Option<usize> {
    match map.symbols@[map.modules@[m].symbols@[k] as int].symbol.file_ref() {
        Some(f) => Some(f.module_id),
        None => None,
    }
}

/// The modules that the first `k` symbols of module `m` refer to, each once, in
/// order of first reference.
pub open spec fn targets_upto(map: LNSymbolsMap, m: int, k: int) -> Seq<usize>
    decreases k,
{
    if k <= 0 {
        Seq::empty()
    } else {
        let r = targets_upto(map, m, k - 1);
        match sym_target(map, m, k - 1) {
            Some(t) => if r.contains(t) {
                r
            } else {
                r.push(t)
            },
            None => r,
        }
    }
}

/// The dependencies of module `m`, in order of first reference.
pub open spec fn spec_dependencies(map: LNSymbolsMap, m: int) -> Seq<usize> {
    targets_upto(map, m, map.modules@[m].symbols@.len() as int)
}

/// Some symbol of module `m` refers to module `t`.
pub open spec fn has_edge(map: LNSymbolsMap, m: int, t: usize) -> bool {
    exists|k: int| 0 <= k < map.modules@[m].symbols@.len() && #[trigger] sym_target(map, m, k) == Some(t)
}

pub proof fn lemma_targets_upto(map: LNSymbolsMap, m: int, k: int)
    requires
        map.wf(),
        0 <= m < map.modules@.len(),
        0 <= k <= map.modules@[m].symbols@.len(),
    ensures
        targets_upto(map, m, k).no_duplicates(),
        forall|t: usize|
            #[trigger] targets_upto(map, m, k).contains(t) <==> exists|j: int|
                0 <= j < k && #[trigger] sym_target(map, m, j) == Some(t),
        forall|i: int|
            0 <= i < targets_upto(map, m, k).len() ==> #[trigger] targets_upto(map, m, k)[i]
                < map.modules@.len(),
    decreases k,
{
    if k > 0 {
        lemma_targets_upto(map, m, k - 1);
        let r = targets_upto(map, m, k - 1);
        let s = map.modules@[m].symbols@[k - 1];
        assert(map.symbols@[s as int].symbol.refs_below(map.modules@.len()));
        assert forall|t: usize| (exists|j: int|
            0 <= j < k && #[trigger] sym_target(map, m, j) == Some(t)) implies #[trigger] targets_upto(map, m, k).contains(t) by {
            let j = choose|j: int| 0 <= j < k && #[trigger] sym_target(map, m, j) == Some(t);
            if j < k - 1 {
                assert(r.contains(t));
                if sym_target(map, m, k - 1) is Some && !r.contains(sym_target(map, m, k - 1)->Some_0) {
                    let i = choose|i: int| 0 <= i < r.len() && r[i] == t;
                    assert(r.push(sym_target(map, m, k - 1)->Some_0)[i] == t);
                }
            } else {
                if !r.contains(t) {
                    assert(r.push(t)[r.len() as int] == t);
                }
            }
        }
        assert forall|t: usize| #[trigger] targets_upto(map, m, k).contains(t) implies exists|j: int|
            0 <= j < k && #[trigger] sym_target(map, m, j) == Some(t) by {
            if r.contains(t) {
                let j = choose|j: int| 0 <= j < k - 1 && #[trigger] sym_target(map, m, j) == Some(t);
            } else {
                let i = choose|i: int| 0 <= i < targets_upto(map, m, k).len() && targets_upto(map, m, k)[i] == t;
                assert(i == r.len());
                assert(sym_target(map, m, k - 1) == Some(t));
            }
        }
    }
}

/// The file-level dependency graph of a symbol map: for each module id, the
/// modules it depends on and the modules that depend on it.
#[derive(Debug)]
pub struct LanternFileDependencyMap {
    pub symbols_map: LNSymbolsMap,
    pub dependency_map: Vec<Vec<usize>>,
    pub inverse_dependency_map: Vec<Vec<usize>>,
}

impl LanternFileDependencyMap {
    /// Both maps hold one list per module; the forward list of `m` is exactly its
    /// dependencies, and the inverse list of `t` holds, once each, exactly the
    /// modules with an edge to `t`.
    pub open spec fn wf(&self) -> bool {
        let map = self.symbols_map;
        let n = map.modules@.len();
        &&& map.wf()
        &&& self.dependency_map@.len() == n
        &&& self.inverse_dependency_map@.len() == n
        &&& forall|m: int| 0 <= m < n ==> #[trigger] self.dependency_map@[m]@ == spec_dependencies(map, m)
        &&& forall|t: int, x: usize|
            0 <= t < n ==> (#[trigger] self.inverse_dependency_map@[t]@.contains(x) <==> (x < n
                && has_edge(map, x as int, t as usize)))
        &&& forall|t: int| 0 <= t < n ==> #[trigger] self.inverse_dependency_map@[t]@.no_duplicates()
    }

    /// The edges of the graph: `m -> t` where a symbol of `m` refers to `t`.
    pub open spec fn spec_has_edge(&self, m: int, t: usize) -> bool {
        0 <= m < self.symbols_map.modules@.len() && has_edge(self.symbols_map, m, t)
    }

    /// Wraps a symbol map; the graph has no edges until it is built.
    pub fn new(symbols_map: LNSymbolsMap) -> (r: Self)
        ensures
            r.symbols_map == symbols_map,
            r.dependency_map@.len() == 0,
            r.inverse_dependency_map@.len() == 0,
    {
        Self { symbols_map, dependency_map: Vec::new(), inverse_dependency_map: Vec::new() }
    }

    /// Records the edge `from -> to` in both maps, where it is not there yet.
    pub fn add_dependency(
        &self,
        dependency_map: &mut Vec<Vec<usize>>,
        inverse_dependency_map: &mut Vec<Vec<usize>>,
        from: usize,
        to: usize,
    )
        requires
            from < old(dependency_map)@.len(),
            to < old(inverse_dependency_map)@.len(),
        ensures
            final(dependency_map)@.len() == old(dependency_map)@.len(),
            final(inverse_dependency_map)@.len() == old(inverse_dependency_map)@.len(),
            final(dependency_map)@[from as int]@ == if old(dependency_map)@[from as int]@.contains(to) {
                old(dependency_map)@[from as int]@
            } else {
                old(dependency_map)@[from as int]@.push(to)
            },
            final(inverse_dependency_map)@[to as int]@ == if old(inverse_dependency_map)@[to as int]@.contains(from) {
                old(inverse_dependency_map)@[to as int]@
            } else {
                old(inverse_dependency_map)@[to as int]@.push(from)
            },
            forall|i: int|
                0 <= i < old(dependency_map)@.len() && i != from ==> #[trigger] final(dependency_map)@[i]
                    == old(dependency_map)@[i],
            forall|i: int|
                0 <= i < old(inverse_dependency_map)@.len() && i != to ==> #[trigger] final(inverse_dependency_map)@[i]
                    == old(inverse_dependency_map)@[i],
    {
        if !vec_contains(&dependency_map[from], to) {
            dependency_map[from].push(to);
        }
        if !vec_contains(&inverse_dependency_map[to], from) {
            inverse_dependency_map[to].push(from);
        }
    }

    /// Builds both maps from the symbols: `m -> t` for each symbol of `m` that
    /// refers to `t` (`export *`, `export { .. } from`, and every import).
    pub fn build_dependency_graph(&mut self)
        requires
            old(self).symbols_map.wf(),
        ensures
            final(self).wf(),
            final(self).symbols_map == old(self).symbols_map,
    {
        let n = self.symbols_map.modules.len();
        let mut dependency_map: Vec<Vec<usize>> = Vec::new();
        let mut inverse_dependency_map: Vec<Vec<usize>> = Vec::new();
        let mut i: usize = 0;
        while i < n
            invariant
                i <= n,
                n == self.symbols_map.modules@.len(),
                dependency_map@.len() == i,
                inverse_dependency_map@.len() == i,
                forall|j: int| 0 <= j < i ==> (#[trigger] dependency_map@[j])@.len() == 0,
                forall|j: int| 0 <= j < i ==> (#[trigger] inverse_dependency_map@[j])@.len() == 0,
            decreases n - i,
        {
            dependency_map.push(Vec::new());
            inverse_dependency_map.push(Vec::new());
            i = i + 1;
        }
        let ghost map = self.symbols_map;
        let mut module_id: usize = 0;
        while module_id < n
            invariant
                map == self.symbols_map,
                map.wf(),
                module_id <= n,
                n == map.modules@.len(),
                dependency_map@.len() == n,
                inverse_dependency_map@.len() == n,
                forall|m: int| 0 <= m < module_id ==> #[trigger] dependency_map@[m]@ == spec_dependencies(map, m),
                forall|m: int| module_id <= m < n ==> (#[trigger] dependency_map@[m])@.len() == 0,
                forall|t: int, x: usize|
                    0 <= t < n ==> (#[trigger] inverse_dependency_map@[t]@.contains(x) <==> (x < module_id
                        && has_edge(map, x as int, t as usize))),
                forall|t: int| 0 <= t < n ==> #[trigger] inverse_dependency_map@[t]@.no_duplicates(),
            decreases n - module_id,
        {
            let module = &self.symbols_map.modules[module_id];
            let len = module.symbols.len();
            let mut k: usize = 0;
            while k < len
                invariant
                    map == self.symbols_map,
                    map.wf(),
                    module_id < n,
                    n == map.modules@.len(),
                    *module == map.modules@[module_id as int],
                    len == module.symbols@.len(),
                    k <= len,
                    dependency_map@.len() == n,
                    inverse_dependency_map@.len() == n,
                    forall|m: int| 0 <= m < module_id ==> #[trigger] dependency_map@[m]@ == spec_dependencies(map, m),
                    forall|m: int| module_id < m < n ==> (#[trigger] dependency_map@[m])@.len() == 0,
                    dependency_map@[module_id as int]@ == targets_upto(map, module_id as int, k as int),
                    forall|t: int, x: usize|
                        0 <= t < n ==> (#[trigger] inverse_dependency_map@[t]@.contains(x) <==> ((x < module_id
                            && has_edge(map, x as int, t as usize)) || (x == module_id && exists|j: int|
                            0 <= j < k && #[trigger] sym_target(map, module_id as int, j) == Some(t as usize)))),
                    forall|t: int| 0 <= t < n ==> #[trigger] inverse_dependency_map@[t]@.no_duplicates(),
                decreases len - k,
            {
                let symbol_id = module.symbols[k];
                let symbol = &self.symbols_map.symbols[symbol_id];
                let target = match &symbol.symbol {
                    LNSymbolData::ExportAll(file_ref) => Some(file_ref.module_id),
                    LNSymbolData::ExportNamed(_, _, _, Some(file_ref)) => Some(file_ref.module_id),
                    LNSymbolData::ImportDefault(_, _, file_ref, _)
                    | LNSymbolData::ImportStar(_, _, file_ref, _)
                    | LNSymbolData::ImportNamed(_, _, _, file_ref, _) => Some(file_ref.module_id),
                    _ => None,
                };
                proof {
                    assert(target == sym_target(map, module_id as int, k as int));
                    assert(map.symbols@[symbol_id as int].symbol.refs_below(n as nat));
                    lemma_targets_upto(map, module_id as int, k as int);
                }
                if let Some(to) = target {
                    let ghost old_inv = inverse_dependency_map@;
                    self.add_dependency(&mut dependency_map, &mut inverse_dependency_map, module_id, to);
                    proof {
                        assert forall|t: int| 0 <= t < n implies #[trigger] inverse_dependency_map@[t]@.no_duplicates() by {
                            assert(old_inv[t]@.no_duplicates());
                            if t == to as int && !old_inv[t]@.contains(module_id) {
                                let v = inverse_dependency_map@[t]@;
                                assert(v == old_inv[t]@.push(module_id));
                                assert forall|a: int, b: int| 0 <= a < v.len() && 0 <= b < v.len() && a != b implies v[a] != v[b] by {
                                    if a == old_inv[t]@.len() as int {
                                        assert(old_inv[t]@[b] == v[b]);
                                    } else if b == old_inv[t]@.len() as int {
                                        assert(old_inv[t]@[a] == v[a]);
                                    }
                                }
                            }
                        }
                        assert forall|t: int, x: usize| 0 <= t < n implies (#[trigger] inverse_dependency_map@[t]@.contains(x) <==> ((x < module_id
                            && has_edge(map, x as int, t as usize)) || (x == module_id && exists|j: int|
                            0 <= j < k + 1 && #[trigger] sym_target(map, module_id as int, j) == Some(t as usize)))) by {
                            if exists|j: int| 0 <= j < k + 1 && #[trigger] sym_target(map, module_id as int, j) == Some(t as usize) {
                                let j = choose|j: int| 0 <= j < k + 1 && #[trigger] sym_target(map, module_id as int, j) == Some(t as usize);
                                if j < k {
                                    assert(old_inv[t]@.contains(module_id));
                                }
                            }
                            if t == to as int && !old_inv[t]@.contains(module_id) {
                                assert(inverse_dependency_map@[t]@ == old_inv[t]@.push(module_id));
                                if x != module_id {
                                    assert(inverse_dependency_map@[t]@.contains(x) ==> old_inv[t]@.contains(x));
                                    if old_inv[t]@.contains(x) {
                                        let i = choose|i: int| 0 <= i < old_inv[t]@.len() && old_inv[t]@[i] == x;
                                        assert(inverse_dependency_map@[t]@[i] == x);
                                    }
                                } else {
                                    assert(inverse_dependency_map@[t]@[old_inv[t]@.len() as int] == module_id);
                                }
                            }
                        }
                    }
                }
                k = k + 1;
            }
            proof {
                assert forall|t: int, x: usize| 0 <= t < n implies (#[trigger] inverse_dependency_map@[t]@.contains(x) <==> (x < module_id + 1
                    && has_edge(map, x as int, t as usize))) by {
                    if x == module_id && has_edge(map, x as int, t as usize) {
                        let j = choose|j: int| 0 <= j < len && #[trigger] sym_target(map, module_id as int, j) == Some(t as usize);
                    }
                }
            }
            module_id = module_id + 1;
        }
        self.dependency_map = dependency_map;
        self.inverse_dependency_map = inverse_dependency_map;
    }

    /// The modules that `m` depends on.
    pub fn dependencies_of(&self, m: usize) -> (r: &Vec<usize>)
        requires
            self.wf(),
            m < self.symbols_map.modules@.len(),
        ensures
            r@ == spec_dependencies(self.symbols_map, m as int),
    {
        &self.dependency_map[m]
    }

    /// The modules that depend on `m`.
    pub fn dependents_of(&self, m: usize) -> (r: &Vec<usize>)
        requires
            self.wf(),
            m < self.symbols_map.modules@.len(),
        ensures
            r@.no_duplicates(),
            forall|x: usize| #[trigger] r@.contains(x) <==> self.spec_has_edge(x as int, m),
    {
        &self.inverse_dependency_map[m]
    }
}

/// Whether `v` holds `x`.
pub fn vec_contains(v: &Vec<usize>, x: usize) -> (r: bool)
    ensures
        r == v@.contains(x),
{
    let mut i: usize = 0;
    while i < v.len()
        invariant
            i <= v@.len(),
            forall|j: int| 0 <= j < i ==> v@[j] != x,
        decreases v@.len() - i,
    {
        if v[i] == x {
            return true;
        }
        i = i + 1;
    }
    false
}

} // verus!

verus! {

/// A module depends on exactly the modules that its symbols refer to, each listed once.
pub proof fn lemma_dependencies_are_references(g: LanternFileDependencyMap, m: int)
    requires
        g.wf(),
        0 <= m < g.symbols_map.modules@.len(),
    ensures
        g.dependency_map@[m]@.no_duplicates(),
        forall|t: usize| #[trigger] g.dependency_map@[m]@.contains(t) <==> g.spec_has_edge(m, t),
{
    lemma_targets_upto(g.symbols_map, m, g.symbols_map.modules@[m].symbols@.len() as int);
}

/// The inverse map is the transpose of the forward map: `x` is listed as a
/// dependent of `m` exactly when `m` is listed as a dependency of `x`.
pub proof fn lemma_dependents_transpose(g: LanternFileDependencyMap, m: usize, x: usize)
    requires
        g.wf(),
        m < g.symbols_map.modules@.len(),
        x < g.symbols_map.modules@.len(),
    ensures
        g.inverse_dependency_map@[m as int]@.contains(x) <==> g.dependency_map@[x as int]@.contains(m),
{
    lemma_dependencies_are_references(g, x as int);
}

} // verus!
