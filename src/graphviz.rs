use vstd::prelude::*;
use vstd::string::*;

use crate::dependency_graph::{spec_dependencies, sym_target, targets_upto, LanternFileDependencyMap};
use crate::symbols_map::LNSymbolsMap;

verus! {

pub open spec fn digit_char(d: nat) -> char {
    if d == 0 {
        '0'
    } else if d == 1 {
        '1'
    } else if d == 2 {
        '2'
    } else if d == 3 {
        '3'
    } else if d == 4 {
        '4'
    } else if d == 5 {
        '5'
    } else if d == 6 {
        '6'
    } else if d == 7 {
        '7'
    } else if d == 8 {
        '8'
    } else {
        '9'
    }
}

/// The decimal digits of `n`, without leading zeros.
pub open spec fn decimal(n: nat) -> Seq<char>
    decreases n,
{
    if n < 10 {
        seq![digit_char(n)]
    } else {
        decimal(n / 10) + seq![digit_char(n % 10)]
    }
}

/// The edge lines `\n  m -> t` for the first `k` dependencies `deps` of `m`.
pub open spec fn edge_lines(m: nat, deps: Seq<usize>, k: int) -> Seq<char>
    decreases k,
{
    if k <= 0 {
        Seq::empty()
    } else {
        edge_lines(m, deps, k - 1) + "\n  "@ + decimal(m) + " -> "@ + decimal(deps[k - 1] as nat)
    }
}

/// The label line of module `m`, followed by its edge lines.
pub open spec fn node_text(map: LNSymbolsMap, m: int) -> Seq<char> {
    let deps = spec_dependencies(map, m);
    "\n  "@ + decimal(m as nat) + " [label=\""@ + map.modules@[m].file_path@ + "\"]"@ + edge_lines(
        m as nat,
        deps,
        deps.len() as int,
    )
}

/// The node texts of the first `k` modules.
pub open spec fn nodes_text(map: LNSymbolsMap, k: int) -> Seq<char>
    decreases k,
{
    if k <= 0 {
        Seq::empty()
    } else {
        nodes_text(map, k - 1) + node_text(map, k - 1)
    }
}

/// The Graphviz text of the dependency graph of `map`: one labelled node per
/// module, in id order, each followed by its edges.
pub open spec fn graphviz_of(map: LNSymbolsMap) -> Seq<char> {
    "digraph {"@ + nodes_text(map, map.modules@.len() as int) + "\n}"@
}

fn digit_str(d: usize) -> (r: &'static str)
    requires
        d < 10,
    ensures
        r@ == seq![digit_char(d as nat)],
{
    proof {
        reveal_strlit("0");
        reveal_strlit("1");
        reveal_strlit("2");
        reveal_strlit("3");
        reveal_strlit("4");
        reveal_strlit("5");
        reveal_strlit("6");
        reveal_strlit("7");
        reveal_strlit("8");
        reveal_strlit("9");
    }
    if d == 0 {
        "0"
    } else if d == 1 {
        "1"
    } else if d == 2 {
        "2"
    } else if d == 3 {
        "3"
    } else if d == 4 {
        "4"
    } else if d == 5 {
        "5"
    } else if d == 6 {
        "6"
    } else if d == 7 {
        "7"
    } else if d == 8 {
        "8"
    } else {
        "9"
    }
}

/// Appends the decimal digits of `n` to `s`.
pub fn push_decimal(s: &mut String, n: usize)
    ensures
        final(s)@ == old(s)@ + decimal(n as nat),
    decreases n,
{
    if n < 10 {
        s.append(digit_str(n));
    } else {
        push_decimal(s, n / 10);
        s.append(digit_str(n % 10));
        assert(final(s)@ =~= old(s)@ + decimal(n as nat));
    }
}

impl LanternFileDependencyMap {
    /// The graph in Graphviz `dot` syntax: module ids as nodes labelled with
    /// their paths, and one line per edge.
    pub fn graphviz(&self) -> (r: String)
        requires
            self.wf(),
        ensures
            r@ == graphviz_of(self.symbols_map),
    {
        let ghost map = self.symbols_map;
        let mut res = String::from_str("digraph {");
        let n = self.symbols_map.modules.len();
        let mut module_id: usize = 0;
        while module_id < n
            invariant
                self.wf(),
                map == self.symbols_map,
                n == map.modules@.len(),
                module_id <= n,
                res@ == "digraph {"@ + nodes_text(map, module_id as int),
            decreases n - module_id,
        {
            let module = &self.symbols_map.modules[module_id];
            let ghost before = res@;
            res.append("\n  ");
            push_decimal(&mut res, module_id);
            res.append(" [label=\"");
            res.append(module.file_path.as_str());
            res.append("\"]");
            let ghost head = res@;
            let deps = &self.dependency_map[module_id];
            let mut k: usize = 0;
            while k < deps.len()
                invariant
                    k <= deps@.len(),
                    res@ == head + edge_lines(module_id as nat, deps@, k as int),
                decreases deps@.len() - k,
            {
                res.append("\n  ");
                push_decimal(&mut res, module_id);
                res.append(" -> ");
                push_decimal(&mut res, deps[k]);
                k = k + 1;
                assert(res@ =~= head + edge_lines(module_id as nat, deps@, k as int));
            }
            assert(res@ =~= "digraph {"@ + nodes_text(map, module_id + 1));
            module_id = module_id + 1;
        }
        res.append("\n}");
        res
    }
}

/// The Graphviz text of a dependency graph.
pub fn file_dependency_map_to_graphviz(depgraph: &LanternFileDependencyMap) -> (r: String)
    requires
        depgraph.wf(),
    ensures
        r@ == graphviz_of(depgraph.symbols_map),
{
    depgraph.graphviz()
}

/// Two maps agree on what the Graphviz text reads: the same module paths, the
/// same symbol lists, the same symbols.
pub open spec fn same_shape(m1: LNSymbolsMap, m2: LNSymbolsMap) -> bool {
    &&& m1.modules@.len() == m2.modules@.len()
    &&& forall|i: int| 0 <= i < m1.modules@.len() ==> #[trigger] m1.modules@[i].file_path@ == m2.modules@[i].file_path@
    &&& forall|i: int| 0 <= i < m1.modules@.len() ==> #[trigger] m1.modules@[i].symbols@ == m2.modules@[i].symbols@
    &&& m1.symbols@ == m2.symbols@
}

proof fn lemma_same_targets(m1: LNSymbolsMap, m2: LNSymbolsMap, m: int, k: int)
    requires
        same_shape(m1, m2),
        0 <= m < m1.modules@.len(),
    ensures
        targets_upto(m1, m, k) == targets_upto(m2, m, k),
    decreases k,
{
    if k > 0 {
        lemma_same_targets(m1, m2, m, k - 1);
        assert(m1.modules@[m].symbols@ == m2.modules@[m].symbols@);
        assert(sym_target(m1, m, k - 1) == sym_target(m2, m, k - 1));
    }
}

proof fn lemma_same_nodes(m1: LNSymbolsMap, m2: LNSymbolsMap, k: int)
    requires
        same_shape(m1, m2),
        0 <= k <= m1.modules@.len(),
    ensures
        nodes_text(m1, k) == nodes_text(m2, k),
    decreases k,
{
    if k > 0 {
        lemma_same_nodes(m1, m2, k - 1);
        let m = k - 1;
        assert(m1.modules@[m].symbols@ == m2.modules@[m].symbols@);
        assert(m1.modules@[m].file_path@ == m2.modules@[m].file_path@);
        lemma_same_targets(m1, m2, m, m1.modules@[m].symbols@.len() as int);
        assert(spec_dependencies(m1, m) == spec_dependencies(m2, m));
        assert(node_text(m1, m) == node_text(m2, m));
    }
}

/// Building twice gives the same text: the Graphviz text of a built graph
/// depends only on the module paths, the symbol lists and the symbols of its map.
pub proof fn lemma_graphviz_deterministic(g1: LanternFileDependencyMap, g2: LanternFileDependencyMap)
    requires
        g1.wf(),
        g2.wf(),
        same_shape(g1.symbols_map, g2.symbols_map),
    ensures
        graphviz_of(g1.symbols_map) == graphviz_of(g2.symbols_map),
{
    lemma_same_nodes(g1.symbols_map, g2.symbols_map, g1.symbols_map.modules@.len() as int);
}

} // verus!
