use vstd::prelude::*;

use crate::symbol::{LNSymbol, LNSymbolData};
use crate::symbols_map::LNSymbolsMap;

verus! {

/// The symbols of module `m`, in the order of its list.
pub open spec fn symbols_of(map: LNSymbolsMap, m: int) -> Seq<LNSymbol> {
    map.modules@[m].symbols@.map_values(|s: usize| map.symbols@[s as int])
}

/// A re-export in a reportable module.
pub open spec fn reported_reexport_pred(map: LNSymbolsMap) -> spec_fn(LNSymbol) -> bool {
    |x: LNSymbol| x.symbol.is_reexport() && map.reportable(x.module_id)
}

/// The reported re-exports of the first `k` modules, module by module.
pub open spec fn reexports_upto(map: LNSymbolsMap, k: int) -> Seq<LNSymbol>
    decreases k,
{
    if k <= 0 {
        Seq::empty()
    } else {
        reexports_upto(map, k - 1) + symbols_of(map, k - 1).filter(reported_reexport_pred(map))
    }
}

/// Every `export * from` and `export { .. } from` of the map, in module order and
/// then in the order of each module's symbols, leaving out entry points and
/// modules under `node_modules`.
pub fn find_files_with_reexports(ln_map: &LNSymbolsMap) -> (r: Vec<LNSymbol>)
    requires
        ln_map.wf(),
    ensures
        r@ == reexports_upto(*ln_map, ln_map.modules@.len() as int),
{
    let ghost map = *ln_map;
    let mut re_exports: Vec<LNSymbol> = Vec::new();
    let n = ln_map.modules.len();
    let mut m: usize = 0;
    while m < n
        invariant
            map == *ln_map,
            map.wf(),
            n == map.modules@.len(),
            m <= n,
            re_exports@ == reexports_upto(map, m as int),
        decreases n - m,
    {
        let module = &ln_map.modules[m];
        let ghost base = re_exports@;
        let ghost all = symbols_of(map, m as int);
        let mut k: usize = 0;
        while k < module.symbols.len()
            invariant
                map == *ln_map,
                map.wf(),
                m < n,
                n == map.modules@.len(),
                *module == map.modules@[m as int],
                all == symbols_of(map, m as int),
                all.len() == module.symbols@.len(),
                k <= all.len(),
                re_exports@ == base + all.subrange(0, k as int).filter(reported_reexport_pred(map)),
            decreases all.len() - k,
        {
            let symbol = &ln_map.symbols[module.symbols[k]];
            proof {
                assert(all[k as int] == *symbol);
                assert(all.subrange(0, k + 1) =~= all.subrange(0, k as int).push(*symbol));
                all.subrange(0, k as int).lemma_filter_push(*symbol, reported_reexport_pred(map));
            }
            let is_reexport = match &symbol.symbol {
                LNSymbolData::ExportAll(_) => true,
                LNSymbolData::ExportNamed(_, _, _, Some(_)) => true,
                _ => false,
            };
            if is_reexport && ln_map.is_reportable(symbol.module_id) {
                let ghost before = re_exports@;
                re_exports.push(symbol.clone());
                assert(re_exports@ =~= before.push(*symbol));
            }
            k = k + 1;
        }
        proof {
            assert(all.subrange(0, all.len() as int) =~= all);
        }
        m = m + 1;
    }
    re_exports
}

} // verus!
