use vstd::prelude::*;

use crate::declaration::{binding_symbols, decl_symbols, declaration_symbols, Binding, Declaration};
use crate::symbol::{LNSymbol, LNSymbolData};
use crate::symbols_map::LNSymbolsMap;
use crate::text::has_json_extension;

verus! {

/// The symbols `s`, owned by module `m`.
pub open spec fn owned_by(m: usize, s: Seq<LNSymbolData>) -> Seq<LNSymbol> {
    s.map_values(|d: LNSymbolData| LNSymbol { module_id: m, symbol: d })
}

/// `n` consecutive ids from `start`.
pub open spec fn id_range(start: nat, n: nat) -> Seq<usize> {
    Seq::new(n, |j: int| (start + j) as usize)
}

proof fn lemma_decl_symbols_len(d: Declaration, t: Option<usize>)
    ensures
        decl_symbols(d, t).len() <= decl_symbols(d, Some(0usize)).len(),
{
}

fn has_specifier(d: &Declaration) -> (r: bool)
    ensures
        r == d.has_specifier(),
{
    match d {
        Declaration::ExportAll(_) => true,
        Declaration::Import(_, _, _) => true,
        Declaration::ExportNamed(_, Some(_)) => true,
        _ => false,
    }
}

impl LNSymbolsMap {
    /// The module that a resolved path leads to once registered: none for a
    /// `json` file, else the known module of that path, else a new one.
    pub open spec fn target_of(&self, p: Seq<char>) -> Option<usize> {
        if has_json_extension(p) {
            None
        } else {
            match self.spec_module_id(p) {
                Some(i) => Some(i as usize),
                None => Some(self.modules@.len() as usize),
            }
        }
    }

    /// Where a declaration of module `module_id` leads: for one with a specifier,
    /// the module of its resolved path.
    pub open spec fn decl_target(&self, decl: Declaration, resolved: Option<String>) -> Option<usize> {
        if decl.has_specifier() {
            self.target_of(resolved->Some_0@)
        } else {
            None
        }
    }

    /// Records one top-level declaration of module `module_id`. `resolved` is
    /// the path the declaration's specifier resolved to, if it has one; where
    /// resolution failed (`None`) the declaration is skipped. A resolved path is
    /// registered as a module (unless it is a `json` file), then the
    /// declaration's symbols are appended, in order, to the map and to the module.
    pub fn add_declaration(&mut self, module_id: usize, decl: &Declaration, resolved: Option<String>)
        requires
            old(self).wf(),
            module_id < old(self).modules@.len(),
            old(self).modules@.len() < usize::MAX,
            old(self).symbols@.len() + decl_symbols(*decl, Some(0usize)).len() < usize::MAX,
        ensures
            final(self).wf(),
            decl.has_specifier() && resolved is None ==> final(self).modules@ == old(self).modules@
                && final(self).symbols@ == old(self).symbols@,
            !(decl.has_specifier() && resolved is None) ==> {
                let t = old(self).decl_target(*decl, resolved);
                let added = decl_symbols(*decl, t);
                let n = old(self).modules@.len();
                &&& final(self).symbols@ == old(self).symbols@ + owned_by(module_id, added)
                &&& t == Some(n as usize) ==> {
                    &&& final(self).modules@.len() == n + 1
                    &&& final(self).modules@[n as int].file_path == resolved->Some_0
                    &&& !final(self).modules@[n as int].is_entry
                    &&& final(self).modules@[n as int].symbols@.len() == 0
                }
                &&& t != Some(n as usize) ==> final(self).modules@.len() == n
                &&& forall|i: int| 0 <= i < n && i != module_id ==> #[trigger] final(self).modules@[i] == old(self).modules@[i]
                &&& final(self).modules@[module_id as int].file_path == old(self).modules@[module_id as int].file_path
                &&& final(self).modules@[module_id as int].is_entry == old(self).modules@[module_id as int].is_entry
                &&& final(self).modules@[module_id as int].symbols@ == old(self).modules@[module_id as int].symbols@
                    + id_range(old(self).symbols@.len(), added.len())
            },
    {
        let target = if has_specifier(decl) {
            match resolved {
                None => {
                    return;
                },
                Some(p) => self.add_module(p, false),
            }
        } else {
            None
        };
        proof {
            lemma_decl_symbols_len(*decl, target);
            if decl.has_specifier() {
                let p = resolved->Some_0@;
                if old(self).spec_module_id(p) is Some {
                    let i = old(self).spec_module_id(p)->Some_0;
                    assert(0 <= i < old(self).modules@.len() && old(self).modules@[i].file_path@ == p);
                }
            }
        }
        let syms = declaration_symbols(decl, target);
        let ghost mid = *self;
        let ghost base = self.symbols@.len();
        let mut i: usize = 0;
        while i < syms.len()
            invariant
                self.wf(),
                mid.wf(),
                module_id < mid.modules@.len(),
                base == mid.symbols@.len(),
                base + syms@.len() < usize::MAX,
                i <= syms@.len(),
                target is Some ==> target->Some_0 < mid.modules@.len(),
                syms@ == decl_symbols(*decl, target),
                self.symbols@ == mid.symbols@ + owned_by(module_id, syms@.subrange(0, i as int)),
                self.modules@.len() == mid.modules@.len(),
                forall|j: int| 0 <= j < mid.modules@.len() && j != module_id ==> #[trigger] self.modules@[j] == mid.modules@[j],
                self.modules@[module_id as int].file_path == mid.modules@[module_id as int].file_path,
                self.modules@[module_id as int].is_entry == mid.modules@[module_id as int].is_entry,
                self.modules@[module_id as int].symbols@ == mid.modules@[module_id as int].symbols@ + id_range(base, i as nat),
            decreases syms@.len() - i,
        {
            let symbol = LNSymbol { module_id, symbol: syms[i].clone() };
            proof {
                assert(symbol.symbol.refs_below(self.modules@.len())) by {
                    assert(decl_symbols(*decl, target)[i as int] == syms@[i as int]);
                    lemma_symbol_refs(*decl, target, i as int);
                }
            }
            let ghost before = self.modules@[module_id as int].symbols@;
            self.add_symbol(module_id, symbol);
            i = i + 1;
            proof {
                assert(owned_by(module_id, syms@.subrange(0, i as int)) =~= owned_by(module_id, syms@.subrange(0, i - 1)).push(symbol));
                assert(id_range(base, i as nat) =~= id_range(base, (i - 1) as nat).push((base + i - 1) as usize));
                assert(self.symbols@ =~= mid.symbols@ + owned_by(module_id, syms@.subrange(0, i as int)));
                assert(self.modules@[module_id as int].symbols@ =~= mid.modules@[module_id as int].symbols@ + id_range(base, i as nat));
            }
        }
        proof {
            assert(syms@.subrange(0, i as int) =~= syms@);
        }
    }
}

/// Every reference a declaration's symbols hold leads to its target.
proof fn lemma_symbol_refs(d: Declaration, t: Option<usize>, i: int)
    requires
        0 <= i < decl_symbols(d, t).len(),
    ensures
        decl_symbols(d, t)[i].file_ref() is Some ==> t is Some && decl_symbols(d, t)[i].file_ref()->Some_0.module_id == t->Some_0,
{
    match d {
        Declaration::ExportVariables(bs) => {
            lemma_binding_symbols_plain(bs@, i);
        },
        _ => {},
    }
}

proof fn lemma_binding_symbols_plain(bs: Seq<Binding>, i: int)
    requires
        0 <= i < binding_symbols(bs).len(),
    ensures
        binding_symbols(bs)[i] is ExportDecl,
    decreases bs.len(),
{
    let r = binding_symbols(bs.drop_last());
    if i < r.len() {
        lemma_binding_symbols_plain(bs.drop_last(), i);
    }
}

} // verus!
