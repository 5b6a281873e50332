use vstd::prelude::*;

use vstd::string::*;
use vstd::utf8::{encode_utf8, is_char_boundary};

use crate::module::LNModule;
use crate::symbol::{LNSymbol, LNSymbolData, Span};
use crate::text::{
    contains_seq, has_json_extension, is_in_node_modules, is_json_path, line_number, line_number_at,
    node_modules_marker,
};

verus! {

/// The symbol table of a project: its modules and their imports and exports,
/// both in append-only vectors indexed by id.
#[derive(Debug)]
pub struct LNSymbolsMap {
    pub modules: Vec<LNModule>,
    pub symbols: Vec<LNSymbol>,
    pub sources: Vec<Option<String>>,
}

impl LNSymbolsMap {
    /// Ids are dense, every reference names an existing module, each module lists
    /// its own symbols and no others, no path occurs twice and no `json` file is a module.
    pub open spec fn wf(&self) -> bool {
        &&& forall|i: int, k: int|
            0 <= i < self.modules@.len() && 0 <= k < self.modules@[i].symbols@.len() ==> {
                let s = #[trigger] self.modules@[i].symbols@[k];
                &&& s < self.symbols@.len()
                &&& self.symbols@[s as int].module_id == i
            }
        &&& forall|s: int|
            0 <= s < self.symbols@.len() ==> {
                &&& (#[trigger] self.symbols@[s]).module_id < self.modules@.len()
                &&& self.symbols@[s].symbol.refs_below(self.modules@.len())
            }
        &&& forall|i: int, j: int|
            0 <= i < self.modules@.len() && 0 <= j < self.modules@.len() && i != j
                ==> #[trigger] self.modules@[i].file_path@ != #[trigger] self.modules@[j].file_path@
        &&& forall|i: int|
            0 <= i < self.modules@.len() ==> !has_json_extension(
                (#[trigger] self.modules@[i]).file_path@,
            )
        &&& forall|s: int|
            0 <= s < self.symbols@.len() ==> self.modules@[(#[trigger] self.symbols@[s]).module_id as int].symbols@.contains(
                s as usize,
            )
        &&& self.sources@.len() == self.modules@.len()
    }

    /// The id of the module at path `p`, where there is one.
    pub open spec fn spec_module_id(&self, p: Seq<char>) -> Option<int> {
        if exists|i: int| 0 <= i < self.modules@.len() && #[trigger] self.modules@[i].file_path@ == p {
            Some(choose|i: int| 0 <= i < self.modules@.len() && #[trigger] self.modules@[i].file_path@ == p)
        } else {
            None
        }
    }

    /// The source text cached for a module, where one was stored.
    pub open spec fn spec_source(&self, module_id: int) -> Option<Seq<char>> {
        match self.sources@[module_id] {
            Some(s) => Some(s@),
            None => None,
        }
    }

    pub fn new() -> (r: Self)
        ensures
            r.wf(),
            r.modules@.len() == 0,
            r.symbols@.len() == 0,
    {
        Self { modules: Vec::new(), symbols: Vec::new(), sources: Vec::new() }
    }

    /// Registers a module by its path, as an entry point or not. A `json` file is refused (`None`); a path
    /// already known gives its id; a new path gets the next id, with no symbols.
    pub fn add_module(&mut self, file_path: String, is_entry: bool) -> (r: Option<usize>)
        requires
            old(self).wf(),
            old(self).modules@.len() < usize::MAX,
        ensures
            final(self).wf(),
            has_json_extension(file_path@) ==> r is None,
            !has_json_extension(file_path@) ==> r is Some,
            r is Some && old(self).spec_module_id(file_path@) is Some ==> r->Some_0
                == old(self).spec_module_id(file_path@)->Some_0,
            r is Some && old(self).spec_module_id(file_path@) is None ==> {
                &&& r->Some_0 == old(self).modules@.len()
                &&& final(self).modules@.len() == old(self).modules@.len() + 1
                &&& final(self).modules@.subrange(0, r->Some_0 as int) == old(self).modules@
                &&& final(self).modules@[r->Some_0 as int].file_path == file_path
                &&& final(self).modules@[r->Some_0 as int].is_entry == is_entry
                &&& final(self).modules@[r->Some_0 as int].symbols@.len() == 0
            },
            r is None || old(self).spec_module_id(file_path@) is Some ==> final(self).modules@
                == old(self).modules@,
            final(self).symbols@ == old(self).symbols@,
            forall|i: int|
                0 <= i < old(self).modules@.len() ==> #[trigger] final(self).spec_source(i)
                    == old(self).spec_source(i),
    {
        if is_json_path(file_path.as_str()) {
            return None;
        }
        if let Some(id) = self.get_module_id(file_path.as_str()) {
            return Some(id);
        }
        let id = self.modules.len();
        let m = LNModule::new(file_path, is_entry);
        self.modules.push(m);
        self.sources.push(None);
        proof {
            assert(self.modules@.subrange(0, id as int) =~= old(self).modules@);
            assert forall|i: int| 0 <= i < old(self).modules@.len() implies #[trigger] self.spec_source(i)
                == old(self).spec_source(i) by {
                assert(self.sources@[i] == old(self).sources@[i]);
            }
            assert forall|i: int, j: int|
                0 <= i < self.modules@.len() && 0 <= j < self.modules@.len() && i != j
                    implies #[trigger] self.modules@[i].file_path@ != #[trigger] self.modules@[j].file_path@ by {
                if i == id as int {
                    assert(old(self).modules@[j].file_path@ != self.modules@[i].file_path@);
                } else if j == id as int {
                    assert(old(self).modules@[i].file_path@ != self.modules@[j].file_path@);
                }
            }
            assert forall|s: int| 0 <= s < self.symbols@.len() implies #[trigger] self.symbols@[s].symbol.refs_below(
                self.modules@.len(),
            ) by {
                assert(old(self).symbols@[s].symbol.refs_below(old(self).modules@.len()));
            }
        }
        Some(id)
    }

    pub fn get_module(&self, id: usize) -> (r: Option<&LNModule>)
        ensures
            id < self.modules@.len() ==> r == Some(&self.modules@[id as int]),
            id >= self.modules@.len() ==> r is None,
    {
        if id < self.modules.len() {
            Some(&self.modules[id])
        } else {
            None
        }
    }

    pub fn has_module(&self, path: &str) -> (r: bool)
        ensures
            r == (self.spec_module_id(path@) is Some),
    {
        self.get_module_id(path).is_some()
    }

    pub fn get_module_id(&self, path: &str) -> (r: Option<usize>)
        ensures
            r is Some <==> self.spec_module_id(path@) is Some,
            r is Some ==> r->Some_0 < self.modules@.len() && self.modules@[r->Some_0 as int].file_path@
                == path@,
            self.wf() && r is Some ==> r->Some_0 == self.spec_module_id(path@)->Some_0,
    {
        let key = path.to_owned();
        let mut i: usize = 0;
        while i < self.modules.len()
            invariant
                i <= self.modules@.len(),
                key@ == path@,
                forall|j: int| 0 <= j < i ==> #[trigger] self.modules@[j].file_path@ != path@,
            decreases self.modules@.len() - i,
        {
            if self.modules[i].file_path == key {
                proof {
                    let c = choose|j: int|
                        0 <= j < self.modules@.len() && #[trigger] self.modules@[j].file_path@ == path@;
                    assert(self.modules@[i as int].file_path@ == path@);
                }
                return Some(i);
            }
            i = i + 1;
        }
        None
    }

    /// Appends a symbol to the map and to its module's list, returning its id.
    pub fn add_symbol(&mut self, module_id: usize, symbol: LNSymbol) -> (r: usize)
        requires
            old(self).wf(),
            module_id < old(self).modules@.len(),
            symbol.module_id == module_id,
            symbol.symbol.refs_below(old(self).modules@.len()),
            old(self).symbols@.len() < usize::MAX,
        ensures
            final(self).wf(),
            r == old(self).symbols@.len(),
            final(self).symbols@ == old(self).symbols@.push(symbol),
            final(self).modules@.len() == old(self).modules@.len(),
            forall|i: int|
                0 <= i < final(self).modules@.len() && i != module_id ==> #[trigger] final(self).modules@[i]
                    == old(self).modules@[i],
            final(self).modules@[module_id as int].symbols@ == old(self).modules@[module_id as int].symbols@.push(r),
            final(self).modules@[module_id as int].file_path == old(self).modules@[module_id as int].file_path,
            final(self).modules@[module_id as int].is_entry == old(self).modules@[module_id as int].is_entry,
            forall|i: int|
                0 <= i < old(self).modules@.len() ==> #[trigger] final(self).spec_source(i)
                    == old(self).spec_source(i),
    {
        let id = self.symbols.len();
        self.symbols.push(symbol);
        self.modules[module_id].symbols.push(id);
        proof {
            assert forall|i: int, k: int|
                0 <= i < self.modules@.len() && 0 <= k < self.modules@[i].symbols@.len() implies {
                    let s = #[trigger] self.modules@[i].symbols@[k];
                    &&& s < self.symbols@.len()
                    &&& self.symbols@[s as int].module_id == i
                } by {
                if i != module_id as int || k < old(self).modules@[i].symbols@.len() {
                    assert(self.modules@[i].symbols@[k] == old(self).modules@[i].symbols@[k]);
                }
            }
            assert forall|s: int| 0 <= s < self.symbols@.len() implies {
                &&& (#[trigger] self.symbols@[s]).module_id < self.modules@.len()
                &&& self.symbols@[s].symbol.refs_below(self.modules@.len())
            } by {
                if s < id {
                    assert(self.symbols@[s] == old(self).symbols@[s]);
                }
            }
            assert forall|i: int, j: int|
                0 <= i < self.modules@.len() && 0 <= j < self.modules@.len() && i != j
                    implies #[trigger] self.modules@[i].file_path@ != #[trigger] self.modules@[j].file_path@ by {
                assert(old(self).modules@[i].file_path@ != old(self).modules@[j].file_path@);
            }
            assert forall|i: int| 0 <= i < self.modules@.len() implies !has_json_extension(
                (#[trigger] self.modules@[i]).file_path@,
            ) by {
                assert(!has_json_extension(old(self).modules@[i].file_path@));
            }
            assert forall|s: int| 0 <= s < self.symbols@.len() implies self.modules@[(#[trigger] self.symbols@[s]).module_id as int].symbols@.contains(
                s as usize,
            ) by {
                let o = self.symbols@[s].module_id as int;
                if s < id {
                    assert(self.symbols@[s] == old(self).symbols@[s]);
                    assert(old(self).modules@[o].symbols@.contains(s as usize));
                    let k = choose|k: int| 0 <= k < old(self).modules@[o].symbols@.len() && old(self).modules@[o].symbols@[k] == s as usize;
                    assert(self.modules@[o].symbols@[k] == s as usize);
                } else {
                    let l = old(self).modules@[o].symbols@.len() as int;
                    assert(self.modules@[o].symbols@[l] == s as usize);
                }
            }
        }
        id
    }

    pub fn get_module_path(&self, module_id: usize) -> (r: &String)
        requires
            module_id < self.modules@.len(),
        ensures
            *r == self.modules@[module_id as int].file_path,
    {
        &self.modules[module_id].file_path
    }

    /// Keeps the source text of a module for later span lookups.
    pub fn set_module_source(&mut self, module_id: usize, source: String)
        requires
            old(self).wf(),
            module_id < old(self).modules@.len(),
        ensures
            final(self).wf(),
            final(self).modules@ == old(self).modules@,
            final(self).symbols@ == old(self).symbols@,
            final(self).spec_source(module_id as int) == Some(source@),
            forall|i: int|
                0 <= i < old(self).modules@.len() && i != module_id ==> #[trigger] final(self).spec_source(i)
                    == old(self).spec_source(i),
    {
        self.sources.set(module_id, Some(source));
    }

    /// The source text kept for a module, if any.
    pub fn get_module_source(&self, module_id: usize) -> (r: Option<&str>)
        requires
            self.wf(),
            module_id < self.modules@.len(),
        ensures
            r is Some <==> self.spec_source(module_id as int) is Some,
            r is Some ==> r->Some_0@ == self.spec_source(module_id as int)->Some_0,
    {
        match &self.sources[module_id] {
            Some(s) => Some(s.as_str()),
            None => None,
        }
    }

    /// The source text that `span` covers in the module's kept source: `None`
    /// where no source is kept, or the span is reversed, runs past the end or
    /// does not start and end on character boundaries.
    pub fn read_span_from_module(&self, module_id: usize, span: &Span) -> (r: Option<&str>)
        requires
            self.wf(),
            module_id < self.modules@.len(),
        ensures
            match self.sources@[module_id as int] {
                Some(s) => {
                    let b = encode_utf8(s@);
                    let ok = span.start <= span.end && span.end <= b.len() && is_char_boundary(b, span.start as int)
                        && is_char_boundary(b.subrange(span.start as int, b.len() as int), span.end - span.start);
                    &&& ok ==> r is Some && r->Some_0.spec_bytes() == b.subrange(span.start as int, span.end as int)
                    &&& !ok ==> r is None
                },
                None => r is None,
            },
    {
        match &self.sources[module_id] {
            Some(s) => {
                let text = s.as_str();
                let len = text.as_bytes().len();
                let start = span.start as usize;
                let end = span.end as usize;
                if start > end || end > len || !text.is_char_boundary(start) {
                    return None;
                }
                let (_, rest) = text.split_at(start);
                if !rest.is_char_boundary(end - start) {
                    return None;
                }
                let (part, _) = rest.split_at(end - start);
                proof {
                    let b = encode_utf8(s@);
                    assert(rest.spec_bytes().subrange(0, end - start) =~= b.subrange(start as int, end as int));
                }
                Some(part)
            },
            None => None,
        }
    }

    /// The line on which `span` starts in the module's kept source text: `None`
    /// where no source is kept or the span starts beyond its end.
    pub fn get_line_number_from_span(&self, module_id: usize, span: &Span) -> (r: Option<usize>)
        requires
            self.wf(),
            module_id < self.modules@.len(),
        ensures
            match self.sources@[module_id as int] {
                Some(s) => if span.start <= encode_utf8(s@).len() {
                    r == Some(line_number(encode_utf8(s@), span.start as int) as usize)
                } else {
                    r is None
                },
                None => r is None,
            },
    {
        match &self.sources[module_id] {
            Some(s) => {
                let text = s.as_str();
                let len = text.as_bytes().len();
                if (span.start as usize) <= len {
                    Some(line_number_at(text, span.start as usize))
                } else {
                    None
                }
            },
            None => None,
        }
    }
}

} // verus!

verus! {

impl LNSymbolsMap {
    /// Findings in module `module_id` are reported: it exists, is no entry point
    /// and does not lie under `node_modules`.
    pub open spec fn reportable(&self, module_id: usize) -> bool {
        &&& module_id < self.modules@.len()
        &&& !self.modules@[module_id as int].is_entry
        &&& !contains_seq(self.modules@[module_id as int].file_path@, node_modules_marker())
    }

    pub fn is_reportable(&self, module_id: usize) -> (r: bool)
        ensures
            r == self.reportable(module_id),
    {
        if module_id >= self.modules.len() {
            return false;
        }
        let m = &self.modules[module_id];
        !m.is_entry && !is_in_node_modules(m.file_path.as_str())
    }

    /// The symbols of `s` whose module is reportable, in order.
    pub fn keep_reportable(&self, s: &Vec<LNSymbol>) -> (r: Vec<LNSymbol>)
        ensures
            r@ == s@.filter(self.reportable_pred()),
    {
        let mut r: Vec<LNSymbol> = Vec::new();
        let mut i: usize = 0;
        while i < s.len()
            invariant
                i <= s@.len(),
                r@ == s@.subrange(0, i as int).filter(self.reportable_pred()),
            decreases s@.len() - i,
        {
            proof {
                assert(s@.subrange(0, i + 1) =~= s@.subrange(0, i as int).push(s@[i as int]));
                s@.subrange(0, i as int).lemma_filter_push(s@[i as int], self.reportable_pred());
            }
            if self.is_reportable(s[i].module_id) {
                r.push(s[i].clone());
            }
            i = i + 1;
        }
        assert(s@.subrange(0, i as int) =~= s@);
        r
    }

    pub open spec fn reportable_pred(&self) -> spec_fn(LNSymbol) -> bool {
        |x: LNSymbol| self.reportable(x.module_id)
    }
}

} // verus!

verus! {

/// In a well-formed map, which every operation that builds one keeps, each
/// symbol's module and each module a symbol refers to exist, and each id a
/// module lists names a symbol, which its own module lists.
pub proof fn lemma_ids_in_range(map: LNSymbolsMap)
    requires
        map.wf(),
    ensures
        forall|s: int|
            0 <= s < map.symbols@.len() ==> (#[trigger] map.symbols@[s]).module_id < map.modules@.len(),
        forall|s: int|
            0 <= s < map.symbols@.len() && (#[trigger] map.symbols@[s]).symbol.file_ref() is Some
                ==> map.symbols@[s].symbol.file_ref()->Some_0.module_id < map.modules@.len(),
        forall|i: int, k: int|
            0 <= i < map.modules@.len() && 0 <= k < map.modules@[i].symbols@.len()
                ==> #[trigger] map.modules@[i].symbols@[k] < map.symbols@.len(),
        forall|s: int|
            0 <= s < map.symbols@.len() ==> map.modules@[(#[trigger] map.symbols@[s]).module_id as int].symbols@.contains(
                s as usize,
            ),
{
    assert forall|s: int|
        0 <= s < map.symbols@.len() && (#[trigger] map.symbols@[s]).symbol.file_ref() is Some
            implies map.symbols@[s].symbol.file_ref()->Some_0.module_id < map.modules@.len() by {
        assert(map.symbols@[s].symbol.refs_below(map.modules@.len()));
    }
}

} // verus!
