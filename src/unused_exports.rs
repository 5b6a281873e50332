use vstd::prelude::*;

use crate::symbol::{LNSymbol, LNSymbolData};
use crate::symbols_map::LNSymbolsMap;

verus! {

/// The characters of `default`.
pub open spec fn default_word() -> Seq<char> {
    seq!['d', 'e', 'f', 'a', 'u', 'l', 't']
}

pub open spec fn export_pred() -> spec_fn(LNSymbol) -> bool {
    |x: LNSymbol| x.symbol.is_export()
}

pub open spec fn outside_module_pred(t: usize) -> spec_fn(LNSymbol) -> bool {
    |x: LNSymbol| x.module_id != t
}

/// The module all of whose exports a consumer takes: `export * from` and
/// `import * as`.
pub open spec fn takes_module(c: LNSymbolData) -> Option<usize> {
    match c {
        LNSymbolData::ExportAll(f) => Some(f.module_id),
        LNSymbolData::ImportStar(_, _, f, _) => Some(f.module_id),
        _ => None,
    }
}

/// The consumers that take one export each: default and named imports, and
/// named re-exports.
pub open spec fn takes_single(c: LNSymbolData) -> bool {
    c is ImportDefault || c is ImportNamed || (c is ExportNamed && c->ExportNamed_3 is Some)
}

/// Whether consumer `c` may take export `x`.
pub open spec fn takes_one(c: LNSymbolData, x: LNSymbol) -> bool {
    match c {
        LNSymbolData::ImportDefault(_, _, f, _) => x.module_id == f.module_id
            && x.symbol.is_default_export(),
        LNSymbolData::ImportNamed(_, imported, _, f, _) => x.module_id == f.module_id && (
        x.symbol is ExportAll || x.symbol.spec_name() == Some(imported@)),
        LNSymbolData::ExportNamed(local, _, _, f) => match f {
            Some(f) => x.module_id == f.module_id && (x.symbol.spec_name() == Some(local@) || (
            x.symbol is ExportDefaultExpr && local@ == default_word())),
            None => false,
        },
        _ => false,
    }
}

/// `e` without its first element that `c` takes.
pub open spec fn remove_first(e: Seq<LNSymbol>, c: LNSymbolData) -> Seq<LNSymbol>
    decreases e.len(),
{
    if e.len() == 0 {
        e
    } else if takes_one(c, e[0]) {
        e.drop_first()
    } else {
        seq![e[0]] + remove_first(e.drop_first(), c)
    }
}

/// What is left of the exports `e` after symbol `c`.
pub open spec fn consume_step(e: Seq<LNSymbol>, c: LNSymbolData) -> Seq<LNSymbol> {
    match takes_module(c) {
        Some(t) => e.filter(outside_module_pred(t)),
        None => if takes_single(c) {
            remove_first(e, c)
        } else {
            e
        },
    }
}

/// What is left of the exports `e` after the symbols `s`, taken in order.
pub open spec fn after_consumers(e: Seq<LNSymbol>, s: Seq<LNSymbol>) -> Seq<LNSymbol>
    decreases s.len(),
{
    if s.len() == 0 {
        e
    } else {
        consume_step(after_consumers(e, s.drop_last()), s.last().symbol)
    }
}

/// The unused exports of a map: of all exports, those that no symbol of the map
/// takes, in reportable modules, in symbol order.
pub open spec fn unused_exports_of(m: LNSymbolsMap) -> Seq<LNSymbol> {
    after_consumers(m.symbols@.filter(export_pred()), m.symbols@).filter(m.reportable_pred())
}

proof fn lemma_remove_first_at(e: Seq<LNSymbol>, c: LNSymbolData, j: int)
    requires
        0 <= j <= e.len(),
        forall|k: int| 0 <= k < j ==> !takes_one(c, #[trigger] e[k]),
        j < e.len() ==> takes_one(c, e[j]),
    ensures
        remove_first(e, c) == if j < e.len() {
            e.remove(j)
        } else {
            e
        },
    decreases e.len(),
{
    if e.len() == 0 {
    } else if j == 0 {
        assert(e.drop_first() =~= e.remove(0));
    } else {
        let t = e.drop_first();
        assert forall|k: int| 0 <= k < j - 1 implies !takes_one(c, #[trigger] t[k]) by {
            assert(t[k] == e[k + 1]);
        }
        lemma_remove_first_at(t, c, j - 1);
        if j < e.len() {
            assert(seq![e[0]] + t.remove(j - 1) =~= e.remove(j));
        } else {
            assert(seq![e[0]] + t =~= e);
        }
    }
}

fn is_default_word(s: &String) -> (r: bool)
    ensures
        r == (s@ == default_word()),
{
    let d = String::from_str("default");
    proof {
        reveal_strlit("default");
        assert(d@ =~= default_word());
    }
    *s == d
}

fn name_is(x: &LNSymbolData, n: &String) -> (r: bool)
    ensures
        r == (x.spec_name() == Some(n@)),
{
    match x {
        LNSymbolData::ExportAll(_) => false,
        LNSymbolData::ExportDefaultExpr(_) => false,
        LNSymbolData::ExportNamed(_, e, _, _) => *e == *n,
        LNSymbolData::ExportDecl(e, _) => *e == *n,
        LNSymbolData::ExportFnDecl(e, _) => *e == *n,
        LNSymbolData::ExportClassDecl(e, _) => *e == *n,
        LNSymbolData::ExportEnumDecl(e, _) => *e == *n,
        LNSymbolData::ExportInterfaceDecl(e, _) => *e == *n,
        LNSymbolData::ExportTypeAliasDecl(e, _) => *e == *n,
        LNSymbolData::ExportDefaultClassDecl(e, _) => match e {
            Some(e) => *e == *n,
            None => false,
        },
        LNSymbolData::ExportDefaultFnDecl(e, _) => match e {
            Some(e) => *e == *n,
            None => false,
        },
        LNSymbolData::ExportDefaultInterfaceDecl(e, _) => *e == *n,
        LNSymbolData::ImportDefault(e, _, _, _) => *e == *n,
        LNSymbolData::ImportStar(e, _, _, _) => *e == *n,
        LNSymbolData::ImportNamed(e, _, _, _, _) => *e == *n,
    }
}

fn is_default_export(x: &LNSymbolData) -> (r: bool)
    ensures
        r == x.is_default_export(),
{
    match x {
        LNSymbolData::ExportDefaultClassDecl(_, _)
        | LNSymbolData::ExportDefaultExpr(_)
        | LNSymbolData::ExportDefaultFnDecl(_, _)
        | LNSymbolData::ExportDefaultInterfaceDecl(_, _) => true,
        _ => false,
    }
}

fn takes(c: &LNSymbolData, x: &LNSymbol) -> (r: bool)
    ensures
        r == takes_one(*c, *x),
{
    match c {
        LNSymbolData::ImportDefault(_, _, f, _) => x.module_id == f.module_id
            && is_default_export(&x.symbol),
        LNSymbolData::ImportNamed(_, imported, _, f, _) => {
            if x.module_id != f.module_id {
                return false;
            }
            if let LNSymbolData::ExportAll(_) = x.symbol {
                return true;
            }
            name_is(&x.symbol, imported)
        },
        LNSymbolData::ExportNamed(local, _, _, Some(f)) => {
            if x.module_id != f.module_id {
                return false;
            }
            if name_is(&x.symbol, local) {
                return true;
            }
            if let LNSymbolData::ExportDefaultExpr(_) = x.symbol {
                return is_default_word(local);
            }
            false
        },
        _ => false,
    }
}

/// The symbols of `s` outside module `t`, in order.
fn without_module(s: &Vec<LNSymbol>, t: usize) -> (r: Vec<LNSymbol>)
    ensures
        r@ == s@.filter(outside_module_pred(t)),
{
    let mut r: Vec<LNSymbol> = Vec::new();
    let mut i: usize = 0;
    while i < s.len()
        invariant
            i <= s@.len(),
            r@ == s@.subrange(0, i as int).filter(outside_module_pred(t)),
        decreases s@.len() - i,
    {
        proof {
            assert(s@.subrange(0, i + 1) =~= s@.subrange(0, i as int).push(s@[i as int]));
            s@.subrange(0, i as int).lemma_filter_push(s@[i as int], outside_module_pred(t));
        }
        if s[i].module_id != t {
            r.push(s[i].clone());
        }
        i = i + 1;
    }
    assert(s@.subrange(0, i as int) =~= s@);
    r
}

/// The exports among `s`, in order.
fn exports_among(s: &Vec<LNSymbol>) -> (r: Vec<LNSymbol>)
    ensures
        r@ == s@.filter(export_pred()),
{
    let mut r: Vec<LNSymbol> = Vec::new();
    let mut i: usize = 0;
    while i < s.len()
        invariant
            i <= s@.len(),
            r@ == s@.subrange(0, i as int).filter(export_pred()),
        decreases s@.len() - i,
    {
        proof {
            assert(s@.subrange(0, i + 1) =~= s@.subrange(0, i as int).push(s@[i as int]));
            s@.subrange(0, i as int).lemma_filter_push(s@[i as int], export_pred());
        }
        let is_export = match &s[i].symbol {
            LNSymbolData::ImportDefault(_, _, _, _)
            | LNSymbolData::ImportStar(_, _, _, _)
            | LNSymbolData::ImportNamed(_, _, _, _, _) => false,
            _ => true,
        };
        if is_export {
            r.push(s[i].clone());
        }
        i = i + 1;
    }
    assert(s@.subrange(0, i as int) =~= s@);
    r
}

/// Applies one symbol to the exports still unused.
fn consume(exports: &mut Vec<LNSymbol>, c: &LNSymbolData)
    ensures
        final(exports)@ == consume_step(old(exports)@, *c),
{
    match c {
        LNSymbolData::ExportAll(f) => {
            *exports = without_module(exports, f.module_id);
        },
        LNSymbolData::ImportStar(_, _, f, _) => {
            *exports = without_module(exports, f.module_id);
        },
        LNSymbolData::ImportDefault(_, _, _, _)
        | LNSymbolData::ImportNamed(_, _, _, _, _)
        | LNSymbolData::ExportNamed(_, _, _, Some(_)) => {
            let mut j: usize = 0;
            while j < exports.len() && !takes(c, &exports[j])
                invariant
                    j <= exports@.len(),
                    forall|k: int| 0 <= k < j ==> !takes_one(*c, #[trigger] exports@[k]),
                decreases exports@.len() - j,
            {
                j = j + 1;
            }
            proof {
                lemma_remove_first_at(exports@, *c, j as int);
            }
            if j < exports.len() {
                exports.remove(j);
            }
        },
        _ => {},
    }
}

/// The exports of the map that no import or re-export takes, in modules that are
/// neither entry points nor under `node_modules`.
///
/// Every export starts unused. Each symbol, in id order, then takes exports:
/// `export * from M` and `import * as X from M` take all exports of `M`; an
/// `import X from M` takes the first default export of `M`; an
/// `import { a } from M` the first export of `M` named `a`, or its first
/// `export *`; an `export { a } from M` the first export of `M` named `a`, or,
/// where `a` is `default`, its first default expression.
pub fn find_unused_exports(ln_map: &LNSymbolsMap) -> (r: Vec<LNSymbol>)
    ensures
        r@ == unused_exports_of(*ln_map),
{
    let s = &ln_map.symbols;
    let mut exports = exports_among(s);
    let ghost seed = exports@;
    let mut i: usize = 0;
    while i < s.len()
        invariant
            i <= s@.len(),
            seed == s@.filter(export_pred()),
            exports@ == after_consumers(seed, s@.subrange(0, i as int)),
        decreases s@.len() - i,
    {
        assert(s@.subrange(0, i + 1).drop_last() =~= s@.subrange(0, i as int));
        consume(&mut exports, &s[i].symbol);
        i = i + 1;
    }
    assert(s@.subrange(0, i as int) =~= s@);
    ln_map.keep_reportable(&exports)
}

} // verus!

verus! {

pub open spec fn takes_pred(c: LNSymbolData) -> spec_fn(LNSymbol) -> bool {
    |x: LNSymbol| takes_one(c, x)
}

pub open spec fn in_module_pred(t: usize) -> spec_fn(LNSymbol) -> bool {
    |x: LNSymbol| x.module_id == t
}

proof fn lemma_filter_filter_len(s: Seq<LNSymbol>, p: spec_fn(LNSymbol) -> bool, q: spec_fn(LNSymbol) -> bool)
    ensures
        s.filter(p).filter(q).len() <= s.filter(q).len(),
    decreases s.len(),
{
    if s.len() > 0 {
        let r = s.drop_last();
        let e = s.last();
        assert(r.push(e) =~= s);
        lemma_filter_filter_len(r, p, q);
        r.lemma_filter_push(e, p);
        r.lemma_filter_push(e, q);
        r.filter(p).lemma_filter_push(e, q);
    }
}

proof fn lemma_filter_none(s: Seq<LNSymbol>, q: spec_fn(LNSymbol) -> bool)
    requires
        forall|k: int| 0 <= k < s.len() ==> !q(#[trigger] s[k]),
    ensures
        s.filter(q).len() == 0,
    decreases s.len(),
{
    if s.len() > 0 {
        let r = s.drop_last();
        assert(r.push(s.last()) =~= s);
        assert forall|k: int| 0 <= k < r.len() implies !q(#[trigger] r[k]) by {
            assert(r[k] == s[k]);
        }
        lemma_filter_none(r, q);
        r.lemma_filter_push(s.last(), q);
    }
}

proof fn lemma_filter_empty_none(s: Seq<LNSymbol>, q: spec_fn(LNSymbol) -> bool, x: LNSymbol)
    requires
        s.filter(q).len() == 0,
        s.contains(x),
    ensures
        !q(x),
{
    let k = choose|k: int| 0 <= k < s.len() && s[k] == x;
    if q(x) {
        s.lemma_filter_contains(q, k);
    }
}

proof fn lemma_remove_first_count(e: Seq<LNSymbol>, c: LNSymbolData, q: spec_fn(LNSymbol) -> bool)
    ensures
        remove_first(e, c).filter(q).len() <= e.filter(q).len(),
        q == takes_pred(c) ==> remove_first(e, c).filter(q).len() == if e.filter(q).len() == 0 {
            0
        } else {
            e.filter(q).len() - 1
        },
    decreases e.len(),
{
    if e.len() > 0 {
        let r = e.drop_first();
        assert(seq![e[0]] + r =~= e);
        r.lemma_filter_prepend(e[0], q);
        lemma_remove_first_count(r, c, q);
        if !takes_one(c, e[0]) {
            remove_first(r, c).lemma_filter_prepend(e[0], q);
        }
    }
}

proof fn lemma_consume_step_count(e: Seq<LNSymbol>, c: LNSymbolData, q: spec_fn(LNSymbol) -> bool)
    ensures
        consume_step(e, c).filter(q).len() <= e.filter(q).len(),
{
    match takes_module(c) {
        Some(t) => lemma_filter_filter_len(e, outside_module_pred(t), q),
        None => if takes_single(c) {
            lemma_remove_first_count(e, c, q);
        },
    }
}

proof fn lemma_after_consumers_count(
    seed: Seq<LNSymbol>,
    s: Seq<LNSymbol>,
    i: int,
    j: int,
    q: spec_fn(LNSymbol) -> bool,
)
    requires
        0 <= i <= j <= s.len(),
    ensures
        after_consumers(seed, s.subrange(0, j)).filter(q).len() <= after_consumers(
            seed,
            s.subrange(0, i),
        ).filter(q).len(),
    decreases j - i,
{
    if j > i {
        lemma_after_consumers_count(seed, s, i, j - 1, q);
        assert(s.subrange(0, j).drop_last() =~= s.subrange(0, j - 1));
        lemma_consume_step_count(after_consumers(seed, s.subrange(0, j - 1)), s[j - 1].symbol, q);
    }
}

/// No unused export is taken by a symbol of the map: none lies in a module that
/// an `export * from` or `import * as` names, and none is an export that an
/// import or named re-export takes, where that import or re-export could take
/// only one export of the whole map. (Where it could take several, such as two
/// exports of one name in one module, it takes the first only.)
pub proof fn lemma_unused_not_taken(m: LNSymbolsMap, i: int)
    requires
        0 <= i < m.symbols@.len(),
    ensures
        takes_module(m.symbols@[i].symbol) matches Some(t) ==> forall|x: LNSymbol|
            #[trigger] unused_exports_of(m).contains(x) ==> x.module_id != t,
        takes_single(m.symbols@[i].symbol) && m.symbols@.filter(export_pred()).filter(
            takes_pred(m.symbols@[i].symbol),
        ).len() <= 1 ==> forall|x: LNSymbol|
            #[trigger] unused_exports_of(m).contains(x) ==> !takes_one(m.symbols@[i].symbol, x),
{
    let s = m.symbols@;
    let seed = s.filter(export_pred());
    let c = s[i].symbol;
    let n = s.len() as int;
    let ei = after_consumers(seed, s.subrange(0, i));
    let ej = after_consumers(seed, s.subrange(0, i + 1));
    let all = after_consumers(seed, s);
    assert(s.subrange(0, i + 1).drop_last() =~= s.subrange(0, i));
    assert(s.subrange(0, i + 1).last() == s[i]);
    assert(s.subrange(0, n) =~= s);
    assert(ej == consume_step(ei, c));
    if let Some(t) = takes_module(c) {
        let q = in_module_pred(t);
        assert forall|k: int| 0 <= k < ej.len() implies !q(#[trigger] ej[k]) by {
            ei.lemma_filter_pred(outside_module_pred(t), k);
        }
        lemma_filter_none(ej, q);
        lemma_after_consumers_count(seed, s, i + 1, n, q);
        lemma_filter_filter_len(all, m.reportable_pred(), q);
        assert forall|x: LNSymbol| #[trigger] unused_exports_of(m).contains(x) implies x.module_id != t by {
            lemma_filter_empty_none(unused_exports_of(m), q, x);
        }
    }
    if takes_single(c) && seed.filter(takes_pred(c)).len() <= 1 {
        let q = takes_pred(c);
        assert(s.subrange(0, 0) =~= Seq::<LNSymbol>::empty());
        lemma_after_consumers_count(seed, s, 0, i, q);
        lemma_remove_first_count(ei, c, q);
        lemma_after_consumers_count(seed, s, i + 1, n, q);
        lemma_filter_filter_len(all, m.reportable_pred(), q);
        assert forall|x: LNSymbol| #[trigger] unused_exports_of(m).contains(x) implies !takes_one(c, x) by {
            lemma_filter_empty_none(unused_exports_of(m), q, x);
        }
    }
}

} // verus!
