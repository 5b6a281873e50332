use vstd::prelude::*;

use crate::symbol::{clone_opt_string, LNFileReference, LNSymbolData, Span};

verus! {

/// One `local as exported` item of an `export { .. }` declaration.
#[derive(Debug)]
pub struct ExportSpecifier {
    pub local: String,
    pub exported: String,
    pub span: Span,
}

/// One item of an import declaration.
#[derive(Debug)]
pub enum ImportSpecifier {
    /// `import local from`
    Default(String, Span),
    /// `import * as local from`
    Namespace(String, Span),
    /// `import { imported as local } from`: local, imported, span, and whether the
    /// item itself is marked `type`
    Named(String, String, Span, bool),
}

/// One declarator of `export const/let/var`.
#[derive(Debug)]
pub enum Binding {
    /// A plain name.
    Identifier(String, Span),
    /// A destructuring pattern, which exports no symbol of its own.
    Pattern,
}

/// A top-level import or export declaration of a module, as the parser
/// found it, before its specifier is resolved.
#[derive(Debug)]
pub enum Declaration {
    /// `export * from "X"`, with the span of the specifier string
    ExportAll(Span),
    /// `export default <expression>`
    ExportDefaultExpr(Span),
    /// `export default class [NAME] {}`, with the class's span
    ExportDefaultClass(Option<String>, Span),
    /// `export default function [NAME]() {}`: the name with its span, if any,
    /// and the function's span
    ExportDefaultFn(Option<(String, Span)>, Span),
    /// `export default interface NAME {}`
    ExportDefaultInterface(String, Span),
    /// `export const/let/var ...`
    ExportVariables(Vec<Binding>),
    /// `export function NAME`, with the function's span
    ExportFn(String, Span),
    /// `export class NAME`, with the name's span
    ExportClass(String, Span),
    /// `export enum NAME`
    ExportEnum(String, Span),
    /// `export interface NAME`
    ExportInterface(String, Span),
    /// `export type NAME = ...`
    ExportTypeAlias(String, Span),
    /// `export { .. }`, with the span of the specifier string where it reads
    /// `export { .. } from "X"`
    ExportNamed(Vec<ExportSpecifier>, Option<Span>),
    /// `import .. from "M"`: its items (none for `import "M"`), the span of the
    /// specifier string, and whether the declaration is `import type`
    Import(Option<Vec<ImportSpecifier>>, Span, bool),
}

impl Declaration {
    /// The declaration names another module, which must be resolved first.
    pub open spec fn has_specifier(&self) -> bool {
        self is ExportAll || self is Import || (self is ExportNamed && self->ExportNamed_1 is Some)
    }
}

/// The symbols of `export const/let/var` declarators: one per plain name.
pub open spec fn binding_symbols(bs: Seq<Binding>) -> Seq<LNSymbolData>
    decreases bs.len(),
{
    if bs.len() == 0 {
        Seq::empty()
    } else {
        let r = binding_symbols(bs.drop_last());
        match bs.last() {
            Binding::Identifier(n, s) => r.push(LNSymbolData::ExportDecl(n, s)),
            Binding::Pattern => r,
        }
    }
}

pub open spec fn export_specifier_symbol(f: Option<LNFileReference>) -> spec_fn(ExportSpecifier) -> LNSymbolData {
    |e: ExportSpecifier| LNSymbolData::ExportNamed(e.local, e.exported, e.span, f)
}

pub open spec fn import_specifier_symbol(f: LNFileReference, type_only: bool) -> spec_fn(ImportSpecifier) -> LNSymbolData {
    |i: ImportSpecifier|
        match i {
            ImportSpecifier::Default(n, s) => LNSymbolData::ImportDefault(n, s, f, type_only),
            ImportSpecifier::Namespace(n, s) => LNSymbolData::ImportStar(n, s, f, type_only),
            ImportSpecifier::Named(l, m, s, t) => LNSymbolData::ImportNamed(l, m, s, f, type_only || t),
        }
}

/// The symbols a declaration yields, in order, where its specifier led to
/// module `target` (`None`: it has none, or it names a file that is no module).
/// A declaration with a specifier but no target yields nothing.
pub open spec fn decl_symbols(d: Declaration, target: Option<usize>) -> Seq<LNSymbolData> {
    match d {
        Declaration::ExportAll(s) => match target {
            Some(t) => seq![LNSymbolData::ExportAll(LNFileReference { module_id: t, span: s })],
            None => Seq::empty(),
        },
        Declaration::ExportDefaultExpr(s) => seq![LNSymbolData::ExportDefaultExpr(s)],
        Declaration::ExportDefaultClass(n, s) => seq![LNSymbolData::ExportDefaultClassDecl(n, s)],
        Declaration::ExportDefaultFn(id, s) => match id {
            Some((n, ns)) => seq![LNSymbolData::ExportDefaultFnDecl(Some(n), ns)],
            None => seq![LNSymbolData::ExportDefaultFnDecl(None, s)],
        },
        Declaration::ExportDefaultInterface(n, s) => seq![LNSymbolData::ExportDefaultInterfaceDecl(n, s)],
        Declaration::ExportVariables(bs) => binding_symbols(bs@),
        Declaration::ExportFn(n, s) => seq![LNSymbolData::ExportFnDecl(n, s)],
        Declaration::ExportClass(n, s) => seq![LNSymbolData::ExportClassDecl(n, s)],
        Declaration::ExportEnum(n, s) => seq![LNSymbolData::ExportEnumDecl(n, s)],
        Declaration::ExportInterface(n, s) => seq![LNSymbolData::ExportInterfaceDecl(n, s)],
        Declaration::ExportTypeAlias(n, s) => seq![LNSymbolData::ExportTypeAliasDecl(n, s)],
        Declaration::ExportNamed(es, src) => match (src, target) {
            (Some(s), Some(t)) => es@.map_values(
                export_specifier_symbol(Some(LNFileReference { module_id: t, span: s })),
            ),
            (Some(_), None) => Seq::empty(),
            (None, _) => es@.map_values(export_specifier_symbol(None)),
        },
        Declaration::Import(is, s, type_only) => match (is, target) {
            (Some(is), Some(t)) => is@.map_values(
                import_specifier_symbol(LNFileReference { module_id: t, span: s }, type_only),
            ),
            _ => Seq::empty(),
        },
    }
}

fn binding_decls(bs: &Vec<Binding>) -> (r: Vec<LNSymbolData>)
    ensures
        r@ == binding_symbols(bs@),
{
    let mut r: Vec<LNSymbolData> = Vec::new();
    let mut i: usize = 0;
    while i < bs.len()
        invariant
            i <= bs@.len(),
            r@ == binding_symbols(bs@.subrange(0, i as int)),
        decreases bs@.len() - i,
    {
        assert(bs@.subrange(0, i + 1).drop_last() =~= bs@.subrange(0, i as int));
        match &bs[i] {
            Binding::Identifier(n, s) => {
                r.push(LNSymbolData::ExportDecl(n.clone(), *s));
            },
            Binding::Pattern => {},
        }
        i = i + 1;
    }
    assert(bs@.subrange(0, i as int) =~= bs@);
    r
}

/// The symbols of a declaration; see `decl_symbols`.
pub fn declaration_symbols(d: &Declaration, target: Option<usize>) -> (r: Vec<LNSymbolData>)
    ensures
        r@ == decl_symbols(*d, target),
{
    match d {
        Declaration::ExportAll(s) => match target {
            Some(t) => vec![LNSymbolData::ExportAll(LNFileReference::new(t, *s))],
            None => Vec::new(),
        },
        Declaration::ExportDefaultExpr(s) => vec![LNSymbolData::ExportDefaultExpr(*s)],
        Declaration::ExportDefaultClass(n, s) => vec![LNSymbolData::ExportDefaultClassDecl(clone_opt_string(n), *s)],
        Declaration::ExportDefaultFn(id, s) => match id {
            Some((n, ns)) => vec![LNSymbolData::ExportDefaultFnDecl(Some(n.clone()), *ns)],
            None => vec![LNSymbolData::ExportDefaultFnDecl(None, *s)],
        },
        Declaration::ExportDefaultInterface(n, s) => vec![LNSymbolData::ExportDefaultInterfaceDecl(n.clone(), *s)],
        Declaration::ExportVariables(bs) => binding_decls(bs),
        Declaration::ExportFn(n, s) => vec![LNSymbolData::ExportFnDecl(n.clone(), *s)],
        Declaration::ExportClass(n, s) => vec![LNSymbolData::ExportClassDecl(n.clone(), *s)],
        Declaration::ExportEnum(n, s) => vec![LNSymbolData::ExportEnumDecl(n.clone(), *s)],
        Declaration::ExportInterface(n, s) => vec![LNSymbolData::ExportInterfaceDecl(n.clone(), *s)],
        Declaration::ExportTypeAlias(n, s) => vec![LNSymbolData::ExportTypeAliasDecl(n.clone(), *s)],
        Declaration::ExportNamed(es, src) => {
            let f = match (src, target) {
                (Some(s), Some(t)) => Some(LNFileReference::new(t, *s)),
                (Some(_), None) => {
                    return Vec::new();
                },
                (None, _) => None,
            };
            let mut r: Vec<LNSymbolData> = Vec::new();
            let mut i: usize = 0;
            while i < es.len()
                invariant
                    i <= es@.len(),
                    r@ == es@.subrange(0, i as int).map_values(export_specifier_symbol(f)),
                decreases es@.len() - i,
            {
                let e = &es[i];
                r.push(LNSymbolData::ExportNamed(e.local.clone(), e.exported.clone(), e.span, f));
                i = i + 1;
                assert(r@ =~= es@.subrange(0, i as int).map_values(export_specifier_symbol(f)));
            }
            assert(es@.subrange(0, i as int) =~= es@);
            r
        },
        Declaration::Import(is, s, type_only) => match (is, target) {
            (Some(is), Some(t)) => {
                let f = LNFileReference::new(t, *s);
                let mut r: Vec<LNSymbolData> = Vec::new();
                let mut i: usize = 0;
                while i < is.len()
                    invariant
                        i <= is@.len(),
                        r@ == is@.subrange(0, i as int).map_values(import_specifier_symbol(f, *type_only)),
                    decreases is@.len() - i,
                {
                    let sym = match &is[i] {
                        ImportSpecifier::Default(n, sp) => LNSymbolData::ImportDefault(n.clone(), *sp, f, *type_only),
                        ImportSpecifier::Namespace(n, sp) => LNSymbolData::ImportStar(n.clone(), *sp, f, *type_only),
                        ImportSpecifier::Named(l, m, sp, t) => LNSymbolData::ImportNamed(
                            l.clone(),
                            m.clone(),
                            *sp,
                            f,
                            *type_only || *t,
                        ),
                    };
                    r.push(sym);
                    i = i + 1;
                    assert(r@ =~= is@.subrange(0, i as int).map_values(import_specifier_symbol(f, *type_only)));
                }
                assert(is@.subrange(0, i as int) =~= is@);
                r
            },
            _ => Vec::new(),
        },
    }
}

} // verus!

verus! {

/// The number of symbols a declaration yields once its specifier led to a module.
pub fn declared_symbol_count(d: &Declaration) -> (r: usize)
    ensures
        r == decl_symbols(*d, Some(0usize)).len(),
{
    match d {
        Declaration::ExportVariables(bs) => {
            let mut count: usize = 0;
            let mut i: usize = 0;
            while i < bs.len()
                invariant
                    i <= bs@.len(),
                    count <= i,
                    count == binding_symbols(bs@.subrange(0, i as int)).len(),
                decreases bs@.len() - i,
            {
                assert(bs@.subrange(0, i + 1).drop_last() =~= bs@.subrange(0, i as int));
                if let Binding::Identifier(_, _) = &bs[i] {
                    count = count + 1;
                }
                i = i + 1;
            }
            assert(bs@.subrange(0, i as int) =~= bs@);
            count
        },
        Declaration::ExportNamed(es, _) => es.len(),
        Declaration::Import(Some(is), _, _) => is.len(),
        Declaration::Import(None, _, _) => 0,
        _ => 1,
    }
}

} // verus!
