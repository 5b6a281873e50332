use vstd::prelude::*;

verus! {

/// A half-open byte interval `[start, end)` into a module's source text.
#[derive(Debug, Clone, Copy, PartialEq, Eq, Structural)]
pub struct Span {
    pub start: u32,
    pub end: u32,
}

impl Span {
    pub fn new(start: u32, end: u32) -> (r: Span)
        ensures
            r.start == start,
            r.end == end,
    {
        Span { start, end }
    }
}

/// A reference from a symbol to another module, with the span of the specifier.
#[derive(Debug, Clone, Copy, PartialEq, Eq, Structural)]
pub struct LNFileReference {
    pub module_id: usize,
    pub span: Span,
}

impl LNFileReference {
    pub fn new(module_id: usize, span: Span) -> (r: Self)
        ensures
            r.module_id == module_id,
            r.span == span,
    {
        Self { module_id, span }
    }
}

/// The import and export forms that the analyzer distinguishes.
#[derive(Debug)]
pub enum LNSymbolData {
    /// `export * from "X"`
    ExportAll(LNFileReference),
    /// `export default <expression>`
    ExportDefaultExpr(Span),
    /// `export { local as exported }`, with the module it is taken from, if any
    ExportNamed(String, String, Span, Option<LNFileReference>),
    /// `export const/let/var NAME`
    ExportDecl(String, Span),
    /// `export function NAME`
    ExportFnDecl(String, Span),
    /// `export class NAME`
    ExportClassDecl(String, Span),
    /// `export enum NAME`
    ExportEnumDecl(String, Span),
    /// `export interface NAME`
    ExportInterfaceDecl(String, Span),
    /// `export type NAME = ...`
    ExportTypeAliasDecl(String, Span),
    /// `export default class [NAME] {}`
    ExportDefaultClassDecl(Option<String>, Span),
    /// `export default function [NAME]() {}`
    ExportDefaultFnDecl(Option<String>, Span),
    /// `export default interface NAME {}`
    ExportDefaultInterfaceDecl(String, Span),
    /// `import local from "M"`, and whether it is type-only
    ImportDefault(String, Span, LNFileReference, bool),
    /// `import * as local from "M"`, and whether it is type-only
    ImportStar(String, Span, LNFileReference, bool),
    /// `import { imported as local } from "M"`, and whether it is type-only
    ImportNamed(String, String, Span, LNFileReference, bool),
}

/// One import or export, owned by the module `module_id`.
#[derive(Debug)]
pub struct LNSymbol {
    pub module_id: usize,
    pub symbol: LNSymbolData,
}

pub(crate) fn clone_opt_string(s: &Option<String>) -> (r: Option<String>)
    ensures
        r == *s,
{
    match s {
        Some(x) => Some(x.clone()),
        None => None,
    }
}

impl Clone for LNSymbolData {
    fn clone(&self) -> (r: Self)
        ensures
            r == *self,
    {
        match self {
            LNSymbolData::ExportAll(f) => LNSymbolData::ExportAll(*f),
            LNSymbolData::ExportDefaultExpr(s) => LNSymbolData::ExportDefaultExpr(*s),
            LNSymbolData::ExportNamed(l, e, s, f) => LNSymbolData::ExportNamed(
                l.clone(),
                e.clone(),
                *s,
                *f,
            ),
            LNSymbolData::ExportDecl(n, s) => LNSymbolData::ExportDecl(n.clone(), *s),
            LNSymbolData::ExportFnDecl(n, s) => LNSymbolData::ExportFnDecl(n.clone(), *s),
            LNSymbolData::ExportClassDecl(n, s) => LNSymbolData::ExportClassDecl(n.clone(), *s),
            LNSymbolData::ExportEnumDecl(n, s) => LNSymbolData::ExportEnumDecl(n.clone(), *s),
            LNSymbolData::ExportInterfaceDecl(n, s) => LNSymbolData::ExportInterfaceDecl(
                n.clone(),
                *s,
            ),
            LNSymbolData::ExportTypeAliasDecl(n, s) => LNSymbolData::ExportTypeAliasDecl(
                n.clone(),
                *s,
            ),
            LNSymbolData::ExportDefaultClassDecl(n, s) => LNSymbolData::ExportDefaultClassDecl(
                clone_opt_string(n),
                *s,
            ),
            LNSymbolData::ExportDefaultFnDecl(n, s) => LNSymbolData::ExportDefaultFnDecl(
                clone_opt_string(n),
                *s,
            ),
            LNSymbolData::ExportDefaultInterfaceDecl(n, s) => {
                LNSymbolData::ExportDefaultInterfaceDecl(n.clone(), *s)
            },
            LNSymbolData::ImportDefault(n, s, f, t) => LNSymbolData::ImportDefault(
                n.clone(),
                *s,
                *f,
                *t,
            ),
            LNSymbolData::ImportStar(n, s, f, t) => LNSymbolData::ImportStar(
                n.clone(),
                *s,
                *f,
                *t,
            ),
            LNSymbolData::ImportNamed(l, i, s, f, t) => LNSymbolData::ImportNamed(
                l.clone(),
                i.clone(),
                *s,
                *f,
                *t,
            ),
        }
    }
}

impl Clone for LNSymbol {
    fn clone(&self) -> (r: Self)
        ensures
            r == *self,
    {
        LNSymbol { module_id: self.module_id, symbol: self.symbol.clone() }
    }
}

impl LNSymbolData {
    /// The name a symbol is known by, where it has one: the exported name of an
    /// export, the local name of an import.
    pub open spec fn spec_name(&self) -> Option<Seq<char>> {
        match self {
            LNSymbolData::ExportAll(_) => None,
            LNSymbolData::ExportDefaultExpr(_) => None,
            LNSymbolData::ExportNamed(_, e, _, _) => Some(e@),
            LNSymbolData::ExportDecl(n, _) => Some(n@),
            LNSymbolData::ExportFnDecl(n, _) => Some(n@),
            LNSymbolData::ExportClassDecl(n, _) => Some(n@),
            LNSymbolData::ExportEnumDecl(n, _) => Some(n@),
            LNSymbolData::ExportInterfaceDecl(n, _) => Some(n@),
            LNSymbolData::ExportTypeAliasDecl(n, _) => Some(n@),
            LNSymbolData::ExportDefaultClassDecl(n, _) => match n {
                Some(n) => Some(n@),
                None => None,
            },
            LNSymbolData::ExportDefaultFnDecl(n, _) => match n {
                Some(n) => Some(n@),
                None => None,
            },
            LNSymbolData::ExportDefaultInterfaceDecl(n, _) => Some(n@),
            LNSymbolData::ImportDefault(n, _, _, _) => Some(n@),
            LNSymbolData::ImportStar(n, _, _, _) => Some(n@),
            LNSymbolData::ImportNamed(n, _, _, _, _) => Some(n@),
        }
    }

    /// The span a symbol points at; for `export *` it is the span of its reference.
    pub open spec fn spec_span(&self) -> Span {
        match self {
            LNSymbolData::ExportAll(f) => f.span,
            LNSymbolData::ExportDefaultExpr(s) => *s,
            LNSymbolData::ExportNamed(_, _, s, _) => *s,
            LNSymbolData::ExportDecl(_, s) => *s,
            LNSymbolData::ExportFnDecl(_, s) => *s,
            LNSymbolData::ExportClassDecl(_, s) => *s,
            LNSymbolData::ExportEnumDecl(_, s) => *s,
            LNSymbolData::ExportInterfaceDecl(_, s) => *s,
            LNSymbolData::ExportTypeAliasDecl(_, s) => *s,
            LNSymbolData::ExportDefaultClassDecl(_, s) => *s,
            LNSymbolData::ExportDefaultFnDecl(_, s) => *s,
            LNSymbolData::ExportDefaultInterfaceDecl(_, s) => *s,
            LNSymbolData::ImportDefault(_, s, _, _) => *s,
            LNSymbolData::ImportStar(_, s, _, _) => *s,
            LNSymbolData::ImportNamed(_, _, s, _, _) => *s,
        }
    }

    /// The module a symbol refers to, where it refers to one.
    pub open spec fn file_ref(&self) -> Option<LNFileReference> {
        match self {
            LNSymbolData::ExportAll(f) => Some(*f),
            LNSymbolData::ExportNamed(_, _, _, f) => *f,
            LNSymbolData::ImportDefault(_, _, f, _) => Some(*f),
            LNSymbolData::ImportStar(_, _, f, _) => Some(*f),
            LNSymbolData::ImportNamed(_, _, _, f, _) => Some(*f),
            _ => None,
        }
    }

    /// Every export form.
    pub open spec fn is_export(&self) -> bool {
        !(self is ImportDefault || self is ImportStar || self is ImportNamed)
    }

    /// The export forms that an `import X from` takes.
    pub open spec fn is_default_export(&self) -> bool {
        self is ExportDefaultClassDecl || self is ExportDefaultExpr || self is ExportDefaultFnDecl
            || self is ExportDefaultInterfaceDecl
    }

    /// A re-export: `export * from` or `export { .. } from`.
    pub open spec fn is_reexport(&self) -> bool {
        self is ExportAll || (self is ExportNamed && self->ExportNamed_3 is Some)
    }

    /// Whether the module a symbol refers to exists in a map of `n` modules.
    pub open spec fn refs_below(&self, n: nat) -> bool {
        match self.file_ref() {
            Some(f) => f.module_id < n,
            None => true,
        }
    }
}

impl LNSymbol {
    pub fn get_span(&self) -> (r: &Span)
        ensures
            *r == self.symbol.spec_span(),
    {
        match &self.symbol {
            LNSymbolData::ExportAll(file_ref) => &file_ref.span,
            LNSymbolData::ExportClassDecl(_, span) => span,
            LNSymbolData::ExportDecl(_, span) => span,
            LNSymbolData::ExportDefaultClassDecl(_, span) => span,
            LNSymbolData::ExportDefaultExpr(span) => span,
            LNSymbolData::ExportDefaultFnDecl(_, span) => span,
            LNSymbolData::ExportDefaultInterfaceDecl(_, span) => span,
            LNSymbolData::ExportEnumDecl(_, span) => span,
            LNSymbolData::ExportFnDecl(_, span) => span,
            LNSymbolData::ExportInterfaceDecl(_, span) => span,
            LNSymbolData::ExportTypeAliasDecl(_, span) => span,
            LNSymbolData::ExportNamed(_, _, span, _) => span,
            LNSymbolData::ImportDefault(_, span, _, _) => span,
            LNSymbolData::ImportStar(_, span, _, _) => span,
            LNSymbolData::ImportNamed(_, _, span, _, _) => span,
        }
    }

    pub fn get_name(&self) -> (r: Option<&str>)
        ensures
            r is Some <==> self.symbol.spec_name() is Some,
            r is Some ==> r->Some_0@ == self.symbol.spec_name()->Some_0,
    {
        match &self.symbol {
            LNSymbolData::ExportAll(_) => None,
            LNSymbolData::ExportClassDecl(name, _) => Some(name.as_str()),
            LNSymbolData::ExportDecl(name, _) => Some(name.as_str()),
            LNSymbolData::ExportDefaultClassDecl(name, _) => match name {
                Some(n) => Some(n.as_str()),
                None => None,
            },
            LNSymbolData::ExportDefaultExpr(_) => None,
            LNSymbolData::ExportDefaultFnDecl(name, _) => match name {
                Some(n) => Some(n.as_str()),
                None => None,
            },
            LNSymbolData::ExportDefaultInterfaceDecl(name, _) => Some(name.as_str()),
            LNSymbolData::ExportEnumDecl(name, _) => Some(name.as_str()),
            LNSymbolData::ExportFnDecl(name, _) => Some(name.as_str()),
            LNSymbolData::ExportInterfaceDecl(name, _) => Some(name.as_str()),
            LNSymbolData::ExportTypeAliasDecl(name, _) => Some(name.as_str()),
            LNSymbolData::ExportNamed(_, name, _, _) => Some(name.as_str()),
            LNSymbolData::ImportDefault(name, _, _, _) => Some(name.as_str()),
            LNSymbolData::ImportStar(name, _, _, _) => Some(name.as_str()),
            LNSymbolData::ImportNamed(name, _, _, _, _) => Some(name.as_str()),
        }
    }
}

} // verus!
