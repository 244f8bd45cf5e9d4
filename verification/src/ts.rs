//! The dependencies that a TypeScript module names: its imports and its
//! calls of `require`.
//!
//! The library parses nothing. Whoever runs it hands over the module as
//! the few shapes below, which keep of a syntax tree what this module
//! reads.

use vstd::prelude::*;
use crate::text::same_text;

verus! {

/// What an import binds, by the local name it binds it to.
#[derive(Debug)]
pub enum ImportSpecifier {
    Named(String),
    Default(String),
    Namespace(String),
}

/// An `import` declaration.
#[derive(Debug)]
pub struct ImportDecl {
    /// The module that is imported from.
    pub source: String,
    pub specifiers: Vec<ImportSpecifier>,
}

/// An expression, as far as it is read here.
#[derive(Debug)]
pub enum Expression {
    Call { callee: Callee, arguments: Vec<Expression> },
    Identifier(String),
    StringLiteral(String),
    Other,
}

/// What a call calls.
#[derive(Debug)]
pub enum Callee {
    Expression(Box<Expression>),
    Other,
}

/// One variable of a variable declaration, with its initial value.
#[derive(Debug)]
pub struct Declarator {
    pub init: Option<Expression>,
}

/// An item of a module, as far as it is read here.
#[derive(Debug)]
pub enum ModuleItem {
    Import(ImportDecl),
    Variables(Vec<Declarator>),
    Other,
}

/// Something that a module was found to depend on, or to bind.
#[derive(Debug)]
pub enum Finding {
    /// The module imports from this module.
    Import(String),
    /// The import before it binds this name to a named export.
    NamedImport(String),
    /// The import before it binds this name to the default export.
    DefaultImport(String),
    /// The import before it binds this name to the whole module.
    NamespaceImport(String),
    /// The module calls `require` on this module.
    Require(String),
}

/// The finding that stands for a specifier.
pub open spec fn specifier_finding(specifier: ImportSpecifier) -> Finding {
    match specifier {
        ImportSpecifier::Named(local) => Finding::NamedImport(local),
        ImportSpecifier::Default(local) => Finding::DefaultImport(local),
        ImportSpecifier::Namespace(local) => Finding::NamespaceImport(local),
    }
}

/// The module that a declarator requires: the declarator's initial value
/// is a call of the identifier `require`, and the first argument of the
/// call is a string.
pub open spec fn required_module(declarator: Declarator) -> Option<String> {
    match declarator.init {
        Some(Expression::Call { callee: Callee::Expression(target), arguments }) => match *target {
            Expression::Identifier(name) => if name@ == "require"@ && arguments@.len() > 0 {
                match arguments@[0] {
                    Expression::StringLiteral(value) => Some(value),
                    _ => None,
                }
            } else {
                None
            },
            _ => None,
        },
        _ => None,
    }
}

/// What the declarators of a variable declaration require, in their order.
pub open spec fn required_modules(declarators: Seq<Declarator>) -> Seq<Finding>
    decreases declarators.len(),
{
    if declarators.len() == 0 {
        Seq::empty()
    } else {
        let before = required_modules(declarators.drop_last());
        match required_module(declarators.last()) {
            Some(value) => before.push(Finding::Require(value)),
            None => before,
        }
    }
}

/// What an item of a module gives where every binding counts: for an
/// import, its source and then each of its specifiers; for a variable
/// declaration, what it requires.
pub open spec fn item_findings(item: ModuleItem) -> Seq<Finding> {
    match item {
        ModuleItem::Import(decl) => seq![Finding::Import(decl.source)] + decl.specifiers@.map_values(
            |s: ImportSpecifier| specifier_finding(s),
        ),
        ModuleItem::Variables(declarators) => required_modules(declarators@),
        ModuleItem::Other => Seq::empty(),
    }
}

/// What an item of a module gives where only imports count: the source
/// of an import, and the first of its specifiers where it has one.
pub open spec fn import_findings(item: ModuleItem) -> Seq<Finding> {
    match item {
        ModuleItem::Import(decl) => if decl.specifiers@.len() > 0 {
            seq![Finding::Import(decl.source), specifier_finding(decl.specifiers@[0])]
        } else {
            seq![Finding::Import(decl.source)]
        },
        _ => Seq::empty(),
    }
}

/// The findings of each item in turn, by `of`.
pub open spec fn findings(items: Seq<ModuleItem>, of: spec_fn(ModuleItem) -> Seq<Finding>) -> Seq<
    Finding,
>
    decreases items.len(),
{
    if items.len() == 0 {
        Seq::empty()
    } else {
        findings(items.drop_last(), of) + of(items.last())
    }
}

/// The finding that stands for a specifier.
fn finding_of(specifier: &ImportSpecifier) -> (r: Finding)
    ensures
        r == specifier_finding(*specifier),
{
    match specifier {
        ImportSpecifier::Named(local) => Finding::NamedImport(local.clone()),
        ImportSpecifier::Default(local) => Finding::DefaultImport(local.clone()),
        ImportSpecifier::Namespace(local) => Finding::NamespaceImport(local.clone()),
    }
}

/// The module that a declarator requires, if it requires one.
fn required_by(declarator: &Declarator) -> (r: Option<String>)
    ensures
        r == required_module(*declarator),
{
    match &declarator.init {
        Some(Expression::Call { callee: Callee::Expression(target), arguments }) => {
            match &**target {
                Expression::Identifier(name) => {
                    if same_text(name.as_str(), "require") && arguments.len() > 0 {
                        match &arguments[0] {
                            Expression::StringLiteral(value) => Some(value.clone()),
                            _ => None,
                        }
                    } else {
                        None
                    }
                },
                _ => None,
            }
        },
        _ => None,
    }
}

/// Adds to `out` what `item` gives where every binding counts.
fn push_item_findings(out: &mut Vec<Finding>, item: &ModuleItem)
    ensures
        final(out)@ == old(out)@ + item_findings(*item),
{
    let ghost before = out@;
    match item {
        ModuleItem::Import(decl) => {
            out.push(Finding::Import(decl.source.clone()));
            let mut i: usize = 0;
            while i < decl.specifiers.len()
                invariant
                    i <= decl.specifiers.len(),
                    out@ == before + (seq![Finding::Import(decl.source)]
                        + decl.specifiers@.take(i as int).map_values(
                        |s: ImportSpecifier| specifier_finding(s),
                    )),
                decreases decl.specifiers.len() - i,
            {
                out.push(finding_of(&decl.specifiers[i]));
                proof {
                    let f = |s: ImportSpecifier| specifier_finding(s);
                    assert(decl.specifiers@.take(i + 1).map_values(f) =~= decl.specifiers@.take(
                        i as int,
                    ).map_values(f).push(specifier_finding(decl.specifiers@[i as int])));
                    assert(out@ =~= before + (seq![Finding::Import(decl.source)]
                        + decl.specifiers@.take(i + 1).map_values(f)));
                }
                i = i + 1;
            }
        },
        ModuleItem::Variables(declarators) => {
            let mut i: usize = 0;
            while i < declarators.len()
                invariant
                    i <= declarators.len(),
                    out@ == before + required_modules(declarators@.take(i as int)),
                decreases declarators.len() - i,
            {
                proof {
                    assert(declarators@.take(i + 1).drop_last() =~= declarators@.take(i as int));
                }
                match required_by(&declarators[i]) {
                    Some(value) => {
                        out.push(Finding::Require(value));
                    },
                    None => {},
                }
                i = i + 1;
            }
            assert(declarators@.take(declarators@.len() as int) =~= declarators@);
        },
        ModuleItem::Other => {},
    }
}

/// Adds to `out` what `item` gives where only imports count.
fn push_import_findings(out: &mut Vec<Finding>, item: &ModuleItem)
    ensures
        final(out)@ == old(out)@ + import_findings(*item),
{
    match item {
        ModuleItem::Import(decl) => {
            out.push(Finding::Import(decl.source.clone()));
            if decl.specifiers.len() > 0 {
                out.push(finding_of(&decl.specifiers[0]));
            }
        },
        _ => {},
    }
}

/// The imports of a module: for each import declaration, in the order of
/// the module, the module it imports from and the first name it binds.
pub fn execute_esm(module: &Vec<ModuleItem>) -> (found: Vec<Finding>)
    ensures
        found@ == findings(module@, |item: ModuleItem| import_findings(item)),
{
    let ghost of = |item: ModuleItem| import_findings(item);
    let mut found: Vec<Finding> = Vec::new();
    let mut i: usize = 0;
    while i < module.len()
        invariant
            i <= module.len(),
            of == |item: ModuleItem| import_findings(item),
            found@ == findings(module@.take(i as int), of),
        decreases module.len() - i,
    {
        proof {
            assert(module@.take(i + 1).drop_last() =~= module@.take(i as int));
        }
        push_import_findings(&mut found, &module[i]);
        i = i + 1;
    }
    assert(module@.take(module@.len() as int) =~= module@);
    found
}

/// The dependencies of a module: for each import declaration the module
/// it imports from and every name it binds, and for each variable whose
/// initial value is a call `require("...")` the module it requires; all in
/// the order of the module.
pub fn execute_common_js(module: &Vec<ModuleItem>) -> (found: Vec<Finding>)
    ensures
        found@ == findings(module@, |item: ModuleItem| item_findings(item)),
{
    let ghost of = |item: ModuleItem| item_findings(item);
    let mut found: Vec<Finding> = Vec::new();
    let mut i: usize = 0;
    while i < module.len()
        invariant
            i <= module.len(),
            of == |item: ModuleItem| item_findings(item),
            found@ == findings(module@.take(i as int), of),
        decreases module.len() - i,
    {
        proof {
            assert(module@.take(i + 1).drop_last() =~= module@.take(i as int));
        }
        push_item_findings(&mut found, &module[i]);
        i = i + 1;
    }
    assert(module@.take(module@.len() as int) =~= module@);
    found
}

} // verus!
