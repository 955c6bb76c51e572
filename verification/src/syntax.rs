//! Source files as trees of syntax nodes, as far as the scanner reads them.

use crate::text::str_eq;
use vstd::prelude::*;

verus! {

/// The content of an attribute.
#[derive(Debug)]
pub enum Meta {
    /// A single name, as `test` in `#[test]`.
    Word(String),
    /// A name with a list in parentheses, as in `#[cfg(test)]`.
    List(MetaList),
    /// A name with a value, as in `#[path = "x.rs"]`; only the name is kept.
    NameValue(String),
}

/// A name with a list in parentheses.
#[derive(Debug)]
pub struct MetaList {
    pub ident: String,
    pub nested: Vec<NestedMeta>,
}

/// One element of the list of an attribute.
#[derive(Debug)]
pub enum NestedMeta {
    Meta(Meta),
    Literal,
}

/// The kinds of expression that the scanner tells apart.
#[derive(Debug, Clone, Copy, PartialEq, Eq, Structural)]
pub enum ExprKind {
    /// An `unsafe` block.
    Unsafe,
    /// A path, such as the name of a variable.
    Path,
    /// A literal.
    Lit,
    /// Any other expression.
    Other,
}

/// What a syntax node is.
#[derive(Debug)]
pub enum NodeKind {
    /// A free function, with its attributes.
    Function { attrs: Vec<Meta>, is_unsafe: bool },
    /// A module, with its attributes.
    Module { attrs: Vec<Meta> },
    /// An implementation block.
    Impl { is_unsafe: bool },
    /// A trait definition.
    Trait { is_unsafe: bool },
    /// A method of an implementation block.
    Method { is_unsafe: bool },
    /// An expression.
    Expr(ExprKind),
    /// Anything else.
    Other,
}

/// A node of the syntax tree of a source file, with the nodes below it.
#[derive(Debug)]
pub struct SyntaxNode {
    pub kind: NodeKind,
    pub children: Vec<SyntaxNode>,
}

/// Whether the attribute content is the single name `test`.
pub open spec fn is_word_test(m: Meta) -> bool {
    m matches Meta::Word(ident) && ident@ == "test"@
}

/// Whether one of the first `n` elements is the single name `test`.
pub open spec fn nested_has_test(nested: Seq<NestedMeta>, n: int) -> bool {
    exists|i: int|
        0 <= i < n && i < nested.len() && (#[trigger] nested[i] matches NestedMeta::Meta(m)
            && is_word_test(m))
}

/// Whether the list is a `cfg` that names `test` on its own.
pub open spec fn is_cfg_test(ml: MetaList) -> bool {
    ml.ident@ == "cfg"@ && nested_has_test(ml.nested@, ml.nested.len() as int)
}

/// Whether one of the attributes marks a function as a test: `#[test]`.
pub open spec fn marks_test_fn(attrs: Seq<Meta>) -> bool {
    exists|i: int| 0 <= i < attrs.len() && is_word_test(#[trigger] attrs[i])
}

/// Whether one of the attributes marks a module as compiled for tests
/// only: `#[cfg(test)]`.
pub open spec fn marks_test_mod(attrs: Seq<Meta>) -> bool {
    exists|i: int|
        0 <= i < attrs.len() && (#[trigger] attrs[i] matches Meta::List(ml) && is_cfg_test(ml))
}

/// Whether the attribute content is the single name `test`.
pub fn meta_is_word_test(m: &Meta) -> (r: bool)
    ensures
        r == is_word_test(*m),
{
    match m {
        Meta::Word(ident) => str_eq(ident.as_str(), "test"),
        _ => false,
    }
}

/// Whether the list is a `cfg` with `test` among its elements. Lists that
/// combine `test` with other conditions, as in `cfg(all(test, unix))`, are
/// not looked into.
pub fn meta_list_is_cfg_test(ml: &MetaList) -> (r: bool)
    ensures
        r == is_cfg_test(*ml),
{
    if !str_eq(ml.ident.as_str(), "cfg") {
        return false;
    }
    let mut i: usize = 0;
    while i < ml.nested.len()
        invariant
            i <= ml.nested.len(),
            ml.ident@ == "cfg"@,
            !nested_has_test(ml.nested@, i as int),
        decreases ml.nested.len() - i,
    {
        let hit = match &ml.nested[i] {
            NestedMeta::Meta(meta) => meta_is_word_test(meta),
            _ => false,
        };
        if hit {
            assert(ml.nested@[i as int] matches NestedMeta::Meta(m) && is_word_test(m));
            assert(nested_has_test(ml.nested@, ml.nested.len() as int));
            return true;
        }
        i = i + 1;
    }
    false
}

/// Whether a module with these attributes is compiled for tests only.
pub fn is_test_mod(attrs: &Vec<Meta>) -> (r: bool)
    ensures
        r == marks_test_mod(attrs@),
{
    let mut i: usize = 0;
    while i < attrs.len()
        invariant
            i <= attrs.len(),
            forall|k: int|
                0 <= k < i ==> !(#[trigger] attrs@[k] matches Meta::List(ml) && is_cfg_test(ml)),
        decreases attrs.len() - i,
    {
        let hit = match &attrs[i] {
            Meta::List(ml) => meta_list_is_cfg_test(ml),
            _ => false,
        };
        if hit {
            return true;
        }
        i = i + 1;
    }
    false
}

/// Whether a function with these attributes is a test.
pub fn is_test_fn(attrs: &Vec<Meta>) -> (r: bool)
    ensures
        r == marks_test_fn(attrs@),
{
    let mut i: usize = 0;
    while i < attrs.len()
        invariant
            i <= attrs.len(),
            forall|k: int| 0 <= k < i ==> !is_word_test(#[trigger] attrs@[k]),
        decreases attrs.len() - i,
    {
        if meta_is_word_test(&attrs[i]) {
            return true;
        }
        i = i + 1;
    }
    false
}

} // verus!
