//! One parsed method: the raw signature string beside the tree it reduced to.

use vstd::prelude::*;

use crate::ast::Dependency;
use crate::ast::FunctionSignature;
use crate::ast::SigView;
use crate::ast::spec_dependency_names;

verus! {

/// Mathematical model of a parsed method.
pub struct MethodView {
    pub raw: Seq<char>,
    pub ast: SigView,
}

/// A method string beside its parsed tree. The raw text is kept for
/// diagnostics and is never derived back from the tree.
#[derive(PartialEq, Debug)]
pub struct ParsedMethod {
    pub raw: String,
    pub ast: FunctionSignature,
}

impl View for ParsedMethod {
    type V = MethodView;

    open spec fn view(&self) -> MethodView {
        MethodView { raw: self.raw@, ast: self.ast@ }
    }
}

impl Clone for ParsedMethod {
    /// A clone denotes the same method.
    fn clone(&self) -> (r: Self)
        ensures
            r@ == self@,
    {
        ParsedMethod { raw: self.raw.clone(), ast: self.ast.clone() }
    }
}

impl ParsedMethod {
    /// The top-level dependency-typed parameters of this method's signature,
    /// in declared order.
    pub fn list_dependencies(&self) -> (r: Vec<&Dependency>)
        ensures
            r.deep_view() == spec_dependency_names(self@.ast.input),
    {
        self.ast.list_dependencies()
    }
}

} // verus!
