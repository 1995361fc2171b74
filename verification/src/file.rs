//! A schema file before and after its method strings are parsed.

use vstd::prelude::*;

use crate::ast::Dependency;
use crate::ast::spec_dependency_names;
use crate::method::MethodView;
use crate::method::ParsedMethod;

verus! {

/// Mathematical model of a file before parsing.
pub struct RawFileView {
    pub path: Seq<char>,
    pub methods: Seq<Seq<char>>,
}

/// Mathematical model of a file after parsing.
pub struct FileView {
    pub path: Seq<char>,
    pub methods: Seq<MethodView>,
}

/// A file of the schema before parsing: a path and its raw method strings,
/// in order.
#[derive(PartialEq, Debug)]
pub struct UnprocessedFile {
    pub path: String,
    pub methods: Vec<String>,
}

impl View for UnprocessedFile {
    type V = RawFileView;

    open spec fn view(&self) -> RawFileView {
        RawFileView { path: self.path@, methods: self.methods.deep_view() }
    }
}

/// A file of the schema after parsing: the same path, each method string
/// reduced to a tree.
#[derive(PartialEq, Debug)]
pub struct ProcessedFile {
    pub path: String,
    pub methods: Vec<ParsedMethod>,
}

impl View for ProcessedFile {
    type V = FileView;

    open spec fn view(&self) -> FileView {
        FileView {
            path: self.path@,
            methods: self.methods@.map_values(|m: ParsedMethod| m@),
        }
    }
}

/// The dependency names of a file: every method's top-level dependency
/// parameters, method order first, parameter order inside.
pub open spec fn file_dep_names(methods: Seq<MethodView>) -> Seq<Seq<char>>
    decreases methods,
{
    if methods.len() == 0 {
        Seq::empty()
    } else {
        file_dep_names(methods.drop_last()) + spec_dependency_names(methods.last().ast.input)
    }
}

impl ProcessedFile {
    /// Pairs a path with its parsed methods.
    pub fn new(path: String, methods: Vec<ParsedMethod>) -> (r: ProcessedFile)
        ensures
            r@.path == path@,
            r@.methods == methods@.map_values(|m: ParsedMethod| m@),
    {
        ProcessedFile { path, methods }
    }

    /// Every method's top-level dependencies, in method order then
    /// parameter order.
    pub fn list_dependencies(&self) -> (r: Vec<&Dependency>)
        ensures
            r.deep_view() == file_dep_names(self@.methods),
    {
        let mut r: Vec<&Dependency> = Vec::new();
        let n = self.methods.len();
        let mut i: usize = 0;
        while i < n
            invariant
                n == self.methods.len(),
                i <= n,
                r.deep_view() == file_dep_names(self@.methods.subrange(0, i as int)),
            decreases n - i,
        {
            let mut deps = self.methods[i].list_dependencies();
            let ghost prev = r.deep_view();
            let ghost got = deps.deep_view();
            r.append(&mut deps);
            proof {
                assert forall|j: int| 0 <= j < r.deep_view().len() implies
                    r.deep_view()[j] == (prev + got)[j] by {}
                assert(r.deep_view() =~= prev + got);
                let cur = self@.methods.subrange(0, i + 1 as int);
                assert(cur.drop_last() =~= self@.methods.subrange(0, i as int));
                assert(cur.last() == self@.methods[i as int]);
                assert(self@.methods[i as int] == self.methods@[i as int]@);
            }
            i = i + 1;
        }
        proof {
            assert(self@.methods.subrange(0, n as int) =~= self@.methods);
        }
        r
    }
}

} // verus!
