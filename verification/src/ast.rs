//! The typed tree that a parsed signature string reduces to: nominal types,
//! generic (parent) types with ordered children, and injected dependencies.

use vstd::prelude::*;
use vstd::string::StringExecFns;

verus! {

/// Mathematical model of a parameter type: a finite tree whose leaves are
/// nominal type names or dependency names, and whose inner nodes are generic
/// types with an ordered sequence of children.
pub enum TypeView {
    App { name: Seq<char> },
    Parent { name: Seq<char>, children: Seq<TypeView> },
    Dep { name: Seq<char> },
}

/// Mathematical model of one named parameter.
pub struct ParamView {
    pub name: Seq<char>,
    pub ptype: TypeView,
}

/// Mathematical model of a whole signature.
pub struct SigView {
    pub name: Seq<char>,
    pub input: Seq<ParamView>,
    pub output: TypeView,
}

/// A leaf nominal type.
#[derive(PartialEq, Debug)]
pub struct ApplicationType {
    pub name: String,
}

/// A generic type; the order of `children` is the generic argument order and
/// is preserved exactly as parsed.
#[derive(PartialEq, Debug)]
pub struct ApplicationParentType {
    pub name: String,
    pub children: Vec<ParameterType>,
}

/// A parameter marked as an injected external dependency rather than a data
/// value; carries only a name, resolved later against the mock registry.
#[derive(PartialEq, Debug)]
pub struct Dependency {
    pub dependency_name: String,
}

/// One parameter type: a leaf, a generic type, or a dependency marker.
#[derive(PartialEq, Debug)]
pub enum ParameterType {
    ApplicationType(ApplicationType),
    ApplicationParentType(ApplicationParentType),
    Dependency(Dependency),
}

/// A named parameter in a signature's input list.
#[derive(PartialEq, Debug)]
pub struct FunctionParameter {
    pub name: String,
    pub ptype: ParameterType,
}

/// A parsed signature: a name, an ordered input list, and an output type.
#[derive(PartialEq, Debug)]
pub struct FunctionSignature {
    pub name: String,
    pub input: Vec<FunctionParameter>,
    pub output: ParameterType,
}

pub open spec fn type_seq_view(s: Seq<ParameterType>) -> Seq<TypeView>
    decreases s,
{
    if s.len() == 0 {
        Seq::empty()
    } else {
        type_seq_view(s.drop_last()).push(s.last()@)
    }
}

impl View for ParameterType {
    type V = TypeView;

    open spec fn view(&self) -> TypeView
        decreases self,
    {
        match self {
            ParameterType::ApplicationType(t) => TypeView::App { name: t.name@ },
            ParameterType::ApplicationParentType(t) => TypeView::Parent {
                name: t.name@,
                children: type_seq_view(t.children@),
            },
            ParameterType::Dependency(d) => TypeView::Dep { name: d.dependency_name@ },
        }
    }
}

impl View for Dependency {
    type V = Seq<char>;

    open spec fn view(&self) -> Seq<char> {
        self.dependency_name@
    }
}

impl DeepView for Dependency {
    type V = Seq<char>;

    open spec fn deep_view(&self) -> Seq<char> {
        self.dependency_name@
    }
}

impl View for FunctionParameter {
    type V = ParamView;

    open spec fn view(&self) -> ParamView {
        ParamView { name: self.name@, ptype: self.ptype@ }
    }
}

impl View for FunctionSignature {
    type V = SigView;

    open spec fn view(&self) -> SigView {
        SigView {
            name: self.name@,
            input: self.input@.map_values(|p: FunctionParameter| p@),
            output: self.output@,
        }
    }
}

/// The length and elements of `type_seq_view` are those of `s`, viewed.
pub proof fn lemma_type_seq_view_elts(s: Seq<ParameterType>)
    ensures
        type_seq_view(s).len() == s.len(),
        forall|i: int| 0 <= i < s.len() ==> type_seq_view(s)[i] == s[i]@,
    decreases s,
{
    if s.len() > 0 {
        lemma_type_seq_view_elts(s.drop_last());
        assert(type_seq_view(s) == type_seq_view(s.drop_last()).push(s.last()@));
        assert forall|i: int| 0 <= i < s.len() implies type_seq_view(s)[i] == s[i]@ by {
            if i < s.len() - 1 {
                assert(type_seq_view(s)[i] == type_seq_view(s.drop_last())[i]);
                assert(s.drop_last()[i] == s[i]);
            } else {
                assert(type_seq_view(s)[i] == s.last()@);
            }
        }
    }
}

impl Clone for ApplicationType {
    fn clone(&self) -> (r: Self)
        ensures
            r.name@ == self.name@,
    {
        ApplicationType { name: self.name.clone() }
    }
}

impl Clone for Dependency {
    fn clone(&self) -> (r: Self)
        ensures
            r == *self,
    {
        Dependency { dependency_name: self.dependency_name.clone() }
    }
}

impl Clone for ParameterType {
    /// A clone denotes the same type tree.
    fn clone(&self) -> (r: Self)
        ensures
            r@ == self@,
        decreases self,
    {
        match self {
            ParameterType::ApplicationType(t) => ParameterType::ApplicationType(
                ApplicationType { name: t.name.clone() },
            ),
            ParameterType::Dependency(d) => ParameterType::Dependency(d.clone()),
            ParameterType::ApplicationParentType(t) => {
                let mut children: Vec<ParameterType> = Vec::new();
                let n = t.children.len();
                let mut i: usize = 0;
                while i < n
                    invariant
                        self is ApplicationParentType,
                        *t == self->ApplicationParentType_0,
                        n == t.children.len(),
                        i <= n,
                        children.len() == i,
                        forall|j: int| 0 <= j < i ==> children@[j]@ == t.children@[j]@,
                    decreases n - i,
                {
                    proof {
                        assert(decreases_to!(*self => self->ApplicationParentType_0));
                        assert(decreases_to!(*t => t.children));
                        assert(decreases_to!(t.children => t.children[i as int]));
                        assert(decreases_to!(*self => t.children[i as int]));
                    }
                    let c = t.children[i].clone();
                    children.push(c);
                    i = i + 1;
                }
                proof {
                    lemma_type_seq_view_elts(children@);
                    lemma_type_seq_view_elts(t.children@);
                    assert(type_seq_view(children@) =~= type_seq_view(t.children@));
                }
                ParameterType::ApplicationParentType(
                    ApplicationParentType { name: t.name.clone(), children },
                )
            }
        }
    }
}

impl Clone for ApplicationParentType {
    /// A clone denotes the same name and the same child trees.
    fn clone(&self) -> (r: Self)
        ensures
            r.name@ == self.name@,
            type_seq_view(r.children@) == type_seq_view(self.children@),
    {
        let mut children: Vec<ParameterType> = Vec::new();
        let n = self.children.len();
        let mut i: usize = 0;
        while i < n
            invariant
                n == self.children.len(),
                i <= n,
                children.len() == i,
                forall|j: int| 0 <= j < i ==> children@[j]@ == self.children@[j]@,
            decreases n - i,
        {
            let c = self.children[i].clone();
            children.push(c);
            i = i + 1;
        }
        proof {
            lemma_type_seq_view_elts(children@);
            lemma_type_seq_view_elts(self.children@);
            assert(type_seq_view(children@) =~= type_seq_view(self.children@));
        }
        ApplicationParentType { name: self.name.clone(), children }
    }
}

impl Clone for FunctionParameter {
    /// A clone denotes the same parameter.
    fn clone(&self) -> (r: Self)
        ensures
            r@ == self@,
    {
        FunctionParameter { name: self.name.clone(), ptype: self.ptype.clone() }
    }
}

impl Clone for FunctionSignature {
    /// A clone denotes the same signature.
    fn clone(&self) -> (r: Self)
        ensures
            r@ == self@,
    {
        let mut input: Vec<FunctionParameter> = Vec::new();
        let n = self.input.len();
        let mut i: usize = 0;
        while i < n
            invariant
                n == self.input.len(),
                i <= n,
                input.len() == i,
                forall|j: int| 0 <= j < i ==> input@[j]@ == self.input@[j]@,
            decreases n - i,
        {
            let p = self.input[i].clone();
            input.push(p);
            i = i + 1;
        }
        let r = FunctionSignature {
            name: self.name.clone(),
            input,
            output: self.output.clone(),
        };
        proof {
            assert(r@.input =~= self@.input);
        }
        r
    }
}

/// The names of the parameters in `input` whose type is a dependency marker
/// at the top level, in declared order. Nested dependency markers inside a
/// parent type's children are not collected, and the output never is.
pub open spec fn spec_dependency_names(input: Seq<ParamView>) -> Seq<Seq<char>>
    decreases input,
{
    if input.len() == 0 {
        Seq::empty()
    } else {
        let rest = spec_dependency_names(input.drop_last());
        match input.last().ptype {
            TypeView::Dep { name } => rest.push(name),
            _ => rest,
        }
    }
}

/// The python-style text of a type: a bare name for leaves and dependencies,
/// and `Name[Child, ...]` for generic types.
pub open spec fn py_type(t: TypeView) -> Seq<char>
    decreases t,
{
    match t {
        TypeView::App { name } => name,
        TypeView::Dep { name } => name,
        TypeView::Parent { name, children } => name + "["@ + py_children(children) + "]"@,
    }
}

/// The python-style text of a child list, joined with `", "`.
pub open spec fn py_children(cs: Seq<TypeView>) -> Seq<char>
    decreases cs,
{
    if cs.len() == 0 {
        Seq::empty()
    } else if cs.len() == 1 {
        py_type(cs[0])
    } else {
        py_children(cs.drop_last()) + ", "@ + py_type(cs.last())
    }
}

/// The javascript-style text of a type: always the bare name, since generic
/// subscripts are not rendered for this target.
pub open spec fn js_type(t: TypeView) -> Seq<char> {
    match t {
        TypeView::App { name } => name,
        TypeView::Dep { name } => name,
        TypeView::Parent { name, children: _ } => name,
    }
}

/// The python-style text of one parameter, `name: type`.
pub open spec fn py_param(p: ParamView) -> Seq<char> {
    p.name + ": "@ + py_type(p.ptype)
}

/// The javascript-style text of one parameter, `name: type`.
pub open spec fn js_param(p: ParamView) -> Seq<char> {
    p.name + ": "@ + js_type(p.ptype)
}

/// The python-style text of a parameter list, joined with `", "`.
pub open spec fn py_params(ps: Seq<ParamView>) -> Seq<char>
    decreases ps,
{
    if ps.len() == 0 {
        Seq::empty()
    } else if ps.len() == 1 {
        py_param(ps[0])
    } else {
        py_params(ps.drop_last()) + ", "@ + py_param(ps.last())
    }
}

/// The python-style stub of a whole signature.
pub open spec fn py_sig(s: SigView) -> Seq<char> {
    "def "@ + s.name + "("@ + py_params(s.input) + ") -> "@ + py_type(s.output) + ": \n    pass\n"@
}

impl ParameterType {
    /// The python-style text of this type, generic arguments rendered
    /// recursively.
    pub fn to_python(&self) -> (r: String)
        ensures
            r@ == py_type(self@),
        decreases *self,
    {
        match self {
            ParameterType::ApplicationType(t) => t.name.clone(),
            ParameterType::Dependency(d) => d.dependency_name.clone(),
            ParameterType::ApplicationParentType(t) => {
                proof {
                    assert(decreases_to!(*self => self->ApplicationParentType_0));
                }
                t.to_python()
            }
        }
    }

    /// The javascript-style text of this type: its bare name.
    pub fn to_javascript(&self) -> (r: String)
        ensures
            r@ == js_type(self@),
    {
        match self {
            ParameterType::ApplicationType(t) => t.name.clone(),
            ParameterType::Dependency(d) => d.dependency_name.clone(),
            ParameterType::ApplicationParentType(t) => t.name.clone(),
        }
    }
}

impl ApplicationParentType {
    /// The python-style text of this generic type: its name, then its
    /// children rendered recursively and joined with `", "` inside square
    /// brackets.
    pub fn to_python(&self) -> (r: String)
        ensures
            r@ == self.name@ + "["@ + py_children(type_seq_view(self.children@)) + "]"@,
        decreases *self,
    {
        let mut r = self.name.clone();
        r.append("[");
        let n = self.children.len();
        let mut i: usize = 0;
        while i < n
            invariant
                n == self.children.len(),
                i <= n,
                r@ == self.name@ + "["@
                    + py_children(type_seq_view(self.children@.subrange(0, i as int))),
            decreases n - i,
        {
            proof {
                assert(decreases_to!(*self => self.children));
                assert(decreases_to!(self.children => self.children[i as int]));
                assert(decreases_to!(*self => self.children[i as int]));
            }
            if i > 0 {
                r.append(", ");
            }
            let c = self.children[i].to_python();
            r.append(c.as_str());
            proof {
                let pre = self.children@.subrange(0, i as int);
                let cur = self.children@.subrange(0, i + 1 as int);
                lemma_type_seq_view_elts(pre);
                lemma_type_seq_view_elts(cur);
                assert(type_seq_view(cur).drop_last() =~= type_seq_view(pre));
                assert(type_seq_view(cur).last() == self.children@[i as int]@);
                if i == 0 {
                    assert(py_children(type_seq_view(cur))
                        == py_type(self.children@[0]@));
                } else {
                    assert(py_children(type_seq_view(cur))
                        == py_children(type_seq_view(pre)) + ", "@
                            + py_type(self.children@[i as int]@));
                }
                assert(r@ =~= self.name@ + "["@ + py_children(type_seq_view(cur)));
            }
            i = i + 1;
        }
        r.append("]");
        proof {
            assert(self.children@.subrange(0, n as int) =~= self.children@);
            assert(r@ =~= self.name@ + "["@ + py_children(type_seq_view(self.children@))
                + "]"@);
        }
        r
    }
}

impl FunctionParameter {
    /// The python-style text `name: type` of this parameter.
    pub fn to_python(&self) -> (r: String)
        ensures
            r@ == py_param(self@),
    {
        let mut r = self.name.clone();
        r.append(": ");
        let t = self.ptype.to_python();
        r.append(t.as_str());
        proof {
            assert(r@ =~= py_param(self@));
        }
        r
    }

    /// The javascript-style text `name: type` of this parameter.
    pub fn to_javascript(&self) -> (r: String)
        ensures
            r@ == js_param(self@),
    {
        let mut r = self.name.clone();
        r.append(": ");
        let t = self.ptype.to_javascript();
        r.append(t.as_str());
        proof {
            assert(r@ =~= js_param(self@));
        }
        r
    }
}

impl FunctionSignature {
    /// The python-style stub function definition for this signature.
    pub fn to_python(&self) -> (r: String)
        ensures
            r@ == py_sig(self@),
    {
        let mut r = String::from_str("def ");
        r.append(self.name.as_str());
        r.append("(");
        let n = self.input.len();
        let mut i: usize = 0;
        while i < n
            invariant
                n == self.input.len(),
                i <= n,
                r@ == "def "@ + self.name@ + "("@
                    + py_params(self@.input.subrange(0, i as int)),
            decreases n - i,
        {
            if i > 0 {
                r.append(", ");
            }
            let p = self.input[i].to_python();
            r.append(p.as_str());
            proof {
                let pre = self@.input.subrange(0, i as int);
                let cur = self@.input.subrange(0, i + 1 as int);
                assert(cur.drop_last() =~= pre);
                assert(cur.last() == self@.input[i as int]);
                assert(self@.input[i as int] == self.input@[i as int]@);
                if i == 0 {
                    assert(py_params(cur) == py_param(self@.input[0]));
                } else {
                    assert(py_params(cur)
                        == py_params(pre) + ", "@ + py_param(self@.input[i as int]));
                }
                assert(r@ =~= "def "@ + self.name@ + "("@ + py_params(cur));
            }
            i = i + 1;
        }
        r.append(") -> ");
        let o = self.output.to_python();
        r.append(o.as_str());
        r.append(": \n    pass\n");
        proof {
            assert(self@.input.subrange(0, n as int) =~= self@.input);
            assert(r@ =~= py_sig(self@));
        }
        r
    }

    /// The javascript-style text for this signature: its bare name.
    pub fn to_javascript(&self) -> (r: String)
        ensures
            r@ == self@.name,
    {
        self.name.clone()
    }
}

impl FunctionSignature {
    /// Returns exactly the top-level dependency-typed input parameters, in
    /// declared order; generic children and the output are never scanned.
    pub fn list_dependencies(&self) -> (r: Vec<&Dependency>)
        ensures
            r.deep_view() == spec_dependency_names(self@.input),
    {
        let mut r: Vec<&Dependency> = Vec::new();
        let n = self.input.len();
        let mut i: usize = 0;
        while i < n
            invariant
                n == self.input.len(),
                i <= n,
                r.deep_view() == spec_dependency_names(self@.input.subrange(0, i as int)),
            decreases n - i,
        {
            match &self.input[i].ptype {
                ParameterType::Dependency(dep) => {
                    r.push(dep);
                }
                _ => {}
            }
            proof {
                let prefix = self@.input.subrange(0, i + 1 as int);
                assert(prefix.drop_last() =~= self@.input.subrange(0, i as int));
                assert(prefix.last() == self@.input[i as int]);
            }
            i = i + 1;
        }
        proof {
            assert(self@.input.subrange(0, n as int) =~= self@.input);
        }
        r
    }
}

} // verus!
