//! The schema and its pipeline: parsing every file's method strings,
//! extracting and deduplicating dependencies, matching them against the mock
//! registry, and building the render contexts of the generated artifacts.

use vstd::prelude::*;
use vstd::string::StringExecFns;

use crate::ast::Dependency;
use crate::ast::spec_dependency_names;
use crate::file::FileView;
use crate::file::ProcessedFile;
use crate::file::RawFileView;
use crate::file::UnprocessedFile;
use crate::file::file_dep_names;
use crate::method::MethodView;
use crate::method::ParsedMethod;
use crate::parser::SyntaxError;
use crate::parser::root;
use crate::parser::spec_parse_signature;
use crate::strutil::lemma_lex_lt_asymmetric;
use crate::strutil::lemma_lex_lt_connected;
use crate::strutil::lemma_lex_lt_transitive;
use crate::strutil::lex_lt;
use crate::strutil::replace_spaces;
use crate::strutil::snake_view;
use crate::strutil::str_eq;
use crate::strutil::str_lt;
use crate::strutil::clone_string_vec;
use crate::strutil::str_to_chars;
use crate::strutil::chars_to_string;
use crate::strutil::join_with;
use crate::strutil::join_strings;
use crate::ast::py_sig;
use crate::ast::SigView;
use crate::strutil::replace_slashes_with_dots;
use crate::strutil::dotted_view;
use crate::render_api::context_new;
use crate::render_api::context_insert_list;
use crate::render_api::context_insert_str;
use crate::render_api::render_template;
use crate::render_api::render_error_text;
use crate::render_api::context_lists;
use crate::render_api::context_strings;
use crate::render_api::no_list_bindings;
use crate::render_api::no_string_bindings;

verus! {

/// Mathematical model of one mock fixture test.
pub struct MockTestView {
    pub description: Seq<char>,
    pub mock_response: Seq<char>,
}

/// Mathematical model of one registry entry.
pub struct MockConfigView {
    pub name: Seq<char>,
    pub imports: Seq<Seq<char>>,
    pub mock: Seq<char>,
    pub tests: Seq<MockTestView>,
}

/// One fixture test of a mock: a description and the canned response the
/// mock is to give.
#[derive(PartialEq, Debug)]
pub struct MockTest {
    pub description: String,
    pub mock_response: String,
}

impl View for MockTest {
    type V = MockTestView;

    open spec fn view(&self) -> MockTestView {
        MockTestView { description: self.description@, mock_response: self.mock_response@ }
    }
}

impl Clone for MockTest {
    /// A clone denotes the same test.
    fn clone(&self) -> (r: Self)
        ensures
            r@ == self@,
    {
        MockTest {
            description: self.description.clone(),
            mock_response: self.mock_response.clone(),
        }
    }
}

/// One entry of the mock registry: the dependency name it stands in for,
/// the import lines it needs, the mock body, and its fixture tests.
#[derive(PartialEq, Debug)]
pub struct MockConfig {
    pub name: String,
    pub imports: Vec<String>,
    pub mock: String,
    pub tests: Vec<MockTest>,
}

impl View for MockConfig {
    type V = MockConfigView;

    open spec fn view(&self) -> MockConfigView {
        MockConfigView {
            name: self.name@,
            imports: self.imports.deep_view(),
            mock: self.mock@,
            tests: self.tests@.map_values(|t: MockTest| t@),
        }
    }
}

impl Clone for MockConfig {
    /// A clone denotes the same registry entry.
    fn clone(&self) -> (r: Self)
        ensures
            r@ == self@,
    {
        let mut imports: Vec<String> = Vec::new();
        let n = self.imports.len();
        let mut i: usize = 0;
        while i < n
            invariant
                n == self.imports.len(),
                i <= n,
                imports.len() == i,
                forall|k: int| 0 <= k < i ==> imports@[k]@ == self.imports@[k]@,
            decreases n - i,
        {
            imports.push(self.imports[i].clone());
            i = i + 1;
        }
        let mut tests: Vec<MockTest> = Vec::new();
        let m = self.tests.len();
        let mut j: usize = 0;
        while j < m
            invariant
                m == self.tests.len(),
                j <= m,
                tests.len() == j,
                forall|k: int| 0 <= k < j ==> tests@[k]@ == self.tests@[k]@,
            decreases m - j,
        {
            tests.push(self.tests[j].clone());
            j = j + 1;
        }
        let r = MockConfig {
            name: self.name.clone(),
            imports,
            mock: self.mock.clone(),
            tests,
        };
        proof {
            assert(r.imports.deep_view() =~= self.imports.deep_view());
            assert(r.tests@.map_values(|t: MockTest| t@)
                =~= self.tests@.map_values(|t: MockTest| t@));
        }
        r
    }
}

/// The mock registry: every known mock, in declaration order. Entries are
/// looked up, never changed.
#[derive(PartialEq, Debug)]
pub struct MockListing {
    pub mocks: Vec<MockConfig>,
}

impl View for MockListing {
    type V = Seq<MockConfigView>;

    open spec fn view(&self) -> Seq<MockConfigView> {
        self.mocks@.map_values(|m: MockConfig| m@)
    }
}

/// One method beside the registry entries matched to its dependencies,
/// built for the span of one file's test rendering.
#[derive(PartialEq, Debug)]
pub struct MethodAndMocks {
    pub method: ParsedMethod,
    pub mocks: Vec<MockConfig>,
}

/// Mathematical model of `MethodAndMocks`.
pub struct MethodAndMocksView {
    pub method: MethodView,
    pub mocks: Seq<MockConfigView>,
}

impl View for MethodAndMocks {
    type V = MethodAndMocksView;

    open spec fn view(&self) -> MethodAndMocksView {
        MethodAndMocksView {
            method: self.method@,
            mocks: self.mocks@.map_values(|m: MockConfig| m@),
        }
    }
}

/// The python-style text of one generated test case.
pub open spec fn py_mock_test(
    test: MockTestView,
    mock_ref: Seq<char>,
    config: MockConfigView,
    target_ref: Seq<char>,
) -> Seq<char> {
    "def test_"@ + snake_view(test.description) + "():\n    "@ + mock_ref + " = MagicMock("@
        + test.mock_response + ")\n    result = "@ + target_ref + "("@ + config.name
        + ")\n    assert 1 == 2"@
}

/// The javascript-style text of one generated test case: an empty test
/// skeleton named by the description.
pub open spec fn js_mock_test(test: MockTestView) -> Seq<char> {
    "it('"@ + test.description + "', () => {}))"@
}

impl MockTest {
    /// The python-style text of this test case: a stub that patches the
    /// mock reference, calls the target, and leaves a failing assertion to
    /// be filled in.
    pub fn to_python(&self, mock_ref: &str, mock_config: &MockConfig, target_ref: &str) -> (r:
        String)
        ensures
            r@ == py_mock_test(self@, mock_ref@, mock_config@, target_ref@),
    {
        let snake = replace_spaces(self.description.as_str());
        let mut r = String::from_str("def test_");
        r.append(snake.as_str());
        r.append("():\n    ");
        r.append(mock_ref);
        r.append(" = MagicMock(");
        r.append(self.mock_response.as_str());
        r.append(")\n    result = ");
        r.append(target_ref);
        r.append("(");
        r.append(mock_config.name.as_str());
        r.append(")\n    assert 1 == 2");
        proof {
            assert(r@ =~= py_mock_test(self@, mock_ref@, mock_config@, target_ref@));
        }
        r
    }

    /// The javascript-style text of this test case: an empty skeleton. The
    /// mock reference, its entry, and the target take no part in it.
    pub fn to_javascript(&self, _mock_ref: &str, _mock_config: &MockConfig, _target_ref: &str)
        -> (r: String)
        ensures
            r@ == js_mock_test(self@),
    {
        let mut r = String::from_str("it('");
        r.append(self.description.as_str());
        r.append("', () => {}))");
        proof {
            assert(r@ =~= js_mock_test(self@));
        }
        r
    }
}

/// Strictly ascending in lexicographic order: every earlier name comes
/// before every later one, so no name repeats.
pub open spec fn sorted_strict(s: Seq<Seq<char>>) -> bool {
    forall|i: int, j: int| 0 <= i < j < s.len() ==> lex_lt(s[i], s[j])
}

/// Deduplication is canonical: two strictly sorted sequences with the same
/// members are the same sequence. So deduplicating a second time gives the
/// first result back, and deduplicating any reordering of the same names
/// gives the identical sequence.
pub proof fn lemma_sorted_unique(r1: Seq<Seq<char>>, r2: Seq<Seq<char>>)
    requires
        sorted_strict(r1),
        sorted_strict(r2),
        forall|x: Seq<char>| r1.contains(x) <==> r2.contains(x),
    ensures
        r1 == r2,
    decreases r1.len(),
{
    if r1.len() == 0 {
        if r2.len() > 0 {
            assert(r2.contains(r2[0]));
            assert(r1.contains(r2[0]));
        }
        assert(r1 =~= r2);
    } else {
        assert(r1.contains(r1[0]));
        assert(r2.contains(r1[0]));
        let k = choose|k: int| 0 <= k < r2.len() && r2[k] == r1[0];
        assert(r2.contains(r2[0]));
        assert(r1.contains(r2[0]));
        let m = choose|m: int| 0 <= m < r1.len() && r1[m] == r2[0];
        if k > 0 {
            assert(lex_lt(r2[0], r1[0]));
            if m > 0 {
                assert(lex_lt(r1[0], r2[0]));
                lemma_lex_lt_asymmetric(r1[0], r2[0]);
            } else {
                lemma_lex_lt_asymmetric(r2[0], r1[0]);
            }
        }
        assert(r1[0] == r2[0]);
        let t1 = r1.drop_first();
        let t2 = r2.drop_first();
        assert forall|x: Seq<char>| t1.contains(x) <==> t2.contains(x) by {
            lemma_tail_membership(r1, x);
            lemma_tail_membership(r2, x);
        }
        lemma_sorted_unique(t1, t2);
        assert(r1.len() == r2.len());
        assert forall|k: int| 0 <= k < r1.len() implies r1[k] == r2[k] by {
            if k > 0 {
                assert(r1[k] == t1[k - 1]);
                assert(r2[k] == t2[k - 1]);
            }
        }
        assert(r1 =~= r2);
    }
}

/// Deduplication is order-deterministic: two inputs holding the same
/// multiset of names — the same names, however ordered — lead to the same
/// deduplicated sequence, whenever each result is strictly sorted and holds
/// exactly its input's members, as `deduplicate` promises.
pub proof fn lemma_dedup_of_same_multiset(
    a: Seq<Seq<char>>,
    b: Seq<Seq<char>>,
    r1: Seq<Seq<char>>,
    r2: Seq<Seq<char>>,
)
    requires
        a.to_multiset() == b.to_multiset(),
        sorted_strict(r1),
        sorted_strict(r2),
        forall|x: Seq<char>| r1.contains(x) <==> a.contains(x),
        forall|x: Seq<char>| r2.contains(x) <==> b.contains(x),
    ensures
        r1 == r2,
{
    a.to_multiset_ensures();
    b.to_multiset_ensures();
    assert forall|x: Seq<char>| r1.contains(x) <==> r2.contains(x) by {
        assert(a.contains(x) <==> a.to_multiset().count(x) > 0);
        assert(b.contains(x) <==> b.to_multiset().count(x) > 0);
    }
    lemma_sorted_unique(r1, r2);
}

/// In a strictly sorted sequence, the tail holds exactly the members that
/// come after the head.
proof fn lemma_tail_membership(r: Seq<Seq<char>>, x: Seq<char>)
    requires
        sorted_strict(r),
        r.len() > 0,
    ensures
        r.drop_first().contains(x) <==> (r.contains(x) && lex_lt(r[0], x)),
{
    let t = r.drop_first();
    if t.contains(x) {
        let j = choose|j: int| 0 <= j < t.len() && t[j] == x;
        assert(r[j + 1] == x);
        assert(lex_lt(r[0], r[j + 1]));
        assert(r.contains(x));
    }
    if r.contains(x) && lex_lt(r[0], x) {
        let j = choose|j: int| 0 <= j < r.len() && r[j] == x;
        if j == 0 {
            lemma_lex_lt_asymmetric(r[0], x);
        } else {
            assert(t[j - 1] == x);
            assert(t.contains(x));
        }
    }
}

/// `x` placed into an ascending sequence: before the first member it does
/// not come after, and dropped when that member equals it.
pub open spec fn sorted_insert(s: Seq<Seq<char>>, x: Seq<char>) -> Seq<Seq<char>>
    decreases s,
{
    if s.len() == 0 {
        seq![x]
    } else if lex_lt(x, s[0]) {
        seq![x] + s
    } else if x == s[0] {
        s
    } else {
        seq![s[0]] + sorted_insert(s.drop_first(), x)
    }
}

/// The canonical deduplication of a name sequence: its distinct members in
/// ascending lexicographic order.
pub open spec fn spec_dedup(names: Seq<Seq<char>>) -> Seq<Seq<char>>
    decreases names,
{
    if names.len() == 0 {
        Seq::empty()
    } else {
        sorted_insert(spec_dedup(names.drop_last()), names.last())
    }
}

proof fn lemma_sorted_insert_props(s: Seq<Seq<char>>, x: Seq<char>)
    requires
        sorted_strict(s),
    ensures
        sorted_strict(sorted_insert(s, x)),
        forall|y: Seq<char>| sorted_insert(s, x).contains(y) <==> (s.contains(y) || y == x),
    decreases s,
{
    let r = sorted_insert(s, x);
    if s.len() == 0 {
        assert forall|y: Seq<char>| r.contains(y) <==> (s.contains(y) || y == x) by {
            if r.contains(y) {
                let w = choose|w: int| 0 <= w < r.len() && r[w] == y;
                assert(y == x);
            }
            if y == x {
                assert(r[0] == y);
            }
        }
    } else if lex_lt(x, s[0]) {
        assert forall|p: int, q: int| 0 <= p < q < r.len() implies lex_lt(r[p], r[q]) by {
            if p == 0 {
                assert(r[q] == s[q - 1]);
                if q == 1 {
                } else {
                    assert(lex_lt(s[0], s[q - 1]));
                    lemma_lex_lt_transitive(x, s[0], s[q - 1]);
                }
            } else {
                assert(r[p] == s[p - 1]);
                assert(r[q] == s[q - 1]);
            }
        }
        assert forall|y: Seq<char>| r.contains(y) <==> (s.contains(y) || y == x) by {
            if r.contains(y) {
                let w = choose|w: int| 0 <= w < r.len() && r[w] == y;
                if w > 0 {
                    assert(s[w - 1] == y);
                    assert(s.contains(y));
                }
            } else {
                if s.contains(y) {
                    let w = choose|w: int| 0 <= w < s.len() && s[w] == y;
                    assert(r[w + 1] == y);
                }
                if y == x {
                    assert(r[0] == y);
                }
            }
        }
    } else if x == s[0] {
        assert forall|y: Seq<char>| r.contains(y) <==> (s.contains(y) || y == x) by {
            if y == x {
                assert(s[0] == y);
                assert(s.contains(y));
            }
        }
    } else {
        lemma_lex_lt_connected(x, s[0]);
        assert(lex_lt(s[0], x));
        let t = s.drop_first();
        assert(sorted_strict(t)) by {
            assert forall|p: int, q: int| 0 <= p < q < t.len() implies lex_lt(t[p], t[q]) by {
                assert(t[p] == s[p + 1]);
                assert(t[q] == s[q + 1]);
            }
        }
        lemma_sorted_insert_props(t, x);
        let rt = sorted_insert(t, x);
        assert(forall|y: Seq<char>| #[trigger] rt.contains(y) <==> (t.contains(y) || y == x));
        assert forall|p: int, q: int| 0 <= p < q < r.len() implies lex_lt(r[p], r[q]) by {
            if p == 0 {
                assert(r[q] == rt[q - 1]);
                assert(rt.contains(rt[q - 1]));
                if rt[q - 1] == x {
                } else {
                    assert(t.contains(rt[q - 1]));
                    let w = choose|w: int| 0 <= w < t.len() && t[w] == rt[q - 1];
                    assert(t[w] == s[w + 1]);
                    assert(lex_lt(s[0], s[w + 1]));
                }
            } else {
                assert(r[p] == rt[p - 1]);
                assert(r[q] == rt[q - 1]);
            }
        }
        assert forall|y: Seq<char>| r.contains(y) <==> (s.contains(y) || y == x) by {
            if r.contains(y) {
                let w = choose|w: int| 0 <= w < r.len() && r[w] == y;
                if w == 0 {
                    assert(s[0] == y);
                    assert(s.contains(y));
                } else {
                    assert(rt[w - 1] == y);
                    assert(rt.contains(y));
                    if t.contains(y) {
                        let v = choose|v: int| 0 <= v < t.len() && t[v] == y;
                        assert(s[v + 1] == y);
                        assert(s.contains(y));
                    }
                }
            } else {
                if s.contains(y) {
                    let w = choose|w: int| 0 <= w < s.len() && s[w] == y;
                    if w == 0 {
                        assert(r[0] == y);
                    } else {
                        assert(t[w - 1] == y);
                        assert(t.contains(y));
                        assert(rt.contains(y));
                        let v = choose|v: int| 0 <= v < rt.len() && rt[v] == y;
                        assert(r[v + 1] == y);
                    }
                }
                if y == x {
                    assert(sorted_insert(t, x).contains(y) <==> (t.contains(y) || y == x));
                    assert(rt.contains(y));
                    let v = choose|v: int| 0 <= v < rt.len() && rt[v] == y;
                    assert(r[v + 1] == y);
                }
            }
        }
    }
}

/// The canonical deduplication is ascending and holds exactly the input's
/// members.
pub proof fn lemma_spec_dedup_props(names: Seq<Seq<char>>)
    ensures
        sorted_strict(spec_dedup(names)),
        forall|y: Seq<char>| spec_dedup(names).contains(y) <==> names.contains(y),
    decreases names,
{
    if names.len() > 0 {
        let pre = names.drop_last();
        lemma_spec_dedup_props(pre);
        lemma_sorted_insert_props(spec_dedup(pre), names.last());
        assert forall|y: Seq<char>| spec_dedup(names).contains(y) <==> names.contains(y) by {
            assert(spec_dedup(names).contains(y)
                <==> (spec_dedup(pre).contains(y) || y == names.last()));
            if pre.contains(y) {
                let w = choose|w: int| 0 <= w < pre.len() && pre[w] == y;
                assert(names[w] == y);
            }
            if y == names.last() {
                assert(names[names.len() - 1] == y);
            }
            if names.contains(y) {
                let w = choose|w: int| 0 <= w < names.len() && names[w] == y;
                if w < names.len() - 1 {
                    assert(pre[w] == y);
                    assert(pre.contains(y));
                }
            }
        }
    }
}

/// The distinct names among `names`, in ascending lexicographic order:
/// each name exactly once, the order fixed by the names alone.
pub fn deduplicate(names: &Vec<String>) -> (r: Vec<String>)
    ensures
        r.deep_view() == spec_dedup(names.deep_view()),
        sorted_strict(r.deep_view()),
        forall|x: Seq<char>| r.deep_view().contains(x) <==> names.deep_view().contains(x),
{
    let mut out: Vec<String> = Vec::new();
    let n = names.len();
    let mut i: usize = 0;
    while i < n
        invariant
            n == names.len(),
            i <= n,
            sorted_strict(out.deep_view()),
            forall|x: Seq<char>| out.deep_view().contains(x)
                <==> names.deep_view().subrange(0, i as int).contains(x),
        decreases n - i,
    {
        let name = &names[i];
        let mut j: usize = 0;
        while j < out.len() && str_lt(out[j].as_str(), name.as_str())
            invariant
                j <= out.len(),
                forall|k: int| 0 <= k < j ==> lex_lt(out.deep_view()[k], name@),
            decreases out.len() - j,
        {
            j = j + 1;
        }
        let ghost pre = out.deep_view();
        let ghost cur = names.deep_view().subrange(0, i as int);
        let ghost nxt = names.deep_view().subrange(0, i + 1 as int);
        proof {
            assert(nxt.drop_last() =~= cur);
            assert(nxt.last() == names.deep_view()[i as int]);
            assert(names.deep_view()[i as int] == name@);
            assert forall|x: Seq<char>| nxt.contains(x)
                <==> (cur.contains(x) || x == name@) by {
                if nxt.contains(x) {
                    let w = choose|w: int| 0 <= w < nxt.len() && nxt[w] == x;
                    if w < nxt.len() - 1 {
                        assert(cur[w] == x);
                        assert(cur.contains(x));
                    }
                } else {
                    if cur.contains(x) {
                        let w = choose|w: int| 0 <= w < cur.len() && cur[w] == x;
                        assert(nxt[w] == x);
                    }
                    if x == name@ {
                        assert(nxt[nxt.len() - 1] == x);
                    }
                }
            }
        }
        if j < out.len() && str_eq(out[j].as_str(), name.as_str()) {
            proof {
                assert(pre.contains(name@)) by {
                    assert(pre[j as int] == name@);
                }
                assert forall|x: Seq<char>| out.deep_view().contains(x)
                    <==> nxt.contains(x) by {
                    if x == name@ {
                        assert(out.deep_view().contains(x));
                        assert(nxt.contains(x));
                    }
                }
            }
        } else {
            proof {
                if j < out.len() {
                    assert(!lex_lt(pre[j as int], name@));
                    lemma_lex_lt_connected(pre[j as int], name@);
                    assert(lex_lt(name@, pre[j as int]));
                }
                assert(!pre.contains(name@)) by {
                    if pre.contains(name@) {
                        let w = choose|w: int| 0 <= w < pre.len() && pre[w] == name@;
                        if w < j {
                            lemma_lex_lt_asymmetric(pre[w], name@);
                        } else if w > j {
                            assert(lex_lt(pre[j as int], pre[w]));
                            lemma_lex_lt_asymmetric(name@, pre[j as int]);
                            lemma_lex_lt_transitive(name@, pre[j as int], pre[w]);
                            lemma_lex_lt_asymmetric(name@, pre[w]);
                        } else {
                            lemma_lex_lt_asymmetric(name@, pre[w]);
                        }
                    }
                }
            }
            let ghost out0 = out@;
            out.insert(j, name.clone());
            proof {
                out0.insert_ensures(j as int, out@[j as int]);
                assert(out@[j as int]@ == name@);
                assert(out.deep_view().len() == pre.len() + 1);
                assert forall|k: int| 0 <= k < out.deep_view().len() implies
                    out.deep_view()[k] == (if k < j { pre[k] } else if k == j { name@ }
                        else { pre[k - 1] }) by {
                    if k < j {
                        assert(out@[k] == out0[k]);
                    } else if k > j {
                        assert(out@[k] == out0[k - 1]);
                    }
                }
                assert forall|p: int, q: int| 0 <= p < q < out.deep_view().len() implies
                    lex_lt(out.deep_view()[p], out.deep_view()[q]) by {
                    let a = out.deep_view()[p];
                    let b = out.deep_view()[q];
                    if p < j && q < j {
                    } else if p < j && q == j {
                    } else if p == j && q > j {
                        assert(b == pre[q - 1]);
                        if q - 1 == j {
                        } else {
                            assert(lex_lt(pre[j as int], pre[q - 1]));
                            lemma_lex_lt_transitive(name@, pre[j as int], pre[q - 1]);
                        }
                    } else if p < j && q > j {
                        assert(a == pre[p]);
                        assert(b == pre[q - 1]);
                        if q - 1 == j {
                            assert(lex_lt(pre[p], name@));
                        } else {
                            assert(lex_lt(pre[p], pre[q - 1]));
                        }
                    } else {
                        assert(a == pre[p - 1]);
                        assert(b == pre[q - 1]);
                        assert(lex_lt(pre[p - 1], pre[q - 1]));
                    }
                }
                assert forall|x: Seq<char>| out.deep_view().contains(x)
                    <==> (pre.contains(x) || x == name@) by {
                    if out.deep_view().contains(x) {
                        let w = choose|w: int| 0 <= w < out.deep_view().len()
                            && out.deep_view()[w] == x;
                        if w < j {
                            assert(pre[w] == x);
                            assert(pre.contains(x));
                        } else if w > j {
                            assert(pre[w - 1] == x);
                            assert(pre.contains(x));
                        }
                    } else {
                        if pre.contains(x) {
                            let w = choose|w: int| 0 <= w < pre.len() && pre[w] == x;
                            if w < j {
                                assert(out.deep_view()[w] == x);
                            } else {
                                assert(out.deep_view()[w + 1] == x);
                            }
                        }
                        if x == name@ {
                            assert(out.deep_view()[j as int] == x);
                        }
                    }
                }
                assert forall|x: Seq<char>| out.deep_view().contains(x)
                    <==> nxt.contains(x) by {
                    assert(out.deep_view().contains(x) <==> (pre.contains(x) || x == name@));
                    assert(pre.contains(x) <==> cur.contains(x));
                    assert(nxt.contains(x) <==> (cur.contains(x) || x == name@));
                }
            }
        }
        i = i + 1;
    }
    proof {
        assert(names.deep_view().subrange(0, n as int) =~= names.deep_view());
        lemma_spec_dedup_props(names.deep_view());
        lemma_sorted_unique(out.deep_view(), spec_dedup(names.deep_view()));
    }
    out
}

/// The first registry entry bearing `name`, if any.
pub open spec fn spec_lookup(mocks: Seq<MockConfigView>, name: Seq<char>) -> Option<MockConfigView>
    decreases mocks,
{
    if mocks.len() == 0 {
        None
    } else if mocks[0].name == name {
        Some(mocks[0])
    } else {
        spec_lookup(mocks.drop_first(), name)
    }
}

/// For each name in order, the first registry entry bearing it; a name no
/// entry bears is passed over.
pub open spec fn spec_resolve(names: Seq<Seq<char>>, mocks: Seq<MockConfigView>) -> Seq<
    MockConfigView,
>
    decreases names,
{
    if names.len() == 0 {
        Seq::empty()
    } else {
        spec_resolve(names.drop_last(), mocks) + (match spec_lookup(mocks, names.last()) {
            Some(m) => seq![m],
            None => Seq::empty(),
        })
    }
}

/// Looks `name` up in the registry, first entry wins.
fn lookup_mock<'a>(registry: &'a MockListing, name: &str) -> (r: Option<&'a MockConfig>)
    ensures
        (match (r, spec_lookup(registry@, name@)) {
            (Some(m), Some(sm)) => m@ == sm,
            (None, None) => true,
            _ => false,
        }),
{
    let n = registry.mocks.len();
    let mut i: usize = 0;
    proof {
        assert(registry@.skip(0) =~= registry@);
    }
    while i < n
        invariant
            n == registry.mocks.len(),
            i <= n,
            spec_lookup(registry@, name@) == spec_lookup(registry@.skip(i as int), name@),
            forall|k: int| 0 <= k < i ==> registry@[k].name != name@,
        decreases n - i,
    {
        if str_eq(registry.mocks[i].name.as_str(), name) {
            proof {
                assert(registry@.skip(i as int)[0] == registry@[i as int]);
            }
            return Some(&registry.mocks[i]);
        }
        proof {
            assert(registry@.skip(i as int)[0] == registry@[i as int]);
            assert(registry@.skip(i as int).drop_first() =~= registry@.skip(i + 1 as int));
        }
        i = i + 1;
    }
    proof {
        assert(registry@.skip(n as int).len() == 0);
    }
    None
}

/// The registry entries for `names`, in name order, first match per name,
/// names without an entry passed over: a pure function of the names and the
/// registry, so resolving the same inputs twice gives identical results.
pub fn resolve_mocks(names: &Vec<String>, registry: &MockListing) -> (r: Vec<MockConfig>)
    ensures
        r@.map_values(|m: MockConfig| m@) == spec_resolve(names.deep_view(), registry@),
{
    let mut r: Vec<MockConfig> = Vec::new();
    let n = names.len();
    let mut i: usize = 0;
    while i < n
        invariant
            n == names.len(),
            i <= n,
            r@.map_values(|m: MockConfig| m@)
                == spec_resolve(names.deep_view().subrange(0, i as int), registry@),
        decreases n - i,
    {
        match lookup_mock(registry, names[i].as_str()) {
            Some(m) => {
                let c = m.clone();
                r.push(c);
            }
            None => {}
        }
        proof {
            let cur = names.deep_view().subrange(0, i + 1 as int);
            assert(cur.drop_last() =~= names.deep_view().subrange(0, i as int));
            assert(cur.last() == names.deep_view()[i as int]);
            assert(r@.map_values(|m: MockConfig| m@) =~= spec_resolve(cur, registry@));
        }
        i = i + 1;
    }
    proof {
        assert(names.deep_view().subrange(0, n as int) =~= names.deep_view());
    }
    r
}

/// The names among `names` that no registry entry bears, in name order.
pub open spec fn spec_unmatched(names: Seq<Seq<char>>, mocks: Seq<MockConfigView>) -> Seq<
    Seq<char>,
>
    decreases names,
{
    if names.len() == 0 {
        Seq::empty()
    } else {
        spec_unmatched(names.drop_last(), mocks) + (match spec_lookup(mocks, names.last()) {
            Some(_) => Seq::<Seq<char>>::empty(),
            None => seq![names.last()],
        })
    }
}

/// Strict-mode resolution: the registry entries for `names` when every name
/// has one, else exactly the names that have none, in name order, so that
/// no dependency is lost in silence.
pub fn resolve_mocks_strict(names: &Vec<String>, registry: &MockListing) -> (r: Result<
    Vec<MockConfig>,
    Vec<String>,
>)
    ensures
        r is Ok <==> spec_unmatched(names.deep_view(), registry@).len() == 0,
        r is Ok ==> (r->Ok_0)@.map_values(|m: MockConfig| m@)
            == spec_resolve(names.deep_view(), registry@),
        r is Err ==> (r->Err_0).deep_view() == spec_unmatched(names.deep_view(), registry@),
{
    let resolved = resolve_mocks(names, registry);
    let mut unmatched: Vec<String> = Vec::new();
    let n = names.len();
    let mut i: usize = 0;
    while i < n
        invariant
            n == names.len(),
            i <= n,
            unmatched.deep_view()
                == spec_unmatched(names.deep_view().subrange(0, i as int), registry@),
        decreases n - i,
    {
        proof {
            assert forall|k: int| 0 <= k < unmatched.deep_view().len() implies
                unmatched@[k]@ == unmatched.deep_view()[k] by {}
        }
        match lookup_mock(registry, names[i].as_str()) {
            Some(_) => {}
            None => {
                let ghost u0 = unmatched@;
                unmatched.push(names[i].clone());
                proof {
                    assert forall|k: int| 0 <= k < unmatched.deep_view().len() implies
                        unmatched.deep_view()[k] == unmatched@[k]@ by {}
                }
            }
        }
        proof {
            let cur = names.deep_view().subrange(0, i + 1 as int);
            assert(cur.drop_last() =~= names.deep_view().subrange(0, i as int));
            assert(cur.last() == names.deep_view()[i as int]);
            assert(unmatched.deep_view() =~= spec_unmatched(cur, registry@));
        }
        i = i + 1;
    }
    proof {
        assert(names.deep_view().subrange(0, n as int) =~= names.deep_view());
    }
    if unmatched.len() == 0 {
        Ok(resolved)
    } else {
        Err(unmatched)
    }
}

/// Mathematical model of a schema before parsing.
pub struct SchemaView {
    pub project_name: Seq<char>,
    pub root_directory: Seq<char>,
    pub language: Seq<char>,
    pub system_types: Seq<char>,
    pub domain_types: Seq<char>,
    pub files: Seq<RawFileView>,
    pub workflow: Seq<Seq<char>>,
}

/// Mathematical model of a schema after parsing; the template store is
/// opaque and carries no model.
pub struct ParsedSchemaView {
    pub project_name: Seq<char>,
    pub root_directory: Seq<char>,
    pub language: Seq<char>,
    pub system_types: Seq<char>,
    pub domain_types: Seq<char>,
    pub files: Seq<FileView>,
    pub workflow: Seq<Seq<char>>,
}

/// The project description as loaded: paths, target language, files with
/// raw method strings, and the declared workflow steps.
#[derive(PartialEq, Debug)]
pub struct Schema {
    pub project_name: String,
    pub root_directory: String,
    pub language: String,
    pub system_types: String,
    pub domain_types: String,
    pub files: Vec<UnprocessedFile>,
    pub workflow: Vec<String>,
}

impl View for Schema {
    type V = SchemaView;

    open spec fn view(&self) -> SchemaView {
        SchemaView {
            project_name: self.project_name@,
            root_directory: self.root_directory@,
            language: self.language@,
            system_types: self.system_types@,
            domain_types: self.domain_types@,
            files: self.files@.map_values(|f: UnprocessedFile| f@),
            workflow: self.workflow.deep_view(),
        }
    }
}

/// The schema after every method string parsed, beside the template store
/// the generators render through.
pub struct ParsedSchema {
    pub project_name: String,
    pub root_directory: String,
    pub language: String,
    pub system_types: String,
    pub domain_types: String,
    pub files: Vec<ProcessedFile>,
    pub workflow: Vec<String>,
    pub templates: tera::Tera,
}

impl View for ParsedSchema {
    type V = ParsedSchemaView;

    open spec fn view(&self) -> ParsedSchemaView {
        ParsedSchemaView {
            project_name: self.project_name@,
            root_directory: self.root_directory@,
            language: self.language@,
            system_types: self.system_types@,
            domain_types: self.domain_types@,
            files: self.files@.map_values(|f: ProcessedFile| f@),
            workflow: self.workflow.deep_view(),
        }
    }
}

/// Whether every method string of the sequence reduces under the grammar.
pub open spec fn all_parse(ms: Seq<Seq<char>>) -> bool {
    forall|i: int| 0 <= i < ms.len() ==> spec_parse_signature(ms[i]) is Some
}

/// How many method strings of the sequence do not reduce under the
/// grammar.
pub open spec fn failing_count(ms: Seq<Seq<char>>) -> nat
    decreases ms,
{
    if ms.len() == 0 {
        0
    } else {
        (failing_count(ms.drop_last()) + (if spec_parse_signature(ms.last()) is Some {
            0int
        } else {
            1int
        })) as nat
    }
}

/// How many method strings of the whole schema do not reduce, every file
/// counted.
pub open spec fn schema_failing_count(files: Seq<RawFileView>) -> nat
    decreases files,
{
    if files.len() == 0 {
        0
    } else {
        (schema_failing_count(files.drop_last()) + failing_count(files.last().methods)) as nat
    }
}

/// A sequence has no failing method strings exactly when every one parses.
proof fn lemma_failing_count_zero(ms: Seq<Seq<char>>)
    ensures
        (failing_count(ms) == 0) <==> all_parse(ms),
    decreases ms,
{
    if ms.len() > 0 {
        let dl = ms.drop_last();
        lemma_failing_count_zero(dl);
        if failing_count(ms) == 0 {
            assert forall|i: int| 0 <= i < ms.len() implies
                spec_parse_signature(ms[i]) is Some by {
                if i < ms.len() - 1 {
                    assert(dl[i] == ms[i]);
                }
            }
        }
        if all_parse(ms) {
            assert forall|i: int| 0 <= i < dl.len() implies
                spec_parse_signature(dl[i]) is Some by {
                assert(dl[i] == ms[i]);
            }
            assert(spec_parse_signature(ms.last()) is Some);
        }
    }
}

/// The parsed form of every method string, raw text kept beside each tree.
pub open spec fn parsed_methods(ms: Seq<Seq<char>>) -> Seq<MethodView> {
    ms.map_values(|m: Seq<char>| MethodView { raw: m, ast: spec_parse_signature(m)->Some_0 })
}

impl Schema {
    /// Parses every method string of one file, in order. When every string
    /// reduces, the parsed methods; otherwise one error for each string
    /// that does not, in order.
    pub fn create_ast(file: &UnprocessedFile) -> (r: Result<Vec<ParsedMethod>, Vec<SyntaxError>>)
        ensures
            r is Ok <==> all_parse(file@.methods),
            r is Ok ==> (r->Ok_0)@.map_values(|m: ParsedMethod| m@)
                == parsed_methods(file@.methods),
            r is Err ==> (r->Err_0)@.len() > 0,
            r is Err ==> (r->Err_0)@.len() == failing_count(file@.methods),
    {
        let mut methods: Vec<ParsedMethod> = Vec::new();
        let mut errors: Vec<SyntaxError> = Vec::new();
        let n = file.methods.len();
        let mut i: usize = 0;
        while i < n
            invariant
                n == file.methods.len(),
                i <= n,
                errors@.len() == failing_count(file@.methods.subrange(0, i as int)),
                errors@.len() == 0 <==> all_parse(file@.methods.subrange(0, i as int)),
                errors@.len() == 0 ==> methods@.map_values(|m: ParsedMethod| m@)
                    == parsed_methods(file@.methods.subrange(0, i as int)),
            decreases n - i,
        {
            let ghost pre = file@.methods.subrange(0, i as int);
            let ghost cur = file@.methods.subrange(0, i + 1 as int);
            proof {
                assert(cur.drop_last() =~= pre);
                assert(cur.last() == file@.methods[i as int]);
                assert(file@.methods[i as int] == file.methods@[i as int]@);
                assert forall|k: int| 0 <= k < cur.len() implies
                    (k < i ==> cur[k] == pre[k]) by {}
            }
            let raw = &file.methods[i];
            match root(raw.as_str()) {
                Ok((_, ast)) => {
                    let ghost m0 = methods@;
                    methods.push(ParsedMethod { raw: raw.clone(), ast });
                    proof {
                        if errors@.len() == 0 {
                            assert forall|k: int| 0 <= k < cur.len() implies
                                spec_parse_signature(cur[k]) is Some by {
                                if k < i {
                                    assert(pre[k] == cur[k]);
                                }
                            }
                            assert(m0.map_values(|m: ParsedMethod| m@) == parsed_methods(pre));
                            assert forall|k: int| 0 <= k < cur.len() implies
                                methods@.map_values(|m: ParsedMethod| m@)[k]
                                    == parsed_methods(cur)[k] by {
                                if k < i {
                                    assert(methods@[k] == m0[k]);
                                    assert(m0.map_values(|m: ParsedMethod| m@)[k]
                                        == parsed_methods(pre)[k]);
                                    assert(pre[k] == cur[k]);
                                } else {
                                    assert(methods@[k]@.raw == cur[k]);
                                    assert(methods@[k]@.ast
                                        == spec_parse_signature(cur[k])->Some_0);
                                }
                            }
                            assert(methods@.map_values(|m: ParsedMethod| m@)
                                =~= parsed_methods(cur));
                        }
                    }
                }
                Err(e) => {
                    errors.push(e);
                    proof {
                        assert(spec_parse_signature(cur[i as int]) is None);
                        assert(!all_parse(cur));
                        assert(failing_count(cur) == failing_count(pre) + 1);
                    }
                }
            }
            i = i + 1;
        }
        proof {
            assert(file@.methods.subrange(0, n as int) =~= file@.methods);
        }
        if errors.len() == 0 {
            Ok(methods)
        } else {
            Err(errors)
        }
    }

    /// Parses every file of the schema against the grammar. When every
    /// method string of every file reduces, the parsed schema, carrying the
    /// handed-in template store; otherwise the syntax errors of every
    /// failing file, gathered across the whole schema.
    pub fn process_schema(&self, templates: tera::Tera) -> (r: Result<
        ParsedSchema,
        Vec<SyntaxError>,
    >)
        ensures
            r is Ok <==> (forall|i: int| 0 <= i < self@.files.len()
                ==> all_parse(self@.files[i].methods)),
            r is Err ==> (r->Err_0)@.len() > 0,
            r is Err ==> (r->Err_0)@.len() == schema_failing_count(self@.files),
            r is Ok ==> {
                let p = (r->Ok_0)@;
                &&& p.project_name == self@.project_name
                &&& p.root_directory == self@.root_directory
                &&& p.language == self@.language
                &&& p.system_types == self@.system_types
                &&& p.domain_types == self@.domain_types
                &&& p.workflow == self@.workflow
                &&& p.files.len() == self@.files.len()
                &&& forall|i: int| 0 <= i < p.files.len()
                    ==> #[trigger] p.files[i].path == self@.files[i].path
                        && p.files[i].methods == parsed_methods(self@.files[i].methods)
            },
    {
        let mut processed: Vec<ProcessedFile> = Vec::new();
        let mut errors: Vec<SyntaxError> = Vec::new();
        let n = self.files.len();
        let mut i: usize = 0;
        while i < n
            invariant
                n == self.files.len(),
                i <= n,
                errors@.len() == schema_failing_count(self@.files.subrange(0, i as int)),
                errors@.len() == 0 <==> (forall|k: int| 0 <= k < i
                    ==> all_parse(self@.files[k].methods)),
                errors@.len() == 0 ==> processed@.len() == i,
                errors@.len() == 0 ==> forall|k: int| 0 <= k < i
                    ==> #[trigger] processed@[k]@.path == self@.files[k].path
                        && processed@[k]@.methods == parsed_methods(self@.files[k].methods),
            decreases n - i,
        {
            let file = &self.files[i];
            let ghost fpre = self@.files.subrange(0, i as int);
            let ghost fcur = self@.files.subrange(0, i + 1 as int);
            proof {
                assert(self@.files[i as int] == self.files@[i as int]@);
                assert(fcur.drop_last() =~= fpre);
                assert(fcur.last() == self@.files[i as int]);
            }
            match Self::create_ast(file) {
                Ok(methods) => {
                    proof {
                        lemma_failing_count_zero(file@.methods);
                    }
                    processed.push(ProcessedFile::new(file.path.clone(), methods));
                }
                Err(mut es) => {
                    proof {
                        assert(es@.len() > 0);
                    }
                    errors.append(&mut es);
                    proof {
                        assert(errors@.len() > 0);
                    }
                }
            }
            i = i + 1;
        }
        proof {
            assert(self@.files.subrange(0, n as int) =~= self@.files);
        }
        if errors.len() == 0 {
            let r = ParsedSchema {
                project_name: self.project_name.clone(),
                root_directory: self.root_directory.clone(),
                language: self.language.clone(),
                system_types: self.system_types.clone(),
                domain_types: self.domain_types.clone(),
                files: processed,
                workflow: clone_string_vec(&self.workflow),
                templates,
            };
            proof {
                assert(r@.files.len() == self@.files.len());
            }
            Ok(r)
        } else {
            Err(errors)
        }
    }
}

/// Mathematical model of one generated artifact.
pub struct ArtifactView {
    pub path: Seq<char>,
    pub content: Seq<char>,
}

/// One generated output: the relative path it is to be written to and its
/// full text.
#[derive(PartialEq, Debug)]
pub struct Artifact {
    pub path: String,
    pub content: String,
}

impl View for Artifact {
    type V = ArtifactView;

    open spec fn view(&self) -> ArtifactView {
        ArtifactView { path: self.path@, content: self.content@ }
    }
}

/// A failure to render one artifact: the template that failed and the
/// message the engine gave. One artifact's failure leaves the others
/// untouched.
#[derive(PartialEq, Debug)]
pub struct GenError {
    pub template: String,
    pub message: String,
}

/// How many characters stand before the first slash.
pub open spec fn non_slash_count(s: Seq<char>, pos: int) -> nat
    decreases s.len() - pos,
{
    if pos < s.len() && s[pos] != '/' {
        (1 + non_slash_count(s, pos + 1)) as nat
    } else {
        0
    }
}

/// The path with its root segment remapped from the source tree to the
/// test tree: a leading `src` segment becomes `tests`, any other root is
/// kept.
pub open spec fn remap_root(p: Seq<char>) -> Seq<char> {
    let h = non_slash_count(p, 0) as int;
    if p.subrange(0, h) == "src"@ {
        "tests"@ + p.skip(h)
    } else {
        p
    }
}

/// The last slash-separated segment of a path.
pub open spec fn last_component(p: Seq<char>) -> Seq<char>
    decreases p.len(),
{
    if p.len() == 0 {
        p
    } else if p.last() == '/' {
        Seq::empty()
    } else {
        last_component(p.drop_last()).push(p.last())
    }
}

/// Whether a path names the designated entry file: its last segment is
/// `main` or `index`.
pub open spec fn is_entry_path(p: Seq<char>) -> bool {
    last_component(p) == "main"@ || last_component(p) == "index"@
}

/// The path with the target language's source extension: `.py` for python,
/// `.js` for javascript, and unchanged for an unknown target.
pub open spec fn with_language_ext(path: Seq<char>, language: Seq<char>) -> Seq<char> {
    if language == "python"@ {
        path + ".py"@
    } else if language == "javascript"@ {
        path + ".js"@
    } else {
        path
    }
}

/// The fixed per-language path of the entry artifact.
pub open spec fn main_file_path(language: Seq<char>) -> Seq<char> {
    if language == "python"@ {
        "src/main.py"@
    } else if language == "javascript"@ {
        "src/index.js"@
    } else {
        "unknown_language"@
    }
}

/// The per-language module-marker file name that every output directory is
/// to hold.
pub open spec fn module_marker_view(language: Seq<char>) -> Seq<char> {
    if language == "python"@ {
        "__init_.py"@
    } else if language == "rust"@ {
        "mod.rs"@
    } else {
        "unknown_language"@
    }
}

/// The dependency names of the whole schema: file order first, then method
/// order, then parameter order.
pub open spec fn schema_dep_names(files: Seq<FileView>) -> Seq<Seq<char>>
    decreases files,
{
    if files.len() == 0 {
        Seq::empty()
    } else {
        schema_dep_names(files.drop_last()) + file_dep_names(files.last().methods)
    }
}

/// The bodies of the mocks the whole schema needs: the schema's dependency
/// names, deduplicated into ascending order, resolved against the registry
/// first-match-first, each resolved entry contributing its mock text.
pub open spec fn schema_mock_bodies(files: Seq<FileView>, registry: Seq<MockConfigView>) -> Seq<
    Seq<char>,
> {
    spec_resolve(spec_dedup(schema_dep_names(files)), registry).map_values(
        |m: MockConfigView| m.mock,
    )
}

/// One method's text for the target language: the javascript-style
/// rendering of a signature is its bare name; any other target falls back
/// to the python-style stub.
pub open spec fn method_code(s: SigView, language: Seq<char>) -> Seq<char> {
    if language == "javascript"@ {
        s.name
    } else {
        py_sig(s)
    }
}

/// The text of one application file: every method rendered for the target
/// language, in method order, joined with newlines.
pub open spec fn app_functions(ms: Seq<MethodView>, language: Seq<char>) -> Seq<char> {
    join_with(ms.map_values(|m: MethodView| method_code(m.ast, language)), "\n"@)
}

/// How a mock is referred to inside a generated assertion: through the
/// entry module for the designated entry file, through its own name
/// elsewhere.
pub open spec fn mock_ref_view(is_main: bool, name: Seq<char>) -> Seq<char> {
    if is_main {
        "index.requests.get"@
    } else {
        name + ".get"@
    }
}

/// The test cases one matched mock contributes for one target function.
pub open spec fn config_tests(config: MockConfigView, is_main: bool, target: Seq<char>) -> Seq<
    Seq<char>,
> {
    config.tests.map_values(
        |t: MockTestView| py_mock_test(t, mock_ref_view(is_main, config.name), config, target),
    )
}

/// The test cases of all matched mocks, mock order kept.
pub open spec fn mocks_tests(mocks: Seq<MockConfigView>, is_main: bool, target: Seq<char>) -> Seq<
    Seq<char>,
>
    decreases mocks,
{
    if mocks.len() == 0 {
        Seq::empty()
    } else {
        mocks_tests(mocks.drop_last(), is_main, target)
            + config_tests(mocks.last(), is_main, target)
    }
}

/// The registry entries whose name appears among `deps`, in registry order.
pub open spec fn registry_filter(mocks: Seq<MockConfigView>, deps: Seq<Seq<char>>) -> Seq<
    MockConfigView,
>
    decreases mocks,
{
    if mocks.len() == 0 {
        Seq::empty()
    } else {
        registry_filter(mocks.drop_last(), deps) + (if deps.contains(mocks.last().name) {
            seq![mocks.last()]
        } else {
            Seq::empty()
        })
    }
}

/// The import lines of all matched mocks, flattened in registry order.
pub open spec fn mocks_imports(mocks: Seq<MockConfigView>) -> Seq<Seq<char>>
    decreases mocks,
{
    if mocks.len() == 0 {
        Seq::empty()
    } else {
        mocks_imports(mocks.drop_last()) + mocks.last().imports
    }
}

/// One method's import text: its matched mocks' import lines run together.
pub open spec fn method_import_blob(m: MethodView, registry: Seq<MockConfigView>) -> Seq<char> {
    join_with(mocks_imports(registry_filter(registry, spec_dependency_names(m.ast.input))), ""@)
}

/// Every method's import text, in method order.
pub open spec fn file_import_blobs(methods: Seq<MethodView>, registry: Seq<MockConfigView>) -> Seq<
    Seq<char>,
> {
    methods.map_values(|m: MethodView| method_import_blob(m, registry))
}

/// The aggregate line importing the file's dependency names, duplicates
/// kept, from the shared mocks module.
pub open spec fn aggregate_import_line(methods: Seq<MethodView>) -> Seq<char> {
    "from tests.mocks import "@ + join_with(file_dep_names(methods), ","@)
}

/// The `imports` binding of a test artifact: the per-method import texts
/// and then the aggregate line.
pub open spec fn test_imports(methods: Seq<MethodView>, registry: Seq<MockConfigView>) -> Seq<
    Seq<char>,
> {
    file_import_blobs(methods, registry).push(aggregate_import_line(methods))
}

/// The rendered test cases of a file: for each method in order, the
/// fixture tests of its matched mocks.
pub open spec fn file_tests(
    methods: Seq<MethodView>,
    registry: Seq<MockConfigView>,
    is_main: bool,
) -> Seq<Seq<char>>
    decreases methods,
{
    if methods.len() == 0 {
        Seq::empty()
    } else {
        file_tests(methods.drop_last(), registry, is_main) + mocks_tests(
            registry_filter(registry, spec_dependency_names(methods.last().ast.input)),
            is_main,
            methods.last().ast.name,
        )
    }
}

/// The local import naming every method of the file from its module path.
pub open spec fn local_import_line(path: Seq<char>, methods: Seq<MethodView>) -> Seq<char> {
    "from "@ + dotted_view(path) + " import "@
        + join_with(methods.map_values(|m: MethodView| m.ast.name), ", "@)
}

/// The module-search-path snippet, emitted for a python target only.
pub open spec fn sys_path_snippet(path: Seq<char>, language: Seq<char>) -> Seq<char> {
    if language == "python"@ {
        "BASE_DIR = os.path.dirname(os.path.abspath(__file__))\nsys.path.append(BASE_DIR)\nsys.path.insert(0, os.path.join(BASE_DIR, \"../"@
            + path + "\"))"@
    } else {
        Seq::empty()
    }
}

/// The path with its root segment remapped from `src` to `tests`.
fn remap_root_path(path: &str) -> (r: String)
    ensures
        r@ == remap_root(path@),
{
    let cs = str_to_chars(path);
    let n = cs.len();
    let mut i: usize = 0;
    while i < n && cs[i] != '/'
        invariant
            n == cs.len(),
            cs@ == path@,
            i <= n,
            non_slash_count(path@, 0) == i + non_slash_count(path@, i as int),
        decreases n - i,
    {
        proof {
            assert(non_slash_count(path@, i as int)
                == 1 + non_slash_count(path@, i + 1 as int));
        }
        i = i + 1;
    }
    proof {
        assert(non_slash_count(path@, i as int) == 0);
    }
    let head = chars_to_string(&cs, 0, i);
    if str_eq(head.as_str(), "src") {
        let mut r = String::from_str("tests");
        let rest = chars_to_string(&cs, i, n);
        r.append(rest.as_str());
        proof {
            assert(path@.skip(i as int) =~= path@.subrange(i as int, n as int));
            assert(r@ =~= "tests"@ + path@.skip(i as int));
        }
        r
    } else {
        path.to_owned()
    }
}

/// Whether the path names the designated entry file.
fn path_is_entry(path: &str) -> (r: bool)
    ensures
        r == is_entry_path(path@),
{
    let cs = str_to_chars(path);
    let n = cs.len();
    let mut i: usize = n;
    proof {
        assert(path@.subrange(0, n as int) =~= path@);
        assert(last_component(path@)
            =~= last_component(path@.subrange(0, i as int)) + path@.subrange(i as int, n as int));
    }
    while i > 0 && cs[i - 1] != '/'
        invariant
            n == cs.len(),
            cs@ == path@,
            i <= n,
            last_component(path@) == last_component(path@.subrange(0, i as int))
                + path@.subrange(i as int, n as int),
        decreases i,
    {
        proof {
            let pre = path@.subrange(0, i as int);
            assert(pre.last() == path@[i - 1]);
            assert(pre.drop_last() =~= path@.subrange(0, i - 1 as int));
            assert(last_component(pre)
                == last_component(path@.subrange(0, i - 1 as int)).push(path@[i - 1]));
            assert(last_component(path@.subrange(0, i - 1 as int)).push(path@[i - 1])
                + path@.subrange(i as int, n as int)
                =~= last_component(path@.subrange(0, i - 1 as int))
                    + path@.subrange(i - 1 as int, n as int));
        }
        i = i - 1;
    }
    proof {
        if i == 0 {
            assert(path@.subrange(0, 0).len() == 0);
            assert(last_component(path@) =~= path@.subrange(0 as int, n as int));
        } else {
            assert(path@.subrange(0, i as int).last() == path@[i - 1]);
            assert(last_component(path@.subrange(0, i as int)) =~= Seq::<char>::empty());
            assert(last_component(path@) =~= path@.subrange(i as int, n as int));
        }
    }
    let comp = chars_to_string(&cs, i, n);
    proof {
        assert(comp@ == last_component(path@));
    }
    str_eq(comp.as_str(), "main") || str_eq(comp.as_str(), "index")
}

/// The path with the target language's source extension.
fn with_ext(path: &str, language: &str) -> (r: String)
    ensures
        r@ == with_language_ext(path@, language@),
{
    if str_eq(language, "python") {
        let mut r = path.to_owned();
        r.append(".py");
        r
    } else if str_eq(language, "javascript") {
        let mut r = path.to_owned();
        r.append(".js");
        r
    } else {
        path.to_owned()
    }
}

/// Whether any of the dependencies bears `name`.
fn dep_names_contain(deps: &Vec<&Dependency>, name: &str) -> (r: bool)
    ensures
        r == deps.deep_view().contains(name@),
{
    let n = deps.len();
    let mut i: usize = 0;
    while i < n
        invariant
            n == deps.len(),
            i <= n,
            forall|k: int| 0 <= k < i ==> deps.deep_view()[k] != name@,
        decreases n - i,
    {
        if str_eq(deps[i].dependency_name.as_str(), name) {
            proof {
                assert(deps.deep_view()[i as int] == name@);
            }
            return true;
        }
        i = i + 1;
    }
    proof {
        if deps.deep_view().contains(name@) {
            let w = choose|w: int| 0 <= w < deps.deep_view().len()
                && deps.deep_view()[w] == name@;
        }
    }
    false
}

impl ParsedSchema {
    /// The whole schema's dependencies: file order, then method order, then
    /// parameter order, duplicates kept.
    pub fn list_dependencies(&self) -> (r: Vec<&Dependency>)
        ensures
            r.deep_view() == schema_dep_names(self@.files),
    {
        let mut r: Vec<&Dependency> = Vec::new();
        let n = self.files.len();
        let mut i: usize = 0;
        while i < n
            invariant
                n == self.files.len(),
                i <= n,
                r.deep_view() == schema_dep_names(self@.files.subrange(0, i as int)),
            decreases n - i,
        {
            let mut deps = self.files[i].list_dependencies();
            let ghost prev = r.deep_view();
            let ghost got = deps.deep_view();
            r.append(&mut deps);
            proof {
                assert forall|j: int| 0 <= j < r.deep_view().len() implies
                    r.deep_view()[j] == (prev + got)[j] by {}
                assert(r.deep_view() =~= prev + got);
                let cur = self@.files.subrange(0, i + 1 as int);
                assert(cur.drop_last() =~= self@.files.subrange(0, i as int));
                assert(cur.last() == self@.files[i as int]);
                assert(self@.files[i as int] == self.files@[i as int]@);
            }
            i = i + 1;
        }
        proof {
            assert(self@.files.subrange(0, n as int) =~= self@.files);
        }
        r
    }

    /// The shared mocks artifact: the schema's dependency names are
    /// deduplicated into ascending order, resolved against the registry,
    /// and the resolved mock bodies are rendered through the `test_mocks`
    /// template to `tests/mocks.py`.
    /// The render context of the shared mocks artifact: one list binding,
    /// `mock_list`, holding exactly the mock bodies of the schema's
    /// deduplicated dependency names resolved against the registry.
    pub fn mocks_render_context(&self, mock_listings: &MockListing) -> (c: tera::Context)
        ensures
            context_lists(c) == no_list_bindings().insert(
                "mock_list"@,
                schema_mock_bodies(self@.files, mock_listings@),
            ),
            context_strings(c) == no_string_bindings(),
    {
        let deps = self.list_dependencies();
        let mut names: Vec<String> = Vec::new();
        let n = deps.len();
        let mut i: usize = 0;
        while i < n
            invariant
                n == deps.len(),
                i <= n,
                names.len() == i,
                forall|k: int| 0 <= k < i ==> names@[k]@ == deps.deep_view()[k],
            decreases n - i,
        {
            names.push(deps[i].dependency_name.clone());
            i = i + 1;
        }
        proof {
            assert(names.deep_view() =~= schema_dep_names(self@.files));
        }
        let unique = deduplicate(&names);
        let mocks = resolve_mocks(&unique, mock_listings);
        let mut mock_list: Vec<String> = Vec::new();
        let m = mocks.len();
        let mut j: usize = 0;
        while j < m
            invariant
                m == mocks.len(),
                j <= m,
                mock_list.len() == j,
                forall|k: int| 0 <= k < j
                    ==> mock_list@[k]@ == mocks@.map_values(|c: MockConfig| c@)[k].mock,
            decreases m - j,
        {
            mock_list.push(mocks[j].mock.clone());
            j = j + 1;
        }
        proof {
            assert(mock_list.deep_view()
                =~= schema_mock_bodies(self@.files, mock_listings@));
        }
        let mut ctx = context_new();
        context_insert_list(&mut ctx, "mock_list", &mock_list);
        proof {
            assert(context_strings(ctx) =~= no_string_bindings());
        }
        ctx
    }

    /// The shared mocks artifact: the schema's dependency names are
    /// deduplicated into ascending order, resolved against the registry,
    /// and the resolved mock bodies are rendered through the `test_mocks`
    /// template to `tests/mocks.py`. The context handed to the renderer is
    /// the one `mocks_render_context` pins down.
    pub fn create_mocks_file(&self, mock_listings: &MockListing) -> (r: Result<Artifact, GenError>)
        ensures
            r is Ok ==> (r->Ok_0)@.path == "tests/mocks.py"@,
            r is Err ==> (r->Err_0).template@ == "test_mocks.hbs"@,
    {
        let ctx = self.mocks_render_context(mock_listings);
        match render_template(&self.templates, "test_mocks.hbs", &ctx) {
            Ok(content) => Ok(Artifact { path: String::from_str("tests/mocks.py"), content }),
            Err(e) => Err(
                GenError {
                    template: String::from_str("test_mocks.hbs"),
                    message: render_error_text(&e),
                },
            ),
        }
    }

    /// One application artifact per file: every method rendered for the
    /// target language, joined with newlines, at the file's path with the
    /// language extension. No template takes part, so nothing can fail.
    pub fn create_application_files(&self) -> (r: Vec<Artifact>)
        ensures
            r@.len() == self@.files.len(),
            forall|i: int| 0 <= i < r@.len()
                ==> (#[trigger] r@[i])@.path
                        == with_language_ext(self@.files[i].path, self@.language)
                    && r@[i]@.content == app_functions(self@.files[i].methods, self@.language),
    {
        let mut r: Vec<Artifact> = Vec::new();
        let n = self.files.len();
        let mut i: usize = 0;
        while i < n
            invariant
                n == self.files.len(),
                i <= n,
                r@.len() == i,
                forall|k: int| 0 <= k < i
                    ==> (#[trigger] r@[k])@.path
                            == with_language_ext(self@.files[k].path, self@.language)
                        && r@[k]@.content == app_functions(self@.files[k].methods, self@.language),
            decreases n - i,
        {
            let file = &self.files[i];
            let is_js = str_eq(self.language.as_str(), "javascript");
            let mut stubs: Vec<String> = Vec::new();
            let m = file.methods.len();
            let mut j: usize = 0;
            while j < m
                invariant
                    m == file.methods.len(),
                    j <= m,
                    stubs.len() == j,
                    is_js == (self@.language == "javascript"@),
                    forall|k: int| 0 <= k < j
                        ==> stubs.deep_view()[k]
                            == method_code(file.methods@[k]@.ast, self@.language),
                decreases m - j,
            {
                let s = if is_js {
                    file.methods[j].ast.to_javascript()
                } else {
                    file.methods[j].ast.to_python()
                };
                proof {
                    assert forall|k: int| 0 <= k < j implies
                        stubs@[k]@ == method_code(file.methods@[k]@.ast, self@.language) by {
                        assert(stubs.deep_view()[k] == stubs@[k]@);
                    }
                }
                let ghost s0 = stubs@;
                stubs.push(s);
                proof {
                    assert forall|k: int| 0 <= k < j + 1 implies
                        stubs.deep_view()[k]
                            == method_code(file.methods@[k]@.ast, self@.language) by {
                        assert(stubs.deep_view()[k] == stubs@[k]@);
                        if k < j {
                            assert(stubs@[k] == s0[k]);
                        } else {
                            assert(stubs@[k] == s);
                            assert(file.methods@[k]@.ast == file.methods@[k].ast@);
                        }
                    }
                }
                j = j + 1;
            }
            let content = join_strings(&stubs, "\n");
            let path = with_ext(file.path.as_str(), self.language.as_str());
            r.push(Artifact { path, content });
            proof {
                assert(self@.files[i as int] == self.files@[i as int]@);
                assert(stubs.deep_view()
                    =~= self@.files[i as int].methods.map_values(
                    |m: MethodView| method_code(m.ast, self@.language)));
            }
            i = i + 1;
        }
        r
    }

    /// The test cases of one method against its matched mocks: for every
    /// mock, for each of its fixture tests, one rendered case, the mock
    /// referred to through the entry module when the file is the entry
    /// file.
    fn build_tests_for_methods(&self, method_and_mock: &MethodAndMocks, is_main: bool) -> (r: Vec<
        String,
    >)
        ensures
            r.deep_view() == mocks_tests(
                method_and_mock@.mocks,
                is_main,
                method_and_mock@.method.ast.name,
            ),
    {
        let mut r: Vec<String> = Vec::new();
        let n = method_and_mock.mocks.len();
        let mut i: usize = 0;
        while i < n
            invariant
                n == method_and_mock.mocks.len(),
                i <= n,
                r.deep_view() == mocks_tests(
                    method_and_mock@.mocks.subrange(0, i as int),
                    is_main,
                    method_and_mock@.method.ast.name,
                ),
            decreases n - i,
        {
            let config = &method_and_mock.mocks[i];
            let mock_ref = if is_main {
                String::from_str("index.requests.get")
            } else {
                let mut s = config.name.clone();
                s.append(".get");
                s
            };
            proof {
                assert(mock_ref@ == mock_ref_view(is_main, config@.name));
            }
            let target = method_and_mock.method.ast.name.as_str();
            let m = config.tests.len();
            let mut j: usize = 0;
            let ghost base = r.deep_view();
            while j < m
                invariant
                    m == config.tests.len(),
                    j <= m,
                    mock_ref@ == mock_ref_view(is_main, config@.name),
                    target@ == method_and_mock@.method.ast.name,
                    r.deep_view().len() == base.len() + j,
                    forall|k: int| 0 <= k < base.len()
                        ==> #[trigger] r.deep_view()[k] == base[k],
                    forall|k: int| 0 <= k < j
                        ==> r.deep_view()[base.len() + k] == config_tests(
                            config@,
                            is_main,
                            method_and_mock@.method.ast.name,
                        )[k],
                decreases m - j,
            {
                let case = config.tests[j].to_python(mock_ref.as_str(), config, target);
                proof {
                    assert forall|k: int| 0 <= k < base.len() implies r@[k]@ == base[k] by {
                        assert(r.deep_view()[k] == r@[k]@);
                    }
                    assert forall|k: int| 0 <= k < j implies
                        r@[base.len() + k]@ == config_tests(
                            config@,
                            is_main,
                            method_and_mock@.method.ast.name,
                        )[k] by {
                        assert(r.deep_view()[base.len() + k] == r@[base.len() + k]@);
                    }
                }
                let ghost r0 = r@;
                r.push(case);
                proof {
                    assert forall|k: int| 0 <= k < base.len() implies
                        #[trigger] r.deep_view()[k] == base[k] by {
                        assert(r@[k] == r0[k]);
                        assert(r.deep_view()[k] == r@[k]@);
                    }
                    assert forall|k: int| 0 <= k < j + 1 implies
                        r.deep_view()[base.len() + k] == config_tests(
                            config@,
                            is_main,
                            method_and_mock@.method.ast.name,
                        )[k] by {
                        assert(r.deep_view()[base.len() + k] == r@[base.len() + k]@);
                        if k < j {
                            assert(r@[base.len() + k] == r0[base.len() + k]);
                        } else {
                            assert(r@[base.len() + k] == case);
                            assert(config@.tests[k] == config.tests@[k]@);
                        }
                    }
                }
                j = j + 1;
            }
            proof {
                let cur = method_and_mock@.mocks.subrange(0, i + 1 as int);
                assert(cur.drop_last() =~= method_and_mock@.mocks.subrange(0, i as int));
                assert(cur.last() == method_and_mock@.mocks[i as int]);
                assert(method_and_mock@.mocks[i as int] == config@);
                assert(r.deep_view() =~= base + config_tests(
                    config@,
                    is_main,
                    method_and_mock@.method.ast.name,
                ));
                assert(r.deep_view() =~= mocks_tests(
                    cur,
                    is_main,
                    method_and_mock@.method.ast.name,
                ));
            }
            i = i + 1;
        }
        proof {
            assert(method_and_mock@.mocks.subrange(0, n as int) =~= method_and_mock@.mocks);
        }
        r
    }

    /// Pairs one method with the registry entries whose name appears among
    /// the method's own dependencies, in registry order: a pure function of
    /// the method's dependency names and the registry snapshot, neither of
    /// which it touches, so the same inputs always give the same pairing.
    pub fn retrieve_mock_configs(&self, method: &ParsedMethod, mock_listings: &MockListing) -> (r:
        MethodAndMocks)
        ensures
            r@.method == method@,
            r@.mocks == registry_filter(
                mock_listings@,
                spec_dependency_names(method@.ast.input),
            ),
    {
        let deps = method.list_dependencies();
        let mut mocks: Vec<MockConfig> = Vec::new();
        let n = mock_listings.mocks.len();
        let mut i: usize = 0;
        while i < n
            invariant
                n == mock_listings.mocks.len(),
                i <= n,
                deps.deep_view() == spec_dependency_names(method@.ast.input),
                mocks@.map_values(|m: MockConfig| m@) == registry_filter(
                    mock_listings@.subrange(0, i as int),
                    spec_dependency_names(method@.ast.input),
                ),
            decreases n - i,
        {
            let config = &mock_listings.mocks[i];
            if dep_names_contain(&deps, config.name.as_str()) {
                let c = config.clone();
                mocks.push(c);
            }
            proof {
                let cur = mock_listings@.subrange(0, i + 1 as int);
                assert(cur.drop_last() =~= mock_listings@.subrange(0, i as int));
                assert(cur.last() == mock_listings@[i as int]);
                assert(mock_listings@[i as int] == config@);
                assert(mocks@.map_values(|m: MockConfig| m@) =~= registry_filter(
                    cur,
                    spec_dependency_names(method@.ast.input),
                ));
            }
            i = i + 1;
        }
        proof {
            assert(mock_listings@.subrange(0, n as int) =~= mock_listings@);
        }
        MethodAndMocks { method: method.clone(), mocks }
    }

    /// The render context of one file's test artifact: the rendered test
    /// cases of every method against its matched mocks under `tests`, each
    /// method's mock import text and then the aggregate import of the
    /// file's dependency names under `imports`, one local import naming
    /// the file's methods from its module path, and the python-only
    /// sys-path snippet.
    pub fn test_render_context(&self, file: &ProcessedFile, mock_listings: &MockListing) -> (c:
        tera::Context)
        ensures
            context_lists(c) == no_list_bindings()
                .insert("imports"@, test_imports(file@.methods, mock_listings@))
                .insert("local_imports"@, seq![local_import_line(file@.path, file@.methods)])
                .insert(
                "tests"@,
                file_tests(file@.methods, mock_listings@, is_entry_path(file@.path)),
            ),
            context_strings(c) == no_string_bindings().insert(
                "sys_path_assignment"@,
                sys_path_snippet(file@.path, self@.language),
            ),
    {
        let is_main = path_is_entry(file.path.as_str());

        let mut tests: Vec<String> = Vec::new();
        let mut imports: Vec<String> = Vec::new();
        let m = file.methods.len();
        let mut j: usize = 0;
        while j < m
            invariant
                m == file.methods.len(),
                is_main == is_entry_path(file@.path),
                j <= m,
                tests.deep_view() == file_tests(
                    file@.methods.subrange(0, j as int),
                    mock_listings@,
                    is_entry_path(file@.path),
                ),
                imports.deep_view() == file_import_blobs(
                    file@.methods.subrange(0, j as int),
                    mock_listings@,
                ),
            decreases m - j,
        {
            let ghost pre = file@.methods.subrange(0, j as int);
            let ghost cur = file@.methods.subrange(0, j + 1 as int);
            proof {
                assert(cur.drop_last() =~= pre);
                assert(cur.last() == file@.methods[j as int]);
                assert(file@.methods[j as int] == file.methods@[j as int]@);
            }
            let mams = self.retrieve_mock_configs(&file.methods[j], mock_listings);
            let mut cases = self.build_tests_for_methods(&mams, is_main);
            let ghost t0 = tests.deep_view();
            let ghost got = cases.deep_view();
            tests.append(&mut cases);
            proof {
                assert forall|q: int| 0 <= q < tests.deep_view().len() implies
                    tests.deep_view()[q] == (t0 + got)[q] by {}
                assert(tests.deep_view() =~= t0 + got);
                assert(tests.deep_view() =~= file_tests(
                    cur,
                    mock_listings@,
                    is_entry_path(file@.path),
                ));
            }
            let mut import_lines: Vec<String> = Vec::new();
            let mc = mams.mocks.len();
            let mut k: usize = 0;
            while k < mc
                invariant
                    mc == mams.mocks.len(),
                    k <= mc,
                    import_lines.deep_view() == mocks_imports(mams@.mocks.subrange(0, k as int)),
                decreases mc - k,
            {
                let mut lines = clone_string_vec(&mams.mocks[k].imports);
                let ghost i0 = import_lines.deep_view();
                let ghost gotl = lines.deep_view();
                import_lines.append(&mut lines);
                proof {
                    assert forall|q: int| 0 <= q < import_lines.deep_view().len() implies
                        import_lines.deep_view()[q] == (i0 + gotl)[q] by {}
                    assert(import_lines.deep_view() =~= i0 + gotl);
                    let mcur = mams@.mocks.subrange(0, k + 1 as int);
                    assert(mcur.drop_last() =~= mams@.mocks.subrange(0, k as int));
                    assert(mcur.last() == mams@.mocks[k as int]);
                    assert(mams@.mocks[k as int] == mams.mocks@[k as int]@);
                    assert(import_lines.deep_view() =~= mocks_imports(mcur));
                }
                k = k + 1;
            }
            proof {
                assert(mams@.mocks.subrange(0, mc as int) =~= mams@.mocks);
            }
            let joined = join_strings(&import_lines, "");
            proof {
                assert(file_import_blobs(pre, mock_listings@).len() == pre.len());
                assert(imports.deep_view().len() == j);
                assert(imports@.len() == j);
                assert forall|q: int| 0 <= q < j implies
                    imports@[q]@ == method_import_blob(pre[q], mock_listings@) by {
                    assert(imports.deep_view()[q] == imports@[q]@);
                    assert(file_import_blobs(pre, mock_listings@)[q]
                        == method_import_blob(pre[q], mock_listings@));
                }
            }
            let ghost im0 = imports@;
            imports.push(joined);
            proof {
                assert(imports@.len() == j + 1);
                assert(imports.deep_view().len() == j + 1);
                assert(file_import_blobs(cur, mock_listings@).len() == cur.len());
                assert forall|q: int| 0 <= q < j + 1 implies
                    imports.deep_view()[q]
                        == file_import_blobs(cur, mock_listings@)[q] by {
                    assert(imports.deep_view()[q] == imports@[q]@);
                    if q < j {
                        assert(imports@[q] == im0[q]);
                        assert(pre[q] == cur[q]);
                    } else {
                        assert(imports@[q] == joined);
                        assert(joined@ == method_import_blob(cur.last(), mock_listings@));
                    }
                }
                assert(imports.deep_view() =~= file_import_blobs(cur, mock_listings@));
            }
            j = j + 1;
        }
        proof {
            assert(file@.methods.subrange(0, m as int) =~= file@.methods);
        }

        let file_deps = file.list_dependencies();
        let mut dep_names: Vec<String> = Vec::new();
        let fd = file_deps.len();
        let mut k: usize = 0;
        while k < fd
            invariant
                fd == file_deps.len(),
                k <= fd,
                dep_names.len() == k,
                forall|q: int| 0 <= q < k ==> dep_names@[q]@ == file_deps.deep_view()[q],
            decreases fd - k,
        {
            dep_names.push(file_deps[k].dependency_name.clone());
            k = k + 1;
        }
        proof {
            assert(dep_names.deep_view() =~= file_dep_names(file@.methods));
        }
        let joined_dependencies = join_strings(&dep_names, ",");
        let mut aggregate = String::from_str("from tests.mocks import ");
        aggregate.append(joined_dependencies.as_str());
        proof {
            assert(aggregate@ =~= aggregate_import_line(file@.methods));
            assert(imports.deep_view().len() == imports@.len());
            assert forall|q: int| 0 <= q < imports@.len() implies
                imports@[q]@ == imports.deep_view()[q] by {}
        }
        let ghost blobs = imports@;
        imports.push(aggregate);
        proof {
            assert(imports@.len() == blobs.len() + 1);
            assert(imports.deep_view().len() == imports@.len());
            assert forall|q: int| 0 <= q < imports.deep_view().len() implies
                imports.deep_view()[q]
                    == test_imports(file@.methods, mock_listings@)[q] by {
                assert(imports.deep_view()[q] == imports@[q]@);
                if q < blobs.len() {
                    assert(imports@[q] == blobs[q]);
                }
            }
            assert(imports.deep_view() =~= test_imports(file@.methods, mock_listings@));
        }

        let mut sys_path = String::new();
        if str_eq(self.language.as_str(), "python") {
            sys_path = String::from_str(
                "BASE_DIR = os.path.dirname(os.path.abspath(__file__))\nsys.path.append(BASE_DIR)\nsys.path.insert(0, os.path.join(BASE_DIR, \"../",
            );
            sys_path.append(file.path.as_str());
            sys_path.append("\"))");
        }
        proof {
            assert(sys_path@ =~= sys_path_snippet(file@.path, self@.language));
        }

        let dotted = replace_slashes_with_dots(file.path.as_str());
        let mut method_names: Vec<String> = Vec::new();
        let mn = file.methods.len();
        let mut k2: usize = 0;
        while k2 < mn
            invariant
                mn == file.methods.len(),
                k2 <= mn,
                method_names.len() == k2,
                forall|q: int| 0 <= q < k2 ==> method_names@[q]@ == file.methods@[q]@.ast.name,
            decreases mn - k2,
        {
            method_names.push(file.methods[k2].ast.name.clone());
            k2 = k2 + 1;
        }
        proof {
            assert(method_names.deep_view()
                =~= file@.methods.map_values(|m: MethodView| m.ast.name));
        }
        let joined_methods = join_strings(&method_names, ", ");
        let mut local_import = String::from_str("from ");
        local_import.append(dotted.as_str());
        local_import.append(" import ");
        local_import.append(joined_methods.as_str());
        proof {
            assert(local_import@ =~= local_import_line(file@.path, file@.methods));
        }
        let mut local_imports: Vec<String> = Vec::new();
        local_imports.push(local_import);
        proof {
            assert(local_imports.deep_view()
                =~= seq![local_import_line(file@.path, file@.methods)]);
        }

        let mut ctx = context_new();
        context_insert_list(&mut ctx, "imports", &imports);
        context_insert_list(&mut ctx, "local_imports", &local_imports);
        context_insert_str(&mut ctx, "sys_path_assignment", sys_path.as_str());
        context_insert_list(&mut ctx, "tests", &tests);
        proof {
            reveal_strlit("imports");
            reveal_strlit("local_imports");
            reveal_strlit("sys_path_assignment");
            reveal_strlit("tests");
            assert("sys_path_assignment"@.len() == 19);
            assert("imports"@.len() == 7);
            assert("local_imports"@.len() == 13);
            assert("tests"@.len() == 5);
            assert("sys_path_assignment"@ != "imports"@);
            assert("sys_path_assignment"@ != "local_imports"@);
            assert("tests"@ != "sys_path_assignment"@);
            assert(context_lists(ctx) =~= no_list_bindings()
                .insert("imports"@, test_imports(file@.methods, mock_listings@))
                .insert("local_imports"@, seq![local_import_line(file@.path, file@.methods)])
                .insert(
                "tests"@,
                file_tests(file@.methods, mock_listings@, is_entry_path(file@.path)),
            ));
            assert(context_strings(ctx) =~= no_string_bindings().insert(
                "sys_path_assignment"@,
                sys_path_snippet(file@.path, self@.language),
            ));
        }
        ctx
    }

    /// One test artifact per file, rendered through the `test` template at
    /// the file's path remapped into the test tree, with the language
    /// extension; the context handed to the renderer for each file is the
    /// one `test_render_context` pins down. A file whose render fails
    /// leaves the other files' artifacts standing.
    pub fn create_test_files(&self, mock_listings: &MockListing) -> (r: Vec<
        Result<Artifact, GenError>,
    >)
        ensures
            r@.len() == self@.files.len(),
            forall|i: int| 0 <= i < r@.len() ==> (#[trigger] r@[i]) is Ok
                ==> (r@[i]->Ok_0)@.path == with_language_ext(
                    remap_root(self@.files[i].path),
                    self@.language,
                ),
            forall|i: int| 0 <= i < r@.len() ==> (#[trigger] r@[i]) is Err
                ==> (r@[i]->Err_0).template@ == "test.hbs"@,
    {
        let mut r: Vec<Result<Artifact, GenError>> = Vec::new();
        let n = self.files.len();
        let mut i: usize = 0;
        while i < n
            invariant
                n == self.files.len(),
                i <= n,
                r@.len() == i,
                forall|k: int| 0 <= k < i ==> (#[trigger] r@[k]) is Ok
                    ==> (r@[k]->Ok_0)@.path == with_language_ext(
                        remap_root(self@.files[k].path),
                        self@.language,
                    ),
                forall|k: int| 0 <= k < i ==> (#[trigger] r@[k]) is Err
                    ==> (r@[k]->Err_0).template@ == "test.hbs"@,
            decreases n - i,
        {
            let file = &self.files[i];
            let ctx = self.test_render_context(file, mock_listings);
            let test_file_path = remap_root_path(file.path.as_str());
            let full_path = with_ext(test_file_path.as_str(), self.language.as_str());
            match render_template(&self.templates, "test.hbs", &ctx) {
                Ok(content) => {
                    proof {
                        assert(self@.files[i as int] == self.files@[i as int]@);
                    }
                    r.push(Ok(Artifact { path: full_path, content }));
                }
                Err(e) => {
                    r.push(
                        Err(
                            GenError {
                                template: String::from_str("test.hbs"),
                                message: render_error_text(&e),
                            },
                        ),
                    );
                }
            }
            i = i + 1;
        }
        r
    }

    /// The render context of the entry artifact: the declared workflow
    /// steps verbatim under `workflow`, beside the three fixed placeholder
    /// lists; true wiring of dependencies into the workflow is
    /// deliberately not computed.
    pub fn main_render_context(&self) -> (c: tera::Context)
        ensures
            context_lists(c) == no_list_bindings()
                .insert("application_files"@, seq!["application files"@, "apfile"@])
                .insert("dependencies"@, seq!["dependencies"@, "dep2"@])
                .insert(
                "functions_with_side_effects"@,
                seq!["functions_with_side_effects"@, "sideeffect"@],
            ).insert("workflow"@, self@.workflow),
            context_strings(c) == no_string_bindings(),
    {
        let mut application_files: Vec<String> = Vec::new();
        application_files.push(String::from_str("application files"));
        application_files.push(String::from_str("apfile"));
        let mut dependencies: Vec<String> = Vec::new();
        dependencies.push(String::from_str("dependencies"));
        dependencies.push(String::from_str("dep2"));
        let mut functions_with_side_effects: Vec<String> = Vec::new();
        functions_with_side_effects.push(String::from_str("functions_with_side_effects"));
        functions_with_side_effects.push(String::from_str("sideeffect"));

        let mut ctx = context_new();
        context_insert_list(&mut ctx, "application_files", &application_files);
        context_insert_list(&mut ctx, "dependencies", &dependencies);
        context_insert_list(
            &mut ctx,
            "functions_with_side_effects",
            &functions_with_side_effects,
        );
        context_insert_list(&mut ctx, "workflow", &self.workflow);
        proof {
            assert(application_files.deep_view() =~= seq!["application files"@, "apfile"@]);
            assert(dependencies.deep_view() =~= seq!["dependencies"@, "dep2"@]);
            assert(functions_with_side_effects.deep_view()
                =~= seq!["functions_with_side_effects"@, "sideeffect"@]);
            assert(context_strings(ctx) =~= no_string_bindings());
            assert(context_lists(ctx) =~= no_list_bindings()
                .insert("application_files"@, seq!["application files"@, "apfile"@])
                .insert("dependencies"@, seq!["dependencies"@, "dep2"@])
                .insert(
                "functions_with_side_effects"@,
                seq!["functions_with_side_effects"@, "sideeffect"@],
            ).insert("workflow"@, self@.workflow));
        }
        ctx
    }

    /// The entry artifact: the workflow context of `main_render_context`,
    /// rendered through the `main` template at the fixed per-language
    /// path.
    pub fn create_main_file(&self) -> (r: Result<Artifact, GenError>)
        ensures
            r is Ok ==> (r->Ok_0)@.path == main_file_path(self@.language),
            r is Err ==> (r->Err_0).template@ == "main.hbs"@,
    {
        let ctx = self.main_render_context();
        let full_path = if str_eq(self.language.as_str(), "python") {
            String::from_str("src/main.py")
        } else if str_eq(self.language.as_str(), "javascript") {
            String::from_str("src/index.js")
        } else {
            String::from_str("unknown_language")
        };
        match render_template(&self.templates, "main.hbs", &ctx) {
            Ok(content) => Ok(Artifact { path: full_path, content }),
            Err(e) => Err(
                GenError {
                    template: String::from_str("main.hbs"),
                    message: render_error_text(&e),
                },
            ),
        }
    }

    /// The module-marker file name that each directory receiving an
    /// artifact is to hold once.
    pub fn module_marker(&self) -> (r: String)
        ensures
            r@ == module_marker_view(self@.language),
    {
        if str_eq(self.language.as_str(), "python") {
            String::from_str("__init_.py")
        } else if str_eq(self.language.as_str(), "rust") {
            String::from_str("mod.rs")
        } else {
            String::from_str("unknown_language")
        }
    }

    /// Every artifact of the schema, in a fixed order: the entry artifact,
    /// one application artifact per file, the shared mocks artifact, and
    /// one test artifact per file. Application artifacts cannot fail; each
    /// rendered artifact that fails is reported in its slot and leaves the
    /// others standing.
    pub fn generate(&self, mock_listings: &MockListing) -> (r: Vec<Result<Artifact, GenError>>)
        ensures
            r@.len() == 2 * self@.files.len() + 2,
            r@[0] is Ok ==> (r@[0]->Ok_0)@.path == main_file_path(self@.language),
            forall|i: int| 0 <= i < self@.files.len()
                ==> (#[trigger] r@[1 + i]) is Ok
                    && (r@[1 + i]->Ok_0)@.path
                        == with_language_ext(self@.files[i].path, self@.language)
                    && (r@[1 + i]->Ok_0)@.content == app_functions(self@.files[i].methods, self@.language),
            r@[self@.files.len() + 1 as int] is Ok
                ==> (r@[self@.files.len() + 1 as int]->Ok_0)@.path == "tests/mocks.py"@,
            forall|i: int| 0 <= i < self@.files.len()
                ==> (#[trigger] r@[self@.files.len() + 2 + i]) is Ok
                    ==> (r@[self@.files.len() + 2 + i]->Ok_0)@.path == with_language_ext(
                        remap_root(self@.files[i].path),
                        self@.language,
                    ),
            r@[0] is Err ==> (r@[0]->Err_0).template@ == "main.hbs"@,
            r@[self@.files.len() + 1 as int] is Err
                ==> (r@[self@.files.len() + 1 as int]->Err_0).template@ == "test_mocks.hbs"@,
            forall|i: int| 0 <= i < self@.files.len()
                ==> (#[trigger] r@[self@.files.len() + 2 + i]) is Err
                    ==> (r@[self@.files.len() + 2 + i]->Err_0).template@ == "test.hbs"@,
    {
        let mut r: Vec<Result<Artifact, GenError>> = Vec::new();
        r.push(self.create_main_file());
        let apps = self.create_application_files();
        let ghost apps_v = apps@;
        let na = apps.len();
        let mut i: usize = 0;
        while i < na
            invariant
                na == apps_v.len(),
                i <= na,
                r@.len() == 1 + i,
                apps@ == apps_v,
                r@[0] is Ok ==> (r@[0]->Ok_0)@.path == main_file_path(self@.language),
                r@[0] is Err ==> (r@[0]->Err_0).template@ == "main.hbs"@,
                forall|k: int| 0 <= k < i ==> (#[trigger] r@[1 + k]) is Ok
                    && (r@[1 + k]->Ok_0)@ == apps_v[k]@,
            decreases na - i,
        {
            let a = apps[i].clone_artifact();
            r.push(Ok(a));
            proof {
                assert((r@[1 + i as int]->Ok_0)@ == apps_v[i as int]@);
            }
            i = i + 1;
        }
        r.push(self.create_mocks_file(mock_listings));
        let mut tests = self.create_test_files(mock_listings);
        let ghost tests_v = tests@;
        let ghost before = r@;
        r.append(&mut tests);
        proof {
            assert(r@ =~= before + tests_v);
        }
        r
    }
}

impl Artifact {
    /// A copy denoting the same artifact.
    fn clone_artifact(&self) -> (r: Artifact)
        ensures
            r@ == self@,
    {
        Artifact { path: self.path.clone(), content: self.content.clone() }
    }
}

} // verus!
