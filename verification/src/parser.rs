//! Recursive-descent parser for the signature grammar:
//!
//! ```text
//! signature   := name "(" arglist? ")" ws "->" ws type
//! name        := any characters up to the first "("
//! arglist     := arg (ws "," ws arg)*
//! arg         := ws identifier ws ":" ws type
//! type        := ws ( dependency_type | parent_type | application_type )
//! dependency_type := "{" identifier "}"
//! parent_type := identifier "[" type ("," type)* "]"
//! application_type := identifier
//! identifier  := one or more alphanumeric or underscore characters
//! ws          := zero or more spaces or tabs
//! ```
//!
//! The dependency form (leading `{`) is tried before the parent form, and the
//! parent form (a trailing `[...]`) before the bare application form. A parse
//! succeeds only if the whole string is consumed.

use vstd::prelude::*;

use crate::ast::ApplicationParentType;
use crate::ast::ApplicationType;
use crate::ast::Dependency;
use crate::ast::FunctionParameter;
use crate::ast::FunctionSignature;
use crate::ast::ParamView;
use crate::ast::ParameterType;
use crate::ast::SigView;
use crate::ast::TypeView;
use crate::ast::type_seq_view;
use crate::ast::lemma_type_seq_view_elts;
use crate::ast::py_type;
use crate::ast::py_children;
use crate::strutil::chars_to_string;
use crate::strutil::str_to_chars;

verus! {

/// A space or a tab: the whitespace the grammar permits.
pub open spec fn is_space(c: char) -> bool {
    c == ' ' || c == '\t'
}

/// A character that may stand in an identifier.
pub open spec fn is_ident_char(c: char) -> bool {
    ('a' <= c && c <= 'z') || ('A' <= c && c <= 'Z') || ('0' <= c && c <= '9') || c == '_'
}

/// How many whitespace characters stand at `pos`.
pub open spec fn ws_count(s: Seq<char>, pos: int) -> nat
    decreases s.len() - pos,
{
    if pos < s.len() && is_space(s[pos]) {
        (1 + ws_count(s, pos + 1)) as nat
    } else {
        0
    }
}

/// How many identifier characters stand at `pos`.
pub open spec fn id_count(s: Seq<char>, pos: int) -> nat
    decreases s.len() - pos,
{
    if pos < s.len() && is_ident_char(s[pos]) {
        (1 + id_count(s, pos + 1)) as nat
    } else {
        0
    }
}

/// The type grammar at `pos`: the parsed tree and how many characters it
/// consumed, or nothing if no type form matches there.
pub open spec fn spec_parse_type(s: Seq<char>, pos: int) -> Option<(TypeView, nat)>
    decreases s.len() - pos, 1int,
{
    let p = pos + ws_count(s, pos);
    if p < s.len() && s[p] == '{' {
        let idn = id_count(s, p + 1);
        let q = p + 1 + idn;
        if idn == 0 {
            None
        } else if q < s.len() && s[q] == '}' {
            Some((TypeView::Dep { name: s.subrange(p + 1, q) }, (q + 1 - pos) as nat))
        } else {
            None
        }
    } else {
        let idn = id_count(s, p);
        let q = p + idn;
        if idn == 0 {
            None
        } else if q < s.len() && s[q] == '[' {
            match spec_parse_children(s, q + 1) {
                Some((cs, c)) => Some(
                    (TypeView::Parent { name: s.subrange(p, q), children: cs },
                    (q + 1 + c - pos) as nat),
                ),
                None => None,
            }
        } else {
            Some((TypeView::App { name: s.subrange(p, q) }, (q - pos) as nat))
        }
    }
}

/// One or more types separated by `","`, terminated by `"]"`; `pos` stands
/// right after the opening bracket. Consumption runs through the bracket.
pub open spec fn spec_parse_children(s: Seq<char>, pos: int) -> Option<(Seq<TypeView>, nat)>
    decreases s.len() - pos, 2int,
{
    match spec_parse_type(s, pos) {
        None => None,
        Some((t, c)) => {
            let q = pos + c;
            if q < s.len() && s[q] == ',' {
                match spec_parse_children(s, q + 1) {
                    Some((cs, c2)) => Some((seq![t] + cs, (c + 1 + c2) as nat)),
                    None => None,
                }
            } else if q < s.len() && s[q] == ']' {
                Some((seq![t], (c + 1) as nat))
            } else {
                None
            }
        }
    }
}

/// One argument, `ws identifier ws ":" ws type`.
pub open spec fn spec_parse_arg(s: Seq<char>, pos: int) -> Option<(ParamView, nat)> {
    let p = pos + ws_count(s, pos);
    let idn = id_count(s, p);
    let q = p + idn;
    if idn == 0 {
        None
    } else {
        let r = q + ws_count(s, q);
        if r < s.len() && s[r] == ':' {
            match spec_parse_type(s, r + 1) {
                Some((t, c)) => Some(
                    (ParamView { name: s.subrange(p, q), ptype: t }, (r + 1 + c - pos) as nat),
                ),
                None => None,
            }
        } else {
            None
        }
    }
}

/// One or more arguments separated by `ws ","`. Consumption ends with the
/// last argument; a separator not followed by an argument is left unread.
pub open spec fn spec_parse_arg_list(s: Seq<char>, pos: int) -> Option<(Seq<ParamView>, nat)>
    decreases s.len() - pos,
{
    match spec_parse_arg(s, pos) {
        None => None,
        Some((a, c)) => {
            let q = pos + c;
            let r = q + ws_count(s, q);
            if r < s.len() && s[r] == ',' {
                match spec_parse_arg_list(s, r + 1) {
                    Some((rest, c2)) => Some((seq![a] + rest, (r + 1 + c2 - pos) as nat)),
                    None => Some((seq![a], c)),
                }
            } else {
                Some((seq![a], c))
            }
        }
    }
}

/// The whole argument list; `pos` stands right after the opening parenthesis,
/// and consumption runs through the closing one. The list may be empty.
pub open spec fn spec_parse_args(s: Seq<char>, pos: int) -> Option<(Seq<ParamView>, nat)> {
    match spec_parse_arg_list(s, pos) {
        None => if pos < s.len() && s[pos] == ')' {
            Some((Seq::empty(), 1))
        } else {
            None
        },
        Some((args, c)) => {
            let q = pos + c;
            if q < s.len() && s[q] == ')' {
                Some((args, (c + 1) as nat))
            } else {
                None
            }
        }
    }
}

/// The output clause, `ws "->" ws type`.
pub open spec fn spec_parse_output(s: Seq<char>, pos: int) -> Option<(TypeView, nat)> {
    let p = pos + ws_count(s, pos);
    if p + 1 < s.len() && s[p] == '-' && s[p + 1] == '>' {
        match spec_parse_type(s, p + 2) {
            Some((t, c)) => Some((t, (p + 2 + c - pos) as nat)),
            None => None,
        }
    } else {
        None
    }
}

/// How many characters stand before the first `"("`.
pub open spec fn name_count(s: Seq<char>, pos: int) -> nat
    decreases s.len() - pos,
{
    if pos < s.len() && s[pos] != '(' {
        (1 + name_count(s, pos + 1)) as nat
    } else {
        0
    }
}

/// The text a failed signature parse leaves unconsumed, for diagnostics:
/// the whole string when it has no parenthesis, the text from where the
/// argument list or the output clause stopped reducing, or the trailing
/// text left after a complete signature.
pub open spec fn spec_failure_remainder(s: Seq<char>) -> Seq<char> {
    let k = name_count(s, 0);
    if k >= s.len() {
        s
    } else {
        match spec_parse_args(s, k + 1 as int) {
            None => s.skip(k + 1 as int),
            Some((args, c1)) => match spec_parse_output(s, k + 1 + c1 as int) {
                None => s.skip(k + 1 + c1 as int),
                Some((out, c2)) => s.skip(k + 1 + c1 + c2 as int),
            },
        }
    }
}

/// A whole signature: a name up to the first `"("`, the argument list, and
/// the output clause, with no characters left over.
pub open spec fn spec_parse_signature(s: Seq<char>) -> Option<SigView> {
    let k = name_count(s, 0);
    if k >= s.len() {
        None
    } else {
        match spec_parse_args(s, k + 1 as int) {
            None => None,
            Some((args, c1)) => match spec_parse_output(s, k + 1 + c1 as int) {
                None => None,
                Some((out, c2)) => if k + 1 + c1 + c2 == s.len() {
                    Some(SigView { name: s.subrange(0, k as int), input: args, output: out })
                } else {
                    None
                },
            },
        }
    }
}

/// A name the grammar can re-read: nonempty, identifier characters only.
pub open spec fn wf_name(name: Seq<char>) -> bool {
    name.len() > 0 && forall|i: int| 0 <= i < name.len() ==> is_ident_char(name[i])
}

/// A type tree on which the python-style renderer and the parser agree:
/// application and parent nodes only, with well-formed names and nonempty
/// child lists. A dependency node is excluded, since its rendered text is a
/// bare name that re-reads as an application type.
pub open spec fn wf_app_tree(t: TypeView) -> bool
    decreases t,
{
    match t {
        TypeView::App { name } => wf_name(name),
        TypeView::Parent { name, children } => wf_name(name) && children.len() > 0
            && wf_app_children(children),
        TypeView::Dep { name: _ } => false,
    }
}

/// Every tree of a child list is well formed.
pub open spec fn wf_app_children(cs: Seq<TypeView>) -> bool
    decreases cs,
{
    if cs.len() == 0 {
        true
    } else {
        wf_app_children(cs.drop_last()) && wf_app_tree(cs.last())
    }
}

proof fn lemma_wf_app_children_first(cs: Seq<TypeView>)
    requires
        cs.len() > 0,
        wf_app_children(cs),
    ensures
        wf_app_tree(cs[0]),
        wf_app_children(cs.drop_first()),
    decreases cs,
{
    if cs.len() == 1 {
        assert(cs[0] == cs.last());
        assert(cs.drop_first().len() == 0);
    } else {
        lemma_wf_app_children_first(cs.drop_last());
        assert(cs.drop_last()[0] == cs[0]);
        assert(cs.drop_first().drop_last() =~= cs.drop_last().drop_first());
        assert(cs.drop_first().last() == cs.last());
    }
}

proof fn lemma_ws_count_exact(s: Seq<char>, pos: int, w: int)
    requires
        0 <= pos,
        0 <= w,
        pos + w <= s.len(),
        forall|j: int| pos <= j < pos + w ==> is_space(s[j]),
        pos + w < s.len() ==> !is_space(s[pos + w]),
    ensures
        ws_count(s, pos) == w,
    decreases w,
{
    if w > 0 {
        assert(is_space(s[pos]));
        lemma_ws_count_exact(s, pos + 1, w - 1);
    }
}

proof fn lemma_id_count_exact(s: Seq<char>, pos: int, n: int)
    requires
        0 <= pos,
        0 <= n,
        pos + n <= s.len(),
        forall|j: int| pos <= j < pos + n ==> is_ident_char(s[j]),
        pos + n < s.len() ==> !is_ident_char(s[pos + n]),
    ensures
        id_count(s, pos) == n,
    decreases n,
{
    if n > 0 {
        assert(is_ident_char(s[pos]));
        lemma_id_count_exact(s, pos + 1, n - 1);
    }
}

proof fn lemma_py_children_first(cs: Seq<TypeView>)
    requires
        cs.len() >= 2,
    ensures
        py_children(cs) == py_type(cs[0]) + ", "@ + py_children(cs.drop_first()),
    decreases cs,
{
    if cs.len() == 2 {
        assert(cs.drop_last()[0] == cs[0]);
        assert(py_children(cs.drop_last()) == py_type(cs[0]));
        assert(cs.drop_first().len() == 1);
        assert(cs.drop_first()[0] == cs[1]);
        assert(py_children(cs.drop_first()) == py_type(cs[1]));
        assert(py_children(cs)
            =~= py_type(cs[0]) + ", "@ + py_children(cs.drop_first()));
    } else {
        lemma_py_children_first(cs.drop_last());
        assert(cs.drop_last()[0] == cs[0]);
        let mid = cs.drop_last().drop_first();
        assert(mid =~= cs.drop_first().drop_last());
        assert(cs.drop_first().last() == cs.last());
        assert(cs.drop_first().len() >= 2);
        assert(py_children(cs.drop_first())
            == py_children(cs.drop_first().drop_last()) + ", "@
                + py_type(cs.drop_first().last()));
        assert(py_children(cs)
            == (py_type(cs[0]) + ", "@ + py_children(mid)) + ", "@ + py_type(cs.last()));
        assert(py_children(cs)
            =~= py_type(cs[0]) + ", "@ + py_children(cs.drop_first()));
    }
}

/// Parsing a stretch of text that holds `w` spaces and then the python-style
/// text of a well-formed tree reads back exactly that tree, as long as the
/// character that follows, if any, neither extends an identifier nor opens a
/// bracket.
proof fn lemma_parse_renders_type(s: Seq<char>, pos: int, w: int, t: TypeView)
    requires
        wf_app_tree(t),
        0 <= pos,
        0 <= w,
        pos + w + py_type(t).len() <= s.len(),
        forall|j: int| pos <= j < pos + w ==> is_space(s[j]),
        s.subrange(pos + w, pos + w + py_type(t).len()) == py_type(t),
        pos + w + py_type(t).len() < s.len()
            ==> !is_ident_char(s[pos + w + py_type(t).len()])
                && s[pos + w + py_type(t).len()] != '[',
    ensures
        spec_parse_type(s, pos) == Some((t, (w + py_type(t).len()) as nat)),
    decreases t, 1int,
{
    reveal_strlit("[");
    reveal_strlit("]");
    let total = py_type(t).len() as int;
    let p = pos + w;
    assert forall|j: int| p <= j < p + total implies s[j] == py_type(t)[j - p] by {
        assert(s.subrange(p, p + total)[j - p] == s[j]);
    }
    match t {
        TypeView::App { name } => {
            let n = name.len() as int;
            assert(n == total);
            assert forall|j: int| p <= j < p + n implies is_ident_char(s[j]) by {
                assert(s[j] == name[j - p]);
            }
            assert(is_ident_char(s[p]));
            assert(!is_space(s[p]));
            lemma_ws_count_exact(s, pos, w);
            lemma_id_count_exact(s, p, n);
            assert(s[p] != '{');
            assert(s.subrange(p, p + n) =~= name);
        }
        TypeView::Parent { name, children } => {
            let n = name.len() as int;
            let inner = py_children(children);
            assert(py_type(t) == name + "["@ + inner + "]"@);
            assert(total == n + 1 + inner.len() + 1);
            assert forall|j: int| p <= j < p + n implies is_ident_char(s[j]) by {
                assert(s[j] == py_type(t)[j - p]);
                assert(py_type(t)[j - p] == name[j - p]);
            }
            assert(py_type(t)[n] == '[');
            assert(s[p + n] == '[');
            assert(!is_ident_char('['));
            assert(is_ident_char(s[p]));
            assert(!is_space(s[p]));
            lemma_ws_count_exact(s, pos, w);
            lemma_id_count_exact(s, p, n);
            assert(s[p] != '{');
            let q = p + n;
            assert forall|j: int| q + 1 <= j < q + 1 + inner.len() implies
                s[j] == inner[j - (q + 1)] by {
                assert(s[j] == py_type(t)[j - p]);
                assert(py_type(t)[j - p] == inner[j - p - n - 1]);
            }
            assert(s.subrange(q + 1, q + 1 + inner.len()) =~= inner);
            assert(py_type(t)[n + 1 + inner.len()] == ']');
            assert(s[q + 1 + inner.len()] == ']');
            lemma_parse_children_renders(s, q + 1, children);
            assert(spec_parse_children(s, q + 1)
                == Some((children, (inner.len() + 1) as nat)));
            assert(s.subrange(p, q) =~= name);
        }
        TypeView::Dep { name: _ } => {}
    }
}

/// Parsing a stretch that holds the python-style text of a well-formed child
/// list and then a closing bracket reads back exactly that list.
proof fn lemma_parse_children_renders(s: Seq<char>, pos: int, cs: Seq<TypeView>)
    requires
        cs.len() > 0,
        wf_app_children(cs),
        0 <= pos,
        pos + py_children(cs).len() + 1 <= s.len(),
        s.subrange(pos, pos + py_children(cs).len()) == py_children(cs),
        s[pos + py_children(cs).len()] == ']',
    ensures
        spec_parse_children(s, pos)
            == Some((cs, (py_children(cs).len() + 1) as nat)),
    decreases cs, 2int,
{
    reveal_strlit(", ");
    let inner = py_children(cs);
    assert forall|j: int| pos <= j < pos + inner.len() implies
        s[j] == inner[j - pos] by {
        assert(s.subrange(pos, pos + inner.len())[j - pos] == s[j]);
    }
    lemma_wf_app_children_first(cs);
    if cs.len() == 1 {
        assert(cs[0] == cs.last());
        assert(inner == py_type(cs[0]));
        assert(s.subrange(pos, pos + py_type(cs[0]).len())
            =~= s.subrange(pos, pos + inner.len()));
        assert(!is_ident_char(']'));
        lemma_parse_renders_type(s, pos, 0, cs[0]);
        assert(s[pos + py_type(cs[0]).len()] == ']');
        assert(seq![cs[0]] =~= cs);
    } else {
        lemma_py_children_first(cs);
        let h = py_type(cs[0]).len() as int;
        let rest = py_children(cs.drop_first());
        assert(inner == py_type(cs[0]) + ", "@ + rest);
        assert(inner.len() == h + 2 + rest.len());
        assert(inner[h] == ',');
        assert(inner[h + 1] == ' ');
        assert(s[pos + h] == ',');
        assert(s[pos + h + 1] == ' ');
        assert(s.subrange(pos, pos + h) =~= py_type(cs[0]));
        assert(!is_ident_char(','));
        lemma_parse_renders_type(s, pos, 0, cs[0]);
        let q = pos + h;
        assert forall|j: int| q + 2 <= j < q + 2 + rest.len() implies
            s[j] == rest[j - (q + 2)] by {
            assert(s[j] == inner[j - pos]);
            assert(inner[j - pos] == rest[j - pos - h - 2]);
        }
        assert(s.subrange(q + 2, q + 2 + rest.len()) =~= rest);
        assert(s[q + 2 + rest.len()] == ']');
        assert(is_space(s[q + 1]));
        lemma_parse_children_renders_shifted(s, q + 1, cs.drop_first());
        assert(seq![cs[0]] + cs.drop_first() =~= cs);
        assert(spec_parse_children(s, pos)
            == Some((cs, (h + 1 + (1 + rest.len() + 1)) as nat)));
    }
}

/// As `lemma_parse_children_renders`, with one leading space before the
/// first child, as the `", "` join leaves it.
#[verifier::rlimit(60)]
proof fn lemma_parse_children_renders_shifted(s: Seq<char>, pos: int, cs: Seq<TypeView>)
    requires
        cs.len() > 0,
        wf_app_children(cs),
        0 <= pos,
        pos + 1 + py_children(cs).len() + 1 <= s.len(),
        is_space(s[pos]),
        s.subrange(pos + 1, pos + 1 + py_children(cs).len()) == py_children(cs),
        s[pos + 1 + py_children(cs).len()] == ']',
    ensures
        spec_parse_children(s, pos)
            == Some((cs, (1 + py_children(cs).len() + 1) as nat)),
    decreases cs, 3int,
{
    reveal_strlit(", ");
    let inner = py_children(cs);
    assert forall|j: int| pos + 1 <= j < pos + 1 + inner.len() implies
        s[j] == inner[j - (pos + 1)] by {
        assert(s.subrange(pos + 1, pos + 1 + inner.len())[j - (pos + 1)] == s[j]);
    }
    lemma_wf_app_children_first(cs);
    if cs.len() == 1 {
        assert(cs[0] == cs.last());
        assert(inner == py_type(cs[0]));
        assert(s.subrange(pos + 1, pos + 1 + py_type(cs[0]).len())
            =~= s.subrange(pos + 1, pos + 1 + inner.len()));
        assert(!is_ident_char(']'));
        lemma_parse_renders_type(s, pos, 1, cs[0]);
        assert(s[pos + 1 + py_type(cs[0]).len()] == ']');
        assert(seq![cs[0]] =~= cs);
    } else {
        lemma_py_children_first(cs);
        let h = py_type(cs[0]).len() as int;
        let rest = py_children(cs.drop_first());
        assert(inner == py_type(cs[0]) + ", "@ + rest);
        assert(inner.len() == h + 2 + rest.len());
        assert(inner[h] == ',');
        assert(inner[h + 1] == ' ');
        assert(s[pos + 1 + h] == ',');
        assert(s[pos + 1 + h + 1] == ' ');
        assert(s.subrange(pos + 1, pos + 1 + h) =~= py_type(cs[0]));
        assert(!is_ident_char(','));
        lemma_parse_renders_type(s, pos, 1, cs[0]);
        let q = pos + 1 + h;
        assert forall|j: int| q + 2 <= j < q + 2 + rest.len() implies
            s[j] == rest[j - (q + 2)] by {
            assert(s[j] == inner[j - (pos + 1)]);
            assert(inner[j - (pos + 1)] == rest[j - (pos + 1) - h - 2]);
        }
        assert(s.subrange(q + 2, q + 2 + rest.len()) =~= rest);
        assert(s[q + 2 + rest.len()] == ']');
        assert(is_space(s[q + 1]));
        lemma_parse_children_renders_shifted(s, q + 1, cs.drop_first());
        assert(seq![cs[0]] + cs.drop_first() =~= cs);
        assert(spec_parse_children(s, pos)
            == Some((cs, (1 + h + 1 + (1 + rest.len() + 1)) as nat)));
    }
}

/// Rendering a well-formed application-type tree python-style and parsing
/// the text again reaches a structurally equal tree, with the whole text
/// consumed: the renderer and the parser are inverse on such trees.
pub proof fn lemma_type_render_parse_round_trip(t: TypeView)
    requires
        wf_app_tree(t),
    ensures
        spec_parse_type(py_type(t), 0) == Some((t, py_type(t).len() as nat)),
{
    let s = py_type(t);
    assert(s.subrange(0, s.len() as int) =~= s);
    lemma_parse_renders_type(s, 0, 0, t);
}

/// The python-style rendering is injective on well-formed application-type
/// trees: equal texts come from equal trees.
pub proof fn lemma_py_render_injective(t1: TypeView, t2: TypeView)
    requires
        wf_app_tree(t1),
        wf_app_tree(t2),
        py_type(t1) == py_type(t2),
    ensures
        t1 == t2,
{
    lemma_type_render_parse_round_trip(t1);
    lemma_type_render_parse_round_trip(t2);
}

/// The error a failed parse reports, holding the text that could not be
/// reduced.
#[derive(PartialEq, Debug)]
pub struct SyntaxError {
    pub remainder: String,
}

/// Whether `c` may stand in an identifier.
fn ident_char(c: char) -> (r: bool)
    ensures
        r == is_ident_char(c),
{
    ('a' <= c && c <= 'z') || ('A' <= c && c <= 'Z') || ('0' <= c && c <= '9') || c == '_'
}

/// The position right after the whitespace run at `pos`.
fn skip_ws(cs: &Vec<char>, pos: usize) -> (r: usize)
    requires
        pos <= cs@.len(),
    ensures
        r as int == pos + ws_count(cs@, pos as int),
        pos <= r <= cs@.len(),
{
    let mut i = pos;
    while i < cs.len() && (cs[i] == ' ' || cs[i] == '\t')
        invariant
            pos <= i <= cs@.len(),
            ws_count(cs@, pos as int) == i - pos + ws_count(cs@, i as int),
        decreases cs@.len() - i,
    {
        proof {
            assert(ws_count(cs@, i as int) == 1 + ws_count(cs@, i + 1 as int));
        }
        i = i + 1;
    }
    proof {
        assert(ws_count(cs@, i as int) == 0);
    }
    i
}

/// The position right after the identifier-character run at `pos`.
fn skip_ident(cs: &Vec<char>, pos: usize) -> (r: usize)
    requires
        pos <= cs@.len(),
    ensures
        r as int == pos + id_count(cs@, pos as int),
        pos <= r <= cs@.len(),
{
    let mut i = pos;
    while i < cs.len() && ident_char(cs[i])
        invariant
            pos <= i <= cs@.len(),
            id_count(cs@, pos as int) == i - pos + id_count(cs@, i as int),
        decreases cs@.len() - i,
    {
        proof {
            assert(id_count(cs@, i as int) == 1 + id_count(cs@, i + 1 as int));
        }
        i = i + 1;
    }
    proof {
        assert(id_count(cs@, i as int) == 0);
    }
    i
}

/// The type grammar at `pos`, as `spec_parse_type` describes it.
fn parse_type_at(cs: &Vec<char>, pos: usize) -> (r: Option<(ParameterType, usize)>)
    requires
        pos <= cs@.len(),
    ensures
        (match (r, spec_parse_type(cs@, pos as int)) {
            (Some((t, e)), Some((st, c))) => t@ == st && e as int == pos + c && e <= cs@.len(),
            (None, None) => true,
            _ => false,
        }),
    decreases cs@.len() - pos, 1int,
{
    let p = skip_ws(cs, pos);
    if p < cs.len() && cs[p] == '{' {
        let q = skip_ident(cs, p + 1);
        if q == p + 1 {
            None
        } else if q < cs.len() && cs[q] == '}' {
            let name = chars_to_string(cs, p + 1, q);
            Some((ParameterType::Dependency(Dependency { dependency_name: name }), q + 1))
        } else {
            None
        }
    } else {
        let q = skip_ident(cs, p);
        if q == p {
            None
        } else if q < cs.len() && cs[q] == '[' {
            match parse_children_at(cs, q + 1) {
                Some((children, e)) => {
                    let name = chars_to_string(cs, p, q);
                    Some(
                        (ParameterType::ApplicationParentType(
                            ApplicationParentType { name, children },
                        ), e),
                    )
                }
                None => None,
            }
        } else {
            let name = chars_to_string(cs, p, q);
            Some((ParameterType::ApplicationType(ApplicationType { name }), q))
        }
    }
}

/// The bracketed child list at `pos`, as `spec_parse_children` describes it.
fn parse_children_at(cs: &Vec<char>, pos: usize) -> (r: Option<(Vec<ParameterType>, usize)>)
    requires
        pos <= cs@.len(),
    ensures
        (match (r, spec_parse_children(cs@, pos as int)) {
            (Some((v, e)), Some((sv, c))) => type_seq_view(v@) == sv && e as int == pos + c
                && e <= cs@.len(),
            (None, None) => true,
            _ => false,
        }),
    decreases cs@.len() - pos, 2int,
{
    match parse_type_at(cs, pos) {
        None => None,
        Some((t, q)) => {
            if q < cs.len() && cs[q] == ',' {
                match parse_children_at(cs, q + 1) {
                    Some((rest, e)) => {
                        let ghost r0 = rest@;
                        let mut v = rest;
                        v.insert(0, t);
                        proof {
                            let sv = spec_parse_children(cs@, q + 1 as int)->Some_0.0;
                            r0.insert_ensures(0, t);
                            lemma_type_seq_view_elts(v@);
                            lemma_type_seq_view_elts(r0);
                            assert forall|j: int| 0 <= j < v@.len() implies
                                type_seq_view(v@)[j] == (seq![t@] + sv)[j] by {
                                if j > 0 {
                                    assert(v@[j] == r0[j - 1]);
                                }
                            }
                            assert(type_seq_view(v@) =~= seq![t@] + sv);
                        }
                        Some((v, e))
                    }
                    None => None,
                }
            } else if q < cs.len() && cs[q] == ']' {
                let mut v: Vec<ParameterType> = Vec::new();
                v.push(t);
                proof {
                    lemma_type_seq_view_elts(v@);
                    assert(type_seq_view(v@) =~= seq![t@]);
                }
                Some((v, q + 1))
            } else {
                None
            }
        }
    }
}

/// One argument at `pos`, as `spec_parse_arg` describes it.
fn parse_arg_at(cs: &Vec<char>, pos: usize) -> (r: Option<(FunctionParameter, usize)>)
    requires
        pos <= cs@.len(),
    ensures
        (match (r, spec_parse_arg(cs@, pos as int)) {
            (Some((a, e)), Some((sa, c))) => a@ == sa && e as int == pos + c && e <= cs@.len(),
            (None, None) => true,
            _ => false,
        }),
{
    let p = skip_ws(cs, pos);
    let q = skip_ident(cs, p);
    if q == p {
        None
    } else {
        let r2 = skip_ws(cs, q);
        if r2 < cs.len() && cs[r2] == ':' {
            match parse_type_at(cs, r2 + 1) {
                Some((t, e)) => {
                    let name = chars_to_string(cs, p, q);
                    Some((FunctionParameter { name, ptype: t }, e))
                }
                None => None,
            }
        } else {
            None
        }
    }
}

/// One or more arguments from `pos`, as `spec_parse_arg_list` describes it.
fn parse_arg_list_at(cs: &Vec<char>, pos: usize) -> (r: Option<(Vec<FunctionParameter>, usize)>)
    requires
        pos <= cs@.len(),
    ensures
        (match (r, spec_parse_arg_list(cs@, pos as int)) {
            (Some((v, e)), Some((sv, c))) => v@.map_values(|p: FunctionParameter| p@) == sv
                && e as int == pos + c && e <= cs@.len(),
            (None, None) => true,
            _ => false,
        }),
    decreases cs@.len() - pos,
{
    match parse_arg_at(cs, pos) {
        None => None,
        Some((a, q)) => {
            let r2 = skip_ws(cs, q);
            if r2 < cs.len() && cs[r2] == ',' {
                match parse_arg_list_at(cs, r2 + 1) {
                    Some((rest, e)) => {
                        let ghost sv = spec_parse_arg_list(cs@, r2 + 1 as int)->Some_0.0;
                        let ghost r0 = rest@;
                        let mut v = rest;
                        v.insert(0, a);
                        proof {
                            r0.insert_ensures(0, a);
                            assert forall|j: int| 0 <= j < v@.len() implies
                                v@.map_values(|p: FunctionParameter| p@)[j]
                                    == (seq![a@] + sv)[j] by {
                                if j > 0 {
                                    assert(v@[j] == r0[j - 1]);
                                }
                            }
                            assert(v@.map_values(|p: FunctionParameter| p@) =~= seq![a@] + sv);
                        }
                        Some((v, e))
                    }
                    None => {
                        let mut v: Vec<FunctionParameter> = Vec::new();
                        v.push(a);
                        proof {
                            assert(v@.map_values(|p: FunctionParameter| p@) =~= seq![a@]);
                        }
                        Some((v, q))
                    }
                }
            } else {
                let mut v: Vec<FunctionParameter> = Vec::new();
                v.push(a);
                proof {
                    assert(v@.map_values(|p: FunctionParameter| p@) =~= seq![a@]);
                }
                Some((v, q))
            }
        }
    }
}

/// The parenthesised argument list whose opening parenthesis stands just
/// before `pos`, as `spec_parse_args` describes it.
fn parse_args_at(cs: &Vec<char>, pos: usize) -> (r: Option<(Vec<FunctionParameter>, usize)>)
    requires
        pos <= cs@.len(),
    ensures
        (match (r, spec_parse_args(cs@, pos as int)) {
            (Some((v, e)), Some((sv, c))) => v@.map_values(|p: FunctionParameter| p@) == sv
                && e as int == pos + c && e <= cs@.len(),
            (None, None) => true,
            _ => false,
        }),
{
    match parse_arg_list_at(cs, pos) {
        None => {
            if pos < cs.len() && cs[pos] == ')' {
                let v: Vec<FunctionParameter> = Vec::new();
                proof {
                    assert(v@.map_values(|p: FunctionParameter| p@)
                        =~= Seq::<ParamView>::empty());
                }
                Some((v, pos + 1))
            } else {
                None
            }
        }
        Some((v, q)) => {
            if q < cs.len() && cs[q] == ')' {
                Some((v, q + 1))
            } else {
                None
            }
        }
    }
}

/// The output clause at `pos`, as `spec_parse_output` describes it.
fn parse_output_at(cs: &Vec<char>, pos: usize) -> (r: Option<(ParameterType, usize)>)
    requires
        pos <= cs@.len(),
    ensures
        (match (r, spec_parse_output(cs@, pos as int)) {
            (Some((t, e)), Some((st, c))) => t@ == st && e as int == pos + c && e <= cs@.len(),
            (None, None) => true,
            _ => false,
        }),
{
    let p = skip_ws(cs, pos);
    if p < cs.len() && p + 1 < cs.len() && cs[p] == '-' && cs[p + 1] == '>' {
        parse_type_at(cs, p + 2)
    } else {
        None
    }
}

/// The position of the first `"("` at or after `pos`, or the end.
fn find_lparen(cs: &Vec<char>, pos: usize) -> (r: usize)
    requires
        pos <= cs@.len(),
    ensures
        r as int == pos + name_count(cs@, pos as int),
        pos <= r <= cs@.len(),
{
    let mut i = pos;
    while i < cs.len() && cs[i] != '('
        invariant
            pos <= i <= cs@.len(),
            name_count(cs@, pos as int) == i - pos + name_count(cs@, i as int),
        decreases cs@.len() - i,
    {
        proof {
            assert(name_count(cs@, i as int) == 1 + name_count(cs@, i + 1 as int));
        }
        i = i + 1;
    }
    proof {
        assert(name_count(cs@, i as int) == 0);
    }
    i
}

/// Parses one type expression from the front of `i`, handing back the
/// unread remainder beside the tree. Succeeds exactly when the type grammar
/// matches a prefix of `i`.
pub fn parse_type(i: &str) -> (r: Result<(String, ParameterType), SyntaxError>)
    ensures
        (match (r, spec_parse_type(i@, 0)) {
            (Ok((rem, t)), Some((st, c))) => t@ == st && rem@ == i@.skip(c as int),
            (Err(e), None) => e.remainder@ == i@,
            _ => false,
        }),
{
    let cs = str_to_chars(i);
    match parse_type_at(&cs, 0) {
        Some((t, e)) => {
            let rem = chars_to_string(&cs, e, cs.len());
            Ok((rem, t))
        }
        None => Err(SyntaxError { remainder: i.to_owned() }),
    }
}

/// Parses one `name: type` argument from the front of `i`, handing back the
/// unread remainder beside the parameter. Succeeds exactly when the argument
/// grammar matches a prefix of `i`.
pub fn parse_argument(i: &str) -> (r: Result<(String, FunctionParameter), SyntaxError>)
    ensures
        (match (r, spec_parse_arg(i@, 0)) {
            (Ok((rem, a)), Some((sa, c))) => a@ == sa && rem@ == i@.skip(c as int),
            (Err(e), None) => e.remainder@ == i@,
            _ => false,
        }),
{
    let cs = str_to_chars(i);
    match parse_arg_at(&cs, 0) {
        Some((a, e)) => {
            let rem = chars_to_string(&cs, e, cs.len());
            Ok((rem, a))
        }
        None => Err(SyntaxError { remainder: i.to_owned() }),
    }
}

/// Parses a whole signature. Succeeds exactly when the entire string reduces
/// to one signature, with nothing left over; the remainder beside the tree is
/// then empty. A failed parse reports the text that could not be reduced.
pub fn root(i: &str) -> (r: Result<(String, FunctionSignature), SyntaxError>)
    ensures
        (match (r, spec_parse_signature(i@)) {
            (Ok((rem, f)), Some(sig)) => f@ == sig && rem@.len() == 0,
            (Err(e), None) => e.remainder@ == spec_failure_remainder(i@),
            _ => false,
        }),
{
    let cs = str_to_chars(i);
    let k = find_lparen(&cs, 0);
    if k == cs.len() {
        return Err(SyntaxError { remainder: i.to_owned() });
    }
    match parse_args_at(&cs, k + 1) {
        None => Err(SyntaxError { remainder: chars_to_string(&cs, k + 1, cs.len()) }),
        Some((input, q)) => match parse_output_at(&cs, q) {
            None => Err(SyntaxError { remainder: chars_to_string(&cs, q, cs.len()) }),
            Some((output, e)) => {
                if e == cs.len() {
                    let name = chars_to_string(&cs, 0, k);
                    let f = FunctionSignature { name, input, output };
                    Ok((String::new(), f))
                } else {
                    Err(SyntaxError { remainder: chars_to_string(&cs, e, cs.len()) })
                }
            }
        },
    }
}

} // verus!
