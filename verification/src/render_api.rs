//! The boundary to the tera template engine. The engine is an opaque
//! rendering service here: the library builds contexts from plain values,
//! asks for a render, and passes the text through. A context is modelled by
//! what it binds — its string bindings and its string-list bindings — so
//! that the generators can state exactly what they hand to the renderer;
//! what text a template produces from those bindings is the template
//! author's affair, so nothing is claimed of it.

use vstd::prelude::*;

verus! {

/// The tera template store; the caller fills it with templates, and renders
/// look them up by name.
#[verifier::external_type_specification]
#[verifier::external_body]
pub struct ExTera(tera::Tera);

/// The tera render context: bindings from names to values.
#[verifier::external_type_specification]
#[verifier::external_body]
pub struct ExTeraContext(tera::Context);

/// The error tera reports when a template is missing or fails to render.
#[verifier::external_type_specification]
#[verifier::external_body]
pub struct ExTeraError(tera::Error);

/// The string bindings a context holds, by key.
pub uninterp spec fn context_strings(c: tera::Context) -> Map<Seq<char>, Seq<char>>;

/// The string-list bindings a context holds, by key.
pub uninterp spec fn context_lists(c: tera::Context) -> Map<Seq<char>, Seq<Seq<char>>>;

/// The empty set of string bindings.
pub open spec fn no_string_bindings() -> Map<Seq<char>, Seq<char>> {
    Map::empty()
}

/// The empty set of string-list bindings.
pub open spec fn no_list_bindings() -> Map<Seq<char>, Seq<Seq<char>>> {
    Map::empty()
}

/// Relies on tera::Context::new: an empty context, with no bindings.
#[verifier::external_body]
pub(crate) fn context_new() -> (c: tera::Context)
    ensures
        context_strings(c) == no_string_bindings(),
        context_lists(c) == no_list_bindings(),
{
    tera::Context::new()
}

/// Relies on tera::Context::insert: binds `key` to the string `value`,
/// replacing whatever the key held before.
#[verifier::external_body]
pub(crate) fn context_insert_str(ctx: &mut tera::Context, key: &str, value: &str)
    ensures
        context_strings(*final(ctx)) == context_strings(*old(ctx)).insert(key@, value@),
        context_lists(*final(ctx)) == context_lists(*old(ctx)).remove(key@),
{
    ctx.insert(String::from(key), value);
}

/// Relies on tera::Context::insert: binds `key` to the string list
/// `values`, replacing whatever the key held before.
#[verifier::external_body]
pub(crate) fn context_insert_list(ctx: &mut tera::Context, key: &str, values: &Vec<String>)
    ensures
        context_lists(*final(ctx)) == context_lists(*old(ctx)).insert(key@, values.deep_view()),
        context_strings(*final(ctx)) == context_strings(*old(ctx)).remove(key@),
{
    ctx.insert(String::from(key), values);
}

/// Relies on tera::Tera::render: renders the named template against the
/// context. The text depends on the template the store holds under that
/// name, so nothing is claimed of either outcome.
#[verifier::external_body]
pub(crate) fn render_template(t: &tera::Tera, name: &str, ctx: &tera::Context) -> Result<
    String,
    tera::Error,
> {
    t.render(name, ctx)
}

/// Relies on the Display impl of tera::Error: the error's message text.
#[verifier::external_body]
pub(crate) fn render_error_text(e: &tera::Error) -> String {
    e.to_string()
}

} // verus!
