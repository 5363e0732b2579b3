//! The boundary with the `handlebars` crate: its registry type, the names
//! under which contracts speak of what a registry holds, and one wrapper per
//! registry method that the library calls.

use vstd::prelude::*;

use crate::engine::RenderError;

verus! {

/// The registry of `handlebars`, carried as an opaque value.
#[verifier::external_type_specification]
#[verifier::external_body]
pub struct ExHandlebars<'reg>(handlebars::Handlebars<'reg>);

/// The JSON value of `serde_json` that templates are rendered with, carried
/// as an opaque value.
#[verifier::external_type_specification]
#[verifier::external_body]
pub struct ExValue(serde_json::Value);

/// Template names mapped to template texts.
pub type TemplateMap = Map<Seq<char>, Seq<char>>;

/// The templates that a registry holds: each registered name, mapped to the
/// text that the template under that name was compiled from.
pub uninterp spec fn templates_of(h: handlebars::Handlebars<'static>) -> TemplateMap;

/// The names of the helpers that a registry holds.
pub uninterp spec fn helper_names(h: handlebars::Handlebars<'static>) -> Set<Seq<char>>;

/// Whether the handlebars parser accepts `text` as a template.
pub uninterp spec fn accepts_template(text: Seq<char>) -> bool;

/// Relies on `Handlebars::new`: a registry with no templates.
#[verifier::external_body]
pub(crate) fn new_registry() -> (r: handlebars::Handlebars<'static>)
    ensures
        templates_of(r) == TemplateMap::empty(),
{
    handlebars::Handlebars::new()
}

/// Relies on the derived `Clone` of `Handlebars`: the copy holds the same
/// templates and helpers.
#[verifier::external_body]
pub(crate) fn clone_registry(h: &handlebars::Handlebars<'static>) -> (r: handlebars::Handlebars<'static>)
    ensures
        templates_of(r) == templates_of(*h),
        helper_names(r) == helper_names(*h),
{
    h.clone()
}

/// Relies on `Handlebars::clear_templates`: every template is dropped, the
/// helpers stay.
#[verifier::external_body]
pub(crate) fn clear_templates(h: &mut handlebars::Handlebars<'static>)
    ensures
        templates_of(*final(h)) == TemplateMap::empty(),
        helper_names(*final(h)) == helper_names(*old(h)),
{
    h.clear_templates()
}

/// Relies on `Handlebars::register_template_string`: the text is compiled,
/// and only when that succeeds is the template stored under `name`,
/// replacing any template of that name. Whether compiling succeeds depends
/// on the text alone. On failure the error's message is returned.
#[verifier::external_body]
pub(crate) fn register_template_string(
    h: &mut handlebars::Handlebars<'static>,
    name: &str,
    text: &str,
) -> (r: Result<(), String>)
    ensures
        r is Ok <==> accepts_template(text@),
        r is Ok ==> templates_of(*final(h)) == templates_of(*old(h)).insert(name@, text@),
        r is Err ==> templates_of(*final(h)) == templates_of(*old(h)),
        helper_names(*final(h)) == helper_names(*old(h)),
{
    match h.register_template_string(name, text) {
        Ok(()) => Ok(()),
        Err(e) => Err(e.to_string()),
    }
}

/// Relies on `Handlebars::has_template`: whether a template is registered
/// under `name`.
#[verifier::external_body]
pub(crate) fn has_template(h: &handlebars::Handlebars<'static>, name: &str) -> (r: bool)
    ensures
        r == templates_of(*h).contains_key(name@),
{
    h.has_template(name)
}

/// Relies on `Handlebars::render`: renders the template registered under
/// `name` with `data`. On failure the error's message is returned.
#[verifier::external_body]
pub(crate) fn render_registered(
    h: &handlebars::Handlebars<'static>,
    name: &str,
    data: &serde_json::Value,
) -> (r: Result<String, String>) {
    match h.render(name, data) {
        Ok(s) => Ok(s),
        Err(e) => Err(e.to_string()),
    }
}

/// Relies on `Handlebars::render_template`: compiles `body` without
/// registering it, then renders it with `data`. A failure to compile comes
/// back first, with reason `TemplateError`, and is told apart from a failure
/// to render. Compiling fails exactly when the parser rejects the text.
#[verifier::external_body]
pub(crate) fn render_text(
    h: &handlebars::Handlebars<'static>,
    body: &str,
    data: &serde_json::Value,
) -> (r: Result<String, RenderError>)
    ensures
        !(r matches Err(RenderError::NotFound { .. })),
        !accepts_template(body@) ==> (r matches Err(RenderError::Compile { .. })),
{
    match h.render_template(body, data) {
        Ok(s) => Ok(s),
        Err(e) => match e.reason() {
            handlebars::RenderErrorReason::TemplateError(_) => Err(
                RenderError::Compile { cause: e.to_string() },
            ),
            _ => Err(RenderError::Render { cause: e.to_string() }),
        },
    }
}

} // verus!
