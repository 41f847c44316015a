use vstd::prelude::*;
use minijinja::{Environment, Error, Template, Value};

verus! {

#[verifier::external_type_specification]
#[verifier::external_body]
pub struct ExEnvironment<'source>(Environment<'source>);

#[verifier::external_type_specification]
#[verifier::external_body]
pub struct ExTemplate<'env: 'source, 'source>(Template<'env, 'source>);

#[verifier::external_type_specification]
#[verifier::external_body]
pub struct ExError(Error);

/// Why a template gave no output.
#[derive(Debug, Clone, Copy, PartialEq, Eq)]
pub enum TemplateProblem {
    /// The template set has no template of that name, or cannot load it.
    Missing,
    /// The template could not be added or rendered.
    Failed,
}

/// Relies on minijinja's `Environment::get_template`: the template of that
/// name, or an error when the set has none or its loader fails.
#[verifier::external_body]
fn lookup_template<'env, 'source>(env: &'env Environment<'source>, name: &str) -> (r: Result<Template<'env, 'source>, Error>) {
    env.get_template(name)
}

/// Relies on minijinja's `Template::render`, with `title` and `body` bound.
#[verifier::external_body]
fn render_title_body(t: &Template, title: &str, body: &str) -> (r: Result<String, Error>) {
    t.render(Value::from_iter([("title", Value::from(title)), ("body", Value::from(body))]))
}

/// Relies on minijinja's `Template::render`, with `title` bound and `pages`
/// bound to a list of `{title, href}` records, in order.
#[verifier::external_body]
fn render_title_pages(t: &Template, title: &str, pages: &Vec<(String, String)>) -> (r: Result<String, Error>) {
    let list = Value::from_iter(pages.iter().map(|(title, href)| {
        Value::from_iter([("href", Value::from(href.as_str())), ("title", Value::from(title.as_str()))])
    }));
    t.render(Value::from_iter([("pages", list), ("title", Value::from(title))]))
}

/// Relies on minijinja's `Environment::add_template_owned`: compiles the
/// source into the set under that name.
#[verifier::external_body]
fn add_template(env: &mut Environment<'static>, name: &str, source: String) -> (r: Result<(), Error>) {
    env.add_template_owned(name.to_string(), source)
}

/// Renders the named template with `title` and `body` bound.
pub fn render_page_template(env: &Environment, name: &str, title: &str, body: &str) -> (r: Result<String, TemplateProblem>) {
    match lookup_template(env, name) {
        Err(_) => Err(TemplateProblem::Missing),
        Ok(t) => match render_title_body(&t, title, body) {
            Ok(s) => Ok(s),
            Err(_) => Err(TemplateProblem::Failed),
        },
    }
}

/// Name under which the content index template is added to the set.
pub const INDEX_TEMPLATE_NAME: &'static str = "content-index.html";

/// Title the content index is rendered with.
pub const INDEX_TITLE: &'static str = "Index Content";

/// Adds the content index template from its source and renders it with the
/// `(title, link)` entries bound as `pages` and the fixed index title.
pub fn render_content_index(env: &mut Environment<'static>, source: String, entries: &Vec<(String, String)>) -> (r: Result<String, TemplateProblem>) {
    if add_template(env, INDEX_TEMPLATE_NAME, source).is_err() {
        return Err(TemplateProblem::Failed);
    }
    match lookup_template(env, INDEX_TEMPLATE_NAME) {
        Err(_) => Err(TemplateProblem::Missing),
        Ok(t) => match render_title_pages(&t, INDEX_TITLE, entries) {
            Ok(s) => Ok(s),
            Err(_) => Err(TemplateProblem::Failed),
        },
    }
}

} // verus!
