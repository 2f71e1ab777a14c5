//! Templates: which there are, which a page uses, and what it becomes.
use vstd::prelude::*;
use vstd::string::*;

use crate::failure;
use crate::failure::{failure, Failure};
use crate::frontmatter::FrontMatter;
use crate::fspath;
use crate::order;
use crate::text;
use crate::text::{concat, copy_text};

verus! {

/// The template of a site that has none.
pub const DEFAULT_PAGE_TEMPLATE: &'static str = "<!doctype html>
<html lang=\"en\">
<head>
  <meta charset=\"utf-8\" />
  <meta name=\"viewport\" content=\"width=device-width, initial-scale=1\" />
  <title>{{ title }}</title>
  {% for alt in alternates %}
  <link rel=\"alternate\" hreflang=\"{{ alt.locale }}\" href=\"{{ alt.url }}\" />
  {% endfor %}
</head>
<body>
  <main>
    {% if toc %}
    <nav aria-label=\"Table of contents\">
      {{ toc | safe }}
    </nav>
    {% endif %}
    {{ content | safe }}
    {% if images.list|length > 0 %}
    <section>
      <h2>Image helpers</h2>
      <ul>
        {% for img in images.list %}
        <li><code>{{ img.source }}</code></li>
        {% endfor %}
      </ul>
    </section>
    {% endif %}
  </main>
</body>
</html>
";

// ---------------------------------------------------------------------------
// Which templates there are.

/// A template file: its path, and its source.
#[derive(Debug)]
pub struct TemplateFile {
    pub path: String,
    pub source: String,
}

/// The name of the template at `path` below `root`.
pub open spec fn template_name(path: Seq<char>, root: Seq<char>) -> Option<Seq<char>> {
    match fspath::strip_prefix(path, root) {
        Some(rel) => Some(text::replace_char(rel, '\\', "/"@)),
        None => None,
    }
}

/// The templates `rows` and those of `files`, which replace templates of the
/// same name; or the file that does not lie below `root`. Files of another kind
/// than HTML count for nothing.
pub open spec fn with_files(
    rows: Seq<(Seq<char>, Seq<char>)>,
    root: Seq<char>,
    files: Seq<TemplateFile>,
) -> Result<Seq<(Seq<char>, Seq<char>)>, Seq<char>>
    decreases files.len(),
{
    if files.len() == 0 {
        Ok(rows)
    } else {
        match with_files(rows, root, files.drop_last()) {
            Err(m) => Err(m),
            Ok(rest) => {
                let f = files.last();
                if fspath::extension(f.path@) != Some("html"@) {
                    Ok(rest)
                } else {
                    match template_name(f.path@, root) {
                        Some(name) => Ok(order::put(rest, name, f.source@)),
                        None => Err("failed to relativize template "@ + f.path@),
                    }
                }
            },
        }
    }
}

/// The template that every site has.
pub open spec fn default_rows() -> Seq<(Seq<char>, Seq<char>)> {
    seq![("page.html"@, DEFAULT_PAGE_TEMPLATE@)]
}

/// The templates of a site: those of the site, then those of its theme, then the
/// default one.
pub open spec fn site_templates(
    theme_root: Seq<char>,
    theme: Seq<TemplateFile>,
    site_root: Seq<char>,
    site: Seq<TemplateFile>,
) -> Result<Seq<(Seq<char>, Seq<char>)>, Seq<char>> {
    match with_files(default_rows(), theme_root, theme) {
        Err(m) => Err(m),
        Ok(rows) => with_files(rows, site_root, site),
    }
}

/// A table of templates, with errors given by their messages.
pub open spec fn table_outcome(r: Result<Vec<(String, String)>, Failure>) -> Result<
    Seq<(Seq<char>, Seq<char>)>,
    Seq<char>,
> {
    match r {
        Ok(v) => Ok(order::rows(v@)),
        Err(e) => Err(e.message@),
    }
}

/// Computes [`with_files`].
pub fn collect_templates(
    rows: Vec<(String, String)>,
    root: &str,
    files: &Vec<TemplateFile>,
) -> (r: Result<Vec<(String, String)>, Failure>)
    requires
        order::keys_increase(order::rows(rows@)),
    ensures
        table_outcome(r) == with_files(order::rows(rows@), root@, files@),
        r matches Ok(v) ==> order::keys_increase(order::rows(v@)),
{
    let ghost start = order::rows(rows@);
    let mut out = rows;
    let mut i: usize = 0;
    assert(files@.take(0) =~= Seq::empty());
    while i < files.len()
        invariant
            i <= files.len(),
            start == order::rows(rows@),
            with_files(start, root@, files@.take(i as int)) == Ok::<
                Seq<(Seq<char>, Seq<char>)>,
                Seq<char>,
            >(order::rows(out@)),
            order::keys_increase(order::rows(out@)),
        decreases files.len() - i,
    {
        assert(files@.take(i + 1).drop_last() =~= files@.take(i as int));
        assert(files@.take(i + 1).last() == files@[i as int]);
        if fspath::extension_is(files[i].path.as_str(), "html") {
            match fspath::relative_to(files[i].path.as_str(), root) {
                Some(rel) => {
                    let name = text::replaced_char(rel.as_str(), '\\', "/");
                    let source = copy_text(files[i].source.as_str());
                    order::put_row(&mut out, name.as_str(), source);
                },
                None => {
                    proof {
                        lemma_error_stays(start, root@, files@, i + 1);
                    }
                    return Err(
                        failure(concat("failed to relativize template ", files[i].path.as_str())),
                    );
                },
            }
        }
        i += 1;
    }
    assert(files@.take(files.len() as int) =~= files@);
    Ok(out)
}

/// The first error is the error.
proof fn lemma_error_stays(
    rows: Seq<(Seq<char>, Seq<char>)>,
    root: Seq<char>,
    files: Seq<TemplateFile>,
    n: int,
)
    requires
        0 <= n <= files.len(),
        with_files(rows, root, files.take(n)) is Err,
    ensures
        with_files(rows, root, files) == with_files(rows, root, files.take(n)),
    decreases files.len() - n,
{
    if n == files.len() {
        assert(files.take(n) =~= files);
    } else {
        assert(files.take(n + 1).drop_last() =~= files.take(n));
        lemma_error_stays(rows, root, files, n + 1);
    }
}

/// Computes [`site_templates`].
pub fn load_templates(
    theme_root: &str,
    theme: &Vec<TemplateFile>,
    site_root: &str,
    site: &Vec<TemplateFile>,
) -> (r: Result<Vec<(String, String)>, Failure>)
    ensures
        table_outcome(r) == site_templates(theme_root@, theme@, site_root@, site@),
        r matches Ok(v) ==> order::keys_increase(order::rows(v@)),
{
    let mut rows: Vec<(String, String)> = Vec::new();
    rows.push((copy_text("page.html"), copy_text(DEFAULT_PAGE_TEMPLATE)));
    assert(order::rows(rows@) =~= default_rows());
    match collect_templates(rows, theme_root, theme) {
        Ok(rows) => collect_templates(rows, site_root, site),
        Err(e) => Err(e),
    }
}

/// Without an error, a template of the site is used before one of the theme with
/// the same name, and one of the theme before the default: the last file with a
/// name gives the template of that name.
pub proof fn law_last_file_wins(
    rows: Seq<(Seq<char>, Seq<char>)>,
    root: Seq<char>,
    files: Seq<TemplateFile>,
    i: int,
    name: Seq<char>,
)
    requires
        with_files(rows, root, files) is Ok,
        0 <= i < files.len(),
        fspath::extension(files[i].path@) == Some("html"@),
        template_name(files[i].path@, root) == Some(name),
        forall|j: int|
            i < j < files.len() && fspath::extension((#[trigger] files[j]).path@) == Some("html"@)
                ==> template_name(files[j].path@, root) != Some(name),
    ensures
        order::get(with_files(rows, root, files)->Ok_0, name) == Some(files[i].source@),
    decreases files.len(),
{
    let f = files.last();
    let rest = with_files(rows, root, files.drop_last())->Ok_0;
    if i == files.len() - 1 {
        order::law_get_after_put(rest, name, f.source@, name);
    } else {
        assert forall|j: int|
            i < j < files.drop_last().len() && fspath::extension(
                (#[trigger] files.drop_last()[j]).path@,
            ) == Some("html"@) implies template_name(files.drop_last()[j].path@, root) != Some(
            name,
        ) by {
            assert(files.drop_last()[j] == files[j]);
        }
        law_last_file_wins(rows, root, files.drop_last(), i, name);
        if fspath::extension(f.path@) == Some("html"@) {
            assert(files[files.len() - 1] == f);
            let other = template_name(f.path@, root).unwrap();
            order::law_get_after_put(rest, other, f.source@, name);
        }
    }
}

// ---------------------------------------------------------------------------
// Which template a page uses.

/// The template that a page uses: the one it names, else the one of its
/// directory, else `page.html`.
pub open spec fn template_for(
    path: Seq<char>,
    named: Option<Seq<char>>,
    rows: Seq<(Seq<char>, Seq<char>)>,
) -> Seq<char> {
    let scoped = match fspath::parent(path) {
        Some(dir) => match fspath::file_name(dir) {
            Some(n) => Some(n + ".html"@),
            None => None,
        },
        None => None,
    };
    if named is Some && order::get(rows, named.unwrap()) is Some {
        named.unwrap()
    } else if scoped is Some && order::get(rows, scoped.unwrap()) is Some {
        scoped.unwrap()
    } else {
        "page.html"@
    }
}

/// Computes [`template_for`].
pub fn resolve_template_name(
    path: &str,
    frontmatter: &FrontMatter,
    templates: &Vec<(String, String)>,
) -> (r: String)
    requires
        order::keys_increase(order::rows(templates@)),
    ensures
        r@ == template_for(
            path@,
            text::opt_text(frontmatter.template),
            order::rows(templates@),
        ),
{
    match &frontmatter.template {
        Some(t) => {
            if order::find_row(templates, t.as_str()).is_some() {
                return copy_text(t.as_str());
            }
        },
        None => {},
    }
    match fspath::path_parent(path) {
        Some(dir) => match fspath::path_file_name(dir.as_str()) {
            Some(n) => {
                let scoped = concat(n.as_str(), ".html");
                if order::find_row(templates, scoped.as_str()).is_some() {
                    return scoped;
                }
            },
            None => {},
        },
        None => {},
    }
    copy_text("page.html")
}

// ---------------------------------------------------------------------------
// Rendering.

/// The environment that `minijinja` renders templates in.
#[verifier::external_type_specification]
#[verifier::external_body]
pub struct ExEnvironment<'a>(minijinja::Environment<'a>);

/// The templates of an environment: their sources by their names.
pub uninterp spec fn env_templates(env: minijinja::Environment<'_>) -> Map<Seq<char>, Seq<char>>;

/// What `minijinja` renders: of these templates the one with this name, with the
/// values that a JSON text stands for; or the message of its error.
pub uninterp spec fn rendered_template(
    templates: Map<Seq<char>, Seq<char>>,
    name: Seq<char>,
    context: Seq<char>,
) -> Result<Seq<char>, Seq<char>>;

/// Templates ready to be rendered. The environment in it is always one with the
/// settings of [`new_environment`], to which templates were added by
/// [`add_template`].
pub struct TemplateSet<'a> {
    env: minijinja::Environment<'a>,
}

/// No templates.
pub open spec fn no_templates() -> Map<Seq<char>, Seq<char>> {
    Map::empty()
}

/// `Environment::new` gives an environment without templates.
#[verifier::external_body]
fn new_environment<'a>() -> (r: minijinja::Environment<'a>)
    ensures
        env_templates(r) == no_templates(),
{
    minijinja::Environment::new()
}

/// `minijinja` can compile a template with this name and source.
pub uninterp spec fn template_compiles(name: Seq<char>, source: Seq<char>) -> bool;

/// `Environment::add_template` adds a template under a name, in place of an earlier
/// one. It fails where the template does not compile, as [`template_compiles`]
/// says; which templates do, and what the environment holds after a failure, is
/// not said.
#[verifier::external_body]
fn add_template<'a>(env: &mut minijinja::Environment<'a>, name: &'a str, source: &'a str) -> (r:
    Result<(), String>)
    ensures
        r is Ok <==> template_compiles(name@, source@),
        r is Ok ==> env_templates(*final(env)) == env_templates(*old(env)).insert(name@, source@),
{
    env.add_template(name, source).map_err(|err| err.to_string())
}

/// The templates in `rows`, by their names.
pub open spec fn template_map(rows: Seq<(Seq<char>, Seq<char>)>) -> Map<Seq<char>, Seq<char>>
    decreases rows.len(),
{
    if rows.len() == 0 {
        Map::empty()
    } else {
        template_map(rows.drop_last()).insert(rows.last().0, rows.last().1)
    }
}

/// The name of the first template in `rows` that does not compile.
pub open spec fn faulty_template(rows: Seq<(Seq<char>, Seq<char>)>) -> Option<Seq<char>>
    decreases rows.len(),
{
    if rows.len() == 0 {
        None
    } else {
        match faulty_template(rows.drop_last()) {
            Some(name) => Some(name),
            None => if template_compiles(rows.last().0, rows.last().1) {
                None
            } else {
                Some(rows.last().0)
            },
        }
    }
}

/// The first fault is the fault.
proof fn lemma_first_fault(rows: Seq<(Seq<char>, Seq<char>)>, n: int)
    requires
        0 <= n <= rows.len(),
        faulty_template(rows.take(n)) is Some,
    ensures
        faulty_template(rows) == faulty_template(rows.take(n)),
    decreases rows.len() - n,
{
    if n == rows.len() {
        assert(rows.take(n) =~= rows);
    } else {
        assert(rows.take(n + 1).drop_last() =~= rows.take(n));
        lemma_first_fault(rows, n + 1);
    }
}

impl<'a> TemplateSet<'a> {
    /// The templates in the set.
    pub closed spec fn templates(&self) -> Map<Seq<char>, Seq<char>> {
        env_templates(self.env)
    }

    /// A set with the templates in `rows`, where all of them compile.
    pub fn new(rows: &'a Vec<(String, String)>) -> (r: Result<Self, Failure>)
        ensures
            match r {
                Ok(set) => faulty_template(order::rows(rows@)) is None && set.templates()
                    == template_map(order::rows(rows@)),
                Err(e) => faulty_template(order::rows(rows@)) matches Some(name) && e.message@
                    == "failed to register template "@ + name,
            },
    {
        let ghost all = order::rows(rows@);
        let mut env = new_environment();
        let mut i: usize = 0;
        assert(all.take(0) =~= Seq::empty());
        while i < rows.len()
            invariant
                i <= rows.len(),
                all == order::rows(rows@),
                env_templates(env) == template_map(all.take(i as int)),
                faulty_template(all.take(i as int)) is None,
            decreases rows.len() - i,
        {
            assert(all.take(i + 1).drop_last() =~= all.take(i as int));
            assert(all.take(i + 1).last() == (rows@[i as int].0@, rows@[i as int].1@));
            match add_template(&mut env, rows[i].0.as_str(), rows[i].1.as_str()) {
                Ok(_) => {},
                Err(_) => {
                    proof {
                        lemma_first_fault(all, i + 1);
                    }
                    return Err(
                        failure(concat("failed to register template ", rows[i].0.as_str())),
                    );
                },
            }
            i += 1;
        }
        assert(all.take(rows.len() as int) =~= all);
        Ok(TemplateSet { env })
    }

    /// `Environment::get_template` and `Template::render` render a template with
    /// values, here those that a JSON text stands for, however deeply they are
    /// nested. The result, or the message of the error, is [`rendered_template`];
    /// what a template means is not said. Templates that are borrowed, as here, are
    /// kept in the order of their names, so that a template that prints the state of
    /// the environment prints the same each time.
    #[verifier::external_body]
    fn render(&self, name: &str, context: &str) -> (r: Result<String, String>)
        ensures
            (match r {
                Ok(s) => Ok(s@),
                Err(m) => Err(m@),
            }) == rendered_template(self.templates(), name@, context@),
    {
        let mut reader = serde_json::Deserializer::from_str(context);
        reader.disable_recursion_limit();
        let context: serde_json::Value =
            serde::Deserialize::deserialize(&mut reader).map_err(|err| err.to_string())?;
        reader.end().map_err(|err| err.to_string())?;
        let template = self.env.get_template(name).map_err(|err| err.to_string())?;
        template.render(context).map_err(|err| err.to_string())
    }
}

/// What a page becomes, given what its template renders to.
pub open spec fn render_outcome(
    rendered: Result<Seq<char>, Seq<char>>,
    what: Seq<char>,
) -> Result<Seq<char>, Seq<char>> {
    match rendered {
        Ok(s) => Ok(s),
        Err(m) => Err("failed to render "@ + what + " template: "@ + m),
    }
}

/// Renders the template `name` of the set; `what` is rendered, as the message of
/// an error says.
pub fn render_template(set: &TemplateSet<'_>, name: &str, context: &str, what: &str) -> (r: Result<
    String,
    Failure,
>)
    ensures
        failure::text_outcome(r) == render_outcome(
            rendered_template(set.templates(), name@, context@),
            what@,
        ),
{
    let rendered = set.render(name, context);
    finish_render(rendered, what)
}

/// Computes [`render_outcome`].
pub fn finish_render(rendered: Result<String, String>, what: &str) -> (r: Result<String, Failure>)
    ensures
        failure::text_outcome(r) == render_outcome(
            (match rendered {
                Ok(s) => Ok(s@),
                Err(m) => Err(m@),
            }),
            what@,
        ),
{
    match rendered {
        Ok(s) => Ok(s),
        Err(m) => {
            let mut out = copy_text("failed to render ");
            out.append(what);
            out.append(" template: ");
            out.append(m.as_str());
            Err(failure(out))
        },
    }
}

// ---------------------------------------------------------------------------
// Laws.

/// The file gives a template with this name.
pub open spec fn gives_template(f: TemplateFile, root: Seq<char>, name: Seq<char>) -> bool {
    fspath::extension(f.path@) == Some("html"@) && template_name(f.path@, root) == Some(name)
}

/// Files only add and replace templates of their own names: a template that none of
/// them gives stays as it was, or stays missing. They are refused exactly where an
/// HTML file lies outside their directory.
pub proof fn law_other_templates_stay(
    rows: Seq<(Seq<char>, Seq<char>)>,
    root: Seq<char>,
    files: Seq<TemplateFile>,
    name: Seq<char>,
)
    ensures
        with_files(rows, root, files) is Ok && (forall|j: int|
            0 <= j < files.len() ==> !gives_template(#[trigger] files[j], root, name))
            ==> order::get(with_files(rows, root, files)->Ok_0, name) == order::get(rows, name),
        with_files(rows, root, files) is Ok <==> forall|j: int|
            0 <= j < files.len() && fspath::extension((#[trigger] files[j]).path@) == Some("html"@)
                ==> fspath::strip_prefix(files[j].path@, root) is Some,
    decreases files.len(),
{
    if files.len() > 0 {
        let front = files.drop_last();
        let f = files.last();
        law_other_templates_stay(rows, root, front, name);
        assert(files[files.len() - 1] == f);
        assert forall|j: int| 0 <= j < front.len() implies front[j] == #[trigger] files[j] by {}
        if with_files(rows, root, files) is Ok {
            let rest = with_files(rows, root, front)->Ok_0;
            if gives_template(f, root, template_name(f.path@, root).unwrap()) {
                order::law_get_after_put(
                    rest,
                    template_name(f.path@, root).unwrap(),
                    f.source@,
                    name,
                );
            }
            if forall|j: int|
                0 <= j < files.len() ==> !gives_template(#[trigger] files[j], root, name) {
                assert forall|j: int| 0 <= j < front.len() implies !gives_template(
                    #[trigger] front[j],
                    root,
                    name,
                ) by {
                    assert(!gives_template(files[j], root, name));
                }
                assert(!gives_template(files[files.len() - 1], root, name));
            }
            assert forall|j: int|
                0 <= j < files.len() && fspath::extension((#[trigger] files[j]).path@) == Some(
                    "html"@,
                ) implies fspath::strip_prefix(files[j].path@, root) is Some by {
                if j < front.len() {
                    assert(front[j] == files[j]);
                }
            }
        } else if forall|j: int|
            0 <= j < files.len() && fspath::extension((#[trigger] files[j]).path@) == Some("html"@)
                ==> fspath::strip_prefix(files[j].path@, root) is Some {
            assert forall|j: int|
                0 <= j < front.len() && fspath::extension((#[trigger] front[j]).path@) == Some(
                    "html"@,
                ) implies fspath::strip_prefix(front[j].path@, root) is Some by {
                assert(files[j] == front[j]);
            }
            assert(fspath::extension(files[files.len() - 1].path@) == Some("html"@)
                ==> fspath::strip_prefix(files[files.len() - 1].path@, root) is Some);
        }
    }
}

/// A template of the site comes before one of the theme with the same name, and a
/// template of the theme before the built-in one. `page.html` is always there.
pub proof fn law_site_comes_before_theme(
    theme_root: Seq<char>,
    theme: Seq<TemplateFile>,
    site_root: Seq<char>,
    site: Seq<TemplateFile>,
    name: Seq<char>,
    i: int,
)
    requires
        site_templates(theme_root, theme, site_root, site) is Ok,
    ensures
        0 <= i < site.len() && gives_template(site[i], site_root, name) && (forall|j: int|
            i < j < site.len() ==> !gives_template(#[trigger] site[j], site_root, name))
            ==> order::get(site_templates(theme_root, theme, site_root, site)->Ok_0, name) == Some(
            site[i].source@,
        ),
        0 <= i < theme.len() && gives_template(theme[i], theme_root, name) && (forall|j: int|
            i < j < theme.len() ==> !gives_template(#[trigger] theme[j], theme_root, name)) && (
        forall|j: int| 0 <= j < site.len() ==> !gives_template(#[trigger] site[j], site_root, name))
            ==> order::get(site_templates(theme_root, theme, site_root, site)->Ok_0, name) == Some(
            theme[i].source@,
        ),
        (forall|j: int|
            0 <= j < theme.len() ==> !gives_template(#[trigger] theme[j], theme_root, name)) && (
        forall|j: int| 0 <= j < site.len() ==> !gives_template(#[trigger] site[j], site_root, name))
            ==> order::get(site_templates(theme_root, theme, site_root, site)->Ok_0, name) == (
        if name == "page.html"@ {
            Some(DEFAULT_PAGE_TEMPLATE@)
        } else {
            None
        }),
{
    let rows = with_files(default_rows(), theme_root, theme)->Ok_0;
    law_other_templates_stay(default_rows(), theme_root, theme, name);
    law_other_templates_stay(rows, site_root, site, name);
    reveal_with_fuel(order::get, 2);
    assert(default_rows().skip(1) =~= Seq::empty());
    if 0 <= i < site.len() && gives_template(site[i], site_root, name) && (forall|j: int|
        i < j < site.len() ==> !gives_template(#[trigger] site[j], site_root, name)) {
        assert forall|j: int|
            i < j < site.len() && fspath::extension((#[trigger] site[j]).path@) == Some(
                "html"@,
            ) implies template_name(site[j].path@, site_root) != Some(name) by {
            assert(!gives_template(site[j], site_root, name));
        }
        law_last_file_wins(rows, site_root, site, i, name);
    }
    if 0 <= i < theme.len() && gives_template(theme[i], theme_root, name) && (forall|j: int|
        i < j < theme.len() ==> !gives_template(#[trigger] theme[j], theme_root, name)) {
        assert forall|j: int|
            i < j < theme.len() && fspath::extension((#[trigger] theme[j]).path@) == Some(
                "html"@,
            ) implies template_name(theme[j].path@, theme_root) != Some(name) by {
            assert(!gives_template(theme[j], theme_root, name));
        }
        law_last_file_wins(default_rows(), theme_root, theme, i, name);
    }
}

/// A page uses the template that it names where there is one; else the template that is
/// named after its directory where there is one; else `page.html`.
pub proof fn law_template_choice(
    path: Seq<char>,
    named: Option<Seq<char>>,
    rows: Seq<(Seq<char>, Seq<char>)>,
    dir: Seq<char>,
    dir_name: Seq<char>,
)
    requires
        fspath::parent(path) == Some(dir),
        fspath::file_name(dir) == Some(dir_name),
    ensures
        named matches Some(n) ==> order::get(rows, n) is Some ==> template_for(path, named, rows)
            == n,
        (named is None || order::get(rows, named.unwrap()) is None) && order::get(
            rows,
            dir_name + ".html"@,
        ) is Some ==> template_for(path, named, rows) == dir_name + ".html"@,
        (named is None || order::get(rows, named.unwrap()) is None) && order::get(
            rows,
            dir_name + ".html"@,
        ) is None ==> template_for(path, named, rows) == "page.html"@,
{
}

/// A set holds the templates of its table, each under its name, and no others. It cannot
/// be made exactly where a template does not compile; the first that does not is named.
pub proof fn law_set_holds_its_templates(rows: Seq<(Seq<char>, Seq<char>)>, name: Seq<char>)
    requires
        order::keys_increase(rows),
    ensures
        order::get(rows, name) matches Some(source) ==> template_map(rows).dom().contains(name)
            && template_map(rows)[name] == source,
        order::get(rows, name) is None ==> !template_map(rows).dom().contains(name),
        faulty_template(rows) is None <==> forall|i: int|
            0 <= i < rows.len() ==> template_compiles((#[trigger] rows[i]).0, rows[i].1),
        faulty_template(rows) matches Some(n) ==> exists|i: int|
            0 <= i < rows.len() && (#[trigger] rows[i]).0 == n && !template_compiles(n, rows[i].1)
                && faulty_template(rows.take(i)) is None,
    decreases rows.len(),
{
    order::law_rows_are_found(rows, name);
    if rows.len() > 0 {
        let front = rows.drop_last();
        let last = rows.last();
        assert forall|i: int, j: int| 0 <= i < j < front.len() implies order::text_lt(
            (#[trigger] front[i]).0,
            (#[trigger] front[j]).0,
        ) by {
            assert(front[i] == rows[i] && front[j] == rows[j]);
        }
        law_set_holds_its_templates(front, name);
        order::law_rows_are_found(front, name);
        assert(rows[rows.len() - 1] == last);
        assert forall|i: int| 0 <= i < front.len() implies front[i] == #[trigger] rows[i] by {}
        if order::get(rows, name) is Some {
            let source = order::get(rows, name).unwrap();
            let i = choose|i: int| 0 <= i < rows.len() && #[trigger] rows[i] == (name, source);
            if i < front.len() {
                assert(front[i] == (name, source));
                assert(order::text_lt(rows[i].0, rows[rows.len() - 1].0));
                order::lemma_text_trichotomy(rows[i].0, last.0);
            }
        } else {
            assert(last.0 != name);
            assert forall|i: int| 0 <= i < front.len() implies (#[trigger] front[i]).0 != name by {
                assert(rows[i].0 != name);
            }
        }
        if faulty_template(rows) is Some {
            let n = faulty_template(rows).unwrap();
            if faulty_template(front) is Some {
                let i = choose|i: int|
                    0 <= i < front.len() && (#[trigger] front[i]).0 == n && !template_compiles(
                        n,
                        front[i].1,
                    ) && faulty_template(front.take(i)) is None;
                assert(rows[i] == front[i]);
                assert(rows.take(i) =~= front.take(i));
            } else {
                assert(rows.take(rows.len() - 1) =~= front);
                assert(rows[rows.len() - 1].0 == n);
            }
        } else {
            assert forall|i: int| 0 <= i < rows.len() implies template_compiles(
                (#[trigger] rows[i]).0,
                rows[i].1,
            ) by {
                if i < front.len() {
                    assert(front[i] == rows[i]);
                }
            }
        }
        if forall|i: int|
            0 <= i < rows.len() ==> template_compiles((#[trigger] rows[i]).0, rows[i].1) {
            assert forall|i: int| 0 <= i < front.len() implies template_compiles(
                (#[trigger] front[i]).0,
                front[i].1,
            ) by {
                assert(template_compiles(rows[i].0, rows[i].1));
            }
        }
    }
}

/// What is rendered is the page, unchanged; an error says what could not be rendered,
/// and why.
pub proof fn law_rendered_text_is_kept(html: Seq<char>, message: Seq<char>, what: Seq<char>)
    ensures
        render_outcome(Ok(html), what) == Ok::<Seq<char>, Seq<char>>(html),
        render_outcome(Err(message), what) matches Err(m) && text::starts_with(
            m,
            "failed to render "@ + what + " template: "@,
        ) && text::ends_with(m, message),
{
    let head = "failed to render "@ + what + " template: "@;
    let m = head + message;
    assert(m.take(head.len() as int) =~= head);
    assert(m.skip(m.len() - message.len()) =~= message);
}

/// A template goes by its path below the directory of templates, with forward slashes.
pub proof fn law_names_of_templates(path: Seq<char>, root: Seq<char>, rel: Seq<char>)
    ensures
        fspath::strip_prefix(path, root) is None ==> template_name(path, root) is None,
        fspath::strip_prefix(path, root) == Some(rel) && !rel.contains('\\') ==> template_name(
            path,
            root,
        ) == Some(rel),
        fspath::strip_prefix(path, root) == Some(rel) ==> template_name(path, root) is Some
            && template_name(path, root).unwrap().len() == rel.len() && forall|i: int|
            0 <= i < rel.len() ==> #[trigger] template_name(path, root).unwrap()[i] == (if rel[i]
                == '\\' {
                '/'
            } else {
                rel[i]
            }),
{
    reveal_strlit("/");
    if !rel.contains('\\') {
        text::lemma_replace_char_none(rel, '\\', "/"@);
    }
    lemma_one_for_one(rel);
}

proof fn lemma_one_for_one(s: Seq<char>)
    ensures
        text::replace_char(s, '\\', "/"@).len() == s.len(),
        forall|i: int|
            0 <= i < s.len() ==> #[trigger] text::replace_char(s, '\\', "/"@)[i] == (if s[i]
                == '\\' {
                '/'
            } else {
                s[i]
            }),
    decreases s.len(),
{
    reveal_strlit("/");
    if s.len() > 0 {
        let f = s.drop_last();
        lemma_one_for_one(f);
        assert forall|i: int| 0 <= i < s.len() implies #[trigger] text::replace_char(
            s,
            '\\',
            "/"@,
        )[i] == (if s[i] == '\\' {
            '/'
        } else {
            s[i]
        }) by {
            if i < f.len() {
                assert(text::replace_char(s, '\\', "/"@)[i] == text::replace_char(f, '\\', "/"@)[i]);
                assert(f[i] == s[i]);
            }
        }
    }
}

/// A page that names no template of the site, and stands in no directory that has one,
/// uses `page.html`.
pub proof fn law_pages_without_a_directory(
    path: Seq<char>,
    named: Option<Seq<char>>,
    rows: Seq<(Seq<char>, Seq<char>)>,
)
    requires
        named is None || order::get(rows, named.unwrap()) is None,
        fspath::parent(path) is None || fspath::file_name(fspath::parent(path).unwrap()) is None,
    ensures
        template_for(path, named, rows) == "page.html"@,
{
}

} // verus!
