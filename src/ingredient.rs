//! Ingredients: named bundles of metadata, file templates and a hook.
use vstd::prelude::*;
use crate::config::{ConfigError, str_of, opt_str, str_list, text, optional_text, text_list};
use crate::document::{Doc, Document, field, opt_view, get, items_view, lemma_items_view};
use crate::parse::{parse_document, toml_document};
use crate::text::chars_of;

verus! {

/// A unit of configuration to apply: manifest, templates, files and hook.
#[derive(Debug, Clone)]
pub struct Ingredient {
    pub meta: IngredientManifest,
    pub templates: Vec<Template>,
    pub files: Vec<Template>,
    pub hooks: Hooks,
}

/// An ingredient's identity and metadata; `name` is its key in the pantry.
#[derive(Debug, Clone)]
pub struct IngredientManifest {
    pub name: String,
    pub version: String,
    pub authors: Vec<String>,
    pub description: String,
    pub repository: Option<String>,
    pub license: Option<String>,
    /// An ignored ingredient stays in the pantry but is not cooked.
    pub ignored: bool,
}

/// A file to write: where, and the template of what.
#[derive(Debug, Clone)]
pub struct Template {
    pub target: String,
    pub content: String,
}

/// The command run after an ingredient's files are written, if any.
#[derive(Debug, Clone)]
pub struct Hooks {
    pub reload: Option<String>,
}

impl Default for Hooks {
    fn default() -> (r: Self)
        ensures
            r.reload is None,
    {
        Hooks { reload: None }
    }
}

impl IngredientManifest {
    /// The identifier of the ingredient: its name.
    pub fn id(&self) -> (r: &str)
        ensures
            r@ == self.name@,
    {
        self.name.as_str()
    }
}

impl Ingredient {
    /// Every entry to render, templates first and then files, each in its
    /// list's order.
    pub fn entries(&self) -> (r: Vec<&Template>)
        ensures
            r@.len() == self.templates@.len() + self.files@.len(),
            forall|i: int| 0 <= i < self.templates@.len() ==> *r@[i] == self.templates@[i],
            forall|i: int|
                0 <= i < self.files@.len() ==> *r@[self.templates@.len() + i] == self.files@[i],
    {
        let mut out: Vec<&Template> = Vec::new();
        let mut i: usize = 0;
        while i < self.templates.len()
            invariant
                i <= self.templates@.len(),
                out@.len() == i,
                forall|j: int| 0 <= j < i ==> *out@[j] == self.templates@[j],
            decreases self.templates.len() - i,
        {
            out.push(&self.templates[i]);
            i += 1;
        }
        let mut j: usize = 0;
        while j < self.files.len()
            invariant
                j <= self.files@.len(),
                out@.len() == self.templates@.len() + j,
                forall|k: int| 0 <= k < self.templates@.len() ==> *out@[k] == self.templates@[k],
                forall|k: int|
                    0 <= k < j ==> *out@[self.templates@.len() + k] == self.files@[k],
            decreases self.files.len() - j,
        {
            out.push(&self.files[j]);
            j += 1;
        }
        out
    }
}

/// The manifest table of an ingredient document: `meta`, or its older name
/// `package`; giving both is an error.
pub open spec fn manifest_doc(d: Doc) -> Option<Option<Doc>> {
    match (field(d, "meta"@), field(d, "package"@)) {
        (Some(m), None) => Some(Some(m)),
        (None, Some(p)) => Some(Some(p)),
        (None, None) => Some(None),
        _ => None,
    }
}

/// An optional flag: `Some(false)` when absent.
pub open spec fn flag_or_false(d: Option<Doc>) -> Option<bool> {
    match d {
        None => Some(false),
        Some(Doc::Bool(b)) => Some(b),
        _ => None,
    }
}

pub open spec fn manifest_ok(m: Doc) -> bool {
    &&& str_of(field(m, "name"@)) is Some
    &&& str_of(field(m, "version"@)) is Some
    &&& str_list(field(m, "authors"@)) matches Some(Some(_))
    &&& str_of(field(m, "description"@)) is Some
    &&& opt_str(field(m, "repository"@)) is Some
    &&& opt_str(field(m, "license"@)) is Some
    &&& flag_or_false(field(m, "ignored"@)) is Some
}

pub open spec fn opt_string_view(o: Option<String>) -> Option<Seq<char>> {
    match o {
        Some(s) => Some(s@),
        None => None,
    }
}

pub open spec fn manifest_matches(x: IngredientManifest, m: Doc) -> bool {
    &&& str_of(field(m, "name"@)) == Some(x.name@)
    &&& str_of(field(m, "version"@)) == Some(x.version@)
    &&& str_list(field(m, "authors"@)) == Some(Some(x.authors@.map_values(|s: String| s@)))
    &&& str_of(field(m, "description"@)) == Some(x.description@)
    &&& opt_str(field(m, "repository"@)) == Some(opt_string_view(x.repository))
    &&& opt_str(field(m, "license"@)) == Some(opt_string_view(x.license))
    &&& flag_or_false(field(m, "ignored"@)) == Some(x.ignored)
}

/// The template that a document holds, if it holds one.
pub open spec fn template_of(d: Doc) -> Option<(Seq<char>, Seq<char>)> {
    if str_of(field(d, "target"@)) is Some && str_of(field(d, "content"@)) is Some {
        Some((str_of(field(d, "target"@))->Some_0, str_of(field(d, "content"@))->Some_0))
    } else {
        None
    }
}

/// A list of templates: empty when absent.
pub open spec fn template_list(d: Option<Doc>) -> Option<Seq<(Seq<char>, Seq<char>)>> {
    match d {
        None => Some(Seq::empty()),
        Some(Doc::Array(xs)) => if forall|i: int|
            0 <= i < xs.len() ==> template_of(#[trigger] xs[i]) is Some {
            Some(xs.map_values(|x: Doc| template_of(x)->Some_0))
        } else {
            None
        },
        _ => None,
    }
}

pub open spec fn templates_view(ts: Seq<Template>) -> Seq<(Seq<char>, Seq<char>)> {
    ts.map_values(|t: Template| (t.target@, t.content@))
}

/// The hook command of a hooks table: none when the table is absent.
pub open spec fn hook_of(d: Option<Doc>) -> Option<Option<Seq<char>>> {
    match d {
        None => Some(None),
        Some(h) => if h is Table {
            opt_str(field(h, "reload"@))
        } else {
            None
        },
    }
}

/// Whether a document describes an ingredient.
pub open spec fn ingredient_ok(d: Doc) -> bool {
    &&& manifest_doc(d) matches Some(Some(m))
    &&& manifest_ok(m)
    &&& template_list(field(d, "templates"@)) is Some
    &&& template_list(field(d, "files"@)) is Some
    &&& hook_of(field(d, "hooks"@)) is Some
}

/// Whether `x` holds what the ingredient document `d` describes.
pub open spec fn ingredient_matches(x: Ingredient, d: Doc) -> bool {
    &&& manifest_doc(d) matches Some(Some(m)) && manifest_matches(x.meta, m)
    &&& template_list(field(d, "templates"@)) == Some(templates_view(x.templates@))
    &&& template_list(field(d, "files"@)) == Some(templates_view(x.files@))
    &&& hook_of(field(d, "hooks"@)) == Some(opt_string_view(x.hooks.reload))
}

fn template(d: &Document) -> (r: Result<Template, ConfigError>)
    ensures
        match r {
            Ok(t) => template_of(d@) == Some((t.target@, t.content@)),
            Err(e) => template_of(d@) is None && e is Field,
        },
{
    let target = text(get(d, "target"), "templates.target")?;
    let content = text(get(d, "content"), "templates.content")?;
    Ok(Template { target, content })
}

fn template_entries(d: Option<&Document>, key: &str) -> (r: Result<Vec<Template>, ConfigError>)
    ensures
        match r {
            Ok(ts) => template_list(opt_view(d)) == Some(templates_view(ts@)),
            Err(e) => template_list(opt_view(d)) is None && e is Field,
        },
{
    match d {
        None => {
            let out: Vec<Template> = Vec::new();
            proof {
                assert(templates_view(out@) =~= Seq::<(Seq<char>, Seq<char>)>::empty());
            }
            Ok(out)
        },
        Some(Document::Array(xs)) => {
            let ghost xv = items_view(xs@);
            proof {
                lemma_items_view(xs@);
            }
            let mut out: Vec<Template> = Vec::new();
            let mut i: usize = 0;
            while i < xs.len()
                invariant
                    i <= xs.len(),
                    xv == items_view(xs@),
                    opt_view(d) == Some(Doc::Array(xv)),
                    xv.len() == xs@.len(),
                    forall|j: int| 0 <= j < xs@.len() ==> #[trigger] xv[j] == xs@[j]@,
                    forall|j: int| 0 <= j < i ==> template_of(#[trigger] xv[j]) is Some,
                    out@.len() == i,
                    forall|j: int|
                        0 <= j < i ==> template_of(#[trigger] xv[j]) == Some(
                            (out@[j].target@, out@[j].content@),
                        ),
                decreases xs.len() - i,
            {
                let t = match template(&xs[i]) {
                    Ok(t) => t,
                    Err(e) => {
                        proof {
                            assert(template_of(xv[i as int]) is None);
                        }
                        return Err(e);
                    },
                };
                out.push(t);
                i += 1;
            }
            proof {
                assert(templates_view(out@) =~= xv.map_values(|x: Doc| template_of(x)->Some_0));
            }
            Ok(out)
        },
        _ => Err(ConfigError::Field(key.to_owned())),
    }
}

impl Ingredient {
    /// Reads an ingredient from its document. The manifest stands under
    /// `meta` (or `package`); templates, files and hooks may be left out.
    pub fn from_document(d: &Document) -> (r: Result<Ingredient, ConfigError>)
        ensures
            r is Ok <==> ingredient_ok(d@),
            r matches Ok(x) ==> ingredient_matches(x, d@),
            r matches Err(e) ==> e is Field,
    {
        let m = match (get(d, "meta"), get(d, "package")) {
            (Some(m), None) => m,
            (None, Some(p)) => p,
            (None, None) => return Err(ConfigError::Field("meta".to_owned())),
            _ => return Err(ConfigError::Field("package".to_owned())),
        };
        let name = text(get(m, "name"), "meta.name")?;
        let version = text(get(m, "version"), "meta.version")?;
        let authors = match text_list(get(m, "authors"), "meta.authors")? {
            Some(a) => a,
            None => return Err(ConfigError::Field("meta.authors".to_owned())),
        };
        let description = text(get(m, "description"), "meta.description")?;
        let repository = optional_text(get(m, "repository"), "meta.repository")?;
        let license = optional_text(get(m, "license"), "meta.license")?;
        let ignored = match get(m, "ignored") {
            None => false,
            Some(Document::Bool(b)) => *b,
            Some(_) => return Err(ConfigError::Field("meta.ignored".to_owned())),
        };
        let templates = template_entries(get(d, "templates"), "templates")?;
        let files = template_entries(get(d, "files"), "files")?;
        let reload = match get(d, "hooks") {
            None => None,
            Some(h) => match h {
                Document::Table(_) => optional_text(get(h, "reload"), "hooks.reload")?,
                _ => return Err(ConfigError::Field("hooks".to_owned())),
            },
        };
        Ok(
            Ingredient {
                meta: IngredientManifest {
                    name,
                    version,
                    authors,
                    description,
                    repository,
                    license,
                    ignored,
                },
                templates,
                files,
                hooks: Hooks { reload },
            },
        )
    }
}

/// Reads an ingredient from the TOML text of the file at `path`.
pub fn parse_ingredient(text: &str, path: &str) -> (r: Result<Ingredient, ConfigError>)
    ensures
        r is Ok <==> (toml_document(text@) matches Some(d) && ingredient_ok(d)),
        r matches Ok(x) ==> (toml_document(text@) matches Some(d) && ingredient_matches(x, d)),
        r matches Err(e) ==> (e is Toml && toml_document(text@) is None) || e is Field,
{
    let d = parse_document(text, path)?;
    Ingredient::from_document(&d)
}

/// Whether a file name is that of an ingredient: it ends in `.ing`.
pub fn is_ingredient_file(name: &str) -> (r: bool)
    ensures
        r == (name@.len() >= 4 && name@.skip(name@.len() - 4) == ".ing"@),
{
    let cs = chars_of(name);
    let n = cs.len();
    proof {
        reveal_strlit(".ing");
    }
    if n < 4 {
        return false;
    }
    let r = cs[n - 4] == '.' && cs[n - 3] == 'i' && cs[n - 2] == 'n' && cs[n - 1] == 'g';
    proof {
        if r {
            assert(name@.skip(name@.len() - 4) =~= ".ing"@);
        } else {
            if name@.skip(name@.len() - 4) == ".ing"@ {
                assert(name@.skip(name@.len() - 4)[0] == '.');
                assert(name@.skip(name@.len() - 4)[1] == 'i');
                assert(name@.skip(name@.len() - 4)[2] == 'n');
                assert(name@.skip(name@.len() - 4)[3] == 'g');
            }
        }
    }
    r
}

} // verus!
