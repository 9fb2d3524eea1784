//! The resolved configuration: theme, icons, layout and dictionary, read
//! from merged configuration documents.
use vstd::prelude::*;
use crate::dict::{Dict, map_of};
use crate::document::{Doc, Document, field, field_in, opt_view, get, get_in, entries_view, lemma_entries_view};
use crate::parse::{parse_document, toml_document};

verus! {

broadcast use vstd::std_specs::vec::group_vec_axioms;

#[derive(Debug)]
pub struct ThemeConfig {
    pub meta: ThemeMeta,
    pub settings: ThemeSettings,
    pub colors: Dict<String>,
    pub fonts: Dict<String>,
    pub includes: Option<Vec<String>>,
}

#[derive(Debug)]
pub struct ThemeMeta {
    pub name: String,
}

#[derive(Debug)]
pub struct ThemeSettings {
    pub active_icons: String,
}

#[derive(Debug)]
pub struct IconsConfig {
    pub nerdfont: Dict<String>,
    pub ascii: Dict<String>,
    pub includes: Option<Vec<String>>,
}

#[derive(Debug)]
pub struct LayoutConfig {
    pub tag: TagConfig,
    pub labels: Dict<String>,
    pub structure: StructureConfig,
    pub logging: LoggingConfig,
    pub includes: Option<Vec<String>>,
}

#[derive(Debug)]
pub struct TagConfig {
    pub prefix: String,
    pub suffix: String,
    pub transform: String,
    pub min_width: usize,
    pub alignment: String,
}

#[derive(Debug)]
pub struct StructureConfig {
    pub terminal: String,
    pub file: String,
}

#[derive(Debug)]
pub struct LoggingConfig {
    pub base_dir: String,
    pub path_structure: String,
    pub filename_structure: String,
    pub timestamp_format: String,
    pub write_by_default: bool,
    pub app_name: String,
}

#[derive(Debug)]
pub struct DictionaryConfig {
    pub presets: Dict<Preset>,
    pub includes: Option<Vec<String>>,
}

/// A named notification: level, optional scope and message text.
#[derive(Debug)]
pub struct Preset {
    pub level: String,
    pub scope: Option<String>,
    pub msg: String,
}

/// The fully merged, typed configuration.
#[derive(Debug)]
pub struct Cookbook {
    pub theme: ThemeConfig,
    pub icons: IconsConfig,
    pub layout: LayoutConfig,
    pub dictionary: DictionaryConfig,
}

/// Why a configuration could not be loaded.
#[derive(Debug, Clone, PartialEq, Eq)]
pub enum ConfigError {
    /// No configuration directory could be determined.
    ConfigDirNotFound,
    /// A document could not be read; the path names it.
    Io(String),
    /// A document is not valid text of its format; path and reason.
    Toml(String, String),
    /// A field is missing or of the wrong type; its dotted key names it.
    Field(String),
    /// A document includes itself, directly or through others; the path
    /// names it.
    Cycle(String),
}

/// Checks that resolving `path` does not re-enter a document whose
/// resolution is in progress (`open`, outermost first).
pub fn enter_document(open: &Vec<String>, path: &str) -> (r: Result<(), ConfigError>)
    ensures
        r is Ok <==> forall|i: int| 0 <= i < open@.len() ==> (#[trigger] open@[i])@ != path@,
        r matches Err(e) ==> e is Cycle && e->Cycle_0@ == path@,
{
    let p = path.to_owned();
    let mut i: usize = 0;
    while i < open.len()
        invariant
            i <= open@.len(),
            p@ == path@,
            forall|j: int| 0 <= j < i ==> (#[trigger] open@[j])@ != path@,
        decreases open.len() - i,
    {
        if open[i] == p {
            return Err(ConfigError::Cycle(p));
        }
        i += 1;
    }
    Ok(())
}

/// The application name used when the layout does not give one.
pub fn default_app_name() -> (r: String)
    ensures
        r@ == "kitchn"@,
{
    "kitchn".to_owned()
}

/// The string that `d` holds, if it is one.
pub open spec fn str_of(d: Option<Doc>) -> Option<Seq<char>> {
    match d {
        Some(Doc::Str(s)) => Some(s),
        _ => None,
    }
}

/// The flag that `d` holds, if it is one.
pub open spec fn bool_of(d: Option<Doc>) -> Option<bool> {
    match d {
        Some(Doc::Bool(b)) => Some(b),
        _ => None,
    }
}

/// The size that `d` holds, if it is an integer that fits a `usize`.
pub open spec fn size_of(d: Option<Doc>) -> Option<int> {
    match d {
        Some(Doc::Int(i)) => if 0 <= i <= usize::MAX {
            Some(i)
        } else {
            None
        },
        _ => None,
    }
}

/// The string-to-string map that entries denote; a later entry wins.
pub open spec fn str_map(es: Seq<(Seq<char>, Doc)>) -> Map<Seq<char>, Seq<char>>
    decreases es.len(),
{
    if es.len() == 0 {
        Map::empty()
    } else {
        str_map(es.drop_last()).insert(es.last().0, es.last().1->Str_0)
    }
}

/// The map that `d` holds, if it is a table of strings.
pub open spec fn str_table(d: Option<Doc>) -> Option<Map<Seq<char>, Seq<char>>> {
    match d {
        Some(Doc::Table(es)) => if forall|i: int| 0 <= i < es.len() ==> (#[trigger] es[i]).1 is Str {
            Some(str_map(es))
        } else {
            None
        },
        _ => None,
    }
}

/// An optional list of strings: `Some(None)` when absent, `Some(Some(l))`
/// for an array of strings, `None` for anything else.
pub open spec fn str_list(d: Option<Doc>) -> Option<Option<Seq<Seq<char>>>> {
    match d {
        None => Some(None),
        Some(Doc::Array(xs)) => if forall|i: int| 0 <= i < xs.len() ==> (#[trigger] xs[i]) is Str {
            Some(Some(xs.map_values(|x: Doc| x->Str_0)))
        } else {
            None
        },
        _ => None,
    }
}

/// An optional string: `Some(None)` when absent, `Some(Some(s))` for a
/// string, `None` for anything else.
pub open spec fn opt_str(d: Option<Doc>) -> Option<Option<Seq<char>>> {
    match d {
        None => Some(None),
        Some(Doc::Str(s)) => Some(Some(s)),
        _ => None,
    }
}

/// The model of a map of strings.
pub open spec fn strings(d: Dict<String>) -> Map<Seq<char>, Seq<char>> {
    d@.map_values(|s: String| s@)
}

pub open spec fn list_view(l: Option<Vec<String>>) -> Option<Seq<Seq<char>>> {
    match l {
        Some(v) => Some(v@.map_values(|s: String| s@)),
        None => None,
    }
}

pub(crate) fn text(d: Option<&Document>, key: &str) -> (r: Result<String, ConfigError>)
    ensures
        match r {
            Ok(s) => str_of(opt_view(d)) == Some(s@),
            Err(e) => str_of(opt_view(d)) is None && e is Field && e->Field_0@ == key@,
        },
{
    match d {
        Some(Document::Str(s)) => Ok(s.clone()),
        _ => Err(ConfigError::Field(key.to_owned())),
    }
}

pub(crate) fn flag(d: Option<&Document>, key: &str) -> (r: Result<bool, ConfigError>)
    ensures
        match r {
            Ok(b) => bool_of(opt_view(d)) == Some(b),
            Err(e) => bool_of(opt_view(d)) is None && e is Field && e->Field_0@ == key@,
        },
{
    match d {
        Some(Document::Bool(b)) => Ok(*b),
        _ => Err(ConfigError::Field(key.to_owned())),
    }
}

pub(crate) fn size(d: Option<&Document>, key: &str) -> (r: Result<usize, ConfigError>)
    ensures
        match r {
            Ok(n) => size_of(opt_view(d)) == Some(n as int),
            Err(e) => size_of(opt_view(d)) is None && e is Field && e->Field_0@ == key@,
        },
{
    match d {
        Some(Document::Int(i)) => {
            if *i >= 0 && (*i as u64) <= (usize::MAX as u64) {
                Ok(*i as usize)
            } else {
                Err(ConfigError::Field(key.to_owned()))
            }
        },
        _ => Err(ConfigError::Field(key.to_owned())),
    }
}

pub(crate) fn optional_text(d: Option<&Document>, key: &str) -> (r: Result<Option<String>, ConfigError>)
    ensures
        match r {
            Ok(Some(s)) => opt_str(opt_view(d)) == Some(Some(s@)),
            Ok(None) => opt_str(opt_view(d)) == Some(None::<Seq<char>>),
            Err(e) => opt_str(opt_view(d)) is None && e is Field && e->Field_0@ == key@,
        },
{
    match d {
        None => Ok(None),
        Some(Document::Str(s)) => Ok(Some(s.clone())),
        _ => Err(ConfigError::Field(key.to_owned())),
    }
}

pub(crate) fn text_table(d: Option<&Document>, key: &str) -> (r: Result<Dict<String>, ConfigError>)
    ensures
        match r {
            Ok(m) => str_table(opt_view(d)) == Some(strings(m)),
            Err(e) => str_table(opt_view(d)) is None && e is Field && e->Field_0@ == key@,
        },
{
    match d {
        Some(Document::Table(es)) => {
            let ghost ev = entries_view(es@);
            proof {
                lemma_entries_view(es@);
            }
            let mut out: Dict<String> = Dict::new();
            let mut i: usize = 0;
            while i < es.len()
                invariant
                    i <= es.len(),
                    ev == entries_view(es@),
                    opt_view(d) == Some(Doc::Table(ev)),
                    ev.len() == es@.len(),
                    forall|j: int| 0 <= j < es@.len() ==> #[trigger] ev[j] == (es@[j].0@, es@[j].1@),
                    forall|j: int| 0 <= j < i ==> (#[trigger] ev[j]).1 is Str,
                    strings(out) == str_map(ev.take(i as int)),
                decreases es.len() - i,
            {
                proof {
                    assert(ev.take(i + 1).drop_last() =~= ev.take(i as int));
                }
                match &es[i].1 {
                    Document::Str(s) => {
                        let ghost before = out@;
                        out.insert(es[i].0.clone(), s.clone());
                        proof {
                            assert(strings(out) =~= str_map(ev.take(i + 1)));
                        }
                    },
                    _ => {
                        proof {
                            assert(!(ev[i as int].1 is Str));
                        }
                        return Err(ConfigError::Field(key.to_owned()));
                    },
                }
                i += 1;
            }
            proof {
                assert(ev.take(i as int) =~= ev);
            }
            Ok(out)
        },
        _ => Err(ConfigError::Field(key.to_owned())),
    }
}

pub(crate) fn text_list(d: Option<&Document>, key: &str) -> (r: Result<Option<Vec<String>>, ConfigError>)
    ensures
        match r {
            Ok(l) => str_list(opt_view(d)) == Some(list_view(l)),
            Err(e) => str_list(opt_view(d)) is None && e is Field && e->Field_0@ == key@,
        },
{
    match d {
        None => Ok(None),
        Some(Document::Array(xs)) => {
            let ghost xv = crate::document::items_view(xs@);
            proof {
                crate::document::lemma_items_view(xs@);
            }
            let mut out: Vec<String> = Vec::new();
            let mut i: usize = 0;
            while i < xs.len()
                invariant
                    i <= xs.len(),
                    xv == crate::document::items_view(xs@),
                    opt_view(d) == Some(Doc::Array(xv)),
                    xv.len() == xs@.len(),
                    forall|j: int| 0 <= j < xs@.len() ==> #[trigger] xv[j] == xs@[j]@,
                    forall|j: int| 0 <= j < i ==> (#[trigger] xv[j]) is Str,
                    out@.len() == i,
                    forall|j: int| 0 <= j < i ==> #[trigger] out@[j]@ == xv[j]->Str_0,
                decreases xs.len() - i,
            {
                match &xs[i] {
                    Document::Str(s) => {
                        out.push(s.clone());
                    },
                    _ => {
                        proof {
                            assert(!(xv[i as int] is Str));
                        }
                        return Err(ConfigError::Field(key.to_owned()));
                    },
                }
                i += 1;
            }
            proof {
                assert(out@.map_values(|s: String| s@) =~= xv.map_values(|x: Doc| x->Str_0));
            }
            Ok(Some(out))
        },
        _ => Err(ConfigError::Field(key.to_owned())),
    }
}


/// Whether a theme document holds every field of a theme, each of its type.
pub open spec fn theme_ok(d: Doc) -> bool {
    &&& str_of(field_in(field(d, "meta"@), "name"@)) is Some
    &&& str_of(field_in(field(d, "settings"@), "active_icons"@)) is Some
    &&& str_table(field(d, "colors"@)) is Some
    &&& str_table(field(d, "fonts"@)) is Some
    &&& str_list(field(d, "include"@)) is Some
}

/// Whether `t` holds what the theme document `d` holds.
pub open spec fn theme_matches(t: ThemeConfig, d: Doc) -> bool {
    &&& str_of(field_in(field(d, "meta"@), "name"@)) == Some(t.meta.name@)
    &&& str_of(field_in(field(d, "settings"@), "active_icons"@)) == Some(t.settings.active_icons@)
    &&& str_table(field(d, "colors"@)) == Some(strings(t.colors))
    &&& str_table(field(d, "fonts"@)) == Some(strings(t.fonts))
    &&& str_list(field(d, "include"@)) == Some(list_view(t.includes))
}

pub open spec fn icons_ok(d: Doc) -> bool {
    &&& str_table(field(d, "nerdfont"@)) is Some
    &&& str_table(field(d, "ascii"@)) is Some
    &&& str_list(field(d, "include"@)) is Some
}

pub open spec fn icons_match(c: IconsConfig, d: Doc) -> bool {
    &&& str_table(field(d, "nerdfont"@)) == Some(strings(c.nerdfont))
    &&& str_table(field(d, "ascii"@)) == Some(strings(c.ascii))
    &&& str_list(field(d, "include"@)) == Some(list_view(c.includes))
}

pub open spec fn tag_ok(d: Option<Doc>) -> bool {
    &&& str_of(field_in(d, "prefix"@)) is Some
    &&& str_of(field_in(d, "suffix"@)) is Some
    &&& str_of(field_in(d, "transform"@)) is Some
    &&& size_of(field_in(d, "min_width"@)) is Some
    &&& str_of(field_in(d, "alignment"@)) is Some
}

pub open spec fn tag_matches(t: TagConfig, d: Option<Doc>) -> bool {
    &&& str_of(field_in(d, "prefix"@)) == Some(t.prefix@)
    &&& str_of(field_in(d, "suffix"@)) == Some(t.suffix@)
    &&& str_of(field_in(d, "transform"@)) == Some(t.transform@)
    &&& size_of(field_in(d, "min_width"@)) == Some(t.min_width as int)
    &&& str_of(field_in(d, "alignment"@)) == Some(t.alignment@)
}

pub open spec fn logging_ok(d: Option<Doc>) -> bool {
    &&& str_of(field_in(d, "base_dir"@)) is Some
    &&& str_of(field_in(d, "path_structure"@)) is Some
    &&& str_of(field_in(d, "filename_structure"@)) is Some
    &&& str_of(field_in(d, "timestamp_format"@)) is Some
    &&& bool_of(field_in(d, "write_by_default"@)) is Some
    &&& opt_str(field_in(d, "app_name"@)) is Some
}

pub open spec fn logging_matches(l: LoggingConfig, d: Option<Doc>) -> bool {
    &&& str_of(field_in(d, "base_dir"@)) == Some(l.base_dir@)
    &&& str_of(field_in(d, "path_structure"@)) == Some(l.path_structure@)
    &&& str_of(field_in(d, "filename_structure"@)) == Some(l.filename_structure@)
    &&& str_of(field_in(d, "timestamp_format"@)) == Some(l.timestamp_format@)
    &&& bool_of(field_in(d, "write_by_default"@)) == Some(l.write_by_default)
    &&& l.app_name@ == match opt_str(field_in(d, "app_name"@)) {
        Some(Some(a)) => a,
        _ => "kitchn"@,
    }
}

pub open spec fn layout_ok(d: Doc) -> bool {
    &&& tag_ok(field(d, "tag"@))
    &&& str_table(field(d, "labels"@)) is Some
    &&& str_of(field_in(field(d, "structure"@), "terminal"@)) is Some
    &&& str_of(field_in(field(d, "structure"@), "file"@)) is Some
    &&& logging_ok(field(d, "logging"@))
    &&& str_list(field(d, "include"@)) is Some
}

pub open spec fn layout_matches(c: LayoutConfig, d: Doc) -> bool {
    &&& tag_matches(c.tag, field(d, "tag"@))
    &&& str_table(field(d, "labels"@)) == Some(strings(c.labels))
    &&& str_of(field_in(field(d, "structure"@), "terminal"@)) == Some(c.structure.terminal@)
    &&& str_of(field_in(field(d, "structure"@), "file"@)) == Some(c.structure.file@)
    &&& logging_matches(c.logging, field(d, "logging"@))
    &&& str_list(field(d, "include"@)) == Some(list_view(c.includes))
}

/// The model of a preset: level, scope and message.
pub open spec fn preset_view(p: Preset) -> (Seq<char>, Option<Seq<char>>, Seq<char>) {
    (
        p.level@,
        match p.scope {
            Some(s) => Some(s@),
            None => None,
        },
        p.msg@,
    )
}

/// The preset that a document holds, if it holds one.
pub open spec fn preset_of(d: Doc) -> Option<(Seq<char>, Option<Seq<char>>, Seq<char>)> {
    if str_of(field(d, "level"@)) is Some && opt_str(field(d, "scope"@)) is Some && str_of(
        field(d, "msg"@),
    ) is Some {
        Some(
            (
                str_of(field(d, "level"@))->Some_0,
                opt_str(field(d, "scope"@))->Some_0,
                str_of(field(d, "msg"@))->Some_0,
            ),
        )
    } else {
        None
    }
}

pub open spec fn preset_map(es: Seq<(Seq<char>, Doc)>) -> Map<
    Seq<char>,
    (Seq<char>, Option<Seq<char>>, Seq<char>),
>
    decreases es.len(),
{
    if es.len() == 0 {
        Map::empty()
    } else {
        preset_map(es.drop_last()).insert(es.last().0, preset_of(es.last().1)->Some_0)
    }
}

/// The presets that `d` holds, if it is a table of presets.
pub open spec fn preset_table(d: Option<Doc>) -> Option<
    Map<Seq<char>, (Seq<char>, Option<Seq<char>>, Seq<char>)>,
> {
    match d {
        Some(Doc::Table(es)) => if forall|i: int|
            0 <= i < es.len() ==> preset_of((#[trigger] es[i]).1) is Some {
            Some(preset_map(es))
        } else {
            None
        },
        _ => None,
    }
}

pub open spec fn presets_view(m: Dict<Preset>) -> Map<
    Seq<char>,
    (Seq<char>, Option<Seq<char>>, Seq<char>),
> {
    m@.map_values(|p: Preset| preset_view(p))
}

pub open spec fn dictionary_ok(d: Doc) -> bool {
    &&& preset_table(field(d, "presets"@)) is Some
    &&& str_list(field(d, "include"@)) is Some
}

pub open spec fn dictionary_matches(c: DictionaryConfig, d: Doc) -> bool {
    &&& preset_table(field(d, "presets"@)) == Some(presets_view(c.presets))
    &&& str_list(field(d, "include"@)) == Some(list_view(c.includes))
}

fn preset(d: &Document) -> (r: Result<Preset, ConfigError>)
    ensures
        match r {
            Ok(p) => preset_of(d@) == Some(preset_view(p)),
            Err(e) => preset_of(d@) is None && e is Field,
        },
{
    let level = text(get(d, "level"), "presets.level")?;
    let scope = optional_text(get(d, "scope"), "presets.scope")?;
    let msg = text(get(d, "msg"), "presets.msg")?;
    Ok(Preset { level, scope, msg })
}

fn preset_dict(d: Option<&Document>, key: &str) -> (r: Result<Dict<Preset>, ConfigError>)
    ensures
        match r {
            Ok(m) => preset_table(opt_view(d)) == Some(presets_view(m)),
            Err(e) => preset_table(opt_view(d)) is None && e is Field,
        },
{
    match d {
        Some(Document::Table(es)) => {
            let ghost ev = entries_view(es@);
            proof {
                lemma_entries_view(es@);
            }
            let mut out: Dict<Preset> = Dict::new();
            let mut i: usize = 0;
            while i < es.len()
                invariant
                    i <= es.len(),
                    ev == entries_view(es@),
                    opt_view(d) == Some(Doc::Table(ev)),
                    ev.len() == es@.len(),
                    forall|j: int| 0 <= j < es@.len() ==> #[trigger] ev[j] == (es@[j].0@, es@[j].1@),
                    forall|j: int| 0 <= j < i ==> preset_of((#[trigger] ev[j]).1) is Some,
                    presets_view(out) == preset_map(ev.take(i as int)),
                decreases es.len() - i,
            {
                proof {
                    assert(ev.take(i + 1).drop_last() =~= ev.take(i as int));
                }
                let p = match preset(&es[i].1) {
                    Ok(p) => p,
                    Err(e) => {
                        proof {
                            assert(preset_of(ev[i as int].1) is None);
                        }
                        return Err(e);
                    },
                };
                out.insert(es[i].0.clone(), p);
                proof {
                    assert(presets_view(out) =~= preset_map(ev.take(i + 1)));
                }
                i += 1;
            }
            proof {
                assert(ev.take(i as int) =~= ev);
            }
            Ok(out)
        },
        _ => Err(ConfigError::Field(key.to_owned())),
    }
}

impl ThemeConfig {
    /// Reads a theme from its merged document.
    pub fn from_document(d: &Document) -> (r: Result<ThemeConfig, ConfigError>)
        ensures
            r is Ok <==> theme_ok(d@),
            r matches Ok(t) ==> theme_matches(t, d@),
            r matches Err(e) ==> e is Field,
    {
        let meta = get(d, "meta");
        let settings = get(d, "settings");
        let name = text(get_in(meta, "name"), "meta.name")?;
        let active_icons = text(get_in(settings, "active_icons"), "settings.active_icons")?;
        let colors = text_table(get(d, "colors"), "colors")?;
        let fonts = text_table(get(d, "fonts"), "fonts")?;
        let includes = text_list(get(d, "include"), "include")?;
        Ok(
            ThemeConfig {
                meta: ThemeMeta { name },
                settings: ThemeSettings { active_icons },
                colors,
                fonts,
                includes,
            },
        )
    }
}

impl IconsConfig {
    /// Reads the icon sets from their merged document.
    pub fn from_document(d: &Document) -> (r: Result<IconsConfig, ConfigError>)
        ensures
            r is Ok <==> icons_ok(d@),
            r matches Ok(c) ==> icons_match(c, d@),
            r matches Err(e) ==> e is Field,
    {
        let nerdfont = text_table(get(d, "nerdfont"), "nerdfont")?;
        let ascii = text_table(get(d, "ascii"), "ascii")?;
        let includes = text_list(get(d, "include"), "include")?;
        Ok(IconsConfig { nerdfont, ascii, includes })
    }
}

impl LayoutConfig {
    /// Reads the layout from its merged document; a missing application
    /// name defaults to `default_app_name()`.
    pub fn from_document(d: &Document) -> (r: Result<LayoutConfig, ConfigError>)
        ensures
            r is Ok <==> layout_ok(d@),
            r matches Ok(c) ==> layout_matches(c, d@),
            r matches Err(e) ==> e is Field,
    {
        let tag = get(d, "tag");
        let prefix = text(get_in(tag, "prefix"), "tag.prefix")?;
        let suffix = text(get_in(tag, "suffix"), "tag.suffix")?;
        let transform = text(get_in(tag, "transform"), "tag.transform")?;
        let min_width = size(get_in(tag, "min_width"), "tag.min_width")?;
        let alignment = text(get_in(tag, "alignment"), "tag.alignment")?;
        let labels = text_table(get(d, "labels"), "labels")?;
        let structure = get(d, "structure");
        let terminal = text(get_in(structure, "terminal"), "structure.terminal")?;
        let file = text(get_in(structure, "file"), "structure.file")?;
        let logging = get(d, "logging");
        let base_dir = text(get_in(logging, "base_dir"), "logging.base_dir")?;
        let path_structure = text(get_in(logging, "path_structure"), "logging.path_structure")?;
        let filename_structure = text(
            get_in(logging, "filename_structure"),
            "logging.filename_structure",
        )?;
        let timestamp_format = text(
            get_in(logging, "timestamp_format"),
            "logging.timestamp_format",
        )?;
        let write_by_default = flag(
            get_in(logging, "write_by_default"),
            "logging.write_by_default",
        )?;
        let app_name = match optional_text(get_in(logging, "app_name"), "logging.app_name")? {
            Some(a) => a,
            None => default_app_name(),
        };
        let includes = text_list(get(d, "include"), "include")?;
        Ok(
            LayoutConfig {
                tag: TagConfig { prefix, suffix, transform, min_width, alignment },
                labels,
                structure: StructureConfig { terminal, file },
                logging: LoggingConfig {
                    base_dir,
                    path_structure,
                    filename_structure,
                    timestamp_format,
                    write_by_default,
                    app_name,
                },
                includes,
            },
        )
    }
}

impl DictionaryConfig {
    /// Reads a preset dictionary from its merged document.
    pub fn from_document(d: &Document) -> (r: Result<DictionaryConfig, ConfigError>)
        ensures
            r is Ok <==> dictionary_ok(d@),
            r matches Ok(c) ==> dictionary_matches(c, d@),
            r matches Err(e) ==> e is Field,
    {
        let presets = preset_dict(get(d, "presets"), "presets")?;
        let includes = text_list(get(d, "include"), "include")?;
        Ok(DictionaryConfig { presets, includes })
    }
}


/// The include list of a dictionary overlaid on another: the two lists
/// joined, base first.
pub open spec fn joined(base: Option<Seq<Seq<char>>>, user: Option<Seq<Seq<char>>>) -> Option<
    Seq<Seq<char>>,
> {
    match (base, user) {
        (Some(a), Some(b)) => Some(a + b),
        (None, Some(b)) => Some(b),
        (a, None) => a,
    }
}

impl DictionaryConfig {
    /// Overlays `user` on these presets: a preset of `user` replaces the one
    /// of the same name or is added; `user`'s include list is appended.
    pub fn overlay(&mut self, user: DictionaryConfig)
        ensures
            presets_view(final(self).presets) == presets_view(old(self).presets).union_prefer_right(
                presets_view(user.presets),
            ),
            list_view(final(self).includes) == joined(
                list_view(old(self).includes),
                list_view(user.includes),
            ),
    {
        let DictionaryConfig { presets, includes } = user;
        let ghost base = presets_view(self.presets);
        let ghost es0 = presets.items();
        let mut rest = presets.into_entries();
        let ghost mut n: int = 0;
        proof {
            assert(es0.take(0) =~= Seq::<(String, Preset)>::empty());
            assert(presets_view(self.presets) =~= base.union_prefer_right(
                map_of(es0.take(0)).map_values(|p: Preset| preset_view(p)),
            ));
        }
        while rest.len() > 0
            invariant
                0 <= n <= es0.len(),
                rest@ == es0.skip(n),
                self.includes == old(self).includes,
                presets_view(self.presets) == base.union_prefer_right(
                    map_of(es0.take(n)).map_values(|p: Preset| preset_view(p)),
                ),
            decreases rest.len(),
        {
            let (k, p) = rest.remove(0);
            let ghost kv = k@;
            let ghost pv = preset_view(p);
            let ghost before = presets_view(self.presets);
            proof {
                assert(es0[n] == (k, p));
                assert(es0.take(n + 1).drop_last() =~= es0.take(n));
                assert(map_of(es0.take(n + 1)) == map_of(es0.take(n)).insert(kv, p));
            }
            self.presets.insert(k, p);
            proof {
                let x = map_of(es0.take(n)).map_values(|p: Preset| preset_view(p));
                assert(presets_view(self.presets) =~= before.insert(kv, pv));
                assert(map_of(es0.take(n + 1)).map_values(|p: Preset| preset_view(p)) =~= x.insert(
                    kv,
                    pv,
                ));
                assert(base.union_prefer_right(x.insert(kv, pv)) =~= base.union_prefer_right(
                    x,
                ).insert(kv, pv));
                n = n + 1;
                assert(rest@ =~= es0.skip(n));
                assert(presets_view(self.presets) =~= base.union_prefer_right(
                    map_of(es0.take(n)).map_values(|p: Preset| preset_view(p)),
                ));
            }
        }
        proof {
            assert(es0.take(n) =~= es0);
        }
        let ghost old_includes = list_view(self.includes);
        match includes {
            Some(extra) => {
                match &mut self.includes {
                    Some(list) => {
                        let ghost l0 = list@;
                        let mut more = extra;
                        list.append(&mut more);
                        proof {
                            assert(list@.map_values(|s: String| s@) =~= l0.map_values(
                                |s: String| s@,
                            ) + extra@.map_values(|s: String| s@));
                        }
                    },
                    None => {
                        self.includes = Some(extra);
                    },
                }
            },
            None => {},
        }
    }
}

/// The preset dictionary compiled into the library; a user dictionary is
/// overlaid on it.
pub const DEFAULT_DICTIONARY: &'static str = "[presets.hook_run]
level = \"secondary\"
scope = \"HOOK\"
msg = \"running hooks\"

[presets.hook_ok]
level = \"success\"
scope = \"HOOK\"
msg = \"hooks executed\"

[presets.hook_fail]
level = \"error\"
scope = \"HOOK\"
msg = \"hooks failed\"

[presets.cook_empty]
level = \"warn\"
scope = \"COOK\"
msg = \"the pantry is empty, nothing to cook\"

[presets.cook_start]
level = \"info\"
scope = \"COOK\"
msg = \"simmering\"

[presets.cook_skip]
level = \"secondary\"
scope = \"COOK\"
msg = \"skipping ignored ingredient\"

[presets.cook_ok]
level = \"success\"
scope = \"COOK\"
msg = \"cooking done\"

[presets.stock_ok]
level = \"success\"
scope = \"STOCK\"
msg = \"ingredient stocked\"

[presets.wrap_ok]
level = \"success\"
scope = \"WRAP\"
msg = \"package wrapped\"

[presets.pantry_empty]
level = \"info\"
scope = \"PANTRY\"
msg = \"the pantry is empty\"

[presets.pantry_clean_ok]
level = \"success\"
scope = \"PANTRY\"
msg = \"pantry cleaned\"

[presets.bake_ok]
level = \"success\"
scope = \"BAKE\"
msg = \"cookbook baked\"
";

/// The merged documents of a configuration directory: theme, icons and
/// layout, and the user's preset dictionary when there is one.
pub struct ConfigDocs {
    pub theme: Document,
    pub icons: Document,
    pub layout: Document,
    pub dictionary: Option<Document>,
}

/// Whether the compiled-in dictionary reads as a dictionary.
pub open spec fn defaults_ok() -> bool {
    toml_document(DEFAULT_DICTIONARY@) matches Some(d) && dictionary_ok(d)
}

/// Whether the documents make a whole configuration.
pub open spec fn cookbook_ok(docs: ConfigDocs) -> bool {
    &&& theme_ok(docs.theme@)
    &&& icons_ok(docs.icons@)
    &&& layout_ok(docs.layout@)
    &&& defaults_ok()
    &&& (docs.dictionary matches Some(u) ==> dictionary_ok(u@))
}

/// Whether `c` holds what the documents give: each section read from its
/// document, and as dictionary the compiled-in presets with the user's
/// overlaid and the include lists joined.
pub open spec fn cookbook_matches(c: Cookbook, docs: ConfigDocs) -> bool {
    &&& theme_matches(c.theme, docs.theme@)
    &&& icons_match(c.icons, docs.icons@)
    &&& layout_matches(c.layout, docs.layout@)
    &&& toml_document(DEFAULT_DICTIONARY@) matches Some(base) && match docs.dictionary {
        None => dictionary_matches(c.dictionary, base),
        Some(u) => {
            &&& preset_table(field(base, "presets"@)) matches Some(bp) && preset_table(
                field(u@, "presets"@),
            ) matches Some(up) && presets_view(c.dictionary.presets) == bp.union_prefer_right(up)
            &&& str_list(field(base, "include"@)) matches Some(bi) && str_list(
                field(u@, "include"@),
            ) matches Some(ui) && list_view(c.dictionary.includes) == joined(bi, ui)
        },
    }
}

impl Cookbook {
    /// Loads the configuration without the cache: builds it from the merged
    /// documents of the configuration directory, each section from its
    /// document, and the dictionary as the compiled-in presets with the
    /// user's overlaid.
    pub fn load_no_cache(docs: &ConfigDocs) -> (r: Result<Cookbook, ConfigError>)
        ensures
            r is Ok <==> cookbook_ok(*docs),
            r matches Ok(c) ==> cookbook_matches(c, *docs),
    {
        let theme = ThemeConfig::from_document(&docs.theme)?;
        let icons = IconsConfig::from_document(&docs.icons)?;
        let layout = LayoutConfig::from_document(&docs.layout)?;
        let base = parse_document(DEFAULT_DICTIONARY, "defaults")?;
        let mut dictionary = DictionaryConfig::from_document(&base)?;
        match &docs.dictionary {
            Some(u) => {
                let user = DictionaryConfig::from_document(u)?;
                dictionary.overlay(user);
            },
            None => {},
        }
        Ok(Cookbook { theme, icons, layout, dictionary })
    }
}

/// What the loader of a configuration is told.
pub enum LoadEvent {
    /// Loading begins; `force` bypasses the cache.
    Start { force: bool },
    /// The cache was probed: the configuration decoded from it when it was
    /// fresh and decoded, `None` otherwise (a miss, never a failure).
    Cache(Option<Cookbook>),
    /// The merged documents of the configuration directory were read.
    Documents(ConfigDocs),
}

/// What the loader asks for next.
pub enum LoadStep {
    /// Probe the cache, then report `LoadEvent::Cache`.
    ReadCache,
    /// Read and merge the documents, then report `LoadEvent::Documents`.
    ReadDocuments,
    /// Loading is over.
    Done(Result<Cookbook, ConfigError>),
}

impl Cookbook {
    /// One step of loading a configuration, from the default directory or an
    /// explicit one: the cache is preferred unless loading is forced, a
    /// fresh decoded cache is returned as it is, and a cache miss falls back
    /// to the documents (`load_no_cache`).
    pub fn load(event: LoadEvent) -> (r: LoadStep)
        ensures
            match event {
                LoadEvent::Start { force } => if force {
                    r is ReadDocuments
                } else {
                    r is ReadCache
                },
                LoadEvent::Cache(None) => r is ReadDocuments,
                LoadEvent::Cache(Some(c)) => r == LoadStep::Done(Ok(c)),
                LoadEvent::Documents(docs) => r matches LoadStep::Done(res) && (res is Ok
                    <==> cookbook_ok(docs)) && (res matches Ok(c) ==> cookbook_matches(c, docs)),
            },
    {
        match event {
            LoadEvent::Start { force } => if force {
                LoadStep::ReadDocuments
            } else {
                LoadStep::ReadCache
            },
            LoadEvent::Cache(Some(c)) => LoadStep::Done(Ok(c)),
            LoadEvent::Cache(None) => LoadStep::ReadDocuments,
            LoadEvent::Documents(docs) => LoadStep::Done(Cookbook::load_no_cache(&docs)),
        }
    }
}

/// A cache written at `cache` (`None`: there is no cache) is fresh when the
/// running executable is not newer and no existing source document is newer.
pub open spec fn cache_fresh(cache: Option<u128>, executable: Option<u128>, sources: Seq<Option<u128>>) -> bool {
    match cache {
        None => false,
        Some(c) => {
            &&& !(executable matches Some(e) && e > c)
            &&& forall|i: int| 0 <= i < sources.len() ==> (#[trigger] sources[i] matches Some(t) ==> t <= c)
        },
    }
}

/// Whether the cache is fresh, from modification times in nanoseconds: of
/// the cache, of the running executable when it is known, and of each
/// source document (`None` where the document does not exist).
pub fn is_cache_fresh(cache: Option<u128>, executable: Option<u128>, sources: &Vec<Option<u128>>) -> (r: bool)
    ensures
        r == cache_fresh(cache, executable, sources@),
{
    let c = match cache {
        None => return false,
        Some(c) => c,
    };
    if let Some(e) = executable {
        if e > c {
            return false;
        }
    }
    let mut i: usize = 0;
    while i < sources.len()
        invariant
            i <= sources@.len(),
            cache == Some(c),
            !(executable matches Some(e) && e > c),
            forall|j: int| 0 <= j < i ==> (#[trigger] sources@[j] matches Some(t) ==> t <= c),
        decreases sources.len() - i,
    {
        if let Some(t) = sources[i] {
            if t > c {
                return false;
            }
        }
        i += 1;
    }
    true
}

/// A cache newer than the executable and than every existing source
/// document is fresh.
pub proof fn lemma_newer_cache_is_fresh(c: u128, executable: Option<u128>, sources: Seq<Option<u128>>)
    requires
        executable matches Some(e) ==> e <= c,
        forall|i: int| 0 <= i < sources.len() ==> (#[trigger] sources[i] matches Some(t) ==> t <= c),
    ensures
        cache_fresh(Some(c), executable, sources),
{
}

/// Touching a source document, so that it is newer than the cache, makes
/// the cache stale.
pub proof fn lemma_touch_makes_stale(
    cache: Option<u128>,
    executable: Option<u128>,
    sources: Seq<Option<u128>>,
    i: int,
    t: u128,
)
    requires
        0 <= i < sources.len(),
        cache matches Some(c) && t > c,
    ensures
        !cache_fresh(cache, executable, sources.update(i, Some(t))),
{
    assert(sources.update(i, Some(t))[i] == Some(t));
}

/// Deleting a source document does not make a fresh cache stale.
pub proof fn lemma_delete_keeps_fresh(
    cache: Option<u128>,
    executable: Option<u128>,
    sources: Seq<Option<u128>>,
    i: int,
)
    requires
        0 <= i < sources.len(),
        cache_fresh(cache, executable, sources),
    ensures
        cache_fresh(cache, executable, sources.update(i, None)),
{
    let s2 = sources.update(i, None);
    assert forall|j: int| 0 <= j < s2.len() implies (#[trigger] s2[j] matches Some(t) ==> t <= cache->Some_0) by {
        if j != i {
            assert(s2[j] == sources[j]);
        }
    }
}

/// Which of the two icon sets the theme selects.
#[derive(Debug, Clone, Copy, PartialEq, Eq)]
pub enum IconSet {
    Nerdfont,
    Ascii,
}

impl IconSet {
    /// `"nerdfont"` selects the nerdfont set; anything else the ascii one.
    pub fn from_selector(selector: &str) -> (r: IconSet)
        ensures
            r == (if selector@ == "nerdfont"@ {
                IconSet::Nerdfont
            } else {
                IconSet::Ascii
            }),
    {
        if selector.to_owned() == "nerdfont".to_owned() {
            IconSet::Nerdfont
        } else {
            IconSet::Ascii
        }
    }
}

impl Cookbook {
    /// The icon set that the theme selects.
    pub fn icon_set(&self) -> (r: IconSet)
        ensures
            r == (if self.theme.settings.active_icons@ == "nerdfont"@ {
                IconSet::Nerdfont
            } else {
                IconSet::Ascii
            }),
    {
        IconSet::from_selector(self.theme.settings.active_icons.as_str())
    }

    /// The icons of the selected set.
    pub fn active_icons(&self) -> (r: &Dict<String>)
        ensures
            *r == (if self.theme.settings.active_icons@ == "nerdfont"@ {
                self.icons.nerdfont
            } else {
                self.icons.ascii
            }),
    {
        match self.icon_set() {
            IconSet::Nerdfont => &self.icons.nerdfont,
            IconSet::Ascii => &self.icons.ascii,
        }
    }
}

} // verus!
