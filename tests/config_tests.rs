use kitchn::config::{
    default_app_name, is_cache_fresh, ConfigDocs, ConfigError, Cookbook, IconSet, LoadEvent,
    LoadStep,
};
use kitchn::context::{hex_to_rgb, RenderError, TemplateContext};
use kitchn::parse::parse_document;

const THEME: &str = "[meta]\nname = \"night\"\n[settings]\nactive_icons = \"nerdfont\"\n[colors]\nfg = \"#ffffff\"\nerror = \"#ff0000\"\n[fonts]\nmono = \"Iosevka\"\n";
const ICONS: &str = "[nerdfont]\ninfo = \"N\"\n[ascii]\ninfo = \"i\"\n";
const LAYOUT: &str = "[tag]\nprefix = \"[\"\nsuffix = \"]\"\ntransform = \"uppercase\"\nmin_width = 7\nalignment = \"center\"\n[labels]\nerror = \"err\"\n[structure]\nterminal = \"{tag} {msg}\"\nfile = \"{msg}\"\n[logging]\nbase_dir = \"~/logs\"\npath_structure = \"{app}\"\nfilename_structure = \"log.txt\"\ntimestamp_format = \"%Y\"\nwrite_by_default = false\n";

fn docs(user: Option<&str>) -> ConfigDocs {
    ConfigDocs {
        theme: parse_document(THEME, "theme.toml").unwrap(),
        icons: parse_document(ICONS, "icons.toml").unwrap(),
        layout: parse_document(LAYOUT, "layout.toml").unwrap(),
        dictionary: user.map(|u| parse_document(u, "cookbook.toml").unwrap()),
    }
}

#[test]
fn load_from_documents() {
    let c = Cookbook::load_no_cache(&docs(None)).unwrap();
    assert_eq!(c.theme.meta.name, "night");
    assert_eq!(c.theme.colors.get("error").unwrap(), "#ff0000");
    assert_eq!(c.layout.tag.min_width, 7);
    assert_eq!(c.layout.logging.app_name, "kitchn");
    assert_eq!(default_app_name(), "kitchn");
    assert_eq!(c.dictionary.presets.get("hook_run").unwrap().msg, "running hooks");
    assert_eq!(c.icon_set(), IconSet::Nerdfont);
    assert_eq!(c.active_icons().get("info").unwrap(), "N");
}

#[test]
fn user_presets_overlay_defaults() {
    let user = "include = [\"extra.toml\"]\n[presets.hook_run]\nlevel = \"info\"\nmsg = \"go\"\n[presets.mine]\nlevel = \"warn\"\nscope = \"ME\"\nmsg = \"hi\"\n";
    let c = Cookbook::load_no_cache(&docs(Some(user))).unwrap();
    let run = c.dictionary.presets.get("hook_run").unwrap();
    assert_eq!(run.msg, "go");
    assert!(run.scope.is_none());
    assert_eq!(c.dictionary.presets.get("mine").unwrap().scope.as_deref(), Some("ME"));
    assert_eq!(c.dictionary.presets.get("hook_ok").unwrap().msg, "hooks executed");
    assert_eq!(c.dictionary.includes, Some(vec!["extra.toml".to_string()]));
}

#[test]
fn missing_field_fails() {
    let mut d = docs(None);
    d.theme = parse_document("[meta]\nname = \"n\"\n", "theme.toml").unwrap();
    assert_eq!(
        Cookbook::load_no_cache(&d).unwrap_err(),
        ConfigError::Field("settings.active_icons".to_string())
    );
    let mut d = docs(None);
    d.layout = parse_document(&LAYOUT.replace("min_width = 7", "min_width = -1"), "l").unwrap();
    assert!(matches!(Cookbook::load_no_cache(&d), Err(ConfigError::Field(_))));
}

#[test]
fn context_selects_icons() {
    let c = Cookbook::load_no_cache(&docs(None)).unwrap();
    let ctx = TemplateContext::new(&c);
    assert_eq!(ctx.icons.get("info").unwrap(), "N");
    assert_eq!(ctx.fonts.get("mono").unwrap(), "Iosevka");
    assert_eq!(ctx.colors.get("fg").unwrap(), "#ffffff");
    assert_eq!(IconSet::from_selector("ascii"), IconSet::Ascii);
    assert_eq!(IconSet::from_selector("other"), IconSet::Ascii);
}

#[test]
fn hex_to_rgb_values() {
    assert_eq!(hex_to_rgb("#ff0000").unwrap(), [255, 0, 0]);
    assert_eq!(hex_to_rgb("00ff00").unwrap(), [0, 255, 0]);
    assert_eq!(hex_to_rgb("#1A2b3C").unwrap(), [0x1a, 0x2b, 0x3c]);
    assert_eq!(
        hex_to_rgb("#fff").unwrap_err(),
        RenderError::InvalidHex("#fff".to_string())
    );
    assert!(hex_to_rgb("zz0000").is_err());
    assert!(hex_to_rgb("##ff0000").is_err());
    assert!(hex_to_rgb("+f0000").is_err());
}

#[test]
fn cache_freshness() {
    let sources = vec![Some(10u128), None, Some(20)];
    assert!(is_cache_fresh(Some(30), Some(5), &sources));
    assert!(!is_cache_fresh(None, Some(5), &sources));
    assert!(!is_cache_fresh(Some(30), Some(31), &sources));
    assert!(is_cache_fresh(Some(30), None, &sources));
    let touched = vec![Some(10u128), None, Some(40)];
    assert!(!is_cache_fresh(Some(30), Some(5), &touched));
    let deleted = vec![None, None, Some(20u128)];
    assert!(is_cache_fresh(Some(30), Some(5), &deleted));
}

#[test]
fn load_steps() {
    assert!(matches!(Cookbook::load(LoadEvent::Start { force: false }), LoadStep::ReadCache));
    assert!(matches!(Cookbook::load(LoadEvent::Start { force: true }), LoadStep::ReadDocuments));
    assert!(matches!(Cookbook::load(LoadEvent::Cache(None)), LoadStep::ReadDocuments));
    let c = Cookbook::load_no_cache(&docs(None)).unwrap();
    match Cookbook::load(LoadEvent::Cache(Some(c))) {
        LoadStep::Done(Ok(c)) => assert_eq!(c.theme.meta.name, "night"),
        _ => panic!("expected the cached configuration"),
    }
    match Cookbook::load(LoadEvent::Documents(docs(None))) {
        LoadStep::Done(Ok(c)) => assert_eq!(c.layout.tag.prefix, "["),
        _ => panic!("expected the configuration of the documents"),
    }
}

#[test]
fn include_cycle_is_detected() {
    let open = vec!["/c/theme.toml".to_string(), "/c/base.toml".to_string()];
    assert_eq!(
        kitchn::config::enter_document(&open, "/c/base.toml"),
        Err(ConfigError::Cycle("/c/base.toml".to_string()))
    );
    assert_eq!(kitchn::config::enter_document(&open, "/c/other.toml"), Ok(()));
}
