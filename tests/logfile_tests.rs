use kitchn::config::{
    Cookbook, DictionaryConfig, IconsConfig, LayoutConfig, LoggingConfig, StructureConfig,
    TagConfig, ThemeConfig, ThemeMeta, ThemeSettings,
};
use kitchn::dict::Dict;
use kitchn::logfile::{file_line, log_target, replace_all, LogDate};

fn create_mock_config() -> Cookbook {
    Cookbook {
        theme: ThemeConfig {
            meta: ThemeMeta { name: "Test".to_string() },
            settings: ThemeSettings { active_icons: "nerdfont".to_string() },
            colors: Dict::new(),
            fonts: Dict::new(),
            includes: None,
        },
        icons: IconsConfig { nerdfont: Dict::new(), ascii: Dict::new(), includes: None },
        layout: LayoutConfig {
            tag: TagConfig {
                prefix: "[".to_string(),
                suffix: "]".to_string(),
                transform: "uppercase".to_string(),
                min_width: 10,
                alignment: "center".to_string(),
            },
            labels: Dict::new(),
            structure: StructureConfig {
                terminal: "".to_string(),
                file: "{timestamp} {tag} {scope}: {msg}".to_string(),
            },
            logging: LoggingConfig {
                base_dir: "/var/log/k".to_string(),
                path_structure: "{app}/{scope}".to_string(),
                filename_structure: "log.txt".to_string(),
                timestamp_format: "%Y".to_string(),
                write_by_default: true,
                app_name: "default_app".to_string(),
            },
            includes: None,
        },
        dictionary: DictionaryConfig { presets: Dict::new(), includes: None },
    }
}

fn date() -> LogDate {
    LogDate { year: "2024".to_string(), month: "05".to_string(), day: "07".to_string() }
}

#[test]
fn test_log_to_file_default_app() {
    let config = create_mock_config();
    let t = log_target(&config, "info", "MAIN", None, &date(), None).unwrap();
    assert_eq!(t.base_dir, "/var/log/k");
    assert_eq!(t.rel_path, "default_app/MAIN");
    assert_eq!(t.filename, "log.txt");
}

#[test]
fn test_log_to_file_app_override() {
    let mut config = create_mock_config();
    config.layout.logging.base_dir = "~/logs~".to_string();
    config.layout.logging.filename_structure = "{level}-{year}{month}{day}-{app}.log".to_string();
    let t = log_target(&config, "info", "MAIN", Some("OverriddenApp"), &date(), Some("/home/u")).unwrap();
    assert_eq!(t.base_dir, "/home/u/logs/home/u");
    assert_eq!(t.rel_path, "OverriddenApp/MAIN");
    assert_eq!(t.filename, "info-20240507-OverriddenApp.log");
    assert!(log_target(&config, "info", "MAIN", None, &date(), None).is_err());
}

#[test]
fn log_line_is_filled() {
    let config = create_mock_config();
    let line = file_line(&config, "info", "MAIN", "test <bold>message</bold>", "2024");
    assert_eq!(line, "2024 [   INFO   ] MAIN: test message");
}

#[test]
fn replacement_scans_left_to_right() {
    assert_eq!(replace_all("aaa", "aa", "b"), "ba");
    assert_eq!(replace_all("x{a}y{a}", "{a}", ""), "xy");
    assert_eq!(replace_all("none", "zz", "q"), "none");
}

#[test]
fn replacement_of_empty_pattern() {
    assert_eq!(replace_all("abc", "", "x"), "xaxbxcx");
    assert_eq!(replace_all("", "", "x"), "x");
    assert_eq!(replace_all("abc", "", "x"), "abc".replace("", "x"));
}
