use kitchn::config::{
    Cookbook, DictionaryConfig, IconsConfig, LayoutConfig, LoggingConfig, StructureConfig,
    TagConfig, ThemeConfig, ThemeMeta, ThemeSettings,
};
use kitchn::dict::Dict;
use kitchn::factory::{ColorResolver, Rgb, TagFactory};

fn create_mock_config() -> Cookbook {
    let mut labels = Dict::new();
    labels.insert("error".to_string(), "Error".to_string());
    Cookbook {
        theme: ThemeConfig {
            meta: ThemeMeta {
                name: "Test".to_string(),
            },
            settings: ThemeSettings {
                active_icons: "nerdfont".to_string(),
            },
            colors: Dict::new(),
            fonts: Dict::new(),
            includes: None,
        },
        icons: IconsConfig {
            nerdfont: Dict::new(),
            ascii: Dict::new(),
            includes: None,
        },
        layout: LayoutConfig {
            tag: TagConfig {
                prefix: "[".to_string(),
                suffix: "]".to_string(),
                transform: "uppercase".to_string(),
                min_width: 10,
                alignment: "center".to_string(),
            },
            labels,
            structure: StructureConfig {
                terminal: "".to_string(),
                file: "".to_string(),
            },
            logging: LoggingConfig {
                base_dir: "".to_string(),
                path_structure: "".to_string(),
                filename_structure: "".to_string(),
                timestamp_format: "".to_string(),
                write_by_default: false,
                app_name: "kitchn".to_string(),
            },
            includes: None,
        },
        dictionary: DictionaryConfig {
            presets: Dict::new(),
            includes: None,
        },
    }
}

#[test]
fn test_tag_creation_uppercase() {
    let config = create_mock_config();
    let tag = TagFactory::create_tag(&config, "error");
    assert_eq!(tag, "[  ERROR   ]");
}

#[test]
fn test_tag_creation_lowercase() {
    let mut config = create_mock_config();
    config.layout.tag.transform = "lowercase".to_string();
    let tag = TagFactory::create_tag(&config, "error");
    assert_eq!(tag, "[  error   ]");
}

#[test]
fn test_tag_creation_capitalize() {
    let mut config = create_mock_config();
    config.layout.tag.transform = "capitalize".to_string();
    config
        .layout
        .labels
        .insert("error".to_string(), "error".to_string());
    let tag = TagFactory::create_tag(&config, "error");
    assert_eq!(tag, "[  Error   ]");
}

#[test]
fn test_tag_creation_none() {
    let mut config = create_mock_config();
    config.layout.tag.transform = "none".to_string();
    let tag = TagFactory::create_tag(&config, "error");
    assert_eq!(tag, "[  Error   ]");
}

#[test]
fn test_tag_padding_exact() {
    let mut config = create_mock_config();
    config.layout.tag.min_width = 5;
    let tag = TagFactory::create_tag(&config, "error");
    assert_eq!(tag, "[ERROR]");
}

#[test]
fn test_tag_padding_overflow() {
    let mut config = create_mock_config();
    config.layout.tag.min_width = 3;
    let tag = TagFactory::create_tag(&config, "error");
    assert_eq!(tag, "[ERROR]");
}

#[test]
fn tag_of_unlabelled_level_uses_the_level() {
    let config = create_mock_config();
    assert_eq!(TagFactory::create_tag(&config, "warn"), "[   WARN   ]");
}

#[test]
fn frame_centres_with_the_odd_space_right() {
    let config = create_mock_config();
    assert_eq!(TagFactory::frame(&config.layout.tag, "abc"), "[   abc    ]");
    assert_eq!(TagFactory::frame(&config.layout.tag, ""), "[          ]");
}

#[test]
fn capitalize_of_empty_label_is_empty() {
    let mut config = create_mock_config();
    config.layout.tag.transform = "capitalize".to_string();
    config.layout.tag.min_width = 0;
    config.layout.labels.insert("error".to_string(), "".to_string());
    assert_eq!(TagFactory::create_tag(&config, "error"), "[]");
}

#[test]
fn test_color_resolver_valid() {
    let color = ColorResolver::hex_to_color("#ff0000");
    assert_eq!(color.r, 255);
    assert_eq!(color.g, 0);
    assert_eq!(color.b, 0);

    let color = ColorResolver::hex_to_color("00ff00");
    assert_eq!(color.r, 0);
    assert_eq!(color.g, 255);
    assert_eq!(color.b, 0);

    let color = ColorResolver::hex_to_color("#0000ff");
    assert_eq!(color.r, 0);
    assert_eq!(color.g, 0);
    assert_eq!(color.b, 255);
}

#[test]
fn test_color_resolver_invalid() {
    let c = ColorResolver::hex_to_color("123");
    assert_eq!(c.r, 255);
    assert_eq!(c.g, 255);
    assert_eq!(c.b, 255);

    let c = ColorResolver::hex_to_color("gg0000");
    assert_eq!(c.r, 255);
}

#[test]
fn color_resolver_reads_each_pair() {
    assert_eq!(
        ColorResolver::hex_to_color("##12aB7f"),
        Rgb { r: 0x12, g: 0xab, b: 0x7f }
    );
    assert_eq!(
        ColorResolver::hex_to_color("gg0a0b"),
        Rgb { r: 255, g: 10, b: 11 }
    );
}
