use yespanda::app::AppMsg;
use yespanda::config::{
    Config, ConfigFile, KeymapConfig, KeymapFile, PickerFile, SidebarConfig, ThemePreference,
    WindowConfig,
};
use yespanda::config::ColorScheme;
use yespanda::double::Double;
use yespanda::keymap::{
    count_leader, keymap_names, sidebar_bindings, window_bindings, window_chords,
};
use yespanda::keys::{
    chord_names, key_names, parse_binding, parse_chord, Key, KeyNames, ModifierType,
};
use yespanda::paths::FilePath;
use yespanda::toc::{sidebar_key, SidebarBindings, TocInput};

const NONE: ModifierType = ModifierType { bits: 0 };
const SHIFT: ModifierType = ModifierType { bits: 1 };
const CONTROL: ModifierType = ModifierType { bits: 4 };

fn key(value: char) -> Key {
    Key { value: value as u32 }
}

fn names() -> KeyNames {
    let mut names = KeyNames::new();
    for letter in ["j", "k", "h", "l", "g", "G", "n", "N", "e", "o"] {
        names.add(letter.to_string(), key(letter.chars().next().unwrap()));
    }
    names.add("plus".to_string(), key('+'));
    names.add("minus".to_string(), key('-'));
    names.add("slash".to_string(), key('/'));
    names.add("space".to_string(), key(' '));
    names
}

fn empty_keymap() -> KeymapFile {
    KeymapFile {
        scroll_down: None,
        scroll_up: None,
        scroll_left: None,
        scroll_right: None,
        scroll_top: None,
        scroll_bottom: None,
        search: None,
        search_next: None,
        search_prev: None,
        sidebar_toggle: None,
        sidebar_down: None,
        sidebar_up: None,
        sidebar_activate: None,
        sidebar_collapse: None,
        focus_sidebar: None,
        focus_pdf: None,
        zoom_in: None,
        zoom_out: None,
        pick_file: None,
        pick_file_chord: None,
    }
}

#[test]
fn parse_binding_defaults() {
    let names = names();
    let keymap = KeymapConfig::default();
    assert_eq!(parse_binding(&keymap.scroll_down, &names), Some((NONE, key('j'))));
    assert_eq!(parse_binding(&keymap.scroll_up, &names), Some((NONE, key('k'))));
    assert_eq!(parse_binding(&keymap.focus_sidebar, &names), Some((CONTROL, key('h'))));
    assert_eq!(parse_binding(&keymap.focus_pdf, &names), Some((CONTROL, key('l'))));
    assert_eq!(parse_binding(&keymap.zoom_in, &names), Some((CONTROL, key('+'))));
    assert_eq!(parse_binding(&keymap.zoom_out, &names), Some((CONTROL, key('-'))));
    assert_eq!(parse_binding(&keymap.sidebar_activate, &names), Some((NONE, key('l'))));
    assert_eq!(parse_binding(&keymap.scroll_bottom, &names), Some((SHIFT, key('G'))));
    // The scroll_top chord must split into two valid key names.
    assert_eq!(chord_names(&keymap.scroll_top), vec!["g", "g"]);
    assert_eq!(keymap.scroll_top.split_whitespace().count(), 2);
    assert_eq!(parse_chord(&keymap.scroll_top, &names), Some((key('g'), key('g'))));
    // Search bindings: `/` opens, `n` next, Shift+N previous.
    assert_eq!(parse_binding(&keymap.search, &names), Some((NONE, key('/'))));
    assert_eq!(parse_binding(&keymap.search_next, &names), Some((NONE, key('n'))));
    assert_eq!(parse_binding(&keymap.search_prev, &names), Some((SHIFT, key('N'))));
    assert_eq!(parse_binding("bogus_key", &names), None);
    assert_eq!(parse_binding("", &names), None);
}

#[test]
fn brackets_and_case_of_modifiers_do_not_matter() {
    let names = names();
    assert_eq!(parse_binding("<Primary>plus", &names), Some((CONTROL, key('+'))));
    assert_eq!(parse_binding("<CTRL> <shift> j", &names), Some((ModifierType { bits: 5 }, key('j'))));
    assert_eq!(parse_binding("option j", &names), Some((ModifierType { bits: 8 }, key('j'))));
    assert_eq!(parse_binding("cmd j", &names), Some((ModifierType { bits: 0x400_0000 }, key('j'))));
    assert_eq!(parse_binding("<ctrl><shift>j", &names), Some((ModifierType { bits: 5 }, key('j'))));
    assert_eq!(parse_binding("<j>", &names), Some((NONE, key('j'))));
    assert_eq!(parse_binding("<<ctrl>> <<j", &names), Some((CONTROL, key('j'))));
    // Brackets inside any other word are part of a name that no key has.
    assert_eq!(parse_binding("j<k", &names), None);
    assert_eq!(parse_binding("<j>k", &names), None);
    assert_eq!(parse_binding("j<ctrl>", &names), None);
    assert_eq!(key_names("j<k"), vec!["j<k"]);
    assert_eq!(parse_binding("ctrl", &names), None);
    assert_eq!(parse_binding("SPACE", &names), Some((NONE, key(' '))));
}

#[test]
fn last_recognised_key_counts() {
    let names = names();
    assert_eq!(parse_binding("j k", &names), Some((NONE, key('k'))));
    assert_eq!(parse_binding("j bogus", &names), Some((NONE, key('j'))));
}

#[test]
fn symbol_stands_in_for_an_unknown_name() {
    let mut names = KeyNames::new();
    names.add("+".to_string(), key('+'));
    assert_eq!(parse_binding("ctrl Plus", &names), Some((CONTROL, key('+'))));
    assert_eq!(key_names("ctrl plus"), vec!["plus", "+"]);
}

#[test]
fn window_keys_of_the_usual_keymap() {
    let names = names();
    let keymap = KeymapConfig::default();
    let bindings = window_bindings(&keymap, &names);
    assert_eq!(bindings.len(), 13);
    assert_eq!(bindings[0], (AppMsg::ScrollDown, NONE, key('j')));
    assert_eq!(bindings[4], (AppMsg::ScrollBottom, SHIFT, key('G')));
    assert_eq!(bindings[12], (AppMsg::SearchPrev, SHIFT, key('N')));
    assert_eq!(
        window_chords(&keymap, &names),
        vec![
            (key(' '), key('e'), AppMsg::ToggleSidebar),
            (key(' '), key(' '), AppMsg::PickFile),
            (key('g'), key('g'), AppMsg::ScrollTop),
        ]
    );
    assert_eq!(count_leader(&keymap, &names), Some(key('g')));
}

#[test]
fn unknown_key_disables_its_binding() {
    let names = names();
    let mut keymap = KeymapConfig::default();
    keymap.scroll_down = "bogus".to_string();
    keymap.sidebar_toggle = "space".to_string();
    keymap.scroll_top = "".to_string();
    assert_eq!(window_bindings(&keymap, &names).len(), 12);
    assert_eq!(window_chords(&keymap, &names).len(), 1);
    assert_eq!(count_leader(&keymap, &names), None);
}

#[test]
fn keymap_names_are_those_looked_up() {
    let asked = keymap_names(&KeymapConfig::default());
    for name in ["j", "k", "h", "l", "G", "n", "N", "slash", "/", "plus", "+", "o", "space", "e", "g"] {
        assert!(asked.iter().any(|a| a == name), "{name} is not looked up");
    }
    assert!(!asked.iter().any(|a| a == "ctrl" || a == "shift"));
}

#[test]
fn sidebar_keys_of_the_usual_keymap() {
    let bindings = sidebar_bindings(&KeymapConfig::default(), &names());
    assert!(matches!(sidebar_key(bindings, key('j'), NONE), Some(TocInput::MoveCursor(1))));
    assert!(matches!(sidebar_key(bindings, key('k'), NONE), Some(TocInput::MoveCursor(-1))));
    assert!(matches!(sidebar_key(bindings, key('l'), NONE), Some(TocInput::Activate)));
    assert!(matches!(sidebar_key(bindings, key('h'), NONE), Some(TocInput::Collapse)));
    assert!(sidebar_key(bindings, key('h'), CONTROL).is_none());
    assert!(sidebar_key(SidebarBindings::default(), key('j'), NONE).is_none());
}

#[test]
fn missing_settings_are_the_usual_ones() {
    let config = Config::load(None);
    assert_eq!(config.window.width, 1100);
    assert_eq!(config.window.height, 760);
    assert!(!config.window.maximized);
    assert_eq!(f64::from_bits(config.sidebar.width_fraction.bits), 0.24);
    assert!(config.fit_width);
    assert_eq!(config.theme, ThemePreference::System);
    assert_eq!(config.picker.root, "~");
    assert_eq!(config.picker.width, 720);
    assert_eq!(config.picker.height, 520);
    assert_eq!(config.keymap.pick_file_chord, "space space");
    assert_eq!(config.last_file, None);
    let copy = config.clone();
    assert_eq!(copy.keymap.search_prev, config.keymap.search_prev);
    assert_eq!(copy.window.width, 1100);
    assert_eq!(copy.picker.root, "~");
    assert_eq!(copy.sidebar.width_fraction, config.sidebar.width_fraction);
}

#[test]
fn settings_file_fills_in_what_it_lacks() {
    let mut keymap = empty_keymap();
    keymap.zoom_in = Some("ctrl equal".to_string());
    let config = Config::load(Some(ConfigFile {
        window: Some(WindowConfig { width: 10, height: 20, maximized: true }),
        sidebar: Some(SidebarConfig {
            width_fraction: Double { bits: (0.5f64).to_bits() },
            collapsed: true,
        }),
        fit_width: None,
        theme: Some(ThemePreference::Dark),
        keymap: Some(keymap),
        picker: Some(PickerFile { root: None, width: Some(300), height: None }),
        last_file: Some("/tmp/book.pdf".to_string()),
    }));
    assert_eq!(config.last_file, Some("/tmp/book.pdf".to_string()));
    assert_eq!(config.window.width, 10);
    assert!(config.sidebar.collapsed);
    assert!(!config.fit_width);
    assert_eq!(ColorScheme::from(config.theme), ColorScheme::ForceDark);
    assert_eq!(config.keymap.zoom_in, "ctrl equal");
    assert_eq!(config.keymap.zoom_out, "ctrl minus");
    assert_eq!(config.picker.root, "");
    assert_eq!(config.picker.width, 300);
    assert_eq!(config.picker.height, 520);
}

#[test]
fn theme_decides_the_colour_scheme() {
    assert_eq!(ColorScheme::from(ThemePreference::System), ColorScheme::Default);
    assert_eq!(ColorScheme::from(ThemePreference::Light), ColorScheme::ForceLight);
    assert_eq!(ColorScheme::from(ThemePreference::Dark), ColorScheme::ForceDark);
}

#[test]
fn settings_directory_follows_the_environment() {
    let xdg = || Some(FilePath::new("/cfg"));
    let home = || Some(FilePath::new("/home/me"));
    assert_eq!(Config::config_dir(xdg(), home()).text(), "/cfg/yespanda");
    assert_eq!(Config::config_dir(None, home()).text(), "/home/me/.config/yespanda");
    assert_eq!(Config::config_dir(None, None).text(), ".config/yespanda");
    // An empty or a relative value counts as unset.
    let unset = [Some(FilePath::new("")), Some(FilePath::new("cfg"))];
    for value in unset {
        assert_eq!(
            Config::config_dir(value, Some(FilePath::new("/h"))).text(),
            "/h/.config/yespanda"
        );
    }
    assert_eq!(Config::path(xdg(), None).text(), "/cfg/yespanda/config.toml");
}
