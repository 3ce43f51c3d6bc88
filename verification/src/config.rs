//! Settings and where they are kept.
use vstd::prelude::*;
use vstd::utf8::{encode_utf8, is_ascii_chars, is_ascii_chars_encode_utf8};

use crate::double::Double;
use crate::paths::{
    joined, law_join_adds_the_names, law_segment_is_a_name, segments, FilePath, SLASH,
};

verus! {

/// The window as it was last left.
#[derive(Debug)]
pub struct WindowConfig {
    pub width: i32,
    pub height: i32,
    pub maximized: bool,
}

impl Clone for WindowConfig {
    fn clone(&self) -> (r: WindowConfig)
        ensures
            r == *self,
    {
        WindowConfig { width: self.width, height: self.height, maximized: self.maximized }
    }
}

impl Default for WindowConfig {
    fn default() -> (r: WindowConfig)
        ensures
            r == (WindowConfig { width: 1100, height: 760, maximized: false }),
    {
        WindowConfig { width: 1100, height: 760, maximized: false }
    }
}

/// The pattern of 0.24, the share of the window that the sidebar starts with.
pub const SIDEBAR_FRACTION: u64 = 0x3fce_b851_eb85_1eb8;

/// The sidebar as it was last left.
#[derive(Debug)]
pub struct SidebarConfig {
    pub width_fraction: Double,
    pub collapsed: bool,
}

impl Clone for SidebarConfig {
    fn clone(&self) -> (r: SidebarConfig)
        ensures
            r == *self,
    {
        SidebarConfig { width_fraction: self.width_fraction, collapsed: self.collapsed }
    }
}

impl Default for SidebarConfig {
    fn default() -> (r: SidebarConfig)
        ensures
            r.width_fraction.bits == SIDEBAR_FRACTION,
            !r.collapsed,
    {
        SidebarConfig { width_fraction: Double { bits: SIDEBAR_FRACTION }, collapsed: false }
    }
}

/// The width of the file picker in pixels, unless it is set.
pub fn picker_default_width() -> (r: i32)
    ensures
        r == 720,
{
    720
}

/// The height of the file picker in pixels, unless it is set.
pub fn picker_default_height() -> (r: i32)
    ensures
        r == 520,
{
    520
}

/// The file picker.
#[derive(Debug)]
pub struct PickerConfig {
    /// The directory that is searched for documents. A leading `~/` stands for
    /// the home directory; so does an empty root.
    pub root: String,
    /// Width of the picker in pixels.
    pub width: i32,
    /// Height of the picker in pixels.
    pub height: i32,
}

impl Clone for PickerConfig {
    fn clone(&self) -> (r: PickerConfig)
        ensures
            r == *self,
    {
        PickerConfig { root: self.root.clone(), width: self.width, height: self.height }
    }
}

impl Default for PickerConfig {
    fn default() -> (r: PickerConfig)
        ensures
            r.root@ == "~"@,
            r.width == 720,
            r.height == 520,
    {
        PickerConfig {
            root: "~".to_owned(),
            width: picker_default_width(),
            height: picker_default_height(),
        }
    }
}

/// The colours that the user asks for.
#[derive(Debug, Clone, Copy, PartialEq, Eq, Structural)]
pub enum ThemePreference {
    System,
    Light,
    Dark,
}

impl Default for ThemePreference {
    fn default() -> (r: ThemePreference)
        ensures
            r == ThemePreference::System,
    {
        ThemePreference::System
    }
}

/// The colour scheme that the toolkit is given.
#[derive(Debug, Clone, Copy, PartialEq, Eq, Structural)]
pub enum ColorScheme {
    Default,
    ForceLight,
    ForceDark,
}

impl From<ThemePreference> for ColorScheme {
    fn from(value: ThemePreference) -> (r: ColorScheme) {
        match value {
            ThemePreference::System => ColorScheme::Default,
            ThemePreference::Light => ColorScheme::ForceLight,
            ThemePreference::Dark => ColorScheme::ForceDark,
        }
    }
}

impl vstd::std_specs::convert::FromSpecImpl<ThemePreference> for ColorScheme {
    open spec fn obeys_from_spec() -> bool {
        true
    }

    open spec fn from_spec(value: ThemePreference) -> ColorScheme {
        match value {
            ThemePreference::System => ColorScheme::Default,
            ThemePreference::Light => ColorScheme::ForceLight,
            ThemePreference::Dark => ColorScheme::ForceDark,
        }
    }
}

/// Key bindings. Each value is a list of modifiers (`ctrl`, `shift`, `alt`,
/// `super`) followed by a key name (`j`, `space`, `plus`); a missing or unknown
/// key disables the binding. The values of `sidebar_toggle`, `scroll_top` and
/// `pick_file_chord` are two-key chords instead (`space e`), and the leader of
/// `scroll_top` is also the one of page numbers (`g 4 2 <Enter>`).
#[derive(Debug)]
pub struct KeymapConfig {
    pub scroll_down: String,
    pub scroll_up: String,
    pub scroll_left: String,
    pub scroll_right: String,
    /// Two-key chord that jumps to the start of the document.
    pub scroll_top: String,
    /// Jump to the end of the document.
    pub scroll_bottom: String,
    /// Open the search bar.
    pub search: String,
    /// Jump to the next match.
    pub search_next: String,
    /// Jump to the previous match.
    pub search_prev: String,
    /// Two-key chord that shows or hides the sidebar.
    pub sidebar_toggle: String,
    /// Move the cursor of the sidebar down.
    pub sidebar_down: String,
    /// Move the cursor of the sidebar up.
    pub sidebar_up: String,
    /// Open a leaf entry, or expand/collapse an entry with children.
    pub sidebar_activate: String,
    /// Collapse the entry under the cursor.
    pub sidebar_collapse: String,
    /// Move focus to the sidebar.
    pub focus_sidebar: String,
    /// Move focus to the document.
    pub focus_pdf: String,
    pub zoom_in: String,
    pub zoom_out: String,
    /// Open the file picker.
    pub pick_file: String,
    /// Two-key chord that opens the file picker.
    pub pick_file_chord: String,
}

impl Clone for KeymapConfig {
    fn clone(&self) -> (r: KeymapConfig)
        ensures
            r == *self,
    {
        KeymapConfig {
            scroll_down: self.scroll_down.clone(),
            scroll_up: self.scroll_up.clone(),
            scroll_left: self.scroll_left.clone(),
            scroll_right: self.scroll_right.clone(),
            scroll_top: self.scroll_top.clone(),
            scroll_bottom: self.scroll_bottom.clone(),
            search: self.search.clone(),
            search_next: self.search_next.clone(),
            search_prev: self.search_prev.clone(),
            sidebar_toggle: self.sidebar_toggle.clone(),
            sidebar_down: self.sidebar_down.clone(),
            sidebar_up: self.sidebar_up.clone(),
            sidebar_activate: self.sidebar_activate.clone(),
            sidebar_collapse: self.sidebar_collapse.clone(),
            focus_sidebar: self.focus_sidebar.clone(),
            focus_pdf: self.focus_pdf.clone(),
            zoom_in: self.zoom_in.clone(),
            zoom_out: self.zoom_out.clone(),
            pick_file: self.pick_file.clone(),
            pick_file_chord: self.pick_file_chord.clone(),
        }
    }
}

impl Default for KeymapConfig {
    fn default() -> (r: KeymapConfig)
        ensures
            is_usual_keymap(r),
    {
        KeymapConfig {
            scroll_down: "j".to_owned(),
            scroll_up: "k".to_owned(),
            scroll_left: "h".to_owned(),
            scroll_right: "l".to_owned(),
            scroll_top: "g g".to_owned(),
            scroll_bottom: "shift G".to_owned(),
            search: "slash".to_owned(),
            search_next: "n".to_owned(),
            search_prev: "shift N".to_owned(),
            sidebar_toggle: "space e".to_owned(),
            sidebar_down: "j".to_owned(),
            sidebar_up: "k".to_owned(),
            sidebar_activate: "l".to_owned(),
            sidebar_collapse: "h".to_owned(),
            focus_sidebar: "ctrl h".to_owned(),
            focus_pdf: "ctrl l".to_owned(),
            zoom_in: "ctrl plus".to_owned(),
            zoom_out: "ctrl minus".to_owned(),
            pick_file: "ctrl o".to_owned(),
            pick_file_chord: "space space".to_owned(),
        }
    }
}

/// The key bindings that a settings file holds; the others are missing.
#[derive(Debug)]
pub struct KeymapFile {
    pub scroll_down: Option<String>,
    pub scroll_up: Option<String>,
    pub scroll_left: Option<String>,
    pub scroll_right: Option<String>,
    pub scroll_top: Option<String>,
    pub scroll_bottom: Option<String>,
    pub search: Option<String>,
    pub search_next: Option<String>,
    pub search_prev: Option<String>,
    pub sidebar_toggle: Option<String>,
    pub sidebar_down: Option<String>,
    pub sidebar_up: Option<String>,
    pub sidebar_activate: Option<String>,
    pub sidebar_collapse: Option<String>,
    pub focus_sidebar: Option<String>,
    pub focus_pdf: Option<String>,
    pub zoom_in: Option<String>,
    pub zoom_out: Option<String>,
    pub pick_file: Option<String>,
    pub pick_file_chord: Option<String>,
}

/// The text of a value, or what it is when it is missing.
pub open spec fn text_or(value: Option<String>, missing: Seq<char>) -> Seq<char> {
    match value {
        Some(text) => text@,
        None => missing,
    }
}

fn or_text(value: Option<String>, missing: &str) -> (r: String)
    ensures
        r@ == text_or(value, missing@),
{
    match value {
        Some(text) => text,
        None => missing.to_owned(),
    }
}

impl KeymapConfig {
    /// The key bindings of a settings file, with the usual one for each that
    /// is missing.
    pub fn resolve(file: KeymapFile) -> (r: KeymapConfig)
        ensures
            is_keymap_of(r, file),
    {
        KeymapConfig {
            scroll_down: or_text(file.scroll_down, "j"),
            scroll_up: or_text(file.scroll_up, "k"),
            scroll_left: or_text(file.scroll_left, "h"),
            scroll_right: or_text(file.scroll_right, "l"),
            scroll_top: or_text(file.scroll_top, "g g"),
            scroll_bottom: or_text(file.scroll_bottom, "shift G"),
            search: or_text(file.search, "slash"),
            search_next: or_text(file.search_next, "n"),
            search_prev: or_text(file.search_prev, "shift N"),
            sidebar_toggle: or_text(file.sidebar_toggle, "space e"),
            sidebar_down: or_text(file.sidebar_down, "j"),
            sidebar_up: or_text(file.sidebar_up, "k"),
            sidebar_activate: or_text(file.sidebar_activate, "l"),
            sidebar_collapse: or_text(file.sidebar_collapse, "h"),
            focus_sidebar: or_text(file.focus_sidebar, "ctrl h"),
            focus_pdf: or_text(file.focus_pdf, "ctrl l"),
            zoom_in: or_text(file.zoom_in, "ctrl plus"),
            zoom_out: or_text(file.zoom_out, "ctrl minus"),
            pick_file: or_text(file.pick_file, "ctrl o"),
            pick_file_chord: or_text(file.pick_file_chord, "space space"),
        }
    }
}

/// The settings of the picker that a settings file holds.
#[derive(Debug)]
pub struct PickerFile {
    pub root: Option<String>,
    pub width: Option<i32>,
    pub height: Option<i32>,
}

/// What a settings file holds; the rest is missing.
#[derive(Debug)]
pub struct ConfigFile {
    pub window: Option<WindowConfig>,
    pub sidebar: Option<SidebarConfig>,
    pub fit_width: Option<bool>,
    pub theme: Option<ThemePreference>,
    pub keymap: Option<KeymapFile>,
    pub picker: Option<PickerFile>,
    pub last_file: Option<String>,
}

/// The user's settings.
#[derive(Debug)]
pub struct Config {
    pub window: WindowConfig,
    pub sidebar: SidebarConfig,
    /// Whether documents are fitted to the width of the window.
    pub fit_width: bool,
    pub theme: ThemePreference,
    pub keymap: KeymapConfig,
    pub picker: PickerConfig,
    /// The document that was opened last; it is opened again at the start.
    pub last_file: Option<String>,
}

impl Clone for Config {
    fn clone(&self) -> (r: Config)
        ensures
            r == *self,
    {
        Config {
            window: self.window.clone(),
            sidebar: self.sidebar.clone(),
            fit_width: self.fit_width,
            theme: self.theme,
            keymap: self.keymap.clone(),
            picker: self.picker.clone(),
            last_file: match &self.last_file {
                Some(text) => Some(text.clone()),
                None => None,
            },
        }
    }
}

/// The settings, with the last file as characters.
pub struct ConfigView {
    pub window: WindowConfig,
    pub sidebar: SidebarConfig,
    pub fit_width: bool,
    pub theme: ThemePreference,
    pub keymap: KeymapConfig,
    pub picker: PickerConfig,
    pub last_file: Option<Seq<char>>,
}

impl View for Config {
    type V = ConfigView;

    open spec fn view(&self) -> ConfigView {
        ConfigView {
            window: self.window,
            sidebar: self.sidebar,
            fit_width: self.fit_width,
            theme: self.theme,
            keymap: self.keymap,
            picker: self.picker,
            last_file: match self.last_file {
                Some(text) => Some(text@),
                None => None,
            },
        }
    }
}

/// Whether `k` holds the usual key bindings.
pub open spec fn is_usual_keymap(k: KeymapConfig) -> bool {
    &&& k.scroll_down@ == "j"@
    &&& k.scroll_up@ == "k"@
    &&& k.scroll_left@ == "h"@
    &&& k.scroll_right@ == "l"@
    &&& k.scroll_top@ == "g g"@
    &&& k.scroll_bottom@ == "shift G"@
    &&& k.search@ == "slash"@
    &&& k.search_next@ == "n"@
    &&& k.search_prev@ == "shift N"@
    &&& k.sidebar_toggle@ == "space e"@
    &&& k.sidebar_down@ == "j"@
    &&& k.sidebar_up@ == "k"@
    &&& k.sidebar_activate@ == "l"@
    &&& k.sidebar_collapse@ == "h"@
    &&& k.focus_sidebar@ == "ctrl h"@
    &&& k.focus_pdf@ == "ctrl l"@
    &&& k.zoom_in@ == "ctrl plus"@
    &&& k.zoom_out@ == "ctrl minus"@
    &&& k.pick_file@ == "ctrl o"@
    &&& k.pick_file_chord@ == "space space"@
}

/// Whether `k` holds the key bindings of `file`, and the usual ones where they
/// are missing.
pub open spec fn is_keymap_of(k: KeymapConfig, file: KeymapFile) -> bool {
    &&& k.scroll_down@ == text_or(file.scroll_down, "j"@)
    &&& k.scroll_up@ == text_or(file.scroll_up, "k"@)
    &&& k.scroll_left@ == text_or(file.scroll_left, "h"@)
    &&& k.scroll_right@ == text_or(file.scroll_right, "l"@)
    &&& k.scroll_top@ == text_or(file.scroll_top, "g g"@)
    &&& k.scroll_bottom@ == text_or(file.scroll_bottom, "shift G"@)
    &&& k.search@ == text_or(file.search, "slash"@)
    &&& k.search_next@ == text_or(file.search_next, "n"@)
    &&& k.search_prev@ == text_or(file.search_prev, "shift N"@)
    &&& k.sidebar_toggle@ == text_or(file.sidebar_toggle, "space e"@)
    &&& k.sidebar_down@ == text_or(file.sidebar_down, "j"@)
    &&& k.sidebar_up@ == text_or(file.sidebar_up, "k"@)
    &&& k.sidebar_activate@ == text_or(file.sidebar_activate, "l"@)
    &&& k.sidebar_collapse@ == text_or(file.sidebar_collapse, "h"@)
    &&& k.focus_sidebar@ == text_or(file.focus_sidebar, "ctrl h"@)
    &&& k.focus_pdf@ == text_or(file.focus_pdf, "ctrl l"@)
    &&& k.zoom_in@ == text_or(file.zoom_in, "ctrl plus"@)
    &&& k.zoom_out@ == text_or(file.zoom_out, "ctrl minus"@)
    &&& k.pick_file@ == text_or(file.pick_file, "ctrl o"@)
    &&& k.pick_file_chord@ == text_or(file.pick_file_chord, "space space"@)
}

/// Whether `c` holds the settings there are without a settings file.
pub open spec fn is_usual(c: Config) -> bool {
    &&& c.window == (WindowConfig { width: 1100, height: 760, maximized: false })
    &&& c.sidebar.width_fraction.bits == SIDEBAR_FRACTION
    &&& !c.sidebar.collapsed
    &&& c.fit_width
    &&& c.theme == ThemePreference::System
    &&& is_usual_keymap(c.keymap)
    &&& c.picker.root@ == "~"@
    &&& c.picker.width == 720
    &&& c.picker.height == 520
    &&& c.last_file is None
}

/// Whether `c` holds the settings of `file`. A missing table is as it usually
/// is, a missing key of the keymap or the picker too, except that the root of
/// a picker table is empty when it is missing; `fit_width` is off when it is
/// missing.
pub open spec fn is_config_of(c: Config, file: ConfigFile) -> bool {
    &&& c.window == (match file.window {
        Some(window) => window,
        None => WindowConfig { width: 1100, height: 760, maximized: false },
    })
    &&& match file.sidebar {
        Some(sidebar) => c.sidebar == sidebar,
        None => c.sidebar.width_fraction.bits == SIDEBAR_FRACTION && !c.sidebar.collapsed,
    }
    &&& c.fit_width == (file.fit_width == Some(true))
    &&& c.theme == (match file.theme {
        Some(theme) => theme,
        None => ThemePreference::System,
    })
    &&& match file.keymap {
        Some(keymap) => is_keymap_of(c.keymap, keymap),
        None => is_usual_keymap(c.keymap),
    }
    &&& match file.picker {
        Some(picker) => {
            &&& c.picker.root@ == text_or(picker.root, Seq::empty())
            &&& c.picker.width == (match picker.width {
                Some(width) => width,
                None => 720,
            })
            &&& c.picker.height == (match picker.height {
                Some(height) => height,
                None => 520,
            })
        },
        None => c.picker.root@ == "~"@ && c.picker.width == 720 && c.picker.height == 520,
    }
    &&& c.last_file == file.last_file
}

impl Default for Config {
    fn default() -> (r: Config)
        ensures
            is_usual(r),
    {
        Config {
            window: WindowConfig::default(),
            sidebar: SidebarConfig::default(),
            fit_width: true,
            theme: ThemePreference::System,
            keymap: KeymapConfig::default(),
            picker: PickerConfig::default(),
            last_file: None,
        }
    }
}

/// Whether the XDG base directory spec has a value of `XDG_CONFIG_HOME` count:
/// it is set, and neither empty nor a relative path.
pub open spec fn is_base_dir(xdg: Option<FilePath>) -> bool {
    xdg is Some && xdg->0@.len() > 0 && xdg->0@[0] == SLASH
}

/// The directory that settings go to, in the base directory for settings: the
/// value of `XDG_CONFIG_HOME` where it counts, or else `.config` in the home
/// directory.
pub open spec fn settings_dir(xdg: Option<FilePath>, home: Option<FilePath>) -> Seq<u8> {
    let base = if is_base_dir(xdg) {
        xdg->0@
    } else {
        joined(
            match home {
                Some(dir) => dir@,
                None => Seq::empty(),
            },
            encode_utf8(".config"@),
        )
    };
    joined(base, encode_utf8("yespanda"@))
}

impl Config {
    /// The directory for what the reader keeps (`$XDG_CONFIG_HOME/yespanda`),
    /// honouring the XDG base directory spec: a value that is empty or relative
    /// counts as unset. `xdg` and `home` are the values of `XDG_CONFIG_HOME`
    /// and `HOME`, where they are set.
    pub fn config_dir(xdg: Option<FilePath>, home: Option<FilePath>) -> (r: FilePath)
        ensures
            r@ == settings_dir(xdg, home),
    {
        if let Some(dir) = xdg {
            if dir.bytes.len() > 0 && dir.bytes[0] == SLASH {
                return dir.join("yespanda");
            }
        }
        let dir = match home {
            Some(dir) => dir,
            None => FilePath { bytes: Vec::new() },
        };
        dir.join(".config").join("yespanda")
    }

    /// The path of the settings file, honouring the XDG base directory spec.
    pub fn path(xdg: Option<FilePath>, home: Option<FilePath>) -> (r: FilePath)
        ensures
            r@ == joined(settings_dir(xdg, home), encode_utf8("config.toml"@)),
    {
        Config::config_dir(xdg, home).join("config.toml")
    }

    /// The settings of a settings file. A file that is missing or malformed is
    /// `None` and gives the usual settings.
    pub fn load(file: Option<ConfigFile>) -> (r: Config)
        ensures
            match file {
                Some(file) => is_config_of(r, file),
                None => is_usual(r),
            },
    {
        let file = match file {
            Some(file) => file,
            None => {
                return Config::default();
            },
        };
        Config {
            window: match file.window {
                Some(window) => window,
                None => WindowConfig::default(),
            },
            sidebar: match file.sidebar {
                Some(sidebar) => sidebar,
                None => SidebarConfig::default(),
            },
            fit_width: match file.fit_width {
                Some(on) => on,
                None => false,
            },
            theme: match file.theme {
                Some(theme) => theme,
                None => ThemePreference::System,
            },
            keymap: match file.keymap {
                Some(keymap) => KeymapConfig::resolve(keymap),
                None => KeymapConfig::default(),
            },
            picker: match file.picker {
                Some(picker) => PickerConfig {
                    root: match picker.root {
                        Some(root) => root,
                        None => String::new(),
                    },
                    width: match picker.width {
                        Some(width) => width,
                        None => picker_default_width(),
                    },
                    height: match picker.height {
                        Some(height) => height,
                        None => picker_default_height(),
                    },
                },
                None => PickerConfig::default(),
            },
            last_file: file.last_file,
        }
    }
}

/// A binding in the settings file is the one that counts, each for its own
/// action; one that is missing is as it is without a settings file.
pub proof fn law_file_bindings_count(k: KeymapConfig, file: KeymapFile, usual: KeymapConfig)
    requires
        is_keymap_of(k, file),
        is_usual_keymap(usual),
    ensures
        file.scroll_down matches Some(text) ==> k.scroll_down@ == text@,
        file.scroll_up matches Some(text) ==> k.scroll_up@ == text@,
        file.scroll_left matches Some(text) ==> k.scroll_left@ == text@,
        file.scroll_right matches Some(text) ==> k.scroll_right@ == text@,
        file.scroll_top matches Some(text) ==> k.scroll_top@ == text@,
        file.scroll_bottom matches Some(text) ==> k.scroll_bottom@ == text@,
        file.search matches Some(text) ==> k.search@ == text@,
        file.search_next matches Some(text) ==> k.search_next@ == text@,
        file.search_prev matches Some(text) ==> k.search_prev@ == text@,
        file.sidebar_toggle matches Some(text) ==> k.sidebar_toggle@ == text@,
        file.sidebar_down matches Some(text) ==> k.sidebar_down@ == text@,
        file.sidebar_up matches Some(text) ==> k.sidebar_up@ == text@,
        file.sidebar_activate matches Some(text) ==> k.sidebar_activate@ == text@,
        file.sidebar_collapse matches Some(text) ==> k.sidebar_collapse@ == text@,
        file.focus_sidebar matches Some(text) ==> k.focus_sidebar@ == text@,
        file.focus_pdf matches Some(text) ==> k.focus_pdf@ == text@,
        file.zoom_in matches Some(text) ==> k.zoom_in@ == text@,
        file.zoom_out matches Some(text) ==> k.zoom_out@ == text@,
        file.pick_file matches Some(text) ==> k.pick_file@ == text@,
        file.pick_file_chord matches Some(text) ==> k.pick_file_chord@ == text@,
        file.scroll_down is None ==> k.scroll_down@ == usual.scroll_down@,
        file.scroll_up is None ==> k.scroll_up@ == usual.scroll_up@,
        file.scroll_left is None ==> k.scroll_left@ == usual.scroll_left@,
        file.scroll_right is None ==> k.scroll_right@ == usual.scroll_right@,
        file.scroll_top is None ==> k.scroll_top@ == usual.scroll_top@,
        file.scroll_bottom is None ==> k.scroll_bottom@ == usual.scroll_bottom@,
        file.search is None ==> k.search@ == usual.search@,
        file.search_next is None ==> k.search_next@ == usual.search_next@,
        file.search_prev is None ==> k.search_prev@ == usual.search_prev@,
        file.sidebar_toggle is None ==> k.sidebar_toggle@ == usual.sidebar_toggle@,
        file.sidebar_down is None ==> k.sidebar_down@ == usual.sidebar_down@,
        file.sidebar_up is None ==> k.sidebar_up@ == usual.sidebar_up@,
        file.sidebar_activate is None ==> k.sidebar_activate@ == usual.sidebar_activate@,
        file.sidebar_collapse is None ==> k.sidebar_collapse@ == usual.sidebar_collapse@,
        file.focus_sidebar is None ==> k.focus_sidebar@ == usual.focus_sidebar@,
        file.focus_pdf is None ==> k.focus_pdf@ == usual.focus_pdf@,
        file.zoom_in is None ==> k.zoom_in@ == usual.zoom_in@,
        file.zoom_out is None ==> k.zoom_out@ == usual.zoom_out@,
        file.pick_file is None ==> k.pick_file@ == usual.pick_file@,
        file.pick_file_chord is None ==> k.pick_file_chord@ == usual.pick_file_chord@,
{
}

/// What the settings file says of a thing is what counts for it. Without it the
/// picker starts in the home directory, fitting to the width is off and the
/// theme follows the system.
pub proof fn law_file_settings_count(c: Config, file: ConfigFile, usual: Config)
    requires
        is_config_of(c, file),
        is_usual(usual),
    ensures
        file.window matches Some(window) ==> c.window == window,
        file.window is None ==> c.window == usual.window,
        file.sidebar matches Some(sidebar) ==> c.sidebar == sidebar,
        file.sidebar is None ==> c.sidebar == usual.sidebar,
        file.fit_width matches Some(fit) ==> c.fit_width == fit,
        file.fit_width is None ==> !c.fit_width,
        usual.fit_width,
        file.theme matches Some(theme) ==> c.theme == theme,
        file.theme is None ==> c.theme == usual.theme && c.theme == ThemePreference::System,
        file.picker is None ==> c.picker.root@ == "~"@ && c.picker.width == usual.picker.width
            && c.picker.height == usual.picker.height,
        file.picker matches Some(picker) ==> {
            &&& picker.root matches Some(root) ==> c.picker.root@ == root@
            &&& picker.root is None ==> c.picker.root@.len() == 0
            &&& picker.width matches Some(width) ==> c.picker.width == width
            &&& picker.width is None ==> c.picker.width == usual.picker.width
            &&& picker.height matches Some(height) ==> c.picker.height == height
            &&& picker.height is None ==> c.picker.height == usual.picker.height
        },
        file.last_file == c.last_file,
        usual.last_file is None,
        file.keymap matches Some(keymap) ==> is_keymap_of(c.keymap, keymap),
        file.keymap is None ==> is_usual_keymap(c.keymap),
{
}

/// The settings go to a directory of their own in the base directory for
/// settings: the one that is named where its path is absolute, or else
/// `.config` in the home directory.
pub proof fn law_settings_have_their_own_directory(
    xdg: Option<FilePath>,
    home: Option<FilePath>,
)
    ensures
        xdg is Some && xdg->0@.len() > 0 && xdg->0@[0] == SLASH ==> segments(
            settings_dir(xdg, home),
        ) == segments(xdg->0@) + seq![encode_utf8("yespanda"@)],
        home is Some && (xdg is None || xdg->0@.len() == 0 || xdg->0@[0] != SLASH) ==> segments(
            settings_dir(xdg, home),
        ) == segments(home->0@) + seq![encode_utf8(".config"@), encode_utf8("yespanda"@)],
{
    reveal_strlit("yespanda");
    reveal_strlit(".config");
    let own = encode_utf8("yespanda"@);
    let dot = encode_utf8(".config"@);
    assert(is_ascii_chars("yespanda"@));
    assert(is_ascii_chars(".config"@));
    is_ascii_chars_encode_utf8("yespanda"@);
    is_ascii_chars_encode_utf8(".config"@);
    assert(own.len() == 8 && dot.len() == 7);
    assert forall|i: int| 0 <= i < own.len() implies #[trigger] own[i] != SLASH by {
        assert("yespanda"@[i] as u8 == own[i]);
    }
    assert forall|i: int| 0 <= i < dot.len() implies #[trigger] dot[i] != SLASH by {
        assert(".config"@[i] as u8 == dot[i]);
    }
    assert(own[0] != SLASH && dot[0] != SLASH);
    law_segment_is_a_name(own);
    law_segment_is_a_name(dot);
    if is_base_dir(xdg) {
        law_join_adds_the_names(xdg->0@, own);
    } else if home is Some {
        law_join_adds_the_names(home->0@, dot);
        law_join_adds_the_names(joined(home->0@, dot), own);
        assert(segments(home->0@) + seq![dot] + seq![own] =~= segments(home->0@) + seq![dot, own]);
    }
}

} // verus!
