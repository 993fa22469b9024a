//! The viewer's configuration: colour themes, collector settings, and where the
//! configuration and the database live.
use vstd::prelude::*;
use vstd::string::*;
use crate::text::{chars_of, contains_text, join_path, lemma_utf8_len_at_least, lowercase_of, occurs_in, path_join, to_lowercase, utf8_len};

verus! {

/// The colours of the viewer, as `#rrggbb` texts, and whether it is dark.
#[derive(Debug, Clone)]
pub struct ThemeConfig {
    pub background: String,
    pub surface_color: String,
    pub accent_color: String,
    pub border_color: String,
    pub text_color: String,
    pub text_dim_color: String,
    pub charge_color: String,
    pub discharge_color: String,
    pub full_color: String,
    pub grid_color: String,
    pub health_good_color: String,
    pub health_warn_color: String,
    pub health_bad_color: String,
    pub dark_mode: bool,
}

/// Where the collector reads batteries, and how much history it keeps.
#[derive(Debug, Clone)]
pub struct CollectorConfig {
    pub battery_path: String,
    pub max_db_size_mb: u64,
    pub retention_days: u64,
}

impl Default for CollectorConfig {
    fn default() -> (r: Self)
        ensures
            r.battery_path@ == "/sys/class/power_supply"@,
            r.max_db_size_mb == 100,
            r.retention_days == 365,
    {
        CollectorConfig {
            battery_path: String::from_str("/sys/class/power_supply"),
            max_db_size_mb: 100,
            retention_days: 365,
        }
    }
}

/// The seconds between two collections when the configuration names none.
pub const DEFAULT_POLLING_INTERVAL_SECS: u64 = 60;

/// The desktop colour theme the default palette follows.
#[derive(Debug, Clone, Copy, PartialEq, Eq, Structural)]
pub enum DesktopTheme {
    Dracula,
    CatppuccinMocha,
    Generic,
}

/// The theme a text names, lower-cased: Dracula before Catppuccin; none when it
/// names neither.
pub open spec fn theme_named(t: Seq<char>) -> Option<DesktopTheme> {
    if occurs_in(lowercase_of(t), "dracula"@) {
        Some(DesktopTheme::Dracula)
    } else if occurs_in(lowercase_of(t), "catppuccin"@) {
        Some(DesktopTheme::CatppuccinMocha)
    } else {
        None
    }
}

/// The theme of the first of `files` (the GTK settings that could be read) that
/// names one, from index `i` on; generic when none does.
pub open spec fn theme_in_files(files: Seq<Option<String>>, i: int) -> DesktopTheme
    decreases files.len() - i,
{
    if i < 0 || i >= files.len() {
        DesktopTheme::Generic
    } else {
        match files[i] {
            Some(c) => match theme_named(c@) {
                Some(t) => t,
                None => theme_in_files(files, i + 1),
            },
            None => theme_in_files(files, i + 1),
        }
    }
}

/// The desktop theme: the one `GTK_THEME` names, else the one the first GTK
/// settings file names, else generic.
pub open spec fn desktop_theme_spec(gtk_theme: Option<Seq<char>>, files: Seq<Option<String>>) -> DesktopTheme {
    match gtk_theme {
        Some(g) => match theme_named(g) {
            Some(t) => t,
            None => theme_in_files(files, 0),
        },
        None => theme_in_files(files, 0),
    }
}

fn theme_named_exec(t: &str) -> (r: Option<DesktopTheme>)
    ensures
        r == theme_named(t@),
{
    let lower = chars_of(to_lowercase(t).as_str());
    if contains_text(&lower, &chars_of("dracula")) {
        Some(DesktopTheme::Dracula)
    } else if contains_text(&lower, &chars_of("catppuccin")) {
        Some(DesktopTheme::CatppuccinMocha)
    } else {
        None
    }
}

/// The desktop theme from the `GTK_THEME` variable and the contents of the GTK 3
/// and GTK 4 settings files, in that order (see `desktop_theme_spec`).
pub fn detect_desktop_theme(gtk_theme: Option<&str>, settings_files: &[Option<String>]) -> (r: DesktopTheme)
    ensures
        r == desktop_theme_spec(
            match gtk_theme {
                Some(g) => Some(g@),
                None => None,
            },
            settings_files@,
        ),
{
    let ghost gt = match gtk_theme {
        Some(g) => Some(g@),
        None => None,
    };
    if let Some(g) = gtk_theme {
        if let Some(t) = theme_named_exec(g) {
            return t;
        }
    }
    let mut i: usize = 0;
    while i < settings_files.len()
        invariant
            i <= settings_files@.len(),
            gt == match gtk_theme {
                Some(g) => Some(g@),
                None => None,
            },
            desktop_theme_spec(gt, settings_files@) == theme_in_files(settings_files@, 0),
            theme_in_files(settings_files@, i as int) == theme_in_files(settings_files@, 0),
        decreases settings_files@.len() - i,
    {
        if let Some(c) = &settings_files[i] {
            if let Some(t) = theme_named_exec(c.as_str()) {
                assert(settings_files@[i as int] == Some(*c));
                assert(theme_in_files(settings_files@, i as int) == t);
                return t;
            }
        }
        i = i + 1;
    }
    DesktopTheme::Generic
}

/// The paths of the GTK 3 and GTK 4 settings files under the home directory.
pub fn gtk_settings_paths(home: &str) -> (r: (String, String))
    ensures
        r.0@ == path_join(home@, ".config/gtk-3.0/settings.ini"@),
        r.1@ == path_join(home@, ".config/gtk-4.0/settings.ini"@),
{
    (join_path(home, ".config/gtk-3.0/settings.ini"), join_path(home, ".config/gtk-4.0/settings.ini"))
}

/// The palette of a desktop theme, in the order background, surface, accent,
/// border, text, dimmed text, charging, discharging, full, grid, and good, warning
/// and bad health.
pub open spec fn palette(t: DesktopTheme) -> Seq<Seq<char>> {
    match t {
        DesktopTheme::Dracula => seq![
            "#282a36"@, "#44475a"@, "#bd93f9"@, "#6272a4"@, "#f8f8f2"@, "#bfbfbf"@, "#50fa7b"@,
            "#ff5555"@, "#8be9fd"@, "#44475a"@, "#50fa7b"@, "#f1fa8c"@, "#ff5555"@,
        ],
        DesktopTheme::CatppuccinMocha => seq![
            "#1e1e2e"@, "#313244"@, "#cba6f7"@, "#585b70"@, "#cdd6f4"@, "#a6adc8"@, "#a6e3a1"@,
            "#f38ba8"@, "#89b4fa"@, "#45475a"@, "#a6e3a1"@, "#f9e2af"@, "#f38ba8"@,
        ],
        DesktopTheme::Generic => seq![
            "#2e3440"@, "#3b4252"@, "#88c0d0"@, "#4c566a"@, "#eceff4"@, "#b0b8cd"@, "#a3be8c"@,
            "#bf616a"@, "#81a1c1"@, "#3b4252"@, "#a3be8c"@, "#ebcb8b"@, "#bf616a"@,
        ],
    }
}

/// The colours of `c` in the order of `palette`.
pub open spec fn theme_colors(c: ThemeConfig) -> Seq<Seq<char>> {
    seq![
        c.background@, c.surface_color@, c.accent_color@, c.border_color@, c.text_color@,
        c.text_dim_color@, c.charge_color@, c.discharge_color@, c.full_color@, c.grid_color@,
        c.health_good_color@, c.health_warn_color@, c.health_bad_color@,
    ]
}

fn theme_from(colors: [&str; 13]) -> (r: ThemeConfig)
    ensures
        theme_colors(r) == seq![
            colors[0]@, colors[1]@, colors[2]@, colors[3]@, colors[4]@, colors[5]@, colors[6]@,
            colors[7]@, colors[8]@, colors[9]@, colors[10]@, colors[11]@, colors[12]@,
        ],
        !r.dark_mode,
{
    ThemeConfig {
        background: String::from_str(colors[0]),
        surface_color: String::from_str(colors[1]),
        accent_color: String::from_str(colors[2]),
        border_color: String::from_str(colors[3]),
        text_color: String::from_str(colors[4]),
        text_dim_color: String::from_str(colors[5]),
        charge_color: String::from_str(colors[6]),
        discharge_color: String::from_str(colors[7]),
        full_color: String::from_str(colors[8]),
        grid_color: String::from_str(colors[9]),
        health_good_color: String::from_str(colors[10]),
        health_warn_color: String::from_str(colors[11]),
        health_bad_color: String::from_str(colors[12]),
        dark_mode: false,
    }
}

impl ThemeConfig {
    /// The default colours for a desktop theme (see `palette`); dark mode off.
    pub fn for_theme(t: DesktopTheme) -> (r: ThemeConfig)
        ensures
            theme_colors(r) == palette(t),
            !r.dark_mode,
    {
        match t {
            DesktopTheme::Dracula => theme_from([
                "#282a36", "#44475a", "#bd93f9", "#6272a4", "#f8f8f2", "#bfbfbf", "#50fa7b",
                "#ff5555", "#8be9fd", "#44475a", "#50fa7b", "#f1fa8c", "#ff5555",
            ]),
            DesktopTheme::CatppuccinMocha => theme_from([
                "#1e1e2e", "#313244", "#cba6f7", "#585b70", "#cdd6f4", "#a6adc8", "#a6e3a1",
                "#f38ba8", "#89b4fa", "#45475a", "#a6e3a1", "#f9e2af", "#f38ba8",
            ]),
            DesktopTheme::Generic => theme_from([
                "#2e3440", "#3b4252", "#88c0d0", "#4c566a", "#eceff4", "#b0b8cd", "#a3be8c",
                "#bf616a", "#81a1c1", "#3b4252", "#a3be8c", "#ebcb8b", "#bf616a",
            ]),
        }
    }
}

/// The home directory, or `.` when it is unknown.
pub open spec fn home_or_here(home: Option<Seq<char>>) -> Seq<char> {
    match home {
        Some(h) => h,
        None => "."@,
    }
}

fn join3(base: &str, a: &str, b: &str, c: &str) -> (r: String)
    ensures
        r@ == path_join(path_join(path_join(base@, a@), b@), c@),
{
    let x = join_path(base, a);
    let y = join_path(x.as_str(), b);
    join_path(y.as_str(), c)
}

/// `<home>/.config/hibat/config.toml`.
pub fn config_path(home: Option<&str>) -> (r: String)
    ensures
        r@ == path_join(path_join(path_join(home_or_here(match home {
            Some(h) => Some(h@),
            None => None,
        }), ".config"@), "hibat"@), "config.toml"@),
{
    match home {
        Some(h) => join3(h, ".config", "hibat", "config.toml"),
        None => join3(".", ".config", "hibat", "config.toml"),
    }
}

/// `<home>/.cache/hibat/hibat.db`.
pub fn db_path(home: Option<&str>) -> (r: String)
    ensures
        r@ == path_join(path_join(path_join(home_or_here(match home {
            Some(h) => Some(h@),
            None => None,
        }), ".cache"@), "hibat"@), "hibat.db"@),
{
    match home {
        Some(h) => join3(h, ".cache", "hibat", "hibat.db"),
        None => join3(".", ".cache", "hibat", "hibat.db"),
    }
}

/// Whether byte offset `b` of `s` begins a character (or is its end).
pub open spec fn is_boundary(s: Seq<char>, b: nat) -> bool {
    exists|k: int| 0 <= k <= s.len() && utf8_len(#[trigger] s.take(k)) == b
}

/// `s` without its leading `#` characters.
pub open spec fn strip_hashes(s: Seq<char>) -> Seq<char>
    decreases s.len(),
{
    if s.len() > 0 && s[0] == '#' { strip_hashes(s.drop_first()) } else { s }
}

pub open spec fn hex_value(c: char) -> int {
    if '0' <= c && c <= '9' {
        c as int - '0' as int
    } else if 'a' <= c && c <= 'f' {
        c as int - 'a' as int + 10
    } else {
        c as int - 'A' as int + 10
    }
}

pub open spec fn is_hex(c: char) -> bool {
    ('0' <= c && c <= '9') || ('a' <= c && c <= 'f') || ('A' <= c && c <= 'F')
}

/// What `u8::from_str_radix(.., 16)` gives for a two-character text: two hex
/// digits, or `+` and one hex digit.
pub open spec fn hex_pair(a: char, b: char) -> Option<u8> {
    if a == '+' && is_hex(b) {
        Some(hex_value(b) as u8)
    } else if is_hex(a) && is_hex(b) {
        Some((16 * hex_value(a) + hex_value(b)) as u8)
    } else {
        None
    }
}

/// The colour a `#rrggbb` text names: six ASCII characters after the leading
/// `#`s, read as three pairs; white for anything else.
pub open spec fn color_of(hex: Seq<char>) -> (u8, u8, u8) {
    let s = strip_hashes(hex);
    if s.len() == 6 && utf8_len(s) == 6 {
        match (hex_pair(s[0], s[1]), hex_pair(s[2], s[3]), hex_pair(s[4], s[5])) {
            (Some(r), Some(g), Some(b)) => (r, g, b),
            _ => (255u8, 255u8, 255u8),
        }
    } else {
        (255u8, 255u8, 255u8)
    }
}

fn hex_value_exec(c: char) -> (r: u8)
    requires
        is_hex(c),
    ensures
        r == hex_value(c),
{
    if '0' <= c && c <= '9' {
        (c as u32 - '0' as u32) as u8
    } else if 'a' <= c && c <= 'f' {
        (c as u32 - 'a' as u32 + 10) as u8
    } else {
        (c as u32 - 'A' as u32 + 10) as u8
    }
}

fn is_hex_exec(c: char) -> (r: bool)
    ensures
        r == is_hex(c),
{
    ('0' <= c && c <= '9') || ('a' <= c && c <= 'f') || ('A' <= c && c <= 'F')
}

fn hex_pair_exec(a: char, b: char) -> (r: Option<u8>)
    ensures
        r == hex_pair(a, b),
{
    if a == '+' && is_hex_exec(b) {
        Some(hex_value_exec(b))
    } else if is_hex_exec(a) && is_hex_exec(b) {
        Some(16 * hex_value_exec(a) + hex_value_exec(b))
    } else {
        None
    }
}

/// The colour a `#rrggbb` text names, as red, green and blue (see `color_of`).
/// A six-byte text whose second or fourth byte ends inside a character is left
/// out: slicing it there would panic.
pub fn parse_color(hex: &str) -> (r: (u8, u8, u8))
    requires
        utf8_len(strip_hashes(hex@)) == 6 ==> is_boundary(strip_hashes(hex@), 2) && is_boundary(strip_hashes(hex@), 4),
    ensures
        r == color_of(hex@),
{
    let v = chars_of(hex);
    proof {
        assert(v@.subrange(0, v@.len() as int) =~= v@);
    }
    let mut i: usize = 0;
    while i < v.len() && v[i] == '#'
        invariant
            i <= v@.len(),
            strip_hashes(v@.subrange(i as int, v@.len() as int)) == strip_hashes(v@),
        decreases v@.len() - i,
    {
        proof {
            assert(v@.subrange(i as int, v@.len() as int).drop_first() =~= v@.subrange(i + 1, v@.len() as int));
        }
        i = i + 1;
    }
    let ghost s = v@.subrange(i as int, v@.len() as int);
    proof {
        assert(strip_hashes(s) == s);
        lemma_utf8_len_at_least(s);
    }
    if v.len() - i != 6 {
        return (255, 255, 255);
    }
    let mut k: usize = i;
    let mut ascii = true;
    while k < v.len()
        invariant
            i <= k <= v@.len(),
            s == v@.subrange(i as int, v@.len() as int),
            ascii == forall|q: int| i <= q < k ==> (#[trigger] v@[q] as int) < 0x80,
        decreases v@.len() - k,
    {
        if v[k] >= '\u{80}' {
            ascii = false;
        }
        k = k + 1;
    }
    proof {
        if ascii {
            assert forall|q: int| 0 <= q < s.len() implies (#[trigger] s[q] as int) < 0x80 by {
                assert(s[q] == v@[i + q]);
            }
            lemma_ascii_utf8_len(s);
        } else {
            let q = choose|q: int| i <= q < v@.len() && !((#[trigger] v@[q] as int) < 0x80);
            assert(s[q - i] == v@[q]);
        }
    }
    if !ascii {
        return (255, 255, 255);
    }
    match (hex_pair_exec(v[i], v[i + 1]), hex_pair_exec(v[i + 2], v[i + 3]), hex_pair_exec(v[i + 4], v[i + 5])) {
        (Some(r), Some(g), Some(b)) => (r, g, b),
        _ => (255, 255, 255),
    }
}

proof fn lemma_ascii_utf8_len(s: Seq<char>)
    requires
        forall|q: int| 0 <= q < s.len() ==> (#[trigger] s[q] as int) < 0x80,
    ensures
        utf8_len(s) == s.len(),
    decreases s.len(),
{
    if s.len() > 0 {
        assert forall|q: int| 0 <= q < s.drop_last().len() implies (#[trigger] s.drop_last()[q] as int) < 0x80 by {
            assert(s.drop_last()[q] == s[q]);
        }
        lemma_ascii_utf8_len(s.drop_last());
        assert(s.last() == s[s.len() - 1]);
    }
}

} // verus!
