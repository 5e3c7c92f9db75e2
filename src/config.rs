use vstd::prelude::*;

verus! {

/// The loaded configuration: where it is stored, and its settings.
#[derive(Debug, Clone)]
pub struct Config {
    pub conf_file: String,
    pub settings: Settings,
}

/// All settings, one table each.
#[derive(Debug, Clone)]
pub struct Settings {
    pub general: GeneralSettings,
    pub format: FormatSettings,
    pub styles: StyleSettings,
}

/// When to show the stack.
#[derive(Debug, Clone)]
pub struct GeneralSettings {
    pub show_stack_on_push: bool,
    pub show_stack_on_pop: bool,
    pub show_stack_on_bookmark: bool,
}

/// How listings are laid out.
#[derive(Debug, Clone)]
pub struct FormatSettings {
    pub stack_separator: String,
    pub bookmarks_separator: String,
    pub align_separators: bool,
}

/// The color of each part of a listing: a color name as written in the
/// settings file, or its escape sequence once translated.
#[derive(Debug, Clone)]
pub struct StyleSettings {
    pub stack_number: String,
    pub stack_separator: String,
    pub stack_path: String,
    pub bookmarks_name: String,
    pub bookmarks_seperator: String,
    pub bookmarks_path: String,
}

/// Why the configuration could not be used.
#[derive(Debug, Clone, Copy, PartialEq, Eq, Structural)]
pub enum ConfigError {
    /// A style names a color that is not known.
    UnknownColor,
}

impl Default for GeneralSettings {
    fn default() -> (r: Self)
        ensures
            !r.show_stack_on_push && !r.show_stack_on_pop && !r.show_stack_on_bookmark,
    {
        GeneralSettings { show_stack_on_push: false, show_stack_on_pop: false, show_stack_on_bookmark: false }
    }
}

impl Default for FormatSettings {
    fn default() -> (r: Self)
        ensures
            r.stack_separator@ == " - "@,
            r.bookmarks_separator@ == " - "@,
            !r.align_separators,
    {
        let default_separator = " - ";
        FormatSettings {
            stack_separator: default_separator.to_owned(),
            bookmarks_separator: default_separator.to_owned(),
            align_separators: false,
        }
    }
}

impl Default for StyleSettings {
    fn default() -> (r: Self)
        ensures
            r.stack_number@ == "default"@,
            r.stack_separator@ == "cyan"@,
            r.stack_path@ == "default"@,
            r.bookmarks_name@ == "default"@,
            r.bookmarks_seperator@ == "cyan"@,
            r.bookmarks_path@ == "default"@,
    {
        let default_number_color = "default";
        let default_separator_color = "cyan";
        let default_path_color = "default";
        StyleSettings {
            stack_number: default_number_color.to_owned(),
            stack_separator: default_separator_color.to_owned(),
            stack_path: default_path_color.to_owned(),
            bookmarks_name: default_number_color.to_owned(),
            bookmarks_seperator: default_separator_color.to_owned(),
            bookmarks_path: default_path_color.to_owned(),
        }
    }
}

impl Default for Settings {
    fn default() -> (r: Self)
        ensures
            !r.general.show_stack_on_push && !r.general.show_stack_on_pop && !r.general.show_stack_on_bookmark,
            r.format.stack_separator@ == " - "@,
            r.format.bookmarks_separator@ == " - "@,
            !r.format.align_separators,
            r.styles.stack_number@ == "default"@,
            r.styles.stack_separator@ == "cyan"@,
            r.styles.stack_path@ == "default"@,
            r.styles.bookmarks_name@ == "default"@,
            r.styles.bookmarks_seperator@ == "cyan"@,
            r.styles.bookmarks_path@ == "default"@,
    {
        Settings {
            general: GeneralSettings::default(),
            format: FormatSettings::default(),
            styles: StyleSettings::default(),
        }
    }
}

/// The escape sequence for a color name, if the name is known.
pub open spec fn color_code(name: Seq<char>) -> Option<Seq<char>> {
    if name == "default"@ {
        Some("\u{1b}[0m"@)
    } else if name == "black"@ {
        Some("\u{1b}[30m"@)
    } else if name == "red"@ {
        Some("\u{1b}[31m"@)
    } else if name == "green"@ {
        Some("\u{1b}[32m"@)
    } else if name == "yellow"@ {
        Some("\u{1b}[33m"@)
    } else if name == "blue"@ {
        Some("\u{1b}[34m"@)
    } else if name == "magenta"@ {
        Some("\u{1b}[35m"@)
    } else if name == "cyan"@ {
        Some("\u{1b}[36m"@)
    } else if name == "white"@ {
        Some("\u{1b}[37m"@)
    } else {
        None
    }
}

/// Whether `a` and `b` hold the same characters.
pub fn same_text(a: &str, b: &str) -> (r: bool)
    ensures
        r == (a@ == b@),
{
    let n = a.unicode_len();
    if n != b.unicode_len() {
        return false;
    }
    let mut i: usize = 0;
    while i < n
        invariant
            0 <= i <= n,
            n == a@.len(),
            n == b@.len(),
            forall|j: int| 0 <= j < i ==> a@[j] == b@[j],
        decreases n - i,
    {
        if a.get_char(i) != b.get_char(i) {
            return false;
        }
        i = i + 1;
    }
    proof {
        assert(a@ =~= b@);
    }
    true
}

/// Translates a color name into its ANSI escape sequence.
pub fn parse_color(name: &str) -> (r: Result<String, ConfigError>)
    ensures
        match color_code(name@) {
            Some(c) => r matches Ok(s) && s@ == c,
            None => r == Err::<String, ConfigError>(ConfigError::UnknownColor),
        },
{
    if same_text(name, "default") {
        Ok("\u{1b}[0m".to_owned())
    } else if same_text(name, "black") {
        Ok("\u{1b}[30m".to_owned())
    } else if same_text(name, "red") {
        Ok("\u{1b}[31m".to_owned())
    } else if same_text(name, "green") {
        Ok("\u{1b}[32m".to_owned())
    } else if same_text(name, "yellow") {
        Ok("\u{1b}[33m".to_owned())
    } else if same_text(name, "blue") {
        Ok("\u{1b}[34m".to_owned())
    } else if same_text(name, "magenta") {
        Ok("\u{1b}[35m".to_owned())
    } else if same_text(name, "cyan") {
        Ok("\u{1b}[36m".to_owned())
    } else if same_text(name, "white") {
        Ok("\u{1b}[37m".to_owned())
    } else {
        Err(ConfigError::UnknownColor)
    }
}

/// The six styles in the order in which they are translated.
pub open spec fn style_fields(s: StyleSettings) -> Seq<Seq<char>> {
    seq![
        s.stack_number@,
        s.stack_separator@,
        s.stack_path@,
        s.bookmarks_name@,
        s.bookmarks_seperator@,
        s.bookmarks_path@,
    ]
}

/// The styles up to and including position `i` all name known colors.
pub open spec fn known_through(f: Seq<Seq<char>>, i: int) -> bool {
    forall|j: int| 0 <= j <= i ==> #[trigger] color_code(f[j]) is Some
}

/// `t` is `s` translated up to the first style that names no known color:
/// every style before it holds its escape sequence, and that style and all
/// later ones are unchanged.
pub open spec fn translated_prefix(s: StyleSettings, t: StyleSettings) -> bool {
    forall|i: int| 0 <= i < 6 ==> {
        if known_through(style_fields(s), i) {
            Some(#[trigger] style_fields(t)[i]) == color_code(style_fields(s)[i])
        } else {
            style_fields(t)[i] == style_fields(s)[i]
        }
    }
}

/// The text of `s` as pretty-printed by its `Debug` form.
pub uninterp spec fn settings_debug_text(s: Settings) -> Seq<char>;

/// Relies on `format!("{:#?}")` with the derived `Debug` of `Settings`: the
/// text depends on the settings alone.
#[verifier::external_body]
fn debug_text(s: &Settings) -> (r: String)
    ensures
        r@ == settings_debug_text(*s),
{
    format!("{:#?}", s)
}

impl Config {
    /// The name of the configuration file.
    pub const CONFIG_FILE_NAME: &'static str = "navigate.conf";

    /// A configuration stored at `conf_file` with the given settings.
    pub fn from_parts(conf_file: String, settings: Settings) -> (r: Config)
        ensures
            r.conf_file == conf_file,
            r.settings == settings,
    {
        Config { conf_file, settings }
    }

    /// The settings, pretty-printed.
    pub fn to_formatted_string(&self) -> (r: Result<String, ConfigError>)
        ensures
            r matches Ok(s) && s@ == settings_debug_text(self.settings),
    {
        Ok(debug_text(&self.settings))
    }

    /// Translates the styles, in order, from color names into escape
    /// sequences. At the first style that names no known color it stops with
    /// `UnknownColor`: the styles before it stay translated, that one and the
    /// later ones keep their names.
    pub fn parse_color_settings(&mut self) -> (r: Result<(), ConfigError>)
        ensures
            r is Ok <==> known_through(style_fields(old(self).settings.styles), 5),
            r is Err ==> r == Err::<(), ConfigError>(ConfigError::UnknownColor),
            translated_prefix(old(self).settings.styles, final(self).settings.styles),
            final(self).settings.general == old(self).settings.general,
            final(self).settings.format == old(self).settings.format,
            final(self).conf_file == old(self).conf_file,
    {
        let ghost f = style_fields(self.settings.styles);
        self.settings.styles.stack_number = parse_color(self.settings.styles.stack_number.as_str())?;
        self.settings.styles.stack_separator = parse_color(self.settings.styles.stack_separator.as_str())?;
        self.settings.styles.stack_path = parse_color(self.settings.styles.stack_path.as_str())?;
        self.settings.styles.bookmarks_name = parse_color(self.settings.styles.bookmarks_name.as_str())?;
        self.settings.styles.bookmarks_seperator = parse_color(self.settings.styles.bookmarks_seperator.as_str())?;
        self.settings.styles.bookmarks_path = parse_color(self.settings.styles.bookmarks_path.as_str())?;
        proof {
            assert(known_through(f, 5));
        }
        Ok(())
    }
}

} // verus!
