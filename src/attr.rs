//! Icon and colour attributes of entries, and the configuration tables they
//! come from.

use crate::entry::Printer;
use crate::names::{file_key, file_key_of, file_name, file_name_of};
use crate::term::{fg_palette, fg_palette_seq, palette_rgb};
use vstd::prelude::*;
use vstd::string::StringExecFns;

verus! {

/// The semantic colour class of an entry.
#[derive(Clone, Copy, Debug, PartialEq, Eq, Structural, Hash)]
pub enum ColorType {
    UnrecognizedFile,
    RecognizedFile,
    Dir,
    DeadLink,
    Link,
    Write,
    Read,
    Exec,
    NoAccess,
    DayOld,
    HourOld,
    NoModifier,
    Report,
    User,
    Tree,
    Empty,
    Normal,
}

/// A terminal colour that a colour class is shown in.
#[derive(Clone, Copy, Debug, PartialEq, Eq, Structural, Hash)]
pub enum RealColor {
    Yellow,
    Green,
    Blue,
    Red,
    Cyan,
    Magenta,
    Grey,
    White,
    Black,
}

/// The icon and colour class of an entry.
#[derive(Debug)]
pub struct Attr {
    pub icon: String,
    pub color: ColorType,
}

impl Attr {
    /// The attribute as plain values: the icon's text and the colour class.
    pub open spec fn view_pair(&self) -> (Seq<char>, ColorType) {
        (self.icon@, self.color)
    }
}

/// A table from names to texts: a list of pairs, where a later pair for a
/// name overrides an earlier one.
pub type Table = Vec<(String, String)>;

/// What `t` holds for `key`.
pub open spec fn lookup(t: Seq<(String, String)>, key: Seq<char>) -> Option<Seq<char>>
    decreases t.len(),
{
    if t.len() == 0 {
        None
    } else if t.last().0@ == key {
        Some(t.last().1@)
    } else {
        lookup(t.drop_last(), key)
    }
}

/// What `t` holds for `key`.
pub fn table_get(t: &Table, key: &String) -> (r: Option<String>)
    ensures
        match r {
            Some(v) => lookup(t@, key@) == Some(v@),
            None => lookup(t@, key@) is None,
        },
{
    let mut i: usize = t.len();
    assert(t@.take(i as int) =~= t@);
    while i > 0
        invariant
            i <= t@.len(),
            lookup(t@, key@) == lookup(t@.take(i as int), key@),
        decreases i,
    {
        assert(t@.take(i as int).drop_last() =~= t@.take(i - 1));
        let pair = &t[i - 1];
        if pair.0 == *key {
            return Some(pair.1.clone());
        }
        i = i - 1;
    }
    None
}

/// The colour class that `colors` shows in `color`: its last pair for that
/// class, or grey.
pub open spec fn real_color_of(colors: Seq<(ColorType, RealColor)>, color: ColorType) -> RealColor
    decreases colors.len(),
{
    if colors.len() == 0 {
        RealColor::Grey
    } else if colors.last().0 == color {
        colors.last().1
    } else {
        real_color_of(colors.drop_last(), color)
    }
}

/// The entry of the 256-colour palette for each colour.
pub open spec fn palette_index(c: RealColor) -> u8 {
    match c {
        RealColor::Yellow => 3,
        RealColor::Green => 2,
        RealColor::Blue => 4,
        RealColor::Red => 1,
        RealColor::Cyan => 6,
        RealColor::Magenta => 5,
        RealColor::Grey => (16 + 36 * 2 + 6 * 2 + 2) as u8,
        RealColor::White => 16,
        RealColor::Black => (16 + 36 * 5 + 6 * 5 + 5) as u8,
    }
}

/// The entry of the 256-colour palette for `c`.
pub fn palette_entry(c: RealColor) -> (v: u8)
    ensures
        v == palette_index(c),
{
    match c {
        RealColor::Yellow => 3,
        RealColor::Green => 2,
        RealColor::Blue => 4,
        RealColor::Red => 1,
        RealColor::Cyan => 6,
        RealColor::Magenta => 5,
        RealColor::Grey => palette_rgb(2, 2, 2),
        RealColor::White => palette_rgb(0, 0, 0),
        RealColor::Black => palette_rgb(5, 5, 5),
    }
}

/// Why a configuration cannot be used.
#[derive(Clone, Copy, Debug, PartialEq, Eq, Structural)]
pub enum ConfigError {
    /// The file icons have no `file` entry to fall back on.
    MissingFileDefault,
    /// The folder icons have no `folder` entry to fall back on.
    MissingFolderDefault,
}

/// The tables and settings of one listing.
#[derive(Debug)]
pub struct Config {
    pub files: Table,
    pub file_aliases: Table,
    pub folders: Table,
    pub folder_aliases: Table,
    pub colors: Vec<(ColorType, RealColor)>,
    /// The width of the terminal, in columns.
    pub max_width: usize,
    pub printer: Printer,
}

impl Config {
    /// Both fallback icons are present.
    pub open spec fn wf(&self) -> bool {
        &&& lookup(self.files@, "file"@) is Some
        &&& lookup(self.folders@, "folder"@) is Some
    }

    /// A configuration from its tables; an error where a fallback icon is missing.
    pub fn new(
        files: Table,
        file_aliases: Table,
        folders: Table,
        folder_aliases: Table,
        colors: Vec<(ColorType, RealColor)>,
        max_width: usize,
        printer: Printer,
    ) -> (r: Result<Config, ConfigError>)
        ensures
            lookup(files@, "file"@) is None ==> r == Err::<Config, ConfigError>(
                ConfigError::MissingFileDefault,
            ),
            lookup(files@, "file"@) is Some && lookup(folders@, "folder"@) is None ==> r == Err::<
                Config,
                ConfigError,
            >(ConfigError::MissingFolderDefault),
            lookup(files@, "file"@) is Some && lookup(folders@, "folder"@) is Some ==> r is Ok,
            r matches Ok(c) ==> c.wf() && c.files == files && c.file_aliases == file_aliases
                && c.folders == folders && c.folder_aliases == folder_aliases && c.colors
                == colors && c.max_width == max_width && c.printer == printer,
    {
        let file_default = String::from_str("file");
        let folder_default = String::from_str("folder");
        if table_get(&files, &file_default).is_none() {
            return Err(ConfigError::MissingFileDefault);
        }
        if table_get(&folders, &folder_default).is_none() {
            return Err(ConfigError::MissingFolderDefault);
        }
        Ok(Config { files, file_aliases, folders, folder_aliases, colors, max_width, printer })
    }
}

/// The attribute of a file whose key is `suffix`, looked up directly.
pub open spec fn file_attr_of(c: Config, suffix: Seq<char>) -> (Seq<char>, ColorType) {
    match lookup(c.files@, suffix) {
        Some(icon) => (icon, ColorType::RecognizedFile),
        None => (lookup(c.files@, "file"@).unwrap(), ColorType::UnrecognizedFile),
    }
}

/// The attribute of a file whose key is `suffix`, after one alias hop.
pub open spec fn file_attr_alias_of(c: Config, suffix: Seq<char>) -> (Seq<char>, ColorType) {
    match lookup(c.file_aliases@, suffix) {
        Some(target) => file_attr_of(c, target),
        None => file_attr_of(c, suffix),
    }
}

/// The attribute of the folder `name`, looked up directly.
pub open spec fn folder_attr_of(c: Config, name: Seq<char>) -> (Seq<char>, ColorType) {
    match lookup(c.folders@, name) {
        Some(icon) => (icon, ColorType::Dir),
        None => (lookup(c.folders@, "folder"@).unwrap(), ColorType::Dir),
    }
}

/// The attribute of the folder `name`, after one alias hop.
pub open spec fn folder_attr_alias_of(c: Config, name: Seq<char>) -> (Seq<char>, ColorType) {
    match lookup(c.folder_aliases@, name) {
        Some(target) => folder_attr_of(c, target),
        None => folder_attr_of(c, name),
    }
}

/// The attribute of the entry at `path`.
pub open spec fn attr_of(c: Config, path: Seq<char>, is_dir: bool) -> (Seq<char>, ColorType) {
    if is_dir {
        folder_attr_alias_of(c, file_name_of(path))
    } else {
        file_attr_alias_of(c, file_key_of(file_name_of(path)))
    }
}

/// The attribute of a file whose key is `suffix`, looked up directly.
pub fn get_file_attr(conf: &Config, suffix: &String) -> (r: Attr)
    requires
        conf.wf(),
    ensures
        r.view_pair() == file_attr_of(*conf, suffix@),
{
    match table_get(&conf.files, suffix) {
        Some(icon) => Attr { icon, color: ColorType::RecognizedFile },
        None => {
            let fallback = String::from_str("file");
            match table_get(&conf.files, &fallback) {
                Some(icon) => Attr { icon, color: ColorType::UnrecognizedFile },
                None => Attr { icon: String::new(), color: ColorType::UnrecognizedFile },
            }
        },
    }
}

/// The attribute of a file whose key is `suffix`, after one alias hop.
pub fn get_file_attr_alias(conf: &Config, suffix: &String) -> (r: Attr)
    requires
        conf.wf(),
    ensures
        r.view_pair() == file_attr_alias_of(*conf, suffix@),
{
    match table_get(&conf.file_aliases, suffix) {
        Some(alias) => get_file_attr(conf, &alias),
        None => get_file_attr(conf, suffix),
    }
}

/// The attribute of the folder `name`, looked up directly.
pub fn get_folder_attr(conf: &Config, name: &String) -> (r: Attr)
    requires
        conf.wf(),
    ensures
        r.view_pair() == folder_attr_of(*conf, name@),
{
    match table_get(&conf.folders, name) {
        Some(icon) => Attr { icon, color: ColorType::Dir },
        None => {
            let fallback = String::from_str("folder");
            match table_get(&conf.folders, &fallback) {
                Some(icon) => Attr { icon, color: ColorType::Dir },
                None => Attr { icon: String::new(), color: ColorType::Dir },
            }
        },
    }
}

/// The attribute of the folder `name`, after one alias hop.
pub fn get_folder_attr_alias(conf: &Config, name: &String) -> (r: Attr)
    requires
        conf.wf(),
    ensures
        r.view_pair() == folder_attr_alias_of(*conf, name@),
{
    match table_get(&conf.folder_aliases, name) {
        Some(alias) => get_folder_attr(conf, &alias),
        None => get_folder_attr(conf, name),
    }
}

/// The attribute of the entry at `path`, a folder where `is_dir` holds.
pub fn get_attr(config: &Config, path: &String, is_dir: bool) -> (r: Attr)
    requires
        config.wf(),
    ensures
        r.view_pair() == attr_of(*config, path@, is_dir),
{
    let name = file_name(path.as_str());
    if is_dir {
        get_folder_attr_alias(config, &name)
    } else {
        let key = file_key(name.as_str());
        get_file_attr_alias(config, &key)
    }
}

/// The colour that `config` shows the class `color` in.
pub fn real_color_for(config: &Config, color: ColorType) -> (r: RealColor)
    ensures
        r == real_color_of(config.colors@, color),
{
    let mut i: usize = config.colors.len();
    assert(config.colors@.take(i as int) =~= config.colors@);
    while i > 0
        invariant
            i <= config.colors@.len(),
            real_color_of(config.colors@, color) == real_color_of(
                config.colors@.take(i as int),
                color,
            ),
        decreases i,
    {
        assert(config.colors@.take(i as int).drop_last() =~= config.colors@.take(i - 1));
        let pair = config.colors[i - 1];
        if pair.0 == color {
            return pair.1;
        }
        i = i - 1;
    }
    RealColor::Grey
}

/// The escape sequence that sets the foreground to the colour of the class `color`.
pub open spec fn color_seq(config: Config, color: ColorType) -> Seq<char> {
    fg_palette_seq(palette_index(real_color_of(config.colors@, color)))
}

/// The escape sequence that sets the foreground to the colour of the class `color`.
pub fn color_for(config: &Config, color: ColorType) -> (r: String)
    ensures
        r@ == color_seq(*config, color),
{
    let shade = real_color_for(config, color);
    fg_palette(palette_entry(shade))
}

/// Whether `s` reads `lit`.
fn text_is(s: &String, lit: &str) -> (r: bool)
    ensures
        r == (s@ == lit@),
{
    *s == String::from_str(lit)
}

/// The colour class that a configuration file calls `s`.
pub open spec fn color_type_named(s: Seq<char>) -> Option<ColorType> {
    if s == "unrecognized_file"@ {
        Some(ColorType::UnrecognizedFile)
    } else if s == "recognized_file"@ {
        Some(ColorType::RecognizedFile)
    } else if s == "dir"@ {
        Some(ColorType::Dir)
    } else if s == "dead_link"@ {
        Some(ColorType::DeadLink)
    } else if s == "link"@ {
        Some(ColorType::Link)
    } else if s == "write"@ {
        Some(ColorType::Write)
    } else if s == "read"@ {
        Some(ColorType::Read)
    } else if s == "exec"@ {
        Some(ColorType::Exec)
    } else if s == "no_access"@ {
        Some(ColorType::NoAccess)
    } else if s == "day_old"@ {
        Some(ColorType::DayOld)
    } else if s == "hour_old"@ {
        Some(ColorType::HourOld)
    } else if s == "no_modifier"@ {
        Some(ColorType::NoModifier)
    } else if s == "report"@ {
        Some(ColorType::Report)
    } else if s == "user"@ {
        Some(ColorType::User)
    } else if s == "tree"@ {
        Some(ColorType::Tree)
    } else if s == "empty"@ {
        Some(ColorType::Empty)
    } else if s == "normal"@ {
        Some(ColorType::Normal)
    } else {
        None
    }
}

/// The colour class that a configuration file calls `name`, if any.
pub fn color_type_from_name(name: &String) -> (r: Option<ColorType>)
    ensures
        r == color_type_named(name@),
{
    if text_is(name, "unrecognized_file") {
        Some(ColorType::UnrecognizedFile)
    } else if text_is(name, "recognized_file") {
        Some(ColorType::RecognizedFile)
    } else if text_is(name, "dir") {
        Some(ColorType::Dir)
    } else if text_is(name, "dead_link") {
        Some(ColorType::DeadLink)
    } else if text_is(name, "link") {
        Some(ColorType::Link)
    } else if text_is(name, "write") {
        Some(ColorType::Write)
    } else if text_is(name, "read") {
        Some(ColorType::Read)
    } else if text_is(name, "exec") {
        Some(ColorType::Exec)
    } else if text_is(name, "no_access") {
        Some(ColorType::NoAccess)
    } else if text_is(name, "day_old") {
        Some(ColorType::DayOld)
    } else if text_is(name, "hour_old") {
        Some(ColorType::HourOld)
    } else if text_is(name, "no_modifier") {
        Some(ColorType::NoModifier)
    } else if text_is(name, "report") {
        Some(ColorType::Report)
    } else if text_is(name, "user") {
        Some(ColorType::User)
    } else if text_is(name, "tree") {
        Some(ColorType::Tree)
    } else if text_is(name, "empty") {
        Some(ColorType::Empty)
    } else if text_is(name, "normal") {
        Some(ColorType::Normal)
    } else {
        None
    }
}

/// The colour that a configuration file calls `s`.
pub open spec fn real_color_named(s: Seq<char>) -> Option<RealColor> {
    if s == "yellow"@ {
        Some(RealColor::Yellow)
    } else if s == "green"@ {
        Some(RealColor::Green)
    } else if s == "blue"@ {
        Some(RealColor::Blue)
    } else if s == "red"@ {
        Some(RealColor::Red)
    } else if s == "cyan"@ {
        Some(RealColor::Cyan)
    } else if s == "magenta"@ {
        Some(RealColor::Magenta)
    } else if s == "grey"@ {
        Some(RealColor::Grey)
    } else if s == "white"@ {
        Some(RealColor::White)
    } else if s == "black"@ {
        Some(RealColor::Black)
    } else {
        None
    }
}

/// The colour that a configuration file calls `name`, if any.
pub fn real_color_from_name(name: &String) -> (r: Option<RealColor>)
    ensures
        r == real_color_named(name@),
{
    if text_is(name, "yellow") {
        Some(RealColor::Yellow)
    } else if text_is(name, "green") {
        Some(RealColor::Green)
    } else if text_is(name, "blue") {
        Some(RealColor::Blue)
    } else if text_is(name, "red") {
        Some(RealColor::Red)
    } else if text_is(name, "cyan") {
        Some(RealColor::Cyan)
    } else if text_is(name, "magenta") {
        Some(RealColor::Magenta)
    } else if text_is(name, "grey") {
        Some(RealColor::Grey)
    } else if text_is(name, "white") {
        Some(RealColor::White)
    } else if text_is(name, "black") {
        Some(RealColor::Black)
    } else {
        None
    }
}

} // verus!
