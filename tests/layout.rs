use colorls::attr::{color_for, get_attr, get_file_attr, get_file_attr_alias, get_folder_attr_alias};
use colorls::attr::{ColorType, Config, ConfigError, RealColor, Table};
use colorls::entry::{short_name, Entry, EntryPrinterConfig, Printer};
use colorls::layout::{format_as_rows, is_valid_as_rows, max_width, plan_row_cap, Formatter};
use colorls::order::{path_le, sort_entries};

fn table(pairs: &[(&str, &str)]) -> Table {
    pairs.iter().map(|(k, v)| (k.to_string(), v.to_string())).collect()
}

fn config(printer: Printer, width: usize) -> Config {
    Config::new(
        table(&[("file", "F"), ("txt", "T"), ("jpg", "J"), ("jpeg", "X")]),
        table(&[("jpeg", "jpg"), ("jfif", "jpeg")]),
        table(&[("folder", "D"), ("src", "S")]),
        table(&[("source", "src")]),
        vec![(ColorType::RecognizedFile, RealColor::Yellow), (ColorType::Dir, RealColor::Blue)],
        width,
        printer,
    )
    .unwrap()
}

fn entries(c: &Config, items: &[(&str, bool)]) -> Vec<Entry> {
    items.iter().map(|(p, d)| Entry::new(c, p.to_string(), *d)).collect()
}

#[test]
fn missing_defaults_are_refused() {
    let r = Config::new(table(&[("txt", "T")]), vec![], table(&[("folder", "D")]), vec![], vec![], 80, Printer::Short);
    assert_eq!(r.err(), Some(ConfigError::MissingFileDefault));
    let r = Config::new(table(&[("file", "F")]), vec![], table(&[("src", "S")]), vec![], vec![], 80, Printer::Short);
    assert_eq!(r.err(), Some(ConfigError::MissingFolderDefault));
}

#[test]
fn alias_resolves_like_its_target() {
    let c = config(Printer::Short, 80);
    let via_alias = get_file_attr_alias(&c, &"jpeg".to_string());
    let direct = get_file_attr(&c, &"jpg".to_string());
    assert_eq!(via_alias.icon, direct.icon);
    assert_eq!(via_alias.icon, "J");
    assert_eq!(via_alias.color, direct.color);
}

#[test]
fn alias_is_followed_once_only() {
    let c = config(Printer::Short, 80);
    // "jfif" names "jpeg", which is itself an alias; the direct "jpeg" icon is used.
    let a = get_file_attr_alias(&c, &"jfif".to_string());
    assert_eq!(a.icon, "X");
    assert_eq!(a.color, ColorType::RecognizedFile);
}

#[test]
fn unknown_extension_falls_back() {
    let c = config(Printer::Short, 80);
    let a = get_file_attr_alias(&c, &"xyz123".to_string());
    assert_eq!(a.icon, "F");
    assert_eq!(a.color, ColorType::UnrecognizedFile);
}

#[test]
fn folders_resolve_through_alias_and_default() {
    let c = config(Printer::Short, 80);
    let a = get_folder_attr_alias(&c, &"source".to_string());
    assert_eq!(a.icon, "S");
    assert_eq!(a.color, ColorType::Dir);
    let b = get_attr(&c, &"/tmp/unknown".to_string(), true);
    assert_eq!(b.icon, "D");
    assert_eq!(b.color, ColorType::Dir);
    let f = get_attr(&c, &"/tmp/notes.txt".to_string(), false);
    assert_eq!(f.icon, "T");
}

#[test]
fn colours_come_from_the_table_or_grey() {
    let c = config(Printer::Short, 80);
    assert_eq!(color_for(&c, ColorType::RecognizedFile), "\x1b[38;5;3m");
    assert_eq!(color_for(&c, ColorType::Dir), "\x1b[38;5;4m");
    assert_eq!(color_for(&c, ColorType::UnrecognizedFile), "\x1b[38;5;102m");
}

#[test]
fn prediction_adds_the_decoration() {
    let short = config(Printer::Short, 80);
    let long = config(Printer::Long, 80);
    let e = Entry::new(&short, "/d/a\u{310}b.txt".to_string(), false);
    assert_eq!(Printer::Short.predict(&e), 6 + 3);
    assert_eq!(Printer::Long.predict(&e), 9 + 2);
    assert_eq!(short_name(&e), "a\u{310}b.txt");
    assert_eq!(max_width(&long, &vec![e]), 11);
}

#[test]
fn cell_is_icon_colour_padded_name_reset() {
    let c = config(Printer::Short, 80);
    let e = Entry::new(&c, "a.txt".to_string(), false);
    let cell = Printer::Short.format(&c, &EntryPrinterConfig { width: 9 }, &e);
    assert_eq!(cell, "T\x1b[38;5;3ma.txt  \x1b[39m");
    let cell = Printer::Long.format(&c, &EntryPrinterConfig { width: 7 }, &e);
    assert_eq!(cell, "T \x1b[38;5;3ma.txt\x1b[39m");
}

#[test]
fn end_to_end_short_listing() {
    let c = config(Printer::Short, 40);
    let names = entries(&c, &[("subdir", true), ("b.txt", false), ("a.txt", false)]);
    assert_eq!(names[0].attr.color, ColorType::Dir);
    assert_eq!(names[1].attr.color, ColorType::RecognizedFile);
    let out = Formatter::Planning.format(&c, names);
    let cells: Vec<&String> = out.iter().flatten().collect();
    assert_eq!(cells.len(), 3);
    assert_eq!(out.len(), 1);
    assert_eq!(out[0][0], "T\x1b[38;5;3ma.txt \x1b[39m");
    assert_eq!(out[0][1], "T\x1b[38;5;3mb.txt \x1b[39m");
    assert_eq!(out[0][2], "D\x1b[38;5;4msubdir \x1b[39m");
}

#[test]
fn layout_is_deterministic_whatever_the_arrival_order() {
    let c = config(Printer::Short, 30);
    let one = entries(&c, &[("c.txt", false), ("a.txt", false), ("b", true), ("dd.jpg", false)]);
    let two = entries(&c, &[("dd.jpg", false), ("b", true), ("a.txt", false), ("c.txt", false)]);
    let first = Formatter::Planning.format(&c, one);
    let second = Formatter::Planning.format(&c, two);
    assert_eq!(first, second);
}

#[test]
fn empty_listing_gives_empty_grid() {
    let c = config(Printer::Short, 40);
    assert!(Formatter::Planning.format(&c, Vec::new()).is_empty());
    assert!(Formatter::Naive.format(&c, Vec::new()).is_empty());
}

#[test]
fn planner_picks_most_columns_that_fit() {
    let c = config(Printer::Short, 40);
    // widths 8, 8, 9: eight to a row is the first candidate and fits (25 < 40)
    let names = entries(&c, &[("a.txt", false), ("b.txt", false), ("subdir", true)]);
    assert_eq!(plan_row_cap(&c, &names), 8);
    assert!(is_valid_as_rows(&c, &names, 8));
}

#[test]
fn planner_stops_below_terminal_width() {
    let c = config(Printer::Short, 20);
    // ten entries of width 4 + 3 = 7: 20 / 8 = 2 is the least bound, 20 / 5 = 4 the most;
    // four columns take 28, three take 21, neither below 20, so two to a row.
    let names: Vec<Entry> = (0..10).map(|i| Entry::new(&c, format!("f{}.txt", i), false)).collect();
    assert_eq!(plan_row_cap(&c, &names), 2);
    assert!(!is_valid_as_rows(&c, &names, 3));
    assert!(is_valid_as_rows(&c, &names, 2));
}

#[test]
fn overwide_entry_gets_a_row_of_its_own() {
    let c = config(Printer::Short, 10);
    let names = entries(&c, &[("a_very_long_name.txt", false), ("b.txt", false)]);
    assert_eq!(plan_row_cap(&c, &names), 1);
    let out = Formatter::Planning.format(&c, names);
    assert_eq!(out.len(), 2);
    assert_eq!(out[0].len(), 1);
}

#[test]
fn naive_packing_uses_uniform_cells() {
    let c = config(Printer::Short, 40);
    // widest is 9; cells of 11 give three to a row
    let names = entries(&c, &[("a.txt", false), ("b.txt", false), ("c.txt", false), ("d.txt", false), ("subdir", true)]);
    let out = Formatter::Naive.format(&c, names);
    assert_eq!(out.len(), 2);
    assert_eq!(out[0].len(), 3);
    assert_eq!(out[1].len(), 2);
}

#[test]
fn rows_share_column_widths() {
    let c = config(Printer::Short, 80);
    let names = entries(&c, &[("a.txt", false), ("bbbb.txt", false), ("ccc.txt", false), ("d.txt", false)]);
    let out = format_as_rows(&c, names, 2);
    assert_eq!(out.len(), 2);
    // column 0 holds a.txt (8) and ccc.txt (10): padded to 8 characters
    assert_eq!(out[0][0], "T\x1b[38;5;3ma.txt   \x1b[39m");
    assert_eq!(out[1][0], "T\x1b[38;5;3mccc.txt \x1b[39m");
}

#[test]
fn sorting_orders_by_path() {
    let c = config(Printer::Short, 80);
    let names = entries(&c, &[("b", false), ("a.txt", false), ("ab", true), ("a", false)]);
    let sorted = sort_entries(names);
    let paths: Vec<&str> = sorted.iter().map(|e| e.path.as_str()).collect();
    assert_eq!(paths, vec!["a", "a.txt", "ab", "b"]);
    assert!(path_le("a", "ab"));
    assert!(!path_le("b", "ab"));
}

#[test]
fn order_goes_by_components() {
    assert!(path_le("a/b", "a.b"));
    assert!(!path_le("a.b", "a/b"));
    assert!(path_le("/z", "a"));
    assert!(path_le("a/b/", "a//b"));
    assert!(path_le("a//b", "a/b/"));
}

#[test]
fn entries_with_equal_paths_are_equal() {
    let c = config(Printer::Short, 80);
    let one = Entry::new(&c, "d/a.txt".to_string(), false);
    let two = Entry::new(&c, "d//a.txt".to_string(), true);
    let three = Entry::new(&c, "d/b.txt".to_string(), false);
    assert!(one == two);
    assert!(one != three);
}

#[test]
fn sort_keeps_order_of_equal_paths() {
    let c = config(Printer::Short, 80);
    let names = entries(&c, &[("b", false), ("x/src", true), ("x/src/", false), ("a", false)]);
    let sorted = sort_entries(names);
    let paths: Vec<&str> = sorted.iter().map(|e| e.path.as_str()).collect();
    assert_eq!(paths, vec!["a", "b", "x/src", "x/src/"]);
    assert_eq!(sorted[2].attr.color, ColorType::Dir);
    assert_eq!(sorted[3].attr.color, ColorType::UnrecognizedFile);
}
