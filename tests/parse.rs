use colorls::attr::{color_type_from_name, real_color_from_name, ColorType, RealColor};
use colorls::layout::list_entries;
use colorls::attr::{Config, Table};
use colorls::entry::Printer;
use colorls::layout::Formatter;

fn table(pairs: &[(&str, &str)]) -> Table {
    pairs.iter().map(|(k, v)| (k.to_string(), v.to_string())).collect()
}

#[test]
fn colour_class_names_parse() {
    assert_eq!(color_type_from_name(&"dir".to_string()), Some(ColorType::Dir));
    assert_eq!(color_type_from_name(&"unrecognized_file".to_string()), Some(ColorType::UnrecognizedFile));
    assert_eq!(color_type_from_name(&"normal".to_string()), Some(ColorType::Normal));
    assert_eq!(color_type_from_name(&"Dir".to_string()), None);
}

#[test]
fn colour_names_parse() {
    assert_eq!(real_color_from_name(&"grey".to_string()), Some(RealColor::Grey));
    assert_eq!(real_color_from_name(&"black".to_string()), Some(RealColor::Black));
    assert_eq!(real_color_from_name(&"purple".to_string()), None);
}

#[test]
fn listing_resolves_sorts_and_renders() {
    let c = Config::new(
        table(&[("file", "F"), ("txt", "T")]),
        vec![],
        table(&[("folder", "D")]),
        vec![],
        vec![],
        40,
        Printer::Short,
    )
    .unwrap();
    let items = vec![
        ("/x/subdir".to_string(), true),
        ("/x/b.txt".to_string(), false),
        ("/x/a.txt".to_string(), false),
    ];
    let out = list_entries(&c, Formatter::Planning, &items);
    assert_eq!(out.len(), 1);
    assert_eq!(out[0].len(), 3);
    assert_eq!(out[0][0], "T\x1b[38;5;102ma.txt \x1b[39m");
    assert_eq!(out[0][2], "D\x1b[38;5;102msubdir \x1b[39m");
}
