use recolour::{Color, ColorSchemes, RecolourError};

fn entry(name: &str, colors: &[&str]) -> (String, Vec<String>) {
    (name.to_string(), colors.iter().map(|c| c.to_string()).collect())
}

const DOCUMENT: &str = "\
nord:
  - \"#2E3440\"
  - \"#88C0D0\"
gruvbox:
  - \"#282828\"
  - \"ebdbb2\"
  - \"#CC241D\"
a:
  - \"#000000\"
  - \"#FFFFFF\"
";

#[test]
fn document_is_loaded() {
    let schemes = ColorSchemes::new(DOCUMENT).unwrap();
    assert_eq!(
        schemes.get_scheme("gruvbox"),
        Ok(vec![
            Color { r: 0x28, g: 0x28, b: 0x28 },
            Color { r: 0xeb, g: 0xdb, b: 0xb2 },
            Color { r: 0xcc, g: 0x24, b: 0x1d }
        ])
    );
    assert_eq!(
        schemes.get_scheme("a"),
        Ok(vec![Color { r: 0, g: 0, b: 0 }, Color { r: 255, g: 255, b: 255 }])
    );
}

#[test]
fn names_are_listed_in_ascending_order() {
    let schemes = ColorSchemes::new(DOCUMENT).unwrap();
    assert_eq!(schemes.list_schemes(), vec!["a", "gruvbox", "nord"]);
}

#[test]
fn names_are_listed_whatever_the_order_of_loading() {
    let forward = ColorSchemes::from_entries(&vec![
        entry("alpha", &["000000"]),
        entry("beta", &["111111"]),
        entry("gamma", &["222222"]),
    ])
    .unwrap();
    let backward = ColorSchemes::from_entries(&vec![
        entry("gamma", &["222222"]),
        entry("alpha", &["000000"]),
        entry("beta", &["111111"]),
    ])
    .unwrap();
    assert_eq!(forward.list_schemes(), vec!["alpha", "beta", "gamma"]);
    assert_eq!(backward.list_schemes(), forward.list_schemes());
    assert_eq!(backward.get_scheme("beta"), Ok(vec![Color { r: 17, g: 17, b: 17 }]));
}

#[test]
fn names_are_ordered_character_by_character() {
    let schemes = ColorSchemes::from_entries(&vec![
        entry("b", &[]),
        entry("ab", &[]),
        entry("a", &[]),
        entry("B", &[]),
        entry("", &[]),
        entry("abc", &[]),
        entry("\u{e9}t\u{e9}", &[]),
        entry("z", &[]),
        entry("10", &[]),
        entry("9", &[]),
    ])
    .unwrap();
    let mut expected = vec!["b", "ab", "a", "B", "", "abc", "\u{e9}t\u{e9}", "z", "10", "9"];
    expected.sort();
    assert_eq!(schemes.list_schemes(), expected);
    assert_eq!(
        schemes.list_schemes(),
        vec!["", "10", "9", "B", "a", "ab", "abc", "b", "z", "\u{e9}t\u{e9}"]
    );
}

#[test]
fn unknown_scheme_is_refused() {
    let schemes = ColorSchemes::new(DOCUMENT).unwrap();
    let before = schemes.list_schemes();
    assert_eq!(
        schemes.get_scheme("nonexistent"),
        Err(RecolourError::UnknownScheme("nonexistent".to_string()))
    );
    assert_eq!(schemes.list_schemes(), before);
}

#[test]
fn names_are_matched_exactly() {
    let schemes = ColorSchemes::new(DOCUMENT).unwrap();
    for name in ["Gruvbox", "gruvbox ", " gruvbox", "gruvbo", "gruvboxx", ""] {
        assert_eq!(
            schemes.get_scheme(name),
            Err(RecolourError::UnknownScheme(name.to_string()))
        );
    }
}

#[test]
fn palette_keeps_the_order_of_the_document() {
    let document = "s:\n  - \"#030303\"\n  - \"#010101\"\n  - \"#020202\"\n  - \"#010101\"\n";
    let schemes = ColorSchemes::new(document).unwrap();
    assert_eq!(
        schemes.get_scheme("s"),
        Ok(vec![
            Color { r: 3, g: 3, b: 3 },
            Color { r: 1, g: 1, b: 1 },
            Color { r: 2, g: 2, b: 2 },
            Color { r: 1, g: 1, b: 1 }
        ])
    );
}

#[test]
fn malformed_document_is_refused() {
    assert!(matches!(ColorSchemes::new("a: [\"#000000\""), Err(RecolourError::Parse(_))));
}

#[test]
fn document_that_is_no_mapping_is_refused() {
    assert!(matches!(
        ColorSchemes::new("- \"#000000\"\n- \"#ffffff\"\n"),
        Err(RecolourError::Parse(_))
    ));
    assert!(matches!(ColorSchemes::new("a: \"#000000\"\n"), Err(RecolourError::Parse(_))));
}

#[test]
fn bad_colour_fails_the_whole_load() {
    let result = ColorSchemes::new("a:\n  - \"#000000\"\nb:\n  - \"GGHHII\"\n");
    assert!(matches!(result, Err(RecolourError::InvalidColor(text)) if text == "GGHHII"));
}

#[test]
fn first_bad_colour_of_the_entries_is_reported() {
    let result = ColorSchemes::from_entries(&vec![
        entry("z", &["#000000", "#ffffff"]),
        entry("y", &["#000000", "first", "second"]),
        entry("a", &["third"]),
    ]);
    assert!(matches!(result, Err(RecolourError::InvalidColor(text)) if text == "first"));
}

#[test]
fn later_entry_of_a_name_replaces_the_earlier() {
    let schemes = ColorSchemes::from_entries(&vec![
        entry("a", &["#000000"]),
        entry("b", &["#111111"]),
        entry("a", &["#ffffff", "#eeeeee"]),
    ])
    .unwrap();
    assert_eq!(schemes.list_schemes(), vec!["a", "b"]);
    assert_eq!(
        schemes.get_scheme("a"),
        Ok(vec![Color { r: 255, g: 255, b: 255 }, Color { r: 0xee, g: 0xee, b: 0xee }])
    );
}

#[test]
fn scheme_without_colours_is_loaded_empty() {
    let schemes = ColorSchemes::new("bare: []\n").unwrap();
    assert_eq!(schemes.get_scheme("bare"), Ok(Vec::new()));
}

#[test]
fn no_entries_make_an_empty_catalogue() {
    let schemes = ColorSchemes::from_entries(&Vec::new()).unwrap();
    assert!(schemes.list_schemes().is_empty());
    assert_eq!(schemes.get_scheme("a"), Err(RecolourError::UnknownScheme("a".to_string())));
}
