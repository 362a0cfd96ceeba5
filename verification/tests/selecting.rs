use recolour::{parse_selection, select_scheme, RecolourError};

fn refused(line: &str) -> Result<usize, RecolourError> {
    Err(RecolourError::InvalidSelection(line.to_string()))
}

#[test]
fn number_selects_counted_from_one() {
    assert_eq!(parse_selection("1", 3), Ok(0));
    assert_eq!(parse_selection("2", 3), Ok(1));
    assert_eq!(parse_selection("3", 3), Ok(2));
}

#[test]
fn white_space_around_the_number_is_dropped() {
    assert_eq!(parse_selection("2\n", 3), Ok(1));
    assert_eq!(parse_selection("  \t2 \r\n", 3), Ok(1));
    assert_eq!(parse_selection("\u{a0}2\u{2003}\u{3000}", 3), Ok(1));
}

#[test]
fn plus_and_leading_zeros_are_read() {
    assert_eq!(parse_selection("+2", 3), Ok(1));
    assert_eq!(parse_selection("0002", 3), Ok(1));
    assert_eq!(parse_selection("+00000000000000000000000000000000000002", 3), Ok(1));
}

#[test]
fn numbers_out_of_range_are_refused() {
    assert_eq!(parse_selection("0", 3), refused("0"));
    assert_eq!(parse_selection("4", 3), refused("4"));
    assert_eq!(parse_selection("1", 0), refused("1"));
    assert_eq!(
        parse_selection("340282366920938463463374607431768211456", 3),
        refused("340282366920938463463374607431768211456")
    );
    assert_eq!(
        parse_selection("99999999999999999999999999999999999999999999999999", usize::MAX),
        refused("99999999999999999999999999999999999999999999999999")
    );
}

#[test]
fn largest_count_is_selected() {
    assert_eq!(parse_selection("18446744073709551615", usize::MAX), Ok(usize::MAX - 1));
}

#[test]
fn lines_that_are_no_number_are_refused() {
    let lines =
        ["", " ", "\n", "+", "-1", "1.0", "one", "1 2", "+ 1", "++1", "1+", "0x1", "\u{661}"];
    for line in lines {
        assert_eq!(parse_selection(line, 3), refused(line));
    }
}

#[test]
fn name_is_selected_from_the_list() {
    let names = vec!["a".to_string(), "gruvbox".to_string(), "nord".to_string()];
    assert_eq!(select_scheme(&names, "2\n"), Ok("gruvbox".to_string()));
    assert_eq!(select_scheme(&names, "3"), Ok("nord".to_string()));
    assert_eq!(
        select_scheme(&names, "4\n"),
        Err(RecolourError::InvalidSelection("4\n".to_string()))
    );
    assert_eq!(
        select_scheme(&Vec::new(), "1"),
        Err(RecolourError::InvalidSelection("1".to_string()))
    );
}
