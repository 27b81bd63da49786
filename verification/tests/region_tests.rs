use tubedb::Error;
use tubedb::Region;

#[test]
fn test_region_ok() {
    let res = Region::parse_line("DE;Germany").unwrap();
    assert_eq!(
        Region {
            identifier: "DE".to_string(),
            name: "Germany".to_string(),
        },
        res
    );
}

#[test]
fn test_region_trim_ok() {
    let res = Region::parse_line("DE ; Germany ").unwrap();
    assert_eq!(
        Region {
            identifier: "DE".to_string(),
            name: "Germany".to_string(),
        },
        res
    );
}

#[test]
fn test_region_trim_nok() {
    let res = Region::parse_line("DE:Germany");
    assert!(res.is_err());
}

#[test]
fn test_region_list_ok() {
    let res = Region::parse_list("DE;Germany\nFR;France ").unwrap();
    assert_eq!(
        vec![
            Region {
                identifier: "DE".to_string(),
                name: "Germany".to_string(),
            },
            Region {
                identifier: "FR".to_string(),
                name: "France".to_string(),
            }
        ],
        res
    );
}

#[test]
fn test_region_list_empty() {
    let res = Region::parse_list("").unwrap();
    assert!(res.is_empty());
}

#[test]
fn test_region_list_empty_spaces() {
    let res = Region::parse_list(" ").unwrap();
    assert!(res.is_empty());
}

#[test]
fn test_region_unicode_whitespace_blank_input() {
    let res = Region::parse_list("\u{a0}\u{2003}").unwrap();
    assert!(res.is_empty());
}

#[test]
fn test_region_unicode_whitespace_trimmed() {
    let res = Region::parse_line("\u{a0}DE\u{2003};\u{2009}Germany\u{a0}").unwrap();
    assert_eq!(
        Region {
            identifier: "DE".to_string(),
            name: "Germany".to_string(),
        },
        res
    );
}

#[test]
fn test_region_line_error_names_line() {
    let err = Region::parse_line("abc").unwrap_err();
    match err {
        Error::Parse(m) => assert_eq!(m, "Could not parse region name. Line \"abc\""),
        other => panic!("expected a parse error, got {:?}", other),
    }
}

#[test]
fn test_region_list_error_names_trimmed_line() {
    let err = Region::parse_list("DE;Germany\n  broken line \nFR;France").unwrap_err();
    match err {
        Error::Parse(m) => assert_eq!(m, "Could not parse region name. Line \"broken line\""),
        other => panic!("expected a parse error, got {:?}", other),
    }
}

#[test]
fn test_region_extra_fields_ignored() {
    let res = Region::parse_line("DE;Germany;extra;fields").unwrap();
    assert_eq!(
        Region {
            identifier: "DE".to_string(),
            name: "Germany".to_string(),
        },
        res
    );
}

#[test]
fn test_region_list_blank_lines_dropped() {
    let res = Region::parse_list("\n  \nDE;Germany\n\nFR;France\n").unwrap();
    assert_eq!(2, res.len());
    assert_eq!("DE", res[0].identifier);
    assert_eq!("FR", res[1].identifier);
}
