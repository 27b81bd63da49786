use tubedb::Error;
use tubedb::{RegionInfo, ViewYearRange};

fn expected_nature40() -> RegionInfo {
    RegionInfo {
        identifier: "nature40".to_string(),
        name: "Nature 4.0".to_string(),
        view_year_range: ViewYearRange {
            start: 2017,
            end: 2021,
        },
    }
}

#[test]
fn test_deserialize_region_info() {
    let result = RegionInfo::parse_document(
        "{\"id\":\"nature40\",\"name\":\"Nature 4.0\",\"view_year_range\":{\"start\":\"2017\",\"end\":\"2021\"}}",
    )
    .unwrap();
    assert_eq!(expected_nature40(), result);
}

#[test]
fn test_region_info_integer_years() {
    let result = RegionInfo::parse_document(
        "{\"id\":\"nature40\",\"name\":\"Nature 4.0\",\"view_year_range\":{\"start\":2017,\"end\":2021}}",
    )
    .unwrap();
    assert_eq!(expected_nature40(), result);
}

#[test]
fn test_region_info_member_order_free() {
    let result = RegionInfo::parse_document(
        "{ \"view_year_range\": { \"end\": \"2021\", \"start\": \"2017\" }, \"name\": \"Nature 4.0\", \"id\": \"nature40\" }",
    )
    .unwrap();
    assert_eq!(expected_nature40(), result);
}

#[test]
fn test_region_info_missing_field() {
    let res =
        RegionInfo::parse_document("{\"id\":\"x\",\"view_year_range\":{\"start\":1,\"end\":2}}");
    assert!(matches!(res, Err(Error::Parse(_))));
}

#[test]
fn test_region_info_wrong_year_type() {
    let res = RegionInfo::parse_document(
        "{\"id\":\"x\",\"name\":\"y\",\"view_year_range\":{\"start\":true,\"end\":2}}",
    );
    assert!(matches!(res, Err(Error::Parse(_))));
}

#[test]
fn test_region_info_non_numeric_year_string() {
    let res = RegionInfo::parse_document(
        "{\"id\":\"x\",\"name\":\"y\",\"view_year_range\":{\"start\":\"soon\",\"end\":\"2\"}}",
    );
    assert!(matches!(res, Err(Error::Parse(_))));
}

#[test]
fn test_region_info_unknown_member_ignored() {
    let res = RegionInfo::parse_document(
        "{\"id\":\"x\",\"name\":\"y\",\"extra\":1,\"view_year_range\":{\"start\":1,\"end\":2}}",
    )
    .unwrap();
    assert_eq!("x", res.identifier);
    assert_eq!(1, res.view_year_range.start);
}

#[test]
fn test_region_info_unknown_members_of_every_shape_ignored() {
    let res = RegionInfo::parse_document(
        "{\"a\":\"s\",\"id\":\"x\",\"b\":-1.5e3,\"name\":\"y\",\"c\":[1,\"two\",{\"d\":null}],\"view_year_range\":{\"e\":true,\"start\":1,\"f\":{},\"end\":2},\"g\":false}",
    )
    .unwrap();
    assert_eq!("y", res.name);
    assert_eq!(2, res.view_year_range.end);
}

#[test]
fn test_region_info_escaped_quote_in_id() {
    let res = RegionInfo::parse_document(
        "{\"id\":\"a\\\"b\",\"name\":\"tab\\there\",\"view_year_range\":{\"start\":1,\"end\":2}}",
    )
    .unwrap();
    assert_eq!("a\"b", res.identifier);
    assert_eq!("tab\there", res.name);
}

#[test]
fn test_region_info_unicode_escapes() {
    let res = RegionInfo::parse_document(
        "{\"id\":\"\\u0041\",\"name\":\"\\uD83D\\uDE00\",\"view_year_range\":{\"start\":1,\"end\":2}}",
    )
    .unwrap();
    assert_eq!("A", res.identifier);
    assert_eq!("\u{1F600}", res.name);
}

#[test]
fn test_region_info_lone_surrogate_rejected() {
    let res = RegionInfo::parse_document(
        "{\"id\":\"\\uD83D\",\"name\":\"y\",\"view_year_range\":{\"start\":1,\"end\":2}}",
    );
    assert!(matches!(res, Err(Error::Parse(_))));
}

#[test]
fn test_region_info_duplicate_member() {
    let res = RegionInfo::parse_document(
        "{\"id\":\"x\",\"id\":\"y\",\"name\":\"y\",\"view_year_range\":{\"start\":1,\"end\":2}}",
    );
    assert!(matches!(res, Err(Error::Parse(_))));
}

#[test]
fn test_region_info_trailing_garbage() {
    let res = RegionInfo::parse_document(
        "{\"id\":\"x\",\"name\":\"y\",\"view_year_range\":{\"start\":1,\"end\":2}} tail",
    );
    assert!(matches!(res, Err(Error::Parse(_))));
}

#[test]
fn test_region_info_year_string_leading_zeros() {
    let result = RegionInfo::parse_document(
        "{\"id\":\"x\",\"name\":\"y\",\"view_year_range\":{\"start\":\"0017\",\"end\":\"+2\"}}",
    )
    .unwrap();
    assert_eq!(17, result.view_year_range.start);
    assert_eq!(2, result.view_year_range.end);
}

#[test]
fn test_region_info_year_overflow() {
    let res = RegionInfo::parse_document(
        "{\"id\":\"x\",\"name\":\"y\",\"view_year_range\":{\"start\":\"9223372036854775808\",\"end\":\"1\"}}",
    );
    assert!(matches!(res, Err(Error::Parse(_))));
}

#[test]
fn test_region_info_year_extremes() {
    let result = RegionInfo::parse_document(
        "{\"id\":\"x\",\"name\":\"y\",\"view_year_range\":{\"start\":\"-9223372036854775808\",\"end\":9223372036854775807}}",
    )
    .unwrap();
    assert_eq!(i64::MIN, result.view_year_range.start);
    assert_eq!(i64::MAX, result.view_year_range.end);
}

#[test]
fn test_region_info_error_names_body() {
    let err = RegionInfo::parse_document("nonsense").unwrap_err();
    match err {
        Error::Parse(m) => assert_eq!(m, "Could not parse region info. Body \"nonsense\""),
        other => panic!("expected a parse error, got {:?}", other),
    }
}
