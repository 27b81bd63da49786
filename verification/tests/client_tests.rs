use tubedb::{AuthInfo, Error, RegionInfo, TubeDBClient, ViewYearRange};

#[test]
fn test_client_new_valid_url() {
    let client = TubeDBClient::new("http://example.com:8100", AuthInfo::NoAuth).unwrap();
    assert_eq!("http://example.com:8100", client.base_url);
}

#[test]
fn test_client_new_invalid_url() {
    let res = TubeDBClient::new("not a url", AuthInfo::NoAuth);
    assert!(matches!(res, Err(Error::InvalidUrl)));
}

#[test]
fn test_endpoint_paths() {
    assert_eq!("/tsdb/region_list", TubeDBClient::region_list_path());
    assert_eq!("/tsdb/region.json", TubeDBClient::region_json_path());
}

#[test]
fn test_sentinel_yields_unknown_region() {
    let res = TubeDBClient::interpret_region_json("ASDF", "region not found");
    match res {
        Err(Error::InvalidRegion(id)) => assert_eq!("ASDF", id),
        other => panic!("expected an unknown-region error, got {:?}", other),
    }
}

#[test]
fn test_sentinel_is_matched_verbatim() {
    // A body that merely resembles the sentinel is parsed as a document
    // and fails as one, not as an unknown region.
    let res = TubeDBClient::interpret_region_json("ASDF", " region not found");
    assert!(matches!(res, Err(Error::Parse(_))));
}

#[test]
fn test_interpret_region_json_ok() {
    let res = TubeDBClient::interpret_region_json(
        "nature40",
        "{\"id\":\"nature40\",\"name\":\"Nature 4.0\",\"view_year_range\":{\"start\":\"2017\",\"end\":\"2021\"}}",
    )
    .unwrap();
    assert_eq!(
        RegionInfo {
            identifier: "nature40".to_string(),
            name: "Nature 4.0".to_string(),
            view_year_range: ViewYearRange {
                start: 2017,
                end: 2021,
            },
        },
        res
    );
}
