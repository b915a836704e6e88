use milli_postings::asc_desc::{AscDescError, CriterionError, SortError};

fn s(text: &str) -> String {
    text.to_string()
}

#[test]
fn sort_error_message() {
    let errors = [
        (
            AscDescError::InvalidSyntax { name: s("truc:machin") },
            s("invalid syntax for the sort parameter `truc:machin`."),
        ),
        (
            AscDescError::InvalidSyntax { name: s("hello:world") },
            s("invalid syntax for the sort parameter `hello:world`."),
        ),
        (
            AscDescError::ReservedKeyword { name: s("_geo") },
            s("`_geo` is a reserved keyword and thus can't be used as a sort expression. Use the `_geoPoint(latitude, longitude)` built-in rule to sort on `_geo` field coordinates."),
        ),
        (
            AscDescError::ReservedKeyword { name: s("_geoDistance") },
            s("_geoDistance is a reserved keyword and thus can't be used as a sort expression."),
        ),
        (
            AscDescError::ReservedKeyword { name: s("_geoRadius(12, 13)") },
            s("`_geoRadius` is a reserved keyword and thus can't be used as a sort expression. Use the `_geoPoint(latitude, longitude)` built-in rule to sort on `_geo` field coordinates."),
        ),
        (
            AscDescError::InvalidLatitude,
            s("Latitude must be contained between -90 and 90 degrees."),
        ),
        (
            AscDescError::InvalidLongitude,
            s("Longitude must be contained between -180 and 180 degrees."),
        ),
    ];

    for (asc_desc_error, expected_message) in errors {
        let sort_error = SortError::from(asc_desc_error);
        assert_eq!(
            sort_error.message(),
            expected_message,
            "was expecting {} for the error {:?} but instead got {}",
            expected_message,
            sort_error,
            sort_error.message()
        );
    }
}

#[test]
fn geo_point_keyword_is_bad_geo_point_usage() {
    let e = SortError::from(AscDescError::ReservedKeyword { name: s("_geoPoint(1, 2, 3)") });
    assert!(matches!(&e, SortError::BadGeoPointUsage { name } if name == "_geoPoint(1, 2, 3)"));
    assert_eq!(
        e.message(),
        "invalid syntax for the `_geoPoint` parameter: `_geoPoint(1, 2, 3)`. Usage: `_geoPoint(latitude, longitude):asc`."
    );
}

#[test]
fn geo_prefix_alone_is_not_reserved_for_settings() {
    let e = SortError::from(AscDescError::ReservedKeyword { name: s("_geox") });
    assert!(matches!(&e, SortError::ReservedName { name } if name == "_geox"));
}

#[test]
fn asc_desc_error_messages() {
    assert_eq!(
        AscDescError::InvalidSyntax { name: s("a:b") }.message(),
        "invalid asc/desc syntax for a:b."
    );
    assert_eq!(
        AscDescError::ReservedKeyword { name: s("_geo") }.message(),
        "_geo is a reserved keyword and thus can't be used as a asc/desc rule."
    );
    assert_eq!(
        AscDescError::InvalidLatitude.message(),
        "Latitude must be contained between -90 and 90 degrees."
    );
}

#[test]
fn criterion_error_conversion() {
    let e = CriterionError::from(AscDescError::InvalidLongitude);
    assert!(matches!(&e, CriterionError::ReservedNameForSort { name } if name == "_geoPoint"));
    let e = CriterionError::from(AscDescError::ReservedKeyword { name: s("_geoRadius(1, 2)") });
    assert!(matches!(&e, CriterionError::ReservedNameForFilter { name } if name == "_geoRadius"));
    let e = CriterionError::from(AscDescError::ReservedKeyword { name: s("_geoPoint(1)") });
    assert!(matches!(&e, CriterionError::ReservedNameForSort { name } if name == "_geoPoint"));
    let e = CriterionError::from(AscDescError::ReservedKeyword { name: s("_geoDistance") });
    assert!(matches!(&e, CriterionError::ReservedName { name } if name == "_geoDistance"));
    let e = CriterionError::from(AscDescError::InvalidSyntax { name: s("x:y") });
    assert!(matches!(&e, CriterionError::InvalidName { name } if name == "x:y"));
}
