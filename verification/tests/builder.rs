use outdated_report::DepKind;
use outdated_report::LatestVersion;
use outdated_report::OutdatedDepBuilder;
use outdated_report::ParseError;

#[test]
fn build_with_all_fields_succeeds() {
    let mut b = OutdatedDepBuilder::default();
    b.name = Some("foo".to_owned());
    b.project_version = Some("1.0.0".to_owned());
    b.latest_compatible_version = None;
    b.latest_version = Some(LatestVersion::V("2.0.0".to_owned()));
    b.kind = Some(DepKind::Normal);
    b.platform = None;
    let d = b.build().unwrap();
    assert_eq!(d.name, "foo");
    assert_eq!(d.project_version, "1.0.0");
    assert_eq!(d.latest_compatible_version, None);
    assert_eq!(d.latest_version, LatestVersion::V("2.0.0".to_owned()));
    assert_eq!(d.kind, DepKind::Normal);
    assert_eq!(d.platform, None);
}

#[test]
fn build_without_name_fails() {
    let mut b = OutdatedDepBuilder::default();
    b.project_version = Some("1.0.0".to_owned());
    b.latest_version = Some(LatestVersion::Removed);
    b.kind = Some(DepKind::Build);
    let err = b.build().unwrap_err();
    assert_eq!(err, ParseError::IncompleteRecord("name".to_owned()));
}

#[test]
fn build_with_empty_name_fails() {
    let mut b = OutdatedDepBuilder::default();
    b.name = Some(String::new());
    b.project_version = Some("1.0.0".to_owned());
    b.latest_version = Some(LatestVersion::Removed);
    b.kind = Some(DepKind::Build);
    let err = b.build().unwrap_err();
    assert_eq!(err, ParseError::IncompleteRecord("name".to_owned()));
}

#[test]
fn build_without_kind_fails() {
    let mut b = OutdatedDepBuilder::default();
    b.name = Some("foo".to_owned());
    b.project_version = Some("1.0.0".to_owned());
    b.latest_version = Some(LatestVersion::Removed);
    let err = b.build().unwrap_err();
    assert_eq!(err, ParseError::IncompleteRecord("kind".to_owned()));
}

#[test]
fn build_without_latest_version_fails() {
    let mut b = OutdatedDepBuilder::default();
    b.name = Some("foo".to_owned());
    b.project_version = Some("1.0.0".to_owned());
    b.kind = Some(DepKind::Development);
    let err = b.build().unwrap_err();
    assert_eq!(err, ParseError::IncompleteRecord("latest version".to_owned()));
}

#[test]
fn build_without_project_version_fails() {
    let mut b = OutdatedDepBuilder::default();
    b.name = Some("foo".to_owned());
    b.latest_version = Some(LatestVersion::Removed);
    b.kind = Some(DepKind::Normal);
    let err = b.build().unwrap_err();
    assert_eq!(err, ParseError::IncompleteRecord("project version".to_owned()));
}
