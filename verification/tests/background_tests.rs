use doom_fire::background::Background;

#[test]
fn class_names() {
    assert_eq!(Background::Unset.as_str(), None);
    assert_eq!(Background::Success.as_str(), Some("bg-success"));
    assert_eq!(Background::Info.as_str(), Some("bg-info"));
    assert_eq!(Background::Warning.as_str(), Some("bg-warning"));
    assert_eq!(Background::Danger.as_str(), Some("bg-danger"));
    assert_eq!(Background::Primary.as_str(), Some("bg-primary"));
    assert_eq!(Background::Light.as_str(), Some("bg-light"));
    assert_eq!(Background::Dark.as_str(), Some("bg-dark"));
}

#[test]
fn the_default_is_no_background() {
    assert_eq!(Background::default(), Background::Unset);
    assert_eq!(Background::default().as_str(), None);
}
