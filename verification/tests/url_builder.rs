use rtsp_lib::camera::rtsp_session::utils::SessionUrlBuilder;
use rtsp_lib::camera::rtsp_session::SessionError;

#[test]
fn build_with_host_only_uses_the_customary_port() {
    let url = SessionUrlBuilder::default()
        .with_ip_address(String::from("camera.local"))
        .build()
        .unwrap();
    assert_eq!(url.scheme(), "rtsp");
    assert_eq!(url.host_str(), Some("camera.local"));
    assert_eq!(url.port(), Some(554));
}

#[test]
fn build_with_credentials_appends_the_credential_segment() {
    let url = SessionUrlBuilder::default()
        .with_ip_address(String::from("10.0.0.8"))
        .with_port(String::from("8554"))
        .with_user(Some(String::from("viewer")))
        .with_password(Some(String::from("pw123")))
        .build()
        .unwrap();
    assert_eq!(url.port(), Some(8554));
    assert_eq!(url.path(), "/user=viewer&password=pw123");
}

#[test]
fn build_with_only_one_credential_leaves_the_segment_out() {
    let url = SessionUrlBuilder::default()
        .with_ip_address(String::from("10.0.0.8"))
        .with_user(Some(String::from("viewer")))
        .build()
        .unwrap();
    assert_eq!(url.path(), "");
}

#[test]
fn build_without_host_reports_the_unset_parameter() {
    let r = SessionUrlBuilder::default().build();
    match r {
        Err(SessionError::UnsetParameter(msg)) => {
            assert_eq!(msg, "Necessary parameter unset: ip_address");
        },
        other => panic!("expected UnsetParameter, got {:?}", other.map(|u| u.to_string())),
    }
}

#[test]
fn build_with_unparsable_host_reports_a_parse_error() {
    let r = SessionUrlBuilder::default()
        .with_ip_address(String::from("bad host"))
        .build();
    assert!(matches!(r, Err(SessionError::UrlParseError)));
}
