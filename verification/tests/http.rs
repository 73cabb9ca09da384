use cambium::http::{
    api_client, api_settings, is_success, streaming_client, streaming_settings, ClientSettings,
    Deadline, HttpClient,
};

#[test]
fn both_clients_construct() {
    let _ = api_client().unwrap();
    let _ = streaming_client().unwrap();
}

#[test]
fn streaming_client_has_no_total_deadline() {
    let debug = format!("{:?}", streaming_client().unwrap().client());
    assert!(
        !debug.contains("TotalTimeout"),
        "streaming client must not set a total request timeout, got: {debug}"
    );
}

#[test]
fn api_client_has_a_total_deadline() {
    let debug = format!("{:?}", api_client().unwrap().client());
    assert!(
        debug.contains("TotalTimeout"),
        "api client must set a total request timeout, got: {debug}"
    );
}

#[test]
fn streaming_client_gives_up_on_a_stalled_read() {
    let debug = format!("{:?}", streaming_client().unwrap().client());
    assert!(debug.contains("read_timeout: 60s"), "got: {debug}");
    let debug = format!("{:?}", api_client().unwrap().client());
    assert!(!debug.contains("read_timeout"), "got: {debug}");
    assert!(debug.contains("30s"), "got: {debug}");
}

#[test]
fn clients_keep_their_settings() {
    assert_eq!(
        api_settings(),
        ClientSettings { connect_timeout: 5, deadline: Deadline::Total(30) }
    );
    assert_eq!(
        streaming_settings(),
        ClientSettings { connect_timeout: 5, deadline: Deadline::Stall(60) }
    );
    assert_eq!(api_client().unwrap().settings(), api_settings());
    assert_eq!(streaming_client().unwrap().settings(), streaming_settings());
}

#[test]
fn success_is_the_two_hundreds() {
    assert!(!is_success(199));
    assert!(is_success(200));
    assert!(is_success(299));
    assert!(!is_success(300));
}

#[test]
fn what_came_of_building_is_passed_on() {
    let failed = HttpClient::from_built(api_settings(), Err("no backend".to_string()));
    assert_eq!(failed.unwrap_err(), "no backend");
    let inner = streaming_client().unwrap().client().clone();
    let client = HttpClient::from_built(streaming_settings(), Ok(inner)).unwrap();
    assert_eq!(client.settings(), streaming_settings());
    assert!(format!("{:?}", client.client()).contains("read_timeout: 60s"));
}
