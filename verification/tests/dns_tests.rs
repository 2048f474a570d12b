use cdu::dns::{set_a_record_result, DnsError, DnsRecord, find_a_record, Handler};
use cdu::ip::Ipv4;

fn handler() -> Handler {
    Handler::try_new("test-key", "zone123").unwrap()
}

#[test]
fn try_new_builds_bearer_header() {
    let h = handler();
    assert_eq!(h.auth_header, "Bearer test-key");
    assert_eq!(h.zone_id, "zone123");
    assert!(h.record_id.is_none());
}

#[test]
fn try_new_rejects_control_characters() {
    assert_eq!(
        Handler::try_new("bad\nkey", "zone123"),
        Err(DnsError::InvalidApiKey)
    );
    assert!(Handler::try_new("spaces are fine", "z").is_ok());
    assert!(Handler::try_new("tab\tis fine", "z").is_ok());
}

#[test]
fn records_url_names_zone_and_domain() {
    let h = handler();
    assert_eq!(
        h.records_url("home.example.com"),
        "https://api.cloudflare.com/client/v4/zones/zone123/dns_records?type=A&name=home.example.com"
    );
}

#[test]
fn find_a_record_picks_first_matching_row() {
    let records = vec![
        DnsRecord {
            id: String::from("r0"),
            rtype: String::from("TXT"),
            name: String::from("home.example.com"),
            content: String::from("x"),
        },
        DnsRecord {
            id: String::from("r1"),
            rtype: String::from("A"),
            name: String::from("other.example.com"),
            content: String::from("9.9.9.9"),
        },
        DnsRecord {
            id: String::from("r2"),
            rtype: String::from("A"),
            name: String::from("home.example.com"),
            content: String::from("1.2.3.4"),
        },
        DnsRecord {
            id: String::from("r3"),
            rtype: String::from("A"),
            name: String::from("home.example.com"),
            content: String::from("5.5.5.5"),
        },
    ];
    assert_eq!(find_a_record(&records, "home.example.com"), Some(2));
    assert_eq!(find_a_record(&records, "nowhere.example.com"), None);
}

#[test]
fn get_a_record_reads_provider_answer() {
    let mut h = handler();
    let body = r#"{
        "errors": [],
        "result": [
            {"id": "rec1", "type": "A", "name": "home.example.com", "content": "1.2.3.4"}
        ]
    }"#;
    let got = h.get_a_record("home.example.com", body);
    assert_eq!(got, Ok(Ipv4 { a: 1, b: 2, c: 3, d: 4 }));
    assert_eq!(h.record_id, Some(String::from("rec1")));
}

#[test]
fn get_a_record_surfaces_api_errors() {
    let mut h = handler();
    let body = r#"{"errors": [{"message": "Invalid zone identifier"}], "result": []}"#;
    assert_eq!(
        h.get_a_record("home.example.com", body),
        Err(DnsError::ApiError(String::from("Invalid zone identifier")))
    );
    assert!(h.record_id.is_none());
}

#[test]
fn get_a_record_error_without_message_reads_as_empty() {
    let mut h = handler();
    let body = r#"{"errors": [{"code": 9109}], "result": []}"#;
    assert_eq!(
        h.get_a_record("home.example.com", body),
        Err(DnsError::ApiError(String::new()))
    );
}

#[test]
fn get_a_record_failure_modes() {
    let mut h = handler();
    assert_eq!(
        h.get_a_record("home.example.com", "this is not json"),
        Err(DnsError::MalformedResponse)
    );
    assert_eq!(
        h.get_a_record("home.example.com", r#"{"success": true}"#),
        Err(DnsError::MissingResult)
    );
    assert_eq!(
        h.get_a_record("home.example.com", r#"{"result": []}"#),
        Err(DnsError::RecordNotFound)
    );
    let body = r#"{"result": [{"id": "recX", "type": "A", "name": "home.example.com", "content": "not-an-ip"}]}"#;
    assert_eq!(h.get_a_record("home.example.com", body), Err(DnsError::InvalidIp));
    // The matching row's identifier is stored even when its content is bad.
    assert_eq!(h.record_id, Some(String::from("recX")));
}

#[test]
fn get_a_record_skips_rows_missing_fields() {
    let mut h = handler();
    let body = r#"{"result": [
        {"type": "A", "name": "home.example.com"},
        {"id": "rec9", "type": "A", "name": "home.example.com", "content": "7.7.7.7"}
    ]}"#;
    assert_eq!(h.get_a_record("home.example.com", body), Ok(Ipv4 { a: 7, b: 7, c: 7, d: 7 }));
    assert_eq!(h.record_id, Some(String::from("rec9")));
}

#[test]
fn update_request_requires_a_prior_fetch() {
    let h = handler();
    assert_eq!(
        h.set_a_record_request("home.example.com", &Ipv4 { a: 5, b: 6, c: 7, d: 8 }),
        Err(DnsError::MissingRecordId)
    );
}

#[test]
fn update_request_carries_url_and_body() {
    let mut h = handler();
    let body = r#"{"result": [{"id": "rec1", "type": "A", "name": "home.example.com", "content": "1.2.3.4"}]}"#;
    h.get_a_record("home.example.com", body).unwrap();
    let rq = h
        .set_a_record_request("home.example.com", &Ipv4 { a: 5, b: 6, c: 7, d: 8 })
        .unwrap();
    assert_eq!(
        rq.url,
        "https://api.cloudflare.com/client/v4/zones/zone123/dns_records/rec1"
    );
    assert_eq!(
        rq.body,
        "{\"type\":\"A\",\"name\":\"home.example.com\",\"content\":\"5.6.7.8\"}"
    );
}

#[test]
fn update_body_escapes_the_domain() {
    let mut h = handler();
    let body = r#"{"result": [{"id": "rec1", "type": "A", "name": "odd\"name", "content": "1.2.3.4"}]}"#;
    h.get_a_record("odd\"name", body).unwrap();
    let rq = h
        .set_a_record_request("odd\"name", &Ipv4 { a: 5, b: 6, c: 7, d: 8 })
        .unwrap();
    assert_eq!(
        rq.body,
        "{\"type\":\"A\",\"name\":\"odd\\\"name\",\"content\":\"5.6.7.8\"}"
    );
}

#[test]
fn update_result_by_status() {
    assert_eq!(set_a_record_result(200, ""), Ok(()));
    assert_eq!(set_a_record_result(204, ""), Ok(()));
    assert_eq!(set_a_record_result(299, ""), Ok(()));
    let err = set_a_record_result(403, "{\"success\":false}");
    assert_eq!(
        err,
        Err(DnsError::UpdateFailed(String::from("{\"success\":false}")))
    );
}

#[test]
fn update_failure_message_contains_response_body() {
    let err = set_a_record_result(500, "zone is on fire").unwrap_err();
    let text = err.describe();
    assert!(text.contains("zone is on fire"));
    assert_eq!(text, "Failed to update A record: zone is on fire");
}
