use googlebot_verify::address::{parse_address, Address};
use googlebot_verify::outcome::{LookupError, Outcome, Rendered};
use googlebot_verify::resolve::{
    classify_ptr, classify_reply, first_answer_hostname, has_suffix, is_crawler_hostname,
    is_success, plan_lookup, Plan, RESOLVE_ENDPOINT,
};

fn respond(status: u16, body: &str) -> (Outcome, Rendered, String) {
    let outcome = classify_reply(Some((status, body))).expect("reply is JSON");
    let rendered = outcome.clone().render();
    let text = rendered.body();
    (outcome, rendered, text)
}

#[test]
fn reverse_name_of_1_2_3_4() {
    let addr = Address::new(1, 2, 3, 4);
    assert_eq!(addr.reverse_query_name(), "4.3.2.1.in-addr.arpa");
    let parsed = parse_address("1.2.3.4").unwrap();
    assert_eq!(parsed.octets(), [1, 2, 3, 4]);
    assert_eq!(parsed.reverse_query_name(), "4.3.2.1.in-addr.arpa");
}

#[test]
fn lookup_url_asks_for_ptr() {
    let addr = Address::new(66, 249, 66, 1);
    assert_eq!(
        addr.lookup_url(RESOLVE_ENDPOINT),
        "https://dns.google.com/resolve?name=1.66.249.66.in-addr.arpa&type=PTR"
    );
}

#[test]
fn parses_extreme_addresses() {
    assert_eq!(parse_address("0.0.0.0").unwrap().octets(), [0, 0, 0, 0]);
    assert_eq!(parse_address("255.255.255.255").unwrap().octets(), [255, 255, 255, 255]);
    assert_eq!(parse_address("10.200.7.99").unwrap().octets(), [10, 200, 7, 99]);
    assert_eq!(
        Address::new(255, 0, 10, 100).reverse_query_name(),
        "100.10.0.255.in-addr.arpa"
    );
}

#[test]
fn rejects_malformed_addresses() {
    for s in [
        "", "1.2.3", "1.2.3.4.5", "256.1.1.1", "1.2.3.256", "01.2.3.4", "1.2.3.04", "1..2.3",
        "1.2.3.", ".1.2.3", "a.b.c.d", "::1", " 1.2.3.4", "1.2.3.4 ", "1.2.3.4/24", "1000.1.1.1",
        "+1.2.3.4", "1.2.3.4.", "localhost", "0001.2.3.4",
    ] {
        assert!(parse_address(s).is_none(), "{:?} must not parse", s);
    }
}

#[test]
fn invalid_ip_is_rejected_with_400() {
    for s in ["not-an-ip", "999.1.1.1", "1.2.3", "2001:db8::1"] {
        match plan_lookup(Some(s), RESOLVE_ENDPOINT) {
            Plan::Respond(o) => {
                assert!(matches!(o, Outcome::InvalidQueryString));
                let r = o.render();
                assert_eq!(r.status, 400);
                assert_eq!(r.result, "error");
                assert_eq!(r.reason, "Invalid query string ?ip=a.b.c.d");
            }
            Plan::Resolve(_) => panic!("{:?} must not be looked up", s),
        }
    }
}

#[test]
fn missing_ip_is_rejected_with_400() {
    match plan_lookup(None, RESOLVE_ENDPOINT) {
        Plan::Respond(o) => {
            assert!(matches!(o, Outcome::MissingQueryString));
            let r = o.render();
            assert_eq!(r.status, 400);
            assert_eq!(r.result, "error");
            assert_eq!(r.reason, "Missing query string ?ip=a.b.c.d");
        }
        Plan::Resolve(_) => panic!("nothing to look up"),
    }
}

#[test]
fn valid_ip_is_looked_up() {
    match plan_lookup(Some("1.2.3.4"), RESOLVE_ENDPOINT) {
        Plan::Resolve(url) => assert_eq!(
            url,
            "https://dns.google.com/resolve?name=4.3.2.1.in-addr.arpa&type=PTR"
        ),
        Plan::Respond(_) => panic!("a valid address is looked up"),
    }
}

#[test]
fn googlebot_answer_is_verified() {
    let (o, r, body) = respond(200, r#"{"Answer":[{"data":"crawl-66-249-66-1.googlebot.com."}]}"#);
    assert!(matches!(o, Outcome::VerifiedBot { ref hostname } if hostname == "crawl-66-249-66-1.googlebot.com."));
    assert_eq!(r.status, 200);
    assert_eq!(r.result, "yes");
    assert_eq!(
        body,
        r#"{"result":"yes","reason":"Reverse lookup is crawl-66-249-66-1.googlebot.com."}"#
    );
}

#[test]
fn other_host_is_unverified() {
    let (o, r, body) = respond(200, r#"{"Answer":[{"data":"evil.example.com."}]}"#);
    assert!(matches!(o, Outcome::UnverifiedBot { ref hostname } if hostname == "evil.example.com."));
    assert_eq!(r.status, 200);
    assert_eq!(r.result, "no");
    assert_eq!(
        body,
        r#"{"result":"no","reason":"Reverse lookup is evil.example.com., not an *.google.com or *.googlebot.com domain."}"#
    );
}

#[test]
fn no_answer_key_is_no_ptr_record() {
    let (o, r, body) = respond(200, "{}");
    assert!(matches!(o, Outcome::NoPtrRecord));
    assert_eq!(r.status, 200);
    assert_eq!(r.result, "no");
    assert_eq!(body, r#"{"result":"no","reason":"No PTR Answer for this reverse lookup."}"#);
}

#[test]
fn empty_or_odd_answers_are_no_ptr_record() {
    for body in [r#"{"Answer":[]}"#, r#"{"Answer":[{"name":"x"}]}"#, r#"{"Answer":[{"data":5}]}"#, "[]", "null"] {
        let (o, _, _) = respond(200, body);
        assert!(matches!(o, Outcome::NoPtrRecord), "{}", body);
    }
}

#[test]
fn only_first_answer_counts() {
    let (o, _, _) = respond(
        200,
        r#"{"Answer":[{"data":"evil.example.com."},{"data":"crawl.googlebot.com."}]}"#,
    );
    assert!(matches!(o, Outcome::UnverifiedBot { .. }));
    let (o, _, _) = respond(
        200,
        r#"{"Status":0,"Answer":[{"name":"1.1.1.1.in-addr.arpa.","type":12,"TTL":300,"data":"rate-limited-proxy-66-249-90-77.google.com."},{"data":"evil.example.com."}]}"#,
    );
    assert!(matches!(o, Outcome::VerifiedBot { .. }));
}

#[test]
fn failed_resolver_status_is_bad_gateway() {
    let o = classify_reply(Some((503, r#"{"Answer":[{"data":"crawl.googlebot.com."}]}"#))).unwrap();
    assert!(matches!(o, Outcome::UpstreamResolutionFailed));
    let r = o.render();
    assert_eq!(r.status, 502);
    assert_eq!(r.result, "error");
    assert_eq!(r.body(), r#"{"result":"error","reason":"Google DNS failed"}"#);
    for status in [100u16, 199, 300, 404, 500] {
        let o = classify_reply(Some((status, "{}"))).unwrap();
        assert!(matches!(o, Outcome::UpstreamResolutionFailed));
    }
}

#[test]
fn unreachable_resolver_is_bad_gateway() {
    let o = classify_reply(None).unwrap();
    assert!(matches!(o, Outcome::UpstreamResolutionFailed));
    assert_eq!(o.render().status, 502);
}

#[test]
fn success_statuses() {
    assert!(is_success(200));
    assert!(is_success(204));
    assert!(is_success(299));
    assert!(!is_success(199));
    assert!(!is_success(300));
    assert!(!is_success(503));
}

#[test]
fn malformed_body_is_an_error() {
    let r = classify_reply(Some((200, "not json")));
    assert_eq!(r.unwrap_err(), LookupError::MalformedAnswer);
    assert_eq!(
        LookupError::MalformedAnswer.message(),
        "ERROR: resolver answer is not valid JSON"
    );
    assert!(first_answer_hostname("{\"Answer\":").is_err());
}

#[test]
fn first_answer_hostname_reads_data() {
    assert_eq!(
        first_answer_hostname(r#"{"Answer":[{"data":"a.b."}]}"#).unwrap(),
        Some("a.b.".to_string())
    );
    assert_eq!(first_answer_hostname("{}").unwrap(), None);
}

#[test]
fn suffix_match_is_exact() {
    assert!(is_crawler_hostname("crawl-66-249-66-1.googlebot.com."));
    assert!(is_crawler_hostname("x.google.com."));
    assert!(!is_crawler_hostname("sub.evilgoogle.com."));
    assert!(!is_crawler_hostname("evilgoogle.com."));
    assert!(!is_crawler_hostname("google.com."));
    assert!(!is_crawler_hostname("x.google.com"));
    assert!(!is_crawler_hostname("X.GOOGLE.COM."));
    assert!(!is_crawler_hostname("x.google.com.evil."));
    assert!(!is_crawler_hostname(""));
    assert!(has_suffix("abc", ""));
    assert!(has_suffix("abc", "bc"));
    assert!(!has_suffix("bc", "abc"));
    let o = classify_ptr(Some("sub.evilgoogle.com.".to_string()));
    assert!(matches!(o, Outcome::UnverifiedBot { .. }));
}

#[test]
fn identical_replies_give_identical_answers() {
    let body = r#"{"Answer":[{"data":"crawl-66-249-66-1.googlebot.com."}]}"#;
    let (_, r1, b1) = respond(200, body);
    let (_, r2, b2) = respond(200, body);
    assert_eq!(r1.status, r2.status);
    assert_eq!(r1.result, r2.result);
    assert_eq!(b1, b2);
    let (_, _, c1) = respond(200, "{}");
    let (_, _, c2) = respond(200, "{}");
    assert_eq!(c1, c2);
}

#[test]
fn reason_is_escaped_in_body() {
    let o = classify_ptr(Some("a\"b\\c.".to_string()));
    let body = o.render().body();
    assert_eq!(
        body,
        r#"{"result":"no","reason":"Reverse lookup is a\"b\\c., not an *.google.com or *.googlebot.com domain."}"#
    );
}

#[test]
fn answer_object_is_not_an_array() {
    let (o, r, _) = respond(200, r#"{"Answer":{"0":{"data":"x.google.com."}}}"#);
    assert!(matches!(o, Outcome::NoPtrRecord));
    assert_eq!(r.result, "no");
    assert_eq!(first_answer_hostname(r#"{"Answer":{"0":{"data":"x.google.com."}}}"#).unwrap(), None);
}

#[test]
fn control_characters_are_escaped_in_body() {
    let o = classify_ptr(Some("a\nb\u{1}\t/.google.com.".to_string()));
    let body = o.render().body();
    assert_eq!(
        body,
        r#"{"result":"yes","reason":"Reverse lookup is a\nb\u0001\t/.google.com."}"#
    );
}
