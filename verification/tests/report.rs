use bones::report::{
    Limiter, ReportHeaders, ReportRequest, Verdict, client_ip, compose, consider, credential,
    delivered, read_header, sanitize_message,
};

fn headers() -> ReportHeaders {
    ReportHeaders {
        cf_connecting_ip: None,
        x_real_ip: None,
        user_agent: None,
    }
}

fn request(message: &str) -> ReportRequest {
    ReportRequest {
        message: message.into(),
        name: String::new(),
        code: String::new(),
        phase: String::new(),
        url: String::new(),
    }
}

const SECOND: u128 = 1_000_000_000;

#[test]
fn rejects_short_and_empty() {
    assert!(sanitize_message("   hi  ").is_err());
    assert!(sanitize_message("").is_err());
}

#[test]
fn accepts_a_sentence() {
    let msg = sanitize_message("  Dice froze after a steal.  ").unwrap();
    assert_eq!(msg, "Dice froze after a steal.");
}

#[test]
fn strips_control_chars() {
    let msg = sanitize_message("It broke\u{0007} on bank.\nTwice.").unwrap();
    assert_eq!(msg, "It broke on bank.\nTwice.");
}

#[test]
fn prefers_cloudflare_connecting_ip() {
    let mut headers = headers();
    headers.cf_connecting_ip = Some(b"203.0.113.9".to_vec());
    assert_eq!(client_ip(&headers, "10.0.0.1"), "203.0.113.9");
}

#[test]
fn message_lengths_are_counted_in_characters() {
    assert_eq!(
        sanitize_message("seven77"),
        Err("Say a bit more — at least a short sentence.")
    );
    assert!(sanitize_message("éééééééé").is_ok());
    assert!(sanitize_message(&"x".repeat(1000)).is_ok());
    assert_eq!(
        sanitize_message(&"x".repeat(1001)),
        Err("Keep it under 1,000 characters.")
    );
}

#[test]
fn addresses_fall_back_to_the_peer() {
    let mut h = headers();
    assert_eq!(client_ip(&h, "10.0.0.1"), "10.0.0.1");
    h.x_real_ip = Some(b" 198.51.100.7 , 10.0.0.9".to_vec());
    assert_eq!(client_ip(&h, "10.0.0.1"), "198.51.100.7");
    h.cf_connecting_ip = Some(b" ,203.0.113.9".to_vec());
    assert_eq!(client_ip(&h, "10.0.0.1"), "10.0.0.1");
    h.cf_connecting_ip = Some(vec![0xff]);
    assert_eq!(client_ip(&h, "10.0.0.1"), "10.0.0.1");
}

#[test]
fn header_values_read_as_the_http_crate_reads_them() {
    for b in 0..=255u8 {
        let bytes = vec![b'a', b];
        let outside = axum::http::HeaderValue::from_bytes(&bytes)
            .ok()
            .and_then(|v| v.to_str().ok().map(String::from));
        assert_eq!(read_header(&bytes), outside, "byte {b}");
    }
}

#[test]
fn senders_wait_a_minute() {
    let mut limiter = Limiter::new();
    assert!(limiter.allow("a", 0));
    assert!(!limiter.allow("a", 60 * SECOND - 1));
    assert!(limiter.allow("b", 1));
    assert!(limiter.allow("a", 60 * SECOND));
    assert!(!limiter.allow("a", 61 * SECOND));
    assert_eq!(limiter.seen.len(), 2);
    assert_ne!(limiter.seen[0].0, limiter.seen[1].0);
    assert!(limiter.allow("c", 3_660 * SECOND));
    assert_eq!(limiter.seen.len(), 1);
}

#[test]
fn report_text_names_the_place() {
    let mut body = request("It froze on me.");
    assert_eq!(
        compose("It froze on me.".into(), &body, ""),
        "It froze on me.\n\n— someone"
    );
    body.name = " Ann ".into();
    body.code = "abc12".into();
    body.phase = "playing".into();
    body.url = "https://x/g/ABC12".into();
    assert_eq!(
        compose("It froze on me.".into(), &body, "Agent"),
        "It froze on me.\n\n— Ann · room ABC12 · playing\nhttps://x/g/ABC12\nAgent"
    );
    body.name = "n".repeat(60);
    body.url = "u".repeat(300);
    let full = compose("m".repeat(1000), &body, "");
    assert_eq!(full.chars().count(), 1024);
}

#[test]
fn reports_are_answered_by_status() {
    let mut limiter = Limiter::new();
    let good = request("The dice froze.");
    let answer = |v: Verdict| match v {
        Verdict::Answer(reply) => (reply.status, reply.error.unwrap()),
        Verdict::PassOn(text) => panic!("passed on: {text}"),
    };
    assert_eq!(
        answer(consider(false, &mut limiter, &good, &headers(), "p", 0)),
        (503, "Bug reports are not configured on this server.".to_string())
    );
    assert_eq!(
        answer(consider(true, &mut limiter, &request("hi"), &headers(), "p", 0)),
        (400, "Say a bit more — at least a short sentence.".to_string())
    );
    match consider(true, &mut limiter, &good, &headers(), "p", 0) {
        Verdict::PassOn(text) => assert_eq!(text, "The dice froze.\n\n— someone"),
        Verdict::Answer(reply) => panic!("answered: {}", reply.status),
    }
    assert_eq!(
        answer(consider(true, &mut limiter, &good, &headers(), "p", SECOND)),
        (429, "Hang on — try again in a minute.".to_string())
    );
    let ok = delivered(Some(204));
    assert_eq!((ok.status, ok.error), (200, None));
    for bad in [None, Some(199), Some(300), Some(500)] {
        let reply = delivered(bad);
        assert_eq!(reply.status, 502);
        assert_eq!(reply.error.unwrap(), "Could not send the report.");
    }
}

#[test]
fn blank_credentials_are_none() {
    assert_eq!(credential(Some(" key \n".into())), Some("key".to_string()));
    assert_eq!(credential(Some("  ".into())), None);
    assert_eq!(credential(None), None);
}
