use sure_petcare::decode::DeserializationError;
use sure_petcare::login::{Request, RequestBuilder, Response};

const EXAMPLE: &str =
    "{\"email_address\":\"email@example.com\",\"password\":\"qwerty123\",\"device_id\":\"xxx-xxx-xxx-xxx\"}";

#[test]
fn should_build_chain() {
    let item = RequestBuilder::new()
        .with_email_address("email@example.com")
        .with_password("qwerty123")
        .with_device_id("xxx-xxx-xxx-xxx")
        .build();
    let serialized = item.to_json();
    assert_eq!(
        "{\"email_address\":\"email@example.com\",\"password\":\"qwerty123\",\"device_id\":\"xxx-xxx-xxx-xxx\"}".to_string(),
        serialized
    );
}

#[test]
fn should_build_parts() {
    let mut builder = RequestBuilder::new();
    builder.with_email_address("email@example.com");
    builder.with_password("qwerty123");
    builder.with_device_id("xxx-xxx-xxx-xxx");
    let item = builder.build();
    let serialized = item.to_json();
    assert_eq!(
        "{\"email_address\":\"email@example.com\",\"password\":\"qwerty123\",\"device_id\":\"xxx-xxx-xxx-xxx\"}".to_string(),
        serialized
    );
}

fn request(e: &str, p: &str, d: &str) -> Request {
    RequestBuilder::new().with_email_address(e).with_password(p).with_device_id(d).build()
}

#[test]
fn round_trip_keeps_fields() {
    let cases = [
        ("email@example.com", "qwerty123", "xxx-xxx-xxx-xxx"),
        ("", "", ""),
        ("a\"b", "back\\slash", "line\nbreak\ttab\r"),
        ("\u{1}\u{8}\u{c}\u{1f}", "caf\u{e9}", "\u{1f600} \u{7f}/"),
    ];
    for (e, p, d) in cases {
        let item = request(e, p, d);
        let back = Request::from_json(&item.to_json()).unwrap();
        assert_eq!(back.email_address(), e);
        assert_eq!(back.password(), p);
        assert_eq!(back.device_id(), d);
    }
}

#[test]
fn build_twice_gives_equal_requests() {
    let mut builder = RequestBuilder::new();
    builder.with_email_address("a").with_password("b").with_device_id("c");
    let first = builder.build();
    let second = builder.build();
    assert_eq!(first.to_json(), second.to_json());
    builder.with_password("changed");
    assert_eq!(first.password(), "b");
    assert_eq!(second.password(), "b");
    assert_eq!(builder.build().password(), "changed");
}

#[test]
fn field_order_is_fixed() {
    let item = request("email@example.com", "qwerty123", "xxx-xxx-xxx-xxx");
    assert_eq!(item.to_json(), EXAMPLE);
}

#[test]
fn chained_and_stepwise_agree() {
    let chained = RequestBuilder::new()
        .with_email_address("a")
        .with_password("b")
        .with_device_id("c")
        .build();
    let mut builder = RequestBuilder::new();
    builder.with_email_address("a");
    builder.with_password("b");
    builder.with_device_id("c");
    let stepwise = builder.build();
    assert_eq!(chained.to_json(), stepwise.to_json());
}

#[test]
fn last_write_wins() {
    let item = RequestBuilder::new()
        .with_email_address("first")
        .with_email_address("second")
        .build();
    assert_eq!(item.email_address(), "second");
    assert_eq!(item.password(), "");
}

#[test]
fn missing_field_is_rejected() {
    let r = Request::from_json("{\"email_address\":\"a\",\"password\":\"b\"}");
    assert_eq!(r.unwrap_err(), DeserializationError);
}

#[test]
fn token_is_extracted() {
    let response = Response::from_json("{\"token\":\"abc123\"}").unwrap();
    assert_eq!(response.access_token(), "abc123");
    assert!(Response::from_json("{}").is_err());
}

#[test]
fn empty_builder_gives_empty_fields() {
    let item = RequestBuilder::new().build();
    assert_eq!(item.email_address(), "");
    assert_eq!(item.password(), "");
    assert_eq!(item.device_id(), "");
    assert_eq!(item.to_json(), "{\"email_address\":\"\",\"password\":\"\",\"device_id\":\"\"}");
    assert_eq!(RequestBuilder::default().build().to_json(), item.to_json());
}

#[test]
fn escapes_are_written() {
    let item = request("a\"b\\c", "\n\r\t\u{8}\u{c}", "\u{1}\u{1f}\u{e9}");
    assert_eq!(
        item.to_json(),
        "{\"email_address\":\"a\\\"b\\\\c\",\"password\":\"\\n\\r\\t\\b\\f\",\"device_id\":\"\\u0001\\u001f\u{e9}\"}"
    );
}

#[test]
fn request_members_in_any_order_with_white_space() {
    let text = " {\n \"device_id\" : \"d\" ,\t\"extra\":\"x\", \"password\":\"p\",\"email_address\":\"e\"\r\n} ";
    let item = Request::from_json(text).unwrap();
    assert_eq!(item.email_address(), "e");
    assert_eq!(item.password(), "p");
    assert_eq!(item.device_id(), "d");
}

#[test]
fn escapes_are_read() {
    let text = "{\"token\":\"\\u0041\\u00e9\\ud83d\\ude00\\/\\\"\\\\\\n\"}";
    let response = Response::from_json(text).unwrap();
    assert_eq!(response.access_token(), "A\u{e9}\u{1f600}/\"\\\n");
}

#[test]
fn malformed_text_is_rejected() {
    let bad = [
        "",
        "{",
        "[]",
        "{\"token\":1}",
        "{\"token\":null}",
        "{\"token\":\"a\",}",
        "{\"token\":\"a\"} x",
        "{\"token\":\"a\" \"b\":\"c\"}",
        "{\"token\" \"a\"}",
        "{\"token\":\"a\nb\"}",
        "{\"token\":\"\\x\"}",
        "{\"token\":\"\\ud83d\"}",
        "{\"token\":\"\\ude00\"}",
        "{\"token\":\"\\u12\"}",
        "{\"token\":\"abc",
        "{'token':'abc'}",
    ];
    for text in bad {
        assert!(Response::from_json(text).is_err(), "accepted {:?}", text);
    }
}

#[test]
fn repeated_member_is_rejected() {
    assert!(Response::from_json("{\"token\":\"a\",\"token\":\"b\"}").is_err());
    let text = "{\"email_address\":\"a\",\"password\":\"b\",\"device_id\":\"c\",\"password\":\"d\"}";
    assert!(Request::from_json(text).is_err());
}

#[test]
fn response_round_trip() {
    let response = Response::new("to\"ken\u{1}");
    assert_eq!(response.to_json(), "{\"token\":\"to\\\"ken\\u0001\"}");
    let back = Response::from_json(&response.to_json()).unwrap();
    assert_eq!(back.token(), "to\"ken\u{1}");
    assert_eq!(Response::default().token(), "");
}

#[test]
fn other_members_of_any_kind_are_passed_over() {
    let text = "{\"expires\":3600,\"token\":\"abc\",\"scopes\":[\"x\",{\"y\":[true,false,null]},[]],\"ratio\":-1.5e+3,\"zero\":0,\"meta\":{},\"frac\":0.25E-2}";
    let response = Response::from_json(text).unwrap();
    assert_eq!(response.access_token(), "abc");
}

#[test]
fn malformed_other_members_are_rejected() {
    let bad = [
        "{\"token\":\"a\",\"n\":01}",
        "{\"token\":\"a\",\"n\":1.}",
        "{\"token\":\"a\",\"n\":-}",
        "{\"token\":\"a\",\"n\":1e}",
        "{\"token\":\"a\",\"n\":+1}",
        "{\"token\":\"a\",\"n\":[1,]}",
        "{\"token\":\"a\",\"n\":[1}",
        "{\"token\":\"a\",\"n\":{\"k\"}}",
        "{\"token\":\"a\",\"n\":{1:2}}",
        "{\"token\":\"a\",\"n\":tru}",
        "{\"token\":\"a\",\"n\":nul}",
        "{\"token\":\"a\",\"n\":}",
    ];
    for text in bad {
        assert!(Response::from_json(text).is_err(), "accepted {:?}", text);
    }
}

#[test]
fn deep_nesting_is_passed_over() {
    let deep = |n: usize| format!("{{\"token\":\"a\",\"n\":{}0{}}}", "[{\"k\":".repeat(n), "}]".repeat(n));
    assert_eq!(Response::from_json(&deep(5000)).unwrap().access_token(), "a");
    let unbalanced = format!("{{\"token\":\"a\",\"n\":{}}}", "[".repeat(200));
    assert!(Response::from_json(&unbalanced).is_err());
}

#[test]
fn any_escape_is_passed_over_in_other_members() {
    let text = "{\"x\":\"\\ud800\",\"email_address\":\"a\",\"password\":\"b\",\"device_id\":\"c\"}";
    let item = Request::from_json(text).unwrap();
    assert_eq!(item.email_address(), "a");
    assert_eq!(item.device_id(), "c");
    let response = Response::from_json("{\"x\":\"\\ud800\",\"y\":[\"\\udc00\"],\"token\":\"t\"}").unwrap();
    assert_eq!(response.access_token(), "t");
    assert!(Response::from_json("{\"x\":\"\\u12g4\",\"token\":\"t\"}").is_err());
    assert!(Response::from_json("{\"token\":\"\\ud800\"}").is_err());
}
