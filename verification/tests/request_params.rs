use elastic_reqwest::RequestParams;
use reqwest::header::{HeaderName, HeaderValue, AUTHORIZATION, CONTENT_TYPE};

#[test]
fn request_params_has_default_content_type() {
    let req = RequestParams::default();
    assert_eq!(
        Some(&HeaderValue::from_static("application/json")),
        req.get_headers().get(CONTENT_TYPE)
    );
}

#[test]
fn request_params_has_default_base_url() {
    let req = RequestParams::default();

    assert_eq!("http://localhost:9200", req.get_base_url());
}

#[test]
fn request_params_can_set_base_url() {
    let req = RequestParams::default().base_url("http://eshost:9200");

    assert_eq!("http://eshost:9200", req.get_base_url());
}

#[test]
fn request_params_can_set_url_query() {
    let req = RequestParams::default()
        .url_param("pretty", false)
        .url_param("pretty", true)
        .url_param("q", "*");

    assert_eq!(
        (16, Some(String::from("?pretty=true&q=*"))),
        req.get_url_qry()
    );
}

#[test]
fn empty_request_params_returns_empty_string() {
    let req = RequestParams::default();

    assert_eq!((0, None), req.get_url_qry());
}

#[test]
fn new_takes_the_base_url_and_starts_without_url_params() {
    let req = RequestParams::new("http://mybaseurl:9200");

    assert_eq!("http://mybaseurl:9200", req.get_base_url());
    assert_eq!((0, None), req.get_url_qry());
    assert_eq!(1, req.get_headers().len());
    assert_eq!(
        Some(&HeaderValue::from_static("application/json")),
        req.get_headers().get("content-type")
    );
}

#[test]
fn new_owned_agrees_with_new() {
    let owned = RequestParams::new_owned(String::from("http://mybaseurl:9200"));
    let borrowed = RequestParams::new("http://mybaseurl:9200");

    assert_eq!(borrowed.get_base_url(), owned.get_base_url());
    assert_eq!(borrowed.get_headers(), owned.get_headers());
    assert_eq!(borrowed.get_url_qry(), owned.get_url_qry());
}

#[test]
fn base_url_set_twice_keeps_the_last_value() {
    let req = RequestParams::default()
        .base_url("http://first:9200")
        .base_url(String::from("http://second:9200"));

    assert_eq!("http://second:9200", req.get_base_url());

    let req = req.base_url_owned(String::from("http://third:9200"));

    assert_eq!("http://third:9200", req.get_base_url());
}

#[test]
fn base_url_keeps_url_params_and_headers() {
    let req = RequestParams::default()
        .url_param("q", "*")
        .header(AUTHORIZATION, HeaderValue::from_static("let me in"))
        .base_url("http://eshost:9200");

    assert_eq!((4, Some(String::from("?q=*"))), req.get_url_qry());
    assert_eq!(2, req.get_headers().len());
    assert_eq!(
        Some(&HeaderValue::from_static("let me in")),
        req.get_headers().get(AUTHORIZATION)
    );
}

#[test]
fn url_param_last_write_wins() {
    let req = RequestParams::default()
        .url_param("size", 1)
        .url_param("size", 2)
        .url_param("size", 3);

    let (len, qry) = req.get_url_qry();
    let qry = qry.unwrap();

    assert_eq!("?size=3", qry);
    assert_eq!(7, len);
    assert_eq!(1, qry.matches("size").count());
}

#[test]
fn url_param_overwrite_keeps_the_order() {
    let req = RequestParams::default()
        .url_param("a", "1")
        .url_param("b", "2")
        .url_param("c", "3")
        .url_param("b", "two");

    assert_eq!(
        (14, Some(String::from("?a=1&b=two&c=3"))),
        req.get_url_qry()
    );
}

#[test]
fn url_params_come_out_in_key_order() {
    let req = RequestParams::default()
        .url_param("q", "*")
        .url_param("pretty", true)
        .url_param("from", 10)
        .url_param("size", 20);

    assert_eq!(
        (32, Some(String::from("?from=10&pretty=true&q=*&size=20"))),
        req.get_url_qry()
    );
}

#[test]
fn url_params_are_ordered_by_bytes() {
    let req = RequestParams::default()
        .url_param("ab", 1)
        .url_param("a", 2)
        .url_param("B", 3)
        .url_param("abc", 4)
        .url_param("", 5);

    assert_eq!(
        (22, Some(String::from("?=5&B=3&a=2&ab=1&abc=4"))),
        req.get_url_qry()
    );
}

#[test]
fn url_param_owned_stores_the_string() {
    let req = RequestParams::default().url_param_owned("routing", String::from("user 1"));

    assert_eq!(
        (15, Some(String::from("?routing=user+1"))),
        req.get_url_qry()
    );
}

#[test]
fn url_param_takes_any_displayed_value() {
    let req = RequestParams::default()
        .url_param("b", true)
        .url_param("c", 'x')
        .url_param("i", -42)
        .url_param("s", String::from("text"));

    assert_eq!(
        (24, Some(String::from("?b=true&c=x&i=-42&s=text"))),
        req.get_url_qry()
    );
}

#[test]
fn query_string_is_form_encoded() {
    let req = RequestParams::default().url_param("q", "a b&c=d+e/f?g%h");

    assert_eq!(
        (30, Some(String::from("?q=a+b%26c%3Dd%2Be%2Ff%3Fg%25h"))),
        req.get_url_qry()
    );
}

#[test]
fn query_string_keeps_unreserved_bytes() {
    let req = RequestParams::default().url_param("q", "AZaz09*-._");

    assert_eq!(
        (13, Some(String::from("?q=AZaz09*-._"))),
        req.get_url_qry()
    );
}

#[test]
fn query_string_encodes_other_bytes_in_upper_case_hex() {
    let req = RequestParams::default().url_param("q", "~\u{e9}\n\u{7f}");

    assert_eq!(
        (18, Some(String::from("?q=%7E%C3%A9%0A%7F"))),
        req.get_url_qry()
    );
}

#[test]
fn query_string_encodes_keys_too() {
    let req = RequestParams::default().url_param("a key", "").url_param("k\u{fc}", "v");

    assert_eq!(
        (17, Some(String::from("?a+key=&k%C3%BC=v"))),
        req.get_url_qry()
    );
}

#[test]
fn query_length_counts_bytes() {
    let req = RequestParams::default().url_param("q", "*");
    let (len, qry) = req.get_url_qry();
    let qry = qry.unwrap();

    assert_eq!(4, len);
    assert_eq!(qry.len(), len);
    assert!(qry.starts_with('?'));
}

#[test]
fn header_sets_a_value() {
    let req = RequestParams::default().header(AUTHORIZATION, HeaderValue::from_static("let me in"));

    assert_eq!(2, req.get_headers().len());
    assert_eq!(
        Some(&HeaderValue::from_static("let me in")),
        req.get_headers().get(AUTHORIZATION)
    );
    assert_eq!(
        Some(&HeaderValue::from_static("application/json")),
        req.get_headers().get(CONTENT_TYPE)
    );
}

#[test]
fn header_overwrites_a_value_of_the_same_name() {
    let req = RequestParams::default()
        .header(AUTHORIZATION, HeaderValue::from_static("first"))
        .header(HeaderName::from_static("authorization"), HeaderValue::from_static("second"));

    assert_eq!(2, req.get_headers().len());
    assert_eq!(1, req.get_headers().get_all(AUTHORIZATION).iter().count());
    assert_eq!(
        Some(&HeaderValue::from_static("second")),
        req.get_headers().get(AUTHORIZATION)
    );
}

#[test]
fn header_can_overwrite_the_content_type() {
    let req = RequestParams::default().header(CONTENT_TYPE, HeaderValue::from_static("text/plain"));

    assert_eq!(1, req.get_headers().len());
    assert_eq!(
        Some(&HeaderValue::from_static("text/plain")),
        req.get_headers().get(CONTENT_TYPE)
    );
}

#[test]
fn content_type_stays_through_other_calls() {
    let req = RequestParams::new("http://eshost:9200")
        .url_param("pretty", true)
        .base_url("http://other:9200")
        .header(HeaderName::from_static("x-opaque-id"), HeaderValue::from_static("1"))
        .url_param("q", "*");

    assert_eq!(
        Some(&HeaderValue::from_static("application/json")),
        req.get_headers().get(CONTENT_TYPE)
    );
}

#[test]
fn header_leaves_base_url_and_url_params() {
    let req = RequestParams::new("http://eshost:9200")
        .url_param("q", "*")
        .header(AUTHORIZATION, HeaderValue::from_static("let me in"));

    assert_eq!("http://eshost:9200", req.get_base_url());
    assert_eq!((4, Some(String::from("?q=*"))), req.get_url_qry());
}

#[test]
fn header_takes_many_names() {
    let mut req = RequestParams::default();
    for i in 0..200 {
        let name = HeaderName::from_bytes(format!("x-header-{}", i).as_bytes()).unwrap();
        req = req.header(name, HeaderValue::from(i as u32));
    }

    assert_eq!(201, req.get_headers().len());
    assert_eq!(
        Some(&HeaderValue::from(199u32)),
        req.get_headers().get("x-header-199")
    );
}

#[test]
fn clone_holds_the_same_values() {
    let req = RequestParams::new("http://eshost:9200")
        .url_param("pretty", true)
        .url_param("q", "*")
        .header(AUTHORIZATION, HeaderValue::from_static("let me in"));
    let copy = req.clone();

    assert_eq!(req.get_base_url(), copy.get_base_url());
    assert_eq!(req.get_url_qry(), copy.get_url_qry());
    assert_eq!(req.get_headers(), copy.get_headers());
    assert_eq!(2, copy.get_headers().len());
}

#[test]
fn clone_is_independent_of_the_original() {
    let req = RequestParams::default().url_param("q", "*");
    let copy = req.clone().url_param("q", "changed").base_url("http://copy:9200");

    assert_eq!((4, Some(String::from("?q=*"))), req.get_url_qry());
    assert_eq!("http://localhost:9200", req.get_base_url());
    assert_eq!((10, Some(String::from("?q=changed"))), copy.get_url_qry());
}

#[test]
fn query_string_encodes_every_ascii_byte_by_the_rule() {
    for b in 0u8..=0x7f {
        let c = b as char;
        let unreserved = c.is_ascii_alphanumeric() || c == '*' || c == '-' || c == '.' || c == '_';
        let encoded = if unreserved {
            format!("{}", c)
        } else if c == ' ' {
            String::from("+")
        } else {
            format!("%{:02X}", b)
        };
        let expected = format!("?v={}", encoded);
        let req = RequestParams::default().url_param_owned("v", c.to_string());

        assert_eq!((expected.len(), Some(expected)), req.get_url_qry());
    }
}

#[test]
fn query_string_encodes_every_byte_of_a_wider_character() {
    for c in ['\u{80}', '\u{e9}', '\u{7ff}', '\u{800}', '\u{20ac}', '\u{ffff}', '\u{1f600}'] {
        let text = c.to_string();
        let mut expected = String::from("?v=");
        for b in text.bytes() {
            expected.push_str(&format!("%{:02X}", b));
        }
        let req = RequestParams::default().url_param_owned("v", text);

        assert_eq!((expected.len(), Some(expected)), req.get_url_qry());
    }
}

#[test]
fn url_params_do_not_depend_on_the_order_of_calls() {
    let one = RequestParams::default()
        .url_param("q", "*")
        .url_param("pretty", true)
        .url_param("from", 10);
    let other = RequestParams::default()
        .url_param("from", 10)
        .url_param("q", "other")
        .url_param("pretty", true)
        .url_param("q", "*");

    assert_eq!(one.get_url_qry(), other.get_url_qry());
    assert_eq!(
        (24, Some(String::from("?from=10&pretty=true&q=*"))),
        one.get_url_qry()
    );
}
