use elastic_requests::HttpMethod;
use elastic_reqwest::order::{rank_bytes, Rank};
use elastic_reqwest::{build_method, build_url, RequestParams};
use reqwest::Method;

#[test]
fn build_url_joins_base_path_and_query() {
    let params = RequestParams::new("http://eshost:9200").url_param("pretty", true);

    assert_eq!(
        "http://eshost:9200/myindex/mytype/_search?pretty=true",
        build_url("/myindex/mytype/_search", &params)
    );
}

#[test]
fn build_url_without_url_params_has_no_query() {
    let params = RequestParams::default();

    assert_eq!("http://localhost:9200/", build_url("/", &params));
    assert_eq!("http://localhost:9200", build_url("", &params));
}

#[test]
fn build_url_takes_the_path_as_it_is() {
    let params = RequestParams::new("http://eshost:9200/").url_param("q", "a b");

    assert_eq!(
        "http://eshost:9200///my index//_search?q=a+b",
        build_url("//my index//_search", &params)
    );
}

#[test]
fn build_url_with_several_url_params() {
    let params = RequestParams::default().url_param("q", "*").url_param("pretty", true);

    assert_eq!(
        "http://localhost:9200/_search?pretty=true&q=*",
        build_url("/_search", &params)
    );
}

#[test]
fn build_method_maps_every_verb() {
    assert_eq!(Method::GET, build_method(HttpMethod::Get));
    assert_eq!(Method::POST, build_method(HttpMethod::Post));
    assert_eq!(Method::HEAD, build_method(HttpMethod::Head));
    assert_eq!(Method::DELETE, build_method(HttpMethod::Delete));
    assert_eq!(Method::PUT, build_method(HttpMethod::Put));
    assert_eq!(Method::PATCH, build_method(HttpMethod::Patch));
}

#[test]
fn build_method_gives_the_verbs_their_tokens() {
    assert_eq!("GET", build_method(HttpMethod::Get).as_str());
    assert_eq!("POST", build_method(HttpMethod::Post).as_str());
    assert_eq!("HEAD", build_method(HttpMethod::Head).as_str());
    assert_eq!("DELETE", build_method(HttpMethod::Delete).as_str());
    assert_eq!("PUT", build_method(HttpMethod::Put).as_str());
    assert_eq!("PATCH", build_method(HttpMethod::Patch).as_str());
}

#[test]
fn build_method_maps_different_verbs_to_different_methods() {
    let verbs = vec![
        HttpMethod::Get,
        HttpMethod::Post,
        HttpMethod::Head,
        HttpMethod::Delete,
        HttpMethod::Put,
        HttpMethod::Patch,
    ];
    for (i, a) in verbs.iter().enumerate() {
        for (j, b) in verbs.iter().enumerate() {
            let same = build_method(a.clone()) == build_method(b.clone());
            assert_eq!(i == j, same);
        }
    }
}

#[test]
fn rank_bytes_orders_lexicographically() {
    assert_eq!(Rank::Same, rank_bytes(b"", b""));
    assert_eq!(Rank::Same, rank_bytes(b"pretty", b"pretty"));
    assert_eq!(Rank::Below, rank_bytes(b"", b"a"));
    assert_eq!(Rank::Above, rank_bytes(b"a", b""));
    assert_eq!(Rank::Below, rank_bytes(b"pretty", b"q"));
    assert_eq!(Rank::Above, rank_bytes(b"q", b"pretty"));
    assert_eq!(Rank::Below, rank_bytes(b"ab", b"abc"));
    assert_eq!(Rank::Above, rank_bytes(b"abc", b"ab"));
    assert_eq!(Rank::Below, rank_bytes(b"B", b"a"));
    assert_eq!(Rank::Above, rank_bytes(&[0xc3, 0xa9], b"z"));
}

#[test]
fn rank_bytes_agrees_with_the_order_of_str() {
    let words = ["", "a", "B", "ab", "abc", "b", "pretty", "q", "\u{e9}", "z"];
    for a in words.iter() {
        for b in words.iter() {
            let expected = if a < b {
                Rank::Below
            } else if a == b {
                Rank::Same
            } else {
                Rank::Above
            };
            assert_eq!(expected, rank_bytes(a.as_bytes(), b.as_bytes()));
        }
    }
}

#[test]
fn with_default_params_pairs_a_client_with_them() {
    let made = reqwest::blocking::Client::builder().build();
    let (_client, params) = elastic_reqwest::client::with_default_params(made).unwrap();

    assert_eq!("http://localhost:9200", params.get_base_url());
    assert_eq!((0, None), params.get_url_qry());
    assert_eq!(
        Some(&reqwest::header::HeaderValue::from_static("application/json")),
        params.get_headers().get(reqwest::header::CONTENT_TYPE)
    );
}

#[test]
fn with_default_params_hands_an_error_on() {
    let error = reqwest::blocking::Client::new()
        .get("not a url")
        .build()
        .unwrap_err();
    let text = error.to_string();
    let pair = elastic_reqwest::client::with_default_params(Err(error));

    assert!(pair.is_err());
    assert_eq!(text, pair.err().unwrap().to_string());
}
