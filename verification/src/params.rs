//! The parameter store: base url, url query parameters and headers of a
//! client configuration.

use vstd::prelude::*;
use vstd::std_specs::convert::IntoSpec;
use vstd::utf8::encode_utf8;
use reqwest::header::HeaderMap;
use reqwest::header::HeaderName;
use reqwest::header::HeaderValue;
use crate::form::lemma_ascii_bytes_spell;
use crate::form::lemma_query_bytes_shape;
use crate::form::lemma_query_bytes_step;
use crate::form::query_bytes;
use crate::form::query_text;
use crate::form::serializer_append_pair;
use crate::form::serializer_finish;
use crate::form::serializer_for_suffix;
use crate::form::serializer_start;
use crate::form::serializer_target;
use crate::form::utf8_pairs;
use crate::headers::SURE_HEADER_NAMES;
use crate::headers::content_type_name;
use crate::headers::copy_headers;
use crate::headers::empty_headers;
use crate::headers::header_entries;
use crate::headers::header_name_text;
use crate::headers::header_value_bytes;
use crate::headers::is_header_text_byte;
use crate::headers::no_headers;
use crate::headers::static_header_value;
use crate::headers::store_header;
use crate::pairs::is_upsert;
use crate::pairs::keys_ascending;
use crate::pairs::pairs_view;
use crate::pairs::set_pair;
use crate::pairs::param_map;

verus! {

/// What a parameter store holds, as plain values.
pub struct RequestParamsView {
    /// The base url.
    pub base_url: Seq<char>,
    /// The url query parameters as key/value pairs, in the store's key order.
    pub url_params: Seq<(Seq<char>, Seq<char>)>,
    /// The headers: under each lower-case name the bytes of its values.
    pub headers: Map<Seq<char>, Seq<Seq<u8>>>,
}

/// The headers of a fresh store: `content-type` alone, with the one value
/// `application/json`.
pub open spec fn default_headers() -> Map<Seq<char>, Seq<Seq<u8>>> {
    no_headers().insert("content-type"@, seq![encode_utf8("application/json"@)])
}

impl RequestParamsView {
    /// What holds of every store: ascending keys, and finitely many header
    /// names.
    pub open spec fn is_valid(self) -> bool {
        &&& keys_ascending(self.url_params)
        &&& self.headers.dom().finite()
    }

    /// The store carries `content-type` with the one value
    /// `application/json`.
    pub open spec fn has_json_content_type(self) -> bool {
        &&& self.headers.contains_key("content-type"@)
        &&& self.headers["content-type"@] == seq![encode_utf8("application/json"@)]
    }

    /// The same store with another base url.
    pub open spec fn with_base_url(self, base: Seq<char>) -> RequestParamsView {
        RequestParamsView { base_url: base, url_params: self.url_params, headers: self.headers }
    }

    /// The same store with `value` as the only value of the header `name`.
    pub open spec fn with_header(self, name: Seq<char>, value: Seq<u8>) -> RequestParamsView {
        RequestParamsView {
            base_url: self.base_url,
            url_params: self.url_params,
            headers: self.headers.insert(name, seq![value]),
        }
    }
}

/// Replacing the base url twice leaves the last value only.
pub proof fn lemma_base_url_last_wins(params: RequestParamsView, early: Seq<char>, late: Seq<char>)
    ensures
        params.with_base_url(early).with_base_url(late) == params.with_base_url(late),
        params.with_base_url(early).with_base_url(late).base_url == late,
{
}

/// The default headers carry `content-type: application/json`, and setting
/// a header of another name, like replacing the base url, keeps it.
pub proof fn lemma_content_type_kept(
    params: RequestParamsView,
    name: Seq<char>,
    value: Seq<u8>,
    base: Seq<char>,
)
    requires
        params.has_json_content_type(),
        name != "content-type"@,
    ensures
        (RequestParamsView {
            base_url: base,
            url_params: Seq::empty(),
            headers: default_headers(),
        }).has_json_content_type(),
        params.with_header(name, value).has_json_content_type(),
        params.with_base_url(base).has_json_content_type(),
{
}

/// Misc parameters for any request: the base url of the node, url query
/// parameters as key/value pairs, and the headers to send.
#[derive(Debug)]
pub struct RequestParams {
    base_url: String,
    url_params: Vec<(&'static str, String)>,
    headers: HeaderMap,
}

impl View for RequestParams {
    type V = RequestParamsView;

    closed spec fn view(&self) -> RequestParamsView {
        RequestParamsView {
            base_url: self.base_url@,
            url_params: pairs_view(self.url_params@),
            headers: header_entries(self.headers),
        }
    }
}

/// The bytes of `application/json` are all header text.
proof fn lemma_json_is_header_text()
    ensures
        forall|i: int|
            0 <= i < encode_utf8("application/json"@).len() ==> is_header_text_byte(
                #[trigger] encode_utf8("application/json"@)[i],
            ),
{
    reveal_strlit("application/json");
    let text = "application/json"@;
    assert(vstd::utf8::is_ascii_chars(text));
    vstd::utf8::is_ascii_chars_encode_utf8(text);
    assert forall|i: int| 0 <= i < encode_utf8(text).len() implies is_header_text_byte(
        #[trigger] encode_utf8(text)[i],
    ) by {
        assert(text[i] as u8 == encode_utf8(text)[i]);
    }
}

impl RequestParams {
    #[verifier::type_invariant]
    spec fn well_formed(&self) -> bool {
        &&& keys_ascending(self@.url_params)
        &&& self@.headers.dom().finite()
    }

    /// Create a new container for request parameters from an owned base url:
    /// no url parameters, and the `content-type` header set to
    /// `application/json`.
    pub fn new_owned(base: String) -> (params: Self)
        ensures
            params@ == (RequestParamsView {
                base_url: base@,
                url_params: Seq::empty(),
                headers: default_headers(),
            }),
            params@.is_valid(),
            params@.has_json_content_type(),
    {
        let mut headers = empty_headers();
        proof {
            lemma_json_is_header_text();
        }
        let stored = store_header(
            &mut headers,
            content_type_name(),
            static_header_value("application/json"),
        );
        assert(stored);
        let params = RequestParams { base_url: base, url_params: Vec::new(), headers };
        assert(params@.url_params =~= Seq::empty());
        params
    }

    /// Create a new container for request parameters.
    ///
    /// This method takes a fully-qualified url for the Elasticsearch node.
    /// It will also set the `content-type` header to `application/json`.
    pub fn new<T: Into<String>>(base: T) -> (params: Self)
        ensures
            params@.url_params == Seq::<(Seq<char>, Seq<char>)>::empty(),
            params@.headers == default_headers(),
            params@.is_valid(),
            params@.has_json_content_type(),
            T::obeys_into_spec() ==> params@.base_url == base.into_spec()@,
    {
        RequestParams::new_owned(base.into())
    }

    /// Set the base url for the Elasticsearch node from an owned string.
    pub fn base_url_owned(self, base: String) -> (params: Self)
        ensures
            params@ == self@.with_base_url(base@),
            params@.is_valid(),
    {
        proof {
            use_type_invariant(&self);
        }
        RequestParams { base_url: base, url_params: self.url_params, headers: self.headers }
    }

    /// Set the base url for the Elasticsearch node.
    pub fn base_url<T: Into<String>>(self, base: T) -> (params: Self)
        ensures
            params@.url_params == self@.url_params,
            params@.headers == self@.headers,
            params@.is_valid(),
            T::obeys_into_spec() ==> params@ == self@.with_base_url(base.into_spec()@),
    {
        self.base_url_owned(base.into())
    }

    /// Set a url param value from an owned string: the value of `key` is
    /// `value` afterwards, whether or not the key had one, and every other
    /// pair stays where it was.
    pub fn url_param_owned(self, key: &'static str, value: String) -> (params: Self)
        ensures
            params@.base_url == self@.base_url,
            params@.headers == self@.headers,
            params@.is_valid(),
            is_upsert(self@.url_params, params@.url_params, key@, value@),
            param_map(params@.url_params) == param_map(self@.url_params).insert(key@, value@),
    {
        proof {
            use_type_invariant(&self);
        }
        let mut url_params = self.url_params;
        set_pair(&mut url_params, key, value);
        RequestParams { base_url: self.base_url, url_params, headers: self.headers }
    }

    /// Set a url param value.
    ///
    /// These parameters are added as query parameters to request urls. The
    /// value is stored as the string that `to_string` makes of it.
    pub fn url_param<T: core::fmt::Display>(self, key: &'static str, value: T) -> (params: Self)
        ensures
            params@.base_url == self@.base_url,
            params@.headers == self@.headers,
            params@.is_valid(),
            exists|text: String| #[trigger]
                vstd::string::to_string_from_display_ensures::<T>(&value, text) && is_upsert(
                    self@.url_params,
                    params@.url_params,
                    key@,
                    text@,
                ) && param_map(params@.url_params) == param_map(self@.url_params).insert(
                    key@,
                    text@,
                ),
    {
        let text = value.to_string();
        self.url_param_owned(key, text)
    }

    /// Set a header value on the params, in place of any value that the name
    /// had. The base url, the url parameters and the headers of every other
    /// name stay as they are. A store with up to `SURE_HEADER_NAMES` header
    /// names always takes the value; the transport's map caps its size, and a
    /// fuller store may be left as it was.
    pub fn header(self, name: HeaderName, value: HeaderValue) -> (params: Self)
        ensures
            params@.is_valid(),
            params@.base_url == self@.base_url,
            params@.url_params == self@.url_params,
            forall|other: Seq<char>|
                other != header_name_text(name) ==> {
                    &&& params@.headers.contains_key(other) == self@.headers.contains_key(other)
                    &&& params@.headers[other] == self@.headers[other]
                },
            params@ == self@.with_header(header_name_text(name), header_value_bytes(value))
                || params@ == self@,
            self@.headers.dom().len() <= SURE_HEADER_NAMES ==> params@ == self@.with_header(
                header_name_text(name),
                header_value_bytes(value),
            ),
            self@.has_json_content_type() && header_name_text(name) != "content-type"@
                ==> params@.has_json_content_type(),
    {
        proof {
            use_type_invariant(&self);
        }
        let mut headers = self.headers;
        let _ = store_header(&mut headers, name, value);
        RequestParams { base_url: self.base_url, url_params: self.url_params, headers }
    }

    /// Get the url query params as a formatted string.
    ///
    /// Follows the `application/x-www-form-urlencoded` format. This method
    /// returns the length of the query string in bytes and an optional
    /// value. If the value is `None`, then the length will be `0`.
    pub fn get_url_qry(&self) -> (qry: (usize, Option<String>))
        ensures
            match qry.1 {
                None => self@.url_params.len() == 0 && qry.0 == 0,
                Some(text) => {
                    &&& self@.url_params.len() > 0
                    &&& text@ == query_text(self@.url_params)
                    &&& qry.0 == encode_utf8(text@).len()
                    &&& qry.0 == text@.len()
                },
            },
    {
        if self.url_params.len() > 0 {
            let ghost pairs = utf8_pairs(self@.url_params);
            proof {
                reveal_strlit("?");
                let mark = "?"@;
                assert(vstd::utf8::is_ascii_chars(mark));
                vstd::utf8::is_ascii_chars_encode_utf8(mark);
                assert(mark[0] as u8 == encode_utf8(mark)[0]);
                assert(encode_utf8(mark) =~= query_bytes(pairs.take(0)));
            }
            let mut serializer = serializer_for_suffix("?".to_owned(), 1);
            let mut i: usize = 0;
            while i < self.url_params.len()
                invariant
                    i <= self.url_params@.len(),
                    pairs == utf8_pairs(self@.url_params),
                    serializer_start(serializer) == 1,
                    serializer_target(serializer) == Some(query_bytes(pairs.take(i as int))),
                decreases self.url_params@.len() - i,
            {
                let key: &str = self.url_params[i].0;
                let value: &str = self.url_params[i].1.as_str();
                serializer_append_pair(&mut serializer, key, value);
                proof {
                    let next = pairs.take(i + 1);
                    assert(next.drop_last() =~= pairs.take(i as int));
                    assert(next.last() == (encode_utf8(key@), encode_utf8(value@)));
                    lemma_query_bytes_step(next);
                }
                i += 1;
            }
            let text = serializer_finish(&mut serializer);
            proof {
                assert(pairs.take(i as int) =~= pairs);
                lemma_query_bytes_shape(pairs);
                lemma_ascii_bytes_spell(text@, query_bytes(pairs));
            }
            let length = text.as_str().as_bytes().len();
            (length, Some(text))
        } else {
            (0, None)
        }
    }

    /// The base url for the Elasticsearch node.
    pub fn get_base_url(&self) -> (base: &str)
        ensures
            base@ == self@.base_url,
    {
        self.base_url.as_str()
    }

    /// The complete set of headers that will be sent with the request.
    pub fn get_headers(&self) -> (headers: &HeaderMap)
        ensures
            header_entries(*headers) == self@.headers,
    {
        &self.headers
    }
}

impl Default for RequestParams {
    /// The parameters for a node at `http://localhost:9200`.
    fn default() -> (params: Self)
        ensures
            params@ == (RequestParamsView {
                base_url: "http://localhost:9200"@,
                url_params: Seq::empty(),
                headers: default_headers(),
            }),
            params@.is_valid(),
            params@.has_json_content_type(),
    {
        RequestParams::new_owned("http://localhost:9200".to_owned())
    }
}

impl Clone for RequestParams {
    /// A store that holds the same values.
    fn clone(&self) -> (copy: Self)
        ensures
            copy@ == self@,
    {
        proof {
            use_type_invariant(self);
        }
        let mut url_params: Vec<(&'static str, String)> = Vec::new();
        let mut i: usize = 0;
        while i < self.url_params.len()
            invariant
                i <= self.url_params@.len(),
                url_params@ == self.url_params@.take(i as int),
            decreases self.url_params@.len() - i,
        {
            let key: &'static str = self.url_params[i].0;
            let value = self.url_params[i].1.clone();
            url_params.push((key, value));
            assert(url_params@ =~= self.url_params@.take(i + 1));
            i += 1;
        }
        assert(url_params@ =~= self.url_params@);
        RequestParams {
            base_url: self.base_url.clone(),
            url_params,
            headers: copy_headers(&self.headers),
        }
    }
}

} // verus!
