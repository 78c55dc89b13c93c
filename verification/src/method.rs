//! Mapping from the request catalogue's verbs to the transport's methods.

use vstd::prelude::*;
use elastic_requests::HttpMethod;
use reqwest::Method;

verus! {

/// The request catalogue's verb enumeration, with its six variants.
#[verifier::external_type_specification]
pub struct ExHttpMethod(HttpMethod);

/// The transport's method type, opaque here.
#[verifier::external_type_specification]
#[verifier::external_body]
pub struct ExMethod(Method);

/// The token of a transport method, as `reqwest::Method::as_str` gives it.
pub uninterp spec fn method_token(method: Method) -> Seq<char>;

/// `reqwest::Method::GET`, whose token is `GET`.
#[verifier::external_body]
fn transport_get() -> (method: Method)
    ensures
        method_token(method) == "GET"@,
{
    Method::GET
}

/// `reqwest::Method::POST`, whose token is `POST`.
#[verifier::external_body]
fn transport_post() -> (method: Method)
    ensures
        method_token(method) == "POST"@,
{
    Method::POST
}

/// `reqwest::Method::HEAD`, whose token is `HEAD`.
#[verifier::external_body]
fn transport_head() -> (method: Method)
    ensures
        method_token(method) == "HEAD"@,
{
    Method::HEAD
}

/// `reqwest::Method::DELETE`, whose token is `DELETE`.
#[verifier::external_body]
fn transport_delete() -> (method: Method)
    ensures
        method_token(method) == "DELETE"@,
{
    Method::DELETE
}

/// `reqwest::Method::PUT`, whose token is `PUT`.
#[verifier::external_body]
fn transport_put() -> (method: Method)
    ensures
        method_token(method) == "PUT"@,
{
    Method::PUT
}

/// `reqwest::Method::PATCH`, whose token is `PATCH`.
#[verifier::external_body]
fn transport_patch() -> (method: Method)
    ensures
        method_token(method) == "PATCH"@,
{
    Method::PATCH
}

/// The HTTP token that a verb stands for.
pub open spec fn verb_token(verb: HttpMethod) -> Seq<char> {
    match verb {
        HttpMethod::Get => "GET"@,
        HttpMethod::Post => "POST"@,
        HttpMethod::Head => "HEAD"@,
        HttpMethod::Delete => "DELETE"@,
        HttpMethod::Put => "PUT"@,
        HttpMethod::Patch => "PATCH"@,
    }
}

/// The transport method for a verb: the one with the verb's token.
pub fn build_method(method: HttpMethod) -> (transport: Method)
    ensures
        method_token(transport) == verb_token(method),
{
    match method {
        HttpMethod::Get => transport_get(),
        HttpMethod::Post => transport_post(),
        HttpMethod::Head => transport_head(),
        HttpMethod::Delete => transport_delete(),
        HttpMethod::Put => transport_put(),
        HttpMethod::Patch => transport_patch(),
    }
}

/// Different verbs stand for different tokens.
pub proof fn lemma_verb_tokens_distinct(a: HttpMethod, b: HttpMethod)
    requires
        a != b,
    ensures
        verb_token(a) != verb_token(b),
{
    reveal_strlit("GET");
    reveal_strlit("POST");
    reveal_strlit("HEAD");
    reveal_strlit("DELETE");
    reveal_strlit("PUT");
    reveal_strlit("PATCH");
    let ta = verb_token(a);
    let tb = verb_token(b);
    if ta.len() == tb.len() {
        assert(ta[0] != tb[0] || ta[1] != tb[1]);
    }
}

/// The mapping is one to one: the transport methods that `build_method`
/// gives for two different verbs are different.
pub proof fn lemma_build_method_injective(a: HttpMethod, b: HttpMethod, ma: Method, mb: Method)
    requires
        a != b,
        method_token(ma) == verb_token(a),
        method_token(mb) == verb_token(b),
    ensures
        ma != mb,
{
    lemma_verb_tokens_distinct(a, b);
}

} // verus!
