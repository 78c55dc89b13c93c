//! The default parameters beside a client of the transport.

use vstd::prelude::*;
use reqwest::blocking::Client;
use reqwest::Error;
use crate::params::RequestParams;
use crate::params::RequestParamsView;
use crate::params::default_headers;

verus! {

/// The transport's blocking client, opaque here.
#[verifier::external_type_specification]
#[verifier::external_body]
pub struct ExClient(Client);

/// The transport's error, opaque here.
#[verifier::external_type_specification]
#[verifier::external_body]
pub struct ExError(Error);

/// What the default parameters hold: the node at `http://localhost:9200`,
/// no url parameters, and the default headers.
pub open spec fn default_params() -> RequestParamsView {
    RequestParamsView {
        base_url: "http://localhost:9200"@,
        url_params: Seq::empty(),
        headers: default_headers(),
    }
}

/// Puts the default parameters beside a client, and hands an error on as it
/// is.
pub fn with_default_params(made: Result<Client, Error>) -> (pair: Result<
    (Client, RequestParams),
    Error,
>)
    ensures
        match made {
            Ok(client) => pair matches Ok(both) && both.0 == client && both.1@ == default_params(),
            Err(error) => pair == Err::<(Client, RequestParams), Error>(error),
        },
{
    match made {
        Ok(client) => Ok((client, RequestParams::default())),
        Err(error) => Err(error),
    }
}

} // verus!
