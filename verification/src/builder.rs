//! Assembly of a request's url from the parameters and the request's path.

use vstd::prelude::*;
use vstd::string::StringExecFns;
use crate::form::query_text;
use crate::params::RequestParams;
use crate::params::RequestParamsView;

verus! {

/// The url of a request: the base url, the path as it is given, and the
/// query string where there are url parameters.
pub open spec fn url_text(params: RequestParamsView, path: Seq<char>) -> Seq<char> {
    if params.url_params.len() > 0 {
        params.base_url + path + query_text(params.url_params)
    } else {
        params.base_url + path
    }
}

/// Builds the url of a request from the base url, the request's path and
/// the url parameters. The path is taken as it is.
pub fn build_url(req_url: &str, params: &RequestParams) -> (url: String)
    ensures
        url@ == url_text(params@, req_url@),
{
    let (_, qry) = params.get_url_qry();
    let mut url = params.get_base_url().to_owned();
    url.append(req_url);
    if let Some(qry) = qry {
        url.append(qry.as_str());
    }
    url
}

} // verus!
