//! Request parameters, URL assembly and verb mapping for an Elasticsearch
//! REST client built on `reqwest`.

pub mod builder;
pub mod client;
pub mod form;
pub mod headers;
pub mod method;
pub mod order;
pub mod pairs;
pub mod params;

pub use builder::build_url;
pub use method::build_method;
pub use params::RequestParams;
