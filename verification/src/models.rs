//! The request bodies the HTTP surface accepts, as plain records.

use vstd::prelude::*;

use crate::encryption::{view_opt_string, view_str_pairs};

verus! {

/// A caller-facing description of a proxied fetch.
#[derive(Debug, Clone)]
pub struct ProxyRequest {
    pub destination: String,
    pub query_params: Vec<(String, String)>,
    pub request_headers: Vec<(String, String)>,
    pub response_headers: Vec<(String, String)>,
}

/// The descriptor accepted by the URL generator.
#[derive(Debug, Clone)]
pub struct GenerateUrlRequest {
    pub mediaflow_proxy_url: String,
    pub endpoint: Option<String>,
    pub destination_url: String,
    pub query_params: Vec<(String, String)>,
    pub request_headers: Vec<(String, String)>,
    pub response_headers: Vec<(String, String)>,
    pub expiration: Option<u64>,
    pub ip: Option<String>,
    pub api_password: Option<String>,
}

/// The mathematical form of a generator request.
pub struct GenerateUrlRequestView {
    pub mediaflow_proxy_url: Seq<char>,
    pub endpoint: Option<Seq<char>>,
    pub destination_url: Seq<char>,
    pub query_params: Seq<(Seq<char>, Seq<char>)>,
    pub request_headers: Seq<(Seq<char>, Seq<char>)>,
    pub response_headers: Seq<(Seq<char>, Seq<char>)>,
    pub expiration: Option<u64>,
    pub ip: Option<Seq<char>>,
    pub api_password: Option<Seq<char>>,
}

impl View for GenerateUrlRequest {
    type V = GenerateUrlRequestView;

    open spec fn view(&self) -> GenerateUrlRequestView {
        GenerateUrlRequestView {
            mediaflow_proxy_url: self.mediaflow_proxy_url@,
            endpoint: view_opt_string(self.endpoint),
            destination_url: self.destination_url@,
            query_params: view_str_pairs(self.query_params@),
            request_headers: view_str_pairs(self.request_headers@),
            response_headers: view_str_pairs(self.response_headers@),
            expiration: self.expiration,
            ip: view_opt_string(self.ip),
            api_password: view_opt_string(self.api_password),
        }
    }
}

} // verus!
