//! The requests that the client sends.

use crate::binance_options_client::error::BinanceOptionsClientError;
use vstd::prelude::*;
use vstd::std_specs::convert::FromSpecImpl;
use vstd::string::StringExecFns;

verus! {

/// Base URL of the Binance options API.
pub const BASE_URL: &'static str = "https://eapi.binance.com";

/// Endpoint for ticker data.
pub const TICKER_ENDPOINT: &'static str = "/eapi/v1/ticker";

/// The method of an HTTP request.
#[derive(Clone, Copy, Debug, PartialEq, Eq, Structural)]
pub enum Method {
    Get,
    Post,
    Put,
    Delete,
    Head,
    Options,
    Connect,
    Patch,
    Trace,
}

/// A request to the API.
#[derive(Debug)]
pub struct Request {
    /// The path of the endpoint.
    pub path: String,
    /// The HTTP method.
    pub method: Method,
    /// The query parameters, as pairs of a name and a value.
    pub params: Vec<(String, String)>,
    /// Whether the request needs an API key.
    pub requires_api_key: bool,
    /// Whether the request needs a signature.
    pub requires_signature: bool,
}

/// A request for ticker data, for all symbols or for one.
#[derive(Debug)]
pub struct TickerRequest {
    symbol: Option<String>,
}

impl TickerRequest {
    /// The symbol that the request is narrowed to, if any.
    pub closed spec fn spec_symbol(&self) -> Option<Seq<char>> {
        match self.symbol {
            Some(s) => Some(s@),
            None => None,
        }
    }

    /// A request for the tickers of all symbols.
    pub fn new() -> (request: Self)
        ensures
            request.spec_symbol() is None,
    {
        TickerRequest { symbol: None }
    }

    /// Narrows the request to one symbol.
    pub fn symbol(self, symbol: &str) -> (request: Self)
        ensures
            request.spec_symbol() == Some(symbol@),
    {
        let mut request = self;
        request.symbol = Some(symbol.to_owned());
        request
    }
}

impl Default for TickerRequest {
    fn default() -> (request: Self)
        ensures
            request.spec_symbol() is None,
    {
        TickerRequest::new()
    }
}

/// The query parameters of a ticker request: the symbol, under the name
/// `symbol`, where the request is narrowed to one.
pub open spec fn ticker_params(symbol: Option<Seq<char>>) -> Seq<(Seq<char>, Seq<char>)> {
    match symbol {
        Some(s) => seq![("symbol"@, s)],
        None => seq![],
    }
}

/// The query parameters of a request, each as a pair of texts.
pub open spec fn params_view(params: Seq<(String, String)>) -> Seq<(Seq<char>, Seq<char>)> {
    Seq::new(params.len(), |i: int| (params[i].0@, params[i].1@))
}

impl From<TickerRequest> for Request {
    /// The request that asks the ticker endpoint for what `request` describes:
    /// a `GET` that needs neither key nor signature.
    fn from(request: TickerRequest) -> (built: Request)
        ensures
            built.path@ == TICKER_ENDPOINT@,
            built.method == Method::Get,
            params_view(built.params@) == ticker_params(request.spec_symbol()),
            !built.requires_api_key,
            !built.requires_signature,
    {
        let mut params: Vec<(String, String)> = Vec::new();
        if let Some(symbol) = request.symbol {
            params.push(("symbol".to_owned(), symbol));
        }
        proof {
            assert(params_view(params@) =~= ticker_params(request.spec_symbol()));
        }
        Request {
            path: TICKER_ENDPOINT.to_owned(),
            method: Method::Get,
            params,
            requires_api_key: false,
            requires_signature: false,
        }
    }
}

impl FromSpecImpl<TickerRequest> for Request {
    open spec fn obeys_from_spec() -> bool {
        false
    }

    open spec fn from_spec(request: TickerRequest) -> Request {
        arbitrary()
    }
}

/// Whether the client sends requests with this method.
pub open spec fn is_supported(method: Method) -> bool {
    method is Get || method is Post || method is Put || method is Delete
}

/// The address that a request goes to: the base URL, followed by the path.
pub fn request_url(base_url: &str, path: &str) -> (url: String)
    ensures
        url@ == base_url@ + path@,
{
    base_url.to_owned().concat(path)
}

/// What is to be sent for a request that the client accepts.
#[derive(Debug)]
pub struct Outgoing {
    /// The address.
    pub url: String,
    /// The method.
    pub method: Method,
    /// The query parameters to attach; none are attached where this is empty.
    pub query: Vec<(String, String)>,
}

/// Decides what is sent for `request`: its method, to the address under
/// `base_url`, with its parameters as the query. A method that the client
/// does not send is refused.
pub fn prepare(base_url: &str, request: Request) -> (outcome: Result<Outgoing, BinanceOptionsClientError>)
    ensures
        match outcome {
            Ok(out) => is_supported(request.method) && out.url@ == base_url@ + request.path@
                && out.method == request.method && out.query == request.params,
            Err(e) => !is_supported(request.method) && (e matches BinanceOptionsClientError::Unknown(
                text,
            ) && text@ == "Unsupported HTTP method"@),
        },
{
    match request.method {
        Method::Get | Method::Post | Method::Put | Method::Delete => {
            let url = request_url(base_url, request.path.as_str());
            Ok(Outgoing { url, method: request.method, query: request.params })
        },
        _ => Err(BinanceOptionsClientError::Unknown("Unsupported HTTP method".to_owned())),
    }
}

/// The request for the raw ticker data of `symbol`, or of all symbols.
pub fn ticker_request(symbol: Option<&str>) -> (request: Request)
    ensures
        request.path@ == TICKER_ENDPOINT@,
        request.method == Method::Get,
        params_view(request.params@) == ticker_params(
            match symbol {
                Some(s) => Some(s@),
                None => None,
            },
        ),
        !request.requires_api_key,
        !request.requires_signature,
{
    let mut ticker_req = TickerRequest::new();
    if let Some(s) = symbol {
        ticker_req = ticker_req.symbol(s);
    }
    Request::from(ticker_req)
}

} // verus!
