use hash_table::binance_options_client::api::{
    prepare, request_url, ticker_request, Method, Request, TickerRequest, BASE_URL, TICKER_ENDPOINT,
};
use hash_table::binance_options_client::error::{status_is_success, BinanceOptionsClientError};
use hash_table::binance_options_client::parser::{
    array_items, parse_ticker, parse_ticker_streaming, ParsingStrategy, TopLevel, Undecoded,
};
use hash_table::binance_options_client::{add, trigger_error};

#[test]
fn it_works() {
    let result = add(2, 2);
    assert_eq!(result, 4);
}

#[test]
fn test_trigger_error() {
    match trigger_error() {
        Err(BinanceOptionsClientError::Unknown(_)) => {
            // Expected error
        }
        _ => panic!("Expected Unknown error"),
    }
}

#[test]
fn trigger_error_text() {
    match trigger_error() {
        Err(BinanceOptionsClientError::Unknown(text)) => assert_eq!(text, "Triggered error for testing"),
        _ => panic!("Expected Unknown error"),
    }
}

#[test]
fn ticker_request_convert_to_request_test() {
    let request: Request = TickerRequest::new().symbol("BTC-200730-9000-C").into();

    assert_eq!(request.path, TICKER_ENDPOINT.to_string());
    assert_eq!(request.method, Method::Get);
    assert_eq!(
        request.params,
        vec![("symbol".to_owned(), "BTC-200730-9000-C".to_string())]
    );
}

#[test]
fn ticker_request_without_symbol() {
    let request: Request = TickerRequest::default().into();
    assert_eq!(request.path, "/eapi/v1/ticker");
    assert_eq!(request.method, Method::Get);
    assert!(request.params.is_empty());
    assert!(!request.requires_api_key);
    assert!(!request.requires_signature);
    let request = ticker_request(None);
    assert!(request.params.is_empty());
    let request = ticker_request(Some("ETH-1"));
    assert_eq!(request.params, vec![("symbol".to_owned(), "ETH-1".to_owned())]);
}

#[test]
fn request_is_prepared() {
    assert_eq!(request_url(BASE_URL, TICKER_ENDPOINT), "https://eapi.binance.com/eapi/v1/ticker");
    let out = prepare(BASE_URL, ticker_request(Some("X"))).unwrap();
    assert_eq!(out.url, "https://eapi.binance.com/eapi/v1/ticker");
    assert_eq!(out.method, Method::Get);
    assert_eq!(out.query, vec![("symbol".to_owned(), "X".to_owned())]);
    for method in [Method::Post, Method::Put, Method::Delete] {
        let request = Request {
            path: "/p".to_owned(),
            method,
            params: vec![],
            requires_api_key: false,
            requires_signature: false,
        };
        let out = prepare("http://h", request).unwrap();
        assert_eq!(out.url, "http://h/p");
        assert_eq!(out.method, method);
    }
}

#[test]
fn unsupported_method_is_refused() {
    for method in [Method::Head, Method::Options, Method::Connect, Method::Patch, Method::Trace] {
        let request = Request {
            path: "/p".to_owned(),
            method,
            params: vec![],
            requires_api_key: false,
            requires_signature: false,
        };
        match prepare(BASE_URL, request) {
            Err(BinanceOptionsClientError::Unknown(text)) => assert_eq!(text, "Unsupported HTTP method"),
            _ => panic!("Expected Unknown error"),
        }
    }
}

#[test]
fn status_classes() {
    assert!(status_is_success(200));
    assert!(status_is_success(299));
    assert!(!status_is_success(199));
    assert!(!status_is_success(300));
    assert!(!status_is_success(404));
}

#[test]
fn error_of_a_failed_response() {
    match BinanceOptionsClientError::from_response(
        400,
        "{\"code\":-1121,\"msg\":\"Invalid symbol.\"}".to_owned(),
        Some((-1121, "Invalid symbol.".to_owned())),
    ) {
        BinanceOptionsClientError::ApiError { code, msg } => {
            assert_eq!(code, -1121);
            assert_eq!(msg, "Invalid symbol.");
        }
        _ => panic!("Expected ApiError"),
    }
    match BinanceOptionsClientError::from_response(502, "Bad Gateway".to_owned(), None) {
        BinanceOptionsClientError::HttpResponse { code, body } => {
            assert_eq!(code, 502);
            assert_eq!(body, "Bad Gateway");
        }
        _ => panic!("Expected HttpResponse"),
    }
}

#[test]
fn strategy_defaults_to_streaming() {
    assert_eq!(ParsingStrategy::default(), ParsingStrategy::Streaming);
    assert!(matches!(parse_ticker("[]", None), Ok(Undecoded::Items(_))));
    assert!(matches!(
        parse_ticker("[]", Some(ParsingStrategy::Streaming)),
        Ok(Undecoded::Items(_))
    ));
    assert!(matches!(
        parse_ticker("[]", Some(ParsingStrategy::Direct)),
        Ok(Undecoded::Document)
    ));
    // The direct way looks at nothing.
    assert!(matches!(
        parse_ticker("{", Some(ParsingStrategy::Direct)),
        Ok(Undecoded::Document)
    ));
    assert!(matches!(
        parse_ticker("{", None),
        Err(BinanceOptionsClientError::JsonParse(_))
    ));
}

#[test]
fn streaming_hands_out_the_elements_of_an_array() {
    let items = parse_ticker_streaming(" [ {\"symbol\": \"A\"}, 2, \"x\" ] ").unwrap();
    assert_eq!(items.len(), 3);
    assert_eq!(items[0]["symbol"], "A");
    assert_eq!(items[1], 2);
    assert_eq!(items[2], "x");
    assert!(parse_ticker_streaming("[]").unwrap().is_empty());
    // Only the first value of the text counts.
    assert_eq!(parse_ticker_streaming("[1] [2, 3]").unwrap().len(), 1);
}

#[test]
fn streaming_refuses_what_is_no_array() {
    for text in ["", "  \n\t "] {
        match parse_ticker_streaming(text) {
            Err(BinanceOptionsClientError::Unknown(text)) => assert_eq!(text, "No JSON data"),
            _ => panic!("Expected Unknown error"),
        }
    }
    for text in ["{\"a\": 1}", "3 ", "\"text\"", "null", "true"] {
        match parse_ticker_streaming(text) {
            Err(BinanceOptionsClientError::Unknown(text)) => {
                assert_eq!(text, "Expected JSON array at top-level")
            }
            _ => panic!("Expected Unknown error"),
        }
    }
    for text in ["[1, 2", "[1,]", "nope", "{\"a\" 1}"] {
        assert!(matches!(
            parse_ticker_streaming(text),
            Err(BinanceOptionsClientError::JsonParse(_))
        ));
    }
}

#[test]
fn top_level_values_become_items_or_errors() {
    assert!(matches!(
        array_items(TopLevel::Missing),
        Err(BinanceOptionsClientError::Unknown(_))
    ));
    assert!(matches!(
        array_items(TopLevel::Other),
        Err(BinanceOptionsClientError::Unknown(_))
    ));
    let items = array_items(TopLevel::Array(vec![serde_json::Value::Null])).unwrap();
    assert_eq!(items, vec![serde_json::Value::Null]);
    let error = serde_json::from_str::<serde_json::Value>("[").unwrap_err();
    let text = error.to_string();
    match array_items(TopLevel::Malformed(error)) {
        Err(BinanceOptionsClientError::JsonParse(e)) => assert_eq!(e.to_string(), text),
        _ => panic!("Expected JsonParse error"),
    }
}
