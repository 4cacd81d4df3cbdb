use flickr_cli::oauth::{
    parse_access_token_response, parse_request_token_response, pct_encode, AuthError, FlickrAuth,
};
use flickr_cli::params::ParamMap;
use flickr_cli::token_file::{parse_token_file, token_file_content};
use flickr_cli::types::OAuthTokens;

// ── pct_encode ────────────────────────────────────────────────────

#[test]
fn pct_encode_alphanumeric_unchanged() {
    assert_eq!(pct_encode("abc123XYZ"), "abc123XYZ");
}

#[test]
fn pct_encode_space_becomes_percent20() {
    assert_eq!(pct_encode("hello world"), "hello%20world");
}

#[test]
fn pct_encode_space_not_plus() {
    let encoded = pct_encode("a b");
    assert!(!encoded.contains('+'), "space must not be encoded as +");
    assert!(encoded.contains("%20"));
}

#[test]
fn pct_encode_special_chars_encoded() {
    let encoded = pct_encode("!*'()");
    assert!(!encoded.contains('!'));
    assert!(!encoded.contains('*'));
    assert!(!encoded.contains('\''));
    assert!(!encoded.contains('('));
    assert!(!encoded.contains(')'));
    assert!(encoded.contains('%'));
}

#[test]
fn pct_encode_unreserved_chars_unchanged() {
    assert_eq!(pct_encode("-._~"), "-._~");
}

#[test]
fn pct_encode_empty_string() {
    assert_eq!(pct_encode(""), "");
}

#[test]
fn pct_encode_url_with_special_chars() {
    let encoded = pct_encode("https://example.com/path?key=val&other=x");
    assert!(!encoded.contains(':'));
    assert!(!encoded.contains('/'));
    assert!(!encoded.contains('?'));
    assert!(!encoded.contains('&'));
    assert!(!encoded.contains('='));
    assert!(encoded.starts_with("https%3A"));
}

#[test]
fn pct_encode_multibyte_utf8_upper_hex() {
    assert_eq!(pct_encode("é"), "%C3%A9");
    assert_eq!(pct_encode("a+b=c"), "a%2Bb%3Dc");
    assert_eq!(pct_encode("日"), "%E6%97%A5");
}

#[test]
fn pct_encode_agrees_with_percent_encoding_crate() {
    const SET: &percent_encoding::AsciiSet = &percent_encoding::NON_ALPHANUMERIC
        .remove(b'-')
        .remove(b'.')
        .remove(b'_')
        .remove(b'~');
    for s in [
        "",
        "plain",
        "with space",
        "!*'()&=+/?:@",
        "ünïcödé ✓",
        "tab\tnew\nline",
        "~-._",
    ] {
        assert_eq!(
            pct_encode(s),
            percent_encoding::utf8_percent_encode(s, SET).to_string()
        );
    }
}

// ── parse_query_string ────────────────────────────────────────────

#[test]
fn parse_query_string_standard() {
    let map = FlickrAuth::parse_query_string("oauth_token=abc&oauth_token_secret=xyz");
    assert_eq!(map.get("oauth_token").map(|s| s.as_str()), Some("abc"));
    assert_eq!(
        map.get("oauth_token_secret").map(|s| s.as_str()),
        Some("xyz")
    );
}

#[test]
fn parse_query_string_empty_value() {
    let map = FlickrAuth::parse_query_string("key=");
    assert_eq!(map.get("key").map(|s| s.as_str()), Some(""));
}

#[test]
fn parse_query_string_single_pair() {
    let map = FlickrAuth::parse_query_string("key=value");
    assert_eq!(map.len(), 1);
    assert_eq!(map.get("key").map(|s| s.as_str()), Some("value"));
}

#[test]
fn parse_query_string_empty_input_produces_one_empty_key() {
    let map = FlickrAuth::parse_query_string("");
    assert_eq!(map.len(), 1);
    assert!(map.contains_key(""));
}

#[test]
fn parse_query_string_value_with_equals() {
    let map = FlickrAuth::parse_query_string("sig=a=b=c");
    assert_eq!(map.get("sig").map(|s| s.as_str()), Some("a=b=c"));
}

#[test]
fn parse_query_string_repeated_key_keeps_last_and_sorts() {
    let map = FlickrAuth::parse_query_string("b=1&a=2&b=3&noequals");
    assert_eq!(map.len(), 3);
    assert_eq!(map.get("b").map(|s| s.as_str()), Some("3"));
    assert_eq!(map.get("a").map(|s| s.as_str()), Some("2"));
    assert_eq!(map.get("noequals").map(|s| s.as_str()), Some(""));
    assert_eq!(map.key_at(0), "a");
    assert_eq!(map.key_at(1), "b");
    assert_eq!(map.key_at(2), "noequals");
}

// ── build_oauth_header ────────────────────────────────────────────

fn make_auth() -> FlickrAuth {
    FlickrAuth::new("test_api_key".to_string(), "test_api_secret".to_string())
}

#[test]
fn build_oauth_header_starts_with_oauth() {
    let auth = make_auth();
    let params = ParamMap::new();
    let header = auth.build_oauth_header("GET", "https://example.com", &params, None, None);
    assert!(
        header.starts_with("OAuth "),
        "header must start with 'OAuth '"
    );
}

#[test]
fn build_oauth_header_contains_required_fields() {
    let auth = make_auth();
    let params = ParamMap::new();
    let header = auth.build_oauth_header("GET", "https://example.com", &params, None, None);
    assert!(header.contains("oauth_consumer_key="));
    assert!(header.contains("oauth_nonce="));
    assert!(header.contains("oauth_signature="));
    assert!(header.contains("oauth_signature_method="));
    assert!(header.contains("oauth_timestamp="));
    assert!(header.contains("oauth_version="));
}

#[test]
fn build_oauth_header_with_token_includes_oauth_token() {
    let auth = make_auth();
    let params = ParamMap::new();
    let header = auth.build_oauth_header(
        "GET",
        "https://example.com",
        &params,
        Some("mytoken"),
        Some("mysecret"),
    );
    assert!(header.contains("oauth_token="));
}

#[test]
fn build_oauth_header_without_token_omits_oauth_token() {
    let auth = make_auth();
    let params = ParamMap::new();
    let header = auth.build_oauth_header("GET", "https://example.com", &params, None, None);
    assert!(!header.contains("oauth_token="));
}

#[test]
fn build_oauth_header_oauth_extra_params_included() {
    let auth = make_auth();
    let mut params = ParamMap::new();
    params.insert("oauth_callback".to_string(), "oob".to_string());
    let header = auth.build_oauth_header("GET", "https://example.com", &params, None, None);
    assert!(header.contains("oauth_callback="));
}

#[test]
fn build_oauth_header_non_oauth_extra_params_excluded_from_header() {
    let auth = make_auth();
    let mut params = ParamMap::new();
    params.insert("format".to_string(), "json".to_string());
    params.insert("method".to_string(), "flickr.test.login".to_string());
    let header = auth.build_oauth_header("GET", "https://example.com", &params, None, None);
    assert!(
        !header.contains("\"format\""),
        "non-oauth params must not appear in header"
    );
    assert!(
        !header.contains("\"method\""),
        "non-oauth params must not appear in header"
    );
}

#[test]
fn build_oauth_header_at_exact_value_without_token() {
    let auth = make_auth();
    let params = ParamMap::new();
    let header = auth.build_oauth_header_at(
        "GET",
        "https://example.com",
        &params,
        None,
        None,
        "1700000000",
        "abcdefghijklmnopqrstuvwxyz012345",
    );
    assert_eq!(
        header,
        "OAuth oauth_consumer_key=\"test_api_key\", \
         oauth_nonce=\"abcdefghijklmnopqrstuvwxyz012345\", \
         oauth_signature=\"gkmiOa3AovgTipBdDo4fqQ3yNrM%3D\", \
         oauth_signature_method=\"HMAC-SHA1\", oauth_timestamp=\"1700000000\", \
         oauth_version=\"1.0\""
    );
}

#[test]
fn build_oauth_header_at_exact_value_with_token_and_extras() {
    let auth = make_auth();
    let mut params = ParamMap::new();
    params.insert("method".to_string(), "flickr.test.login".to_string());
    params.insert("format".to_string(), "json".to_string());
    params.insert("oauth_callback".to_string(), "oob".to_string());
    let header = auth.build_oauth_header_at(
        "get",
        "https://www.flickr.com/services/rest",
        &params,
        Some("mytoken"),
        Some("mysecret"),
        "1700000000",
        "NONCE123",
    );
    assert_eq!(
        header,
        "OAuth oauth_consumer_key=\"test_api_key\", oauth_nonce=\"NONCE123\", \
         oauth_signature=\"tqAAzkJ1hKDMpPub7KDYSHc6Svs%3D\", \
         oauth_signature_method=\"HMAC-SHA1\", oauth_timestamp=\"1700000000\", \
         oauth_version=\"1.0\", oauth_token=\"mytoken\", oauth_callback=\"oob\""
    );
}

#[test]
fn build_oauth_header_nonce_and_timestamp_shapes() {
    let auth = make_auth();
    let params = ParamMap::new();
    let header = auth.build_oauth_header("GET", "https://example.com", &params, None, None);
    let nonce_start = header.find("oauth_nonce=\"").unwrap() + "oauth_nonce=\"".len();
    let nonce: String = header[nonce_start..].chars().take_while(|c| *c != '"').collect();
    assert_eq!(nonce.len(), 32);
    assert!(nonce.chars().all(|c| c.is_ascii_alphanumeric()));
    let ts_start = header.find("oauth_timestamp=\"").unwrap() + "oauth_timestamp=\"".len();
    let ts: String = header[ts_start..].chars().take_while(|c| *c != '"').collect();
    let secs: u64 = ts.parse().unwrap();
    assert!(secs > 1_600_000_000);
}

#[test]
fn authorize_url_for_appends_token() {
    let auth = make_auth();
    assert_eq!(
        auth.authorize_url_for("req123"),
        "https://www.flickr.com/services/oauth/authorize?oauth_token=req123"
    );
}

#[test]
fn request_and_access_token_headers_carry_their_parameters() {
    let auth = make_auth();
    let h = auth.request_token_header();
    assert!(h.starts_with("OAuth "));
    assert!(h.contains("oauth_callback=\"oob\""));
    assert!(!h.contains("oauth_token="));
    let h = auth.access_token_header("req_tok", "req_sec", "verifier123");
    assert!(h.contains("oauth_token=\"req_tok\""));
    assert!(h.contains("oauth_verifier=\"verifier123\""));
}

// ── token file ────────────────────────────────────────────────────

#[test]
fn load_tokens_reads_file_when_keyring_unavailable() {
    let content = "oauth_token=mytoken123\noauth_token_secret=mysecret456\n";
    match parse_token_file(content) {
        Ok(tokens) => {
            assert_eq!(tokens.oauth_token, "mytoken123");
            assert_eq!(tokens.oauth_token_secret, "mysecret456");
        }
        Err(e) => panic!("unexpected error: {:?}", e),
    }
}

#[test]
fn load_tokens_empty_file_returns_no_tokens() {
    match parse_token_file("") {
        Err(AuthError::NoTokens) => {}
        other => panic!("unexpected result: {:?}", other),
    }
}

#[test]
fn token_file_trims_and_ignores_other_lines() {
    let content = "fullname=Someone\r\n  oauth_token =  tok \nbogus\noauth_token_secret=s=e\n";
    let tokens = parse_token_file(content).unwrap();
    assert_eq!(tokens.oauth_token, "tok");
    assert_eq!(tokens.oauth_token_secret, "s=e");
    assert!(tokens.fullname.is_none());
}

#[test]
fn token_file_missing_secret_is_no_tokens() {
    assert!(matches!(
        parse_token_file("oauth_token=abc\n"),
        Err(AuthError::NoTokens)
    ));
    assert!(matches!(
        parse_token_file("oauth_token=abc\noauth_token_secret=   \n"),
        Err(AuthError::NoTokens)
    ));
}

#[test]
fn token_file_round_trip() {
    let tokens = OAuthTokens {
        oauth_token: "token123".to_string(),
        oauth_token_secret: "secret456".to_string(),
        fullname: Some("Test User".to_string()),
        user_nsid: None,
        username: None,
    };
    let content = token_file_content(&tokens);
    assert_eq!(
        content,
        "oauth_token=token123\noauth_token_secret=secret456\nfullname=Test User\n"
    );
    let back = parse_token_file(&content).unwrap();
    assert_eq!(back.oauth_token, "token123");
    assert_eq!(back.oauth_token_secret, "secret456");
}

// ── token responses ───────────────────────────────────────────────

#[test]
fn fetch_request_token_parses_response() {
    let (token, secret) = parse_request_token_response(
        "oauth_token=test_token&oauth_token_secret=test_secret&oauth_callback_confirmed=true",
    )
    .expect("fetch_request_token");
    assert_eq!(token, "test_token");
    assert_eq!(secret, "test_secret");
}

#[test]
fn fetch_access_token_parses_response() {
    let tokens = parse_access_token_response(
        "oauth_token=access_tok&oauth_token_secret=access_sec&fullname=Test%20User&username=testuser&user_nsid=123%40N01",
    )
    .expect("fetch_access_token");
    assert_eq!(tokens.oauth_token, "access_tok");
    assert_eq!(tokens.oauth_token_secret, "access_sec");
    assert_eq!(tokens.username.as_deref(), Some("testuser"));
    assert_eq!(tokens.user_nsid.as_deref(), Some("123%40N01"));
    assert_eq!(tokens.fullname.as_deref(), Some("Test%20User"));
}

#[test]
fn token_responses_report_missing_fields() {
    match parse_request_token_response("oauth_token_secret=x") {
        Err(AuthError::Parse(m)) => assert_eq!(m, "Missing oauth_token in response"),
        other => panic!("unexpected: {:?}", other),
    }
    match parse_request_token_response("oauth_token=x") {
        Err(AuthError::Parse(m)) => assert_eq!(m, "Missing oauth_token_secret in response"),
        other => panic!("unexpected: {:?}", other),
    }
    match parse_access_token_response("") {
        Err(AuthError::Parse(m)) => assert_eq!(m, "Missing oauth_token"),
        other => panic!("unexpected: {:?}", other),
    }
    match parse_access_token_response("oauth_token=t") {
        Err(AuthError::Parse(m)) => assert_eq!(m, "Missing oauth_token_secret"),
        other => panic!("unexpected: {:?}", other),
    }
}

#[test]
fn token_file_round_trip_with_multiline_full_name() {
    let tokens = OAuthTokens {
        oauth_token: "tok".to_string(),
        oauth_token_secret: "sec".to_string(),
        fullname: Some("a\nb".to_string()),
        user_nsid: None,
        username: None,
    };
    let back = parse_token_file(&token_file_content(&tokens)).unwrap();
    assert_eq!(back.oauth_token, "tok");
    assert_eq!(back.oauth_token_secret, "sec");
}
