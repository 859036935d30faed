use annorepo_search::error::ClientError;
use annorepo_search::location::parse_search_id;
use annorepo_search::page::{decode_document, decode_page, metadata_label, page_from_parts, requires_authentication};
use annorepo_search::session::{response_status, search_created, session_status, SearchSession};
use annorepo_search::token::normalize_page_token;
use annorepo_search::urls::{
    about_url, distinct_values_url, fields_url, indexes_url, metadata_url, page_url, search_collection_url,
    search_info_url,
};

const BASE: &str = "https://annorepo.example.org";

const COLLECTION: &str = "https://annorepo.example.org/services/letters/search";

#[test]
fn search_id_is_trailing_segment() {
    let loc = "https://annorepo.example.org/services/letters/search/64f1a2b3c4";
    assert_eq!(parse_search_id(loc, COLLECTION), Ok("64f1a2b3c4".to_string()));
    assert_eq!(parse_search_id("/search/x", "/search"), Ok("x".to_string()));
}

#[test]
fn malformed_locations_are_protocol_errors() {
    for loc in [
        "",
        "search",
        "https://annorepo.example.org/services/letters/search",
        "https://annorepo.example.org/services/letters/search/",
        "https://annorepo.example.org/services/letters/search/abc/def",
        "https://annorepo.example.org/services/letters/search/search/def",
        "https://annorepo.example.org/services/other/search/abc",
        "https://elsewhere.example.org/x/search/abc",
        "https://annorepo.example.org/services/letters/searches/abc",
        "https://annorepo.example.org/services/letters/search/abc?x=1",
        "https://annorepo.example.org/services/letters/search/abc#frag",
        "abc",
    ] {
        assert_eq!(parse_search_id(loc, COLLECTION), Err(ClientError::ProtocolError), "{}", loc);
    }
}

#[test]
fn created_search_keeps_its_handle() {
    let loc = "https://annorepo.example.org/services/letters/search/s1";
    let collection = search_collection_url(BASE, "letters");
    let s: SearchSession = search_created(201, &collection, Some(loc)).unwrap();
    assert_eq!(s.search_id(), "s1");
    assert_eq!(s.location(), loc);
    let t = SearchSession::from_location(loc, COLLECTION).unwrap();
    assert_eq!(t.search_id(), "s1");
}

#[test]
fn search_creation_statuses() {
    assert!(matches!(search_created(201, COLLECTION, None), Err(ClientError::ProtocolError)));
    assert!(matches!(search_created(200, COLLECTION, Some("https://a/x/y")), Err(ClientError::ProtocolError)));
    assert!(matches!(
        search_created(201, COLLECTION, Some("https://annorepo.example.org/services/letters/search/search/def")),
        Err(ClientError::ProtocolError)
    ));
    assert!(matches!(search_created(400, COLLECTION, Some("https://a/search/s")), Err(ClientError::QueryRejected { status: 400 })));
    assert!(matches!(search_created(422, COLLECTION, None), Err(ClientError::QueryRejected { status: 422 })));
    assert!(matches!(search_created(503, COLLECTION, None), Err(ClientError::ServiceUnavailable { status: 503 })));
    assert!(matches!(search_created(302, COLLECTION, None), Err(ClientError::HttpError { status: 302 })));
}

#[test]
fn session_statuses() {
    assert_eq!(session_status(200), Ok(()));
    assert_eq!(session_status(404), Err(ClientError::SessionNotFound));
    assert_eq!(session_status(410), Err(ClientError::SessionNotFound));
    assert_eq!(session_status(500), Err(ClientError::HttpError { status: 500 }));
    assert_eq!(session_status(401), Err(ClientError::HttpError { status: 401 }));
}

#[test]
fn page_tokens_in_both_forms() {
    assert_eq!(normalize_page_token("0"), Ok(0));
    assert_eq!(normalize_page_token("17"), Ok(17));
    assert_eq!(normalize_page_token("https://a/services/c/search/s1?page=2"), Ok(2));
    assert_eq!(normalize_page_token("https://a/services/c/search/s1?x=y&page=41"), Ok(41));
    assert_eq!(normalize_page_token("18446744073709551615"), Ok(u64::MAX));
}

#[test]
fn unreadable_page_tokens() {
    for t in [
        "",
        "abc",
        "https://a/search/s1?page=",
        "https://a/search/s1?xpage=3",
        "https://a/search/s1/3",
        "18446744073709551616",
        "https://a/search/s1?page=99999999999999999999",
    ] {
        assert_eq!(normalize_page_token(t), Err(ClientError::ProtocolError), "{}", t);
    }
}

#[test]
fn resource_addresses() {
    assert_eq!(about_url(BASE), "https://annorepo.example.org/about");
    assert_eq!(metadata_url(BASE, "letters"), "https://annorepo.example.org/services/letters/metadata");
    assert_eq!(fields_url(BASE, "letters"), "https://annorepo.example.org/services/letters/fields");
    assert_eq!(indexes_url(BASE, "letters"), "https://annorepo.example.org/services/letters/indexes");
    assert_eq!(
        distinct_values_url(BASE, "letters", "body.type"),
        "https://annorepo.example.org/services/letters/distinct-values/body.type"
    );
    assert_eq!(search_collection_url(BASE, "letters"), "https://annorepo.example.org/services/letters/search");
    assert_eq!(
        search_info_url(BASE, "letters", "s1"),
        "https://annorepo.example.org/services/letters/search/s1/info"
    );
}

#[test]
fn page_addresses_round_trip() {
    assert_eq!(page_url(BASE, "letters", "s1", None), "https://annorepo.example.org/services/letters/search/s1");
    let u = page_url(BASE, "letters", "s1", Some(12));
    assert_eq!(u, "https://annorepo.example.org/services/letters/search/s1?page=12");
    assert_eq!(normalize_page_token(&u), Ok(12));
    assert_eq!(normalize_page_token(&page_url(BASE, "c", "s", Some(0))), Ok(0));
}

#[test]
fn page_documents() {
    let p = decode_page(r#"{"type":"AnnotationPage","items":[{"id":1},{"id":2}],"next":"https://a/services/c/search/s?page=1"}"#).unwrap();
    assert_eq!(p.items.len(), 2);
    assert_eq!(p.items[1]["id"], serde_json::Value::from(2));
    assert_eq!(p.next, Some(1));
    let last = decode_page(r#"{"items":[]}"#).unwrap();
    assert!(last.items.is_empty());
    assert_eq!(last.next, None);
}

#[test]
fn malformed_page_documents() {
    assert_eq!(decode_page("not json").err(), Some(ClientError::DecodeError));
    assert_eq!(decode_page(r#"{"next":"3"}"#).err(), Some(ClientError::DecodeError));
    assert_eq!(decode_page(r#"{"items":{}}"#).err(), Some(ClientError::DecodeError));
    assert_eq!(decode_page(r#"{"items":[],"next":4}"#).err(), Some(ClientError::DecodeError));
    assert_eq!(decode_page(r#"{"items":[],"next":"later"}"#).err(), Some(ClientError::ProtocolError));
}

#[test]
fn page_parts() {
    let p = page_from_parts(Some(vec![1u8, 2]), Some(Some("5".to_string()))).unwrap();
    assert_eq!(p.items, vec![1, 2]);
    assert_eq!(p.next, Some(5));
    assert_eq!(page_from_parts::<u8>(None, None).err(), Some(ClientError::DecodeError));
    assert_eq!(page_from_parts(Some(vec![1u8]), Some(None)).err(), Some(ClientError::DecodeError));
}

#[test]
fn search_description_decodes_the_same_twice() {
    let text = r#"{"query":{"body.type":"LetterBody"},"hits":230}"#;
    let a = decode_document(text).unwrap();
    let b = decode_document(text).unwrap();
    assert_eq!(a, b);
    assert_eq!(a["hits"], serde_json::Value::from(230));
    assert_eq!(decode_document("{").err(), Some(ClientError::DecodeError));
}

#[test]
fn about_and_metadata_members() {
    let about = decode_document(r#"{"appName":"AnnoRepo","withAuthentication":true}"#).unwrap();
    assert_eq!(requires_authentication(&about), Some(true));
    let open = decode_document(r#"{"withAuthentication":"no"}"#).unwrap();
    assert_eq!(requires_authentication(&open), None);
    let meta = decode_document(r#"{"label":"Letters","size":3}"#).unwrap();
    assert_eq!(metadata_label(&meta), Ok(serde_json::Value::from("Letters")));
    let bare = decode_document(r#"{"size":3}"#).unwrap();
    assert_eq!(metadata_label(&bare).err(), Some(ClientError::DecodeError));
}

#[test]
fn plain_request_statuses() {
    assert_eq!(response_status(200), Ok(()));
    assert_eq!(response_status(299), Ok(()));
    assert_eq!(response_status(404), Err(ClientError::HttpError { status: 404 }));
    assert_eq!(response_status(503), Err(ClientError::HttpError { status: 503 }));
}

#[test]
fn missing_authentication_flag() {
    let about = decode_document(r#"{"appName":"AnnoRepo"}"#).unwrap();
    assert_eq!(requires_authentication(&about), None);
    let off = decode_document(r#"{"withAuthentication":false}"#).unwrap();
    assert_eq!(requires_authentication(&off), Some(false));
}

#[test]
fn large_page_numbers_in_addresses() {
    let u = page_url(BASE, "c", "s", Some(u64::MAX));
    assert_eq!(u, "https://annorepo.example.org/services/c/search/s?page=18446744073709551615");
    assert_eq!(normalize_page_token(&u), Ok(u64::MAX));
    assert_eq!(page_url(BASE, "c", "s", Some(100)), "https://annorepo.example.org/services/c/search/s?page=100");
}
