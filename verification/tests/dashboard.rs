use cch::dashboard::{route, serve, Content, Route, Verb};
use cch::json::{array_json, object_json, row_json, sessions_json};
use cch::matcher::{select, Matcher};
use cch::session::Session;
use cch::store::Store;
use cch::text::to_chars;

fn sample() -> Store {
    let mut store = Store::new();
    store.upsert("a1", "First", "/home/u", "2024-01-01T10:00:00.000000");
    store.upsert("b2", "Say \"hi\"", "C:\\dir", "2024-01-02T10:00:00.000000");
    store
}

#[test]
fn route_of_each_request() {
    assert!(matches!(route(Verb::Get, "/"), Route::Page));
    assert!(matches!(route(Verb::Get, "/api/sessions"), Route::Sessions));
    assert!(matches!(route(Verb::Get, "/api/sessions/"), Route::Missing));
    assert!(matches!(route(Verb::Get, "/index.html"), Route::Missing));
    assert!(matches!(route(Verb::Get, ""), Route::Missing));
    assert!(matches!(route(Verb::Delete, "/"), Route::Missing));
    assert!(matches!(route(Verb::Delete, "/api/sessions"), Route::Missing));
    assert!(matches!(route(Verb::Other, "/"), Route::Missing));
    assert!(matches!(route(Verb::Other, "/api/sessions"), Route::Missing));
    assert!(matches!(route(Verb::Other, "/api/sessions/x"), Route::Missing));
}

#[test]
fn route_of_a_deletion_takes_the_rest_as_the_id() {
    match route(Verb::Delete, "/api/sessions/abc123") {
        Route::Remove(id) => assert_eq!(id, "abc123"),
        other => panic!("unexpected: {:?}", other),
    }
    match route(Verb::Delete, "/api/sessions/") {
        Route::Remove(id) => assert_eq!(id, ""),
        other => panic!("unexpected: {:?}", other),
    }
    match route(Verb::Delete, "/api/sessions/a/b?c") {
        Route::Remove(id) => assert_eq!(id, "a/b?c"),
        other => panic!("unexpected: {:?}", other),
    }
}

#[test]
fn serve_the_page() {
    let mut store = sample();
    let reply = serve(&mut store, Verb::Get, "/", "<html></html>");
    assert_eq!(reply.status, 200);
    assert!(matches!(reply.content, Content::Html));
    assert_eq!(reply.body, "<html></html>");
    assert_eq!(store.len(), 2);
}

#[test]
fn serve_the_listing_as_json() {
    let mut store = sample();
    let reply = serve(&mut store, Verb::Get, "/api/sessions", "");
    assert_eq!(reply.status, 200);
    assert!(matches!(reply.content, Content::Json));
    assert_eq!(
        reply.body,
        "[{\"id\":\"b2\",\"title\":\"Say \\\"hi\\\"\",\"pwd\":\"C:\\\\dir\",\"created_at\":\"2024-01-02T10:00:00.000000\"},{\"id\":\"a1\",\"title\":\"First\",\"pwd\":\"/home/u\",\"created_at\":\"2024-01-01T10:00:00.000000\"}]"
    );
    assert_eq!(store.len(), 2);
}

#[test]
fn serve_an_empty_listing() {
    let mut store = Store::new();
    let reply = serve(&mut store, Verb::Get, "/api/sessions", "");
    assert_eq!(reply.status, 200);
    assert_eq!(reply.body, "[]");
}

#[test]
fn the_listing_parses_back_as_json() {
    let store = sample();
    let text = sessions_json(store.rows());
    let value: serde_json::Value = serde_json::from_str(&text).unwrap();
    let rows = value.as_array().unwrap();
    assert_eq!(rows.len(), 2);
    assert_eq!(rows[0].get("id").unwrap().as_str().unwrap(), "b2");
    assert_eq!(rows[0].get("title").unwrap().as_str().unwrap(), "Say \"hi\"");
    assert_eq!(rows[0].get("pwd").unwrap().as_str().unwrap(), "C:\\dir");
    assert_eq!(rows[1].get("created_at").unwrap().as_str().unwrap(), "2024-01-01T10:00:00.000000");
    assert_eq!(rows[1].as_object().unwrap().len(), 4);
}

#[test]
fn serve_a_deletion() {
    let mut store = sample();
    let reply = serve(&mut store, Verb::Delete, "/api/sessions/a1", "");
    assert_eq!(reply.status, 200);
    assert!(matches!(reply.content, Content::Json));
    assert_eq!(reply.body, "{\"ok\":true}");
    assert_eq!(store.len(), 1);
    assert_eq!(store.rows()[0].id, "b2");
}

#[test]
fn serve_a_deletion_of_an_absent_id() {
    let mut store = sample();
    let reply = serve(&mut store, Verb::Delete, "/api/sessions/a", "");
    assert_eq!(reply.status, 200);
    assert_eq!(reply.body, "{\"ok\":true}");
    assert_eq!(store.len(), 2);
    assert_eq!(store.rows()[0].id, "b2");
    assert_eq!(store.rows()[1].id, "a1");
}

#[test]
fn serve_a_deletion_does_not_resolve_positions() {
    let mut store = sample();
    let reply = serve(&mut store, Verb::Delete, "/api/sessions/1", "");
    assert_eq!(reply.body, "{\"ok\":true}");
    assert_eq!(store.len(), 2);
}

#[test]
fn serve_anything_else() {
    let mut store = sample();
    let reply = serve(&mut store, Verb::Other, "/api/sessions", "page");
    assert_eq!(reply.status, 404);
    assert!(matches!(reply.content, Content::Plain));
    assert_eq!(reply.body, "Not Found");
    let reply = serve(&mut store, Verb::Get, "/nowhere", "page");
    assert_eq!(reply.status, 404);
    assert_eq!(store.len(), 2);
}

#[test]
fn json_object_and_array() {
    assert_eq!(
        object_json("1", "2", "3", "4"),
        "{\"id\":1,\"title\":2,\"pwd\":3,\"created_at\":4}"
    );
    assert_eq!(array_json(&Vec::new()), "[]");
    assert_eq!(array_json(&vec!["1".to_string()]), "[1]");
    assert_eq!(array_json(&vec!["1".to_string(), "{}".to_string(), "3".to_string()]), "[1,{},3]");
}

#[test]
fn json_row_quotes_and_escapes() {
    let s = Session::new("i\nd", "t", "p", "c");
    assert_eq!(
        row_json(&s).unwrap(),
        "{\"id\":\"i\\nd\",\"title\":\"t\",\"pwd\":\"p\",\"created_at\":\"c\"}"
    );
}

#[test]
fn matcher_tests_one_record() {
    let s = Session::new("abc", "Title", "/", "2024");
    let key = to_chars("bc");
    assert!(!Matcher::IdIs.holds(&key, &s));
    assert!(Matcher::IdIsNot.holds(&key, &s));
    assert!(Matcher::IdHas.holds(&key, &s));
    assert!(!Matcher::IdLacks.holds(&key, &s));
    assert!(Matcher::Mentions.holds(&key, &s));
    let key = to_chars("itl");
    assert!(!Matcher::IdHas.holds(&key, &s));
    assert!(Matcher::Mentions.holds(&key, &s));
    let key = to_chars("abc");
    assert!(Matcher::IdIs.holds(&key, &s));
}

#[test]
fn select_keeps_the_order() {
    let rows = vec![
        Session::new("xa", "", "", "3"),
        Session::new("b", "", "", "2"),
        Session::new("ax", "", "", "1"),
    ];
    let picked = select(&rows, Matcher::IdHas, &to_chars("a"));
    assert_eq!(picked.len(), 2);
    assert_eq!(picked[0].id, "xa");
    assert_eq!(picked[1].id, "ax");
}
