//! Lenses, clicks, closing documents and the file of stored responses.

use http_request_client::click::{command_kind, parse_click, Asked, Click};
use http_request_client::document::parse_document;
use http_request_client::exchange::stored_response;
use http_request_client::json::{json_to_plain, parse_json, Json};
use http_request_client::lens::{code_lenses, lens_signature, request_key, request_keys, resolve_request};
use http_request_client::session::{is_usable_uri, Outcome, Session};
use http_request_client::store::{save_responses, Save, MAX_RESPONSE_ENTRY_BYTES};
use http_request_client::table::Table;

fn json(text: &str) -> Json {
    parse_json(text).expect("valid JSON")
}

fn doc(uri: &str) -> Json {
    json(&format!("{{\"textDocument\":{{\"uri\":\"{uri}\",\"text\":\"GET u\"}}}}"))
}

fn session() -> Session {
    Session::new("/d", Some("/w".to_string()), None, Table::new())
}

fn arguments(text: &str) -> Vec<Json> {
    match json(text) {
        Json::Array { items, .. } => items,
        _ => unreachable!(),
    }
}

const LOGIN: &str = "file:///w/a/login.http";
const ORDERS: &str = "file:///w/a/orders.http";
const OTHER: &str = "file:///w/b/api.http";

#[test]
fn keys_and_signatures() {
    let (_, reqs) = parse_document("get http://h/a\n###\nGET http://h/a\n###\n# @name login\nPOST http://h/a\n");
    assert_eq!(request_key(&reqs[0]), 0xdcb6_ec4d_ea1f_7c83);
    assert_eq!(request_key(&reqs[2]), 0x4f5b_8b13_c7bc_c7c0);
    assert_eq!(
        request_keys(&reqs),
        vec![(0xdcb6_ec4d_ea1f_7c83, 0), (0xdcb6_ec4d_ea1f_7c83, 1), (0x4f5b_8b13_c7bc_c7c0, 0)]
    );
    assert_eq!(lens_signature("# @name login\nPOST http://h/\n"), 0xe5c0_82c1_5385_f267);
    assert_eq!(lens_signature("# @name login\nPOST http://other/\n"), 0xe5c0_82c1_5385_f267);
}

#[test]
fn lenses_say_what_they_send() {
    let text = "# @name login\nPOST http://h/a\n###\nGET http://h/b\n";
    let lenses = code_lenses("file:///w/x.http", "file:///r.http", text);
    assert_eq!(lenses.len(), 2);
    assert_eq!(lenses[0].line, 1);
    assert_eq!(lenses[0].title, "▶ Send request  (login)");
    assert_eq!(lenses[0].command, "http.sendRequest");
    let args: Vec<String> = lenses[0].arguments.iter().map(json_to_plain).collect();
    assert_eq!(args, vec!["file:///w/x.http", "1", "4f5b8b13c7bcc7c0", "0", "login", "POST"]);
    assert_eq!(lenses[1].title, "▶ Send request");
    assert!(code_lenses("file:///r.http", "file:///r.http", text).is_empty());
}

#[test]
fn clicks_on_fresh_lenses_find_their_requests() {
    let text = "GET http://h/a\n###\nGET http://h/a\n###\n# @name n\nPOST http://h/a\n###\n# @name n\nPOST http://h/a\n";
    let (_, reqs) = parse_document(text);
    for (i, lens) in code_lenses("file:///w/x.http", "", text).iter().enumerate() {
        let c = parse_click(&lens.arguments).expect("arguments");
        let found = resolve_request(&reqs, c.line, c.key, c.nth, c.name.as_deref(), c.method.as_deref());
        assert_eq!(found, Some((i, if i < 2 { "identity" } else { "name" })));
    }
}

#[test]
fn each_hint_survives_its_edits() {
    let (_, reqs) = parse_document("\n\n# @name a\nGET http://h/new\n###\nPUT http://h/b\n");
    // The name, whatever the URL and the line.
    assert_eq!(resolve_request(&reqs, 0, Some(1), Some(0), Some("a"), Some("GET")), Some((0, "name")));
    // The identity, whatever the line.
    let key = request_key(&reqs[1]);
    assert_eq!(resolve_request(&reqs, 99, Some(key), Some(0), Some(""), Some("PUT")), Some((1, "identity")));
    // The line, while the method agrees.
    assert_eq!(resolve_request(&reqs, 5, Some(1), Some(0), Some(""), Some("put")), Some((1, "line")));
    assert_eq!(resolve_request(&reqs, 5, Some(1), Some(0), Some(""), Some("GET")), None);
    assert_eq!(resolve_request(&reqs, 5, None, None, None, None), Some((1, "line")));
    // Nothing.
    assert_eq!(resolve_request(&reqs, 4, Some(1), Some(0), Some("b"), Some("PUT")), None);
}

#[test]
fn namesakes_are_told_apart() {
    let text = "# @name n\nGET http://h/1\n###\n# @name n\nGET http://h/2\n###\n# @name n\nGET http://h/1\n";
    let (_, reqs) = parse_document(text);
    let key = request_key(&reqs[0]);
    assert_eq!(resolve_request(&reqs, 0, Some(key), Some(1), Some("n"), None), Some((2, "name")));
    // An identity that matches nothing leaves the distance to the line.
    assert_eq!(resolve_request(&reqs, 5, Some(1), Some(0), Some("n"), None), Some((1, "name")));
}

#[test]
fn commands_and_arguments() {
    assert!(command_kind("http.sendRequest") == Asked::Send);
    assert!(command_kind("http.noop") == Asked::Nothing);
    assert!(command_kind("other") == Asked::Unknown);
    let c = parse_click(&arguments("[\"u\",4294967297,\"+ff\",2,\"n\",\"GET\"]")).expect("arguments");
    assert_eq!((c.uri.as_str(), c.line, c.key, c.nth), ("u", 1, Some(255), Some(2)));
    assert_eq!((c.name.as_deref(), c.method.as_deref()), (Some("n"), Some("GET")));
    let c = parse_click(&arguments("[\"u\",0]")).expect("arguments");
    assert_eq!((c.key, c.nth, c.name, c.method), (None, None, None, None));
    assert!(parse_click(&arguments("[\"u\"]")).is_none());
    assert!(parse_click(&arguments("[1,1]")).is_none());
    assert!(parse_click(&arguments("[\"u\",-1]")).is_none());
    assert!(parse_click(&arguments("[]")).is_none());
}

#[test]
fn clicks_that_find_nothing() {
    let mut s = session();
    let c = Click { uri: LOGIN.to_string(), line: 3, key: None, nth: None, name: None, method: None };
    assert!(matches!(s.click(&c, None), Outcome::NoDocument));
    assert!(matches!(s.click(&c, Some("GET u\n")), Outcome::NotFound));
    assert!(!s.inflight.has(LOGIN, 3));
}

#[test]
fn texts_come_from_the_editor_or_from_disk() {
    let mut s = session();
    assert_eq!(s.disk_path(LOGIN).as_deref(), Some("/w/a/login.http"));
    assert_eq!(s.disk_path("untitled:1"), None);
    assert_eq!(s.document_text(LOGIN, Some("disk".to_string())).as_deref(), Some("disk"));
    assert_eq!(s.document_text(LOGIN, None), None);
    assert_eq!(s.did_open(&doc(LOGIN)), Some(true));
    assert_eq!(s.disk_path(LOGIN), None);
    assert_eq!(s.document_text(LOGIN, Some("disk".to_string())).as_deref(), Some("GET u"));
    // After one closing too many the lenses still come, from disk.
    let _ = s.did_close(&doc(LOGIN));
    assert_eq!(s.lenses(LOGIN, Some("GET u\n".to_string())).len(), 1);
}

#[test]
fn messages_that_make_no_sense_change_nothing() {
    let mut s = session();
    assert_eq!(s.did_open(&json("{\"textDocument\":{\"uri\":\"u\"}}")), None);
    assert_eq!(s.did_open(&json("[]")), None);
    assert!(!s.did_change(&json("{\"textDocument\":{\"uri\":\"u\"},\"contentChanges\":[]}")));
    assert_eq!(s.did_close(&json("{}")), None);
    assert_eq!(s.docs.count(), 0);
}

fn store(s: &mut Session, uri: &str) {
    let scope = s.scope(uri);
    s.store(&scope, "login", stored_response(200, "{}", Vec::new()));
}

#[test]
fn closing_clears_after_the_grace_period() {
    let mut s = session();
    let _ = s.did_open(&doc(LOGIN));
    store(&mut s, LOGIN);
    store(&mut s, OTHER);
    let (uri, ticket) = s.did_close(&doc(LOGIN)).expect("a closing");
    assert!(s.responses.has("/w/a"));
    assert!(s.grace_ended(&uri, ticket));
    assert!(!s.responses.has("/w/a"));
    assert!(s.responses.has("/w/b"));
    // Once is enough.
    assert!(!s.grace_ended(&uri, ticket));
}

#[test]
fn coming_back_keeps_the_responses() {
    let mut s = session();
    store(&mut s, LOGIN);
    let (uri, ticket) = s.did_close(&doc(LOGIN)).expect("a closing");
    let _ = s.did_open(&doc(LOGIN));
    assert!(!s.grace_ended(&uri, ticket));
    let (uri, second) = s.did_close(&doc(LOGIN)).expect("a closing");
    // The end of the first grace period is not the end of the second one.
    assert!(!s.grace_ended(&uri, ticket));
    let _ = s.lenses(LOGIN, None);
    assert!(!s.grace_ended(&uri, second));
    assert!(!s.flush_pending_clears());
    assert!(s.responses.has("/w/a"));
}

#[test]
fn a_neighbour_keeps_the_responses() {
    let mut s = session();
    let _ = s.did_open(&doc(LOGIN));
    let _ = s.did_open(&doc(ORDERS));
    store(&mut s, LOGIN);
    let (uri, ticket) = s.did_close(&doc(LOGIN)).expect("a closing");
    assert!(!s.grace_ended(&uri, ticket));
    assert!(s.responses.has("/w/a"));
    let (uri, ticket) = s.did_close(&doc(ORDERS)).expect("a closing");
    assert!(s.grace_ended(&uri, ticket));
    assert!(!s.responses.has("/w/a"));
}

#[test]
fn stopping_clears_what_was_closed_and_nothing_else() {
    let mut s = session();
    let _ = s.did_open(&doc(LOGIN));
    let _ = s.did_open(&doc(OTHER));
    store(&mut s, LOGIN);
    store(&mut s, OTHER);
    assert!(!s.flush_pending_clears());
    assert_eq!(s.responses.count(), 2);
    let _ = s.did_close(&doc(LOGIN));
    assert!(s.flush_pending_clears());
    assert!(!s.responses.has("/w/a"));
    assert!(s.responses.has("/w/b"));
    assert_eq!(s.closing.count(), 0);
}

#[test]
fn the_result_has_no_responses_of_its_own() {
    let mut s = session();
    let uri = s.result_uri.clone();
    assert_eq!(uri, "file:///d/requests/w.http");
    assert_eq!(s.did_open(&doc(&uri)), Some(false));
    assert!(s.tab.open);
    assert_eq!(s.did_close(&doc(&uri)), None);
    assert!(!s.tab.open);
}

#[test]
fn numbers_go_round() {
    let mut s = session();
    assert_eq!(s.next_n(), 1);
    assert_eq!(s.next_n(), 2);
    s.number = i32::MAX;
    assert_eq!(s.next_n(), i32::MAX);
    assert_eq!(s.next_n(), i32::MIN);
}

#[test]
fn uris() {
    assert!(is_usable_uri("file:///d/requests/w.http"));
    assert!(!is_usable_uri("file:///d/requests/my app.http"));
    let s = Session::new("/d", Some("/my app".to_string()), None, Table::new());
    assert!(!s.reachable);
    // Without a usable URI the editor is not asked; the file is still written.
    let mut s = s;
    assert_eq!(s.publish_result("x", false).len(), 1);
    assert_eq!(s.next_n(), 1);
}

fn group(scope: &str, entries: &[(&str, String)]) -> (String, Vec<(String, String)>) {
    (scope.to_string(), entries.iter().map(|(n, t)| (n.to_string(), t.clone())).collect())
}

#[test]
fn the_file_of_stored_responses() {
    let (save, left_out) = save_responses(&vec![
        group("/w/a", &[("log\"in", "{\"status\":200}".to_string()), ("b", "1".to_string())]),
        group("/w/é", &[("c", "null".to_string())]),
        group("/w/empty", &[]),
    ]);
    assert!(left_out.is_empty());
    let text = match save {
        Save::Write(s) => s,
        _ => panic!("nothing to write"),
    };
    assert_eq!(text, "{\"/w/a\":{\"log\\\"in\":{\"status\":200},\"b\":1},\"/w/é\":{\"c\":null}}");
    let value: serde_json::Value = serde_json::from_str(&text).expect("JSON");
    assert_eq!(value["/w/a"]["log\"in"]["status"], 200);
}

#[test]
fn large_responses_are_left_out_one_by_one() {
    let large = "9".repeat(MAX_RESPONSE_ENTRY_BYTES + 1);
    let fitting = "9".repeat(MAX_RESPONSE_ENTRY_BYTES);
    let (save, left_out) = save_responses(&vec![
        group("/w/a", &[("listing", large.clone()), ("token", "\"t\"".to_string())]),
        group("/w/b", &[("listing", large)]),
    ]);
    assert_eq!(left_out, vec!["listing (512 KiB)", "listing (512 KiB)"]);
    assert!(matches!(save, Save::Write(s) if s == "{\"/w/a\":{\"token\":\"t\"}}"));
    let (save, left_out) = save_responses(&vec![group("s", &[("n", fitting.clone())])]);
    assert!(left_out.is_empty());
    assert!(matches!(save, Save::Write(_)));
    let many: Vec<(&str, String)> = (0..17).map(|_| ("n", fitting.clone())).collect();
    let (save, _) = save_responses(&vec![group("s", &many)]);
    assert!(matches!(save, Save::TooLarge(n) if n > 8 << 20));
}

#[test]
fn nothing_stored_removes_the_file() {
    assert!(matches!(save_responses(&Vec::new()).0, Save::Remove));
    assert!(matches!(save_responses(&vec![group("s", &[])]).0, Save::Remove));
}

#[test]
fn files_in_a_body_see_the_responses_of_the_folder() {
    let mut s = session();
    store(&mut s, LOGIN);
    let (vars, reqs) = parse_document("POST http://h/\n\n<@ f.txt\n");
    let o = s.resolve(ORDERS, &reqs[0], &vars, &Table::new());
    let contents = vec![Some("{{login.response.status}}".to_string())];
    let o = s.take_in(ORDERS, o, &contents, &vars, &Table::new());
    assert_eq!(o.body.as_deref(), Some("200"));
    let o = s.resolve(OTHER, &reqs[0], &vars, &Table::new());
    let o = s.take_in(OTHER, o, &contents, &vars, &Table::new());
    assert_eq!(o.body.as_deref(), Some("{{login.response.status}}"));
}

#[test]
fn names_are_escaped_in_the_file() {
    let (save, _) = save_responses(&vec![group("\u{8}\t\n\u{c}\r\u{1}\u{1f}\u{7f}/\\é", &[("n", "1".to_string())])]);
    match save {
        Save::Write(s) => assert_eq!(s, "{\"\\b\\t\\n\\f\\r\\u0001\\u001f\u{7f}/\\\\é\":{\"n\":1}}"),
        _ => panic!("nothing to write"),
    }
}
