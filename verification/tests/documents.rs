//! Documents, variables, `.env` files and files that a body takes in.

use http_request_client::document::{is_http_method, parse_document};
use http_request_client::dotenv::{dotenv_files, load_dotenv, merge_dotenv};
use http_request_client::exchange::{missing_variables, refusal, resolve_outbound, stored_as, stored_response, take_in_files};
use http_request_client::includes::{
    expand_file_includes, include_boundary, include_path, include_verdict, included_paths, Verdict,
};
use http_request_client::json::{json_to_plain, navigate_json, parse_json, Json};
use http_request_client::table::Table;
use http_request_client::timeout::{resolve_timeout, show_limit, to_timeout};
use http_request_client::vars::{collect_unresolved, resolve_token, resolve_vars, StoredResponse};

fn table(entries: &[(&str, &str)]) -> Table<String> {
    let mut t = Table::new();
    for (k, v) in entries {
        let _ = t.insert(k.to_string(), v.to_string());
    }
    t
}

fn nothing() -> Table<StoredResponse> {
    Table::new()
}

#[test]
fn methods_in_either_case() {
    for m in ["GET", "post", "Put", "DELETE", "PATCH", "HEAD", "OPTIONS", "TRACE", "connect"] {
        assert!(is_http_method(m), "{m}");
    }
    assert!(!is_http_method("FETCH"));
    assert!(!is_http_method(""));
    assert!(!is_http_method("GET "));
}

#[test]
fn a_whole_document() {
    let text = "@HOST = http://h\n@bad name = x\n\n### first\n# @name list\n# @timeout 120\nget {{HOST}}/v1 HTTP/1.1\n    ?page=1\n    # &page_size=10\n    &sort=asc\n# a comment between headers\nAccept: */*\nno header here\nX-Empty:\n\n###\n// @name create\nPOST {{HOST}}/v1\ncontent-type: application/json\n\n{\n  \"a\": 1\n}\n\n# after the body\n###\n";
    let (vars, reqs) = parse_document(text);
    assert_eq!(vars.get("HOST").map(|s| s.as_str()), Some("http://h"));
    assert_eq!(vars.count(), 1);
    assert_eq!(reqs.len(), 2);
    let r = &reqs[0];
    assert_eq!(r.name.as_deref(), Some("list"));
    assert_eq!(r.line, 6);
    assert_eq!(r.method, "get");
    assert_eq!(r.url, "{{HOST}}/v1?page=1&sort=asc");
    assert_eq!(r.timeout_raw.as_deref(), Some("120"));
    assert_eq!(
        r.headers,
        vec![("Accept".to_string(), "*/*".to_string()), ("X-Empty".to_string(), String::new())]
    );
    assert_eq!(r.body, None);
    let r = &reqs[1];
    assert_eq!(r.name.as_deref(), Some("create"));
    assert_eq!(r.line, 17);
    assert_eq!(r.timeout_raw, None);
    assert_eq!(r.body.as_deref(), Some("{\n  \"a\": 1\n}"));
}

#[test]
fn an_empty_document() {
    let (vars, reqs) = parse_document("");
    assert_eq!(vars.count(), 0);
    assert!(reqs.is_empty());
    let (_, reqs) = parse_document("GET http://h/\r\nA: b\r\n\r\nbody\r\n");
    assert_eq!(reqs[0].headers, vec![("A".to_string(), "b".to_string())]);
    assert_eq!(reqs[0].body.as_deref(), Some("body"));
}

#[test]
fn variables_are_resolved_recursively() {
    let vars = table(&[("HOST", "{{$dotenv HOST}}"), ("LOOP", "{{LOOP}}x")]);
    let dotenv = table(&[("HOST", "http://h"), ("ID", "7")]);
    let r = |s: &str| resolve_vars(s, &vars, &dotenv, &nothing());
    assert_eq!(r("{{HOST}}/a"), "http://h/a");
    assert_eq!(r("{{ ID }}"), "7");
    assert_eq!(r("{{missing}} and {{"), "{{missing}} and {{");
    assert_eq!(r("no braces"), "no braces");
    assert_eq!(r(""), "");
    // Ten passes at most.
    assert_eq!(r("{{LOOP}}"), format!("{{{{LOOP}}}}{}", "x".repeat(10)));
}

#[test]
fn references_into_stored_responses() {
    let mut responses = nothing();
    let resp = stored_response(
        200,
        "{\"json\":{\"key\":\"k\",\"n\":1.5,\"list\":[10,{\"a\":null}],\"b\":true}}",
        vec![("Content-Type".to_string(), "text/plain".to_string())],
    );
    let _ = responses.insert("login".to_string(), resp);
    let none = Table::new();
    let t = |s: &str| resolve_token(s, &none, &none, &responses);
    assert_eq!(t("login.response.status").as_deref(), Some("200"));
    assert_eq!(t("login.response.headers.content-type").as_deref(), Some("text/plain"));
    assert_eq!(t("login.response.headers.missing"), None);
    assert_eq!(t("login.response.body.json.key").as_deref(), Some("k"));
    assert_eq!(t("login.response.body.json.n").as_deref(), Some("1.5"));
    assert_eq!(t("login.response.body.json.list.0").as_deref(), Some("10"));
    assert_eq!(t("login.response.body.json.list.1").as_deref(), Some("{\"a\":null}"));
    assert_eq!(t("login.response.body.json.list.1.a").as_deref(), Some("null"));
    assert_eq!(t("login.response.body.json.b").as_deref(), Some("true"));
    assert_eq!(t("login.response.body.json.list.2"), None);
    assert_eq!(t("other.response.status"), None);
    assert_eq!(t("login.response.other"), None);
}

#[test]
fn bodies_that_are_not_json_are_one_text() {
    let resp = stored_response(404, "plain text", Vec::new());
    assert_eq!(resp.status, 404);
    assert_eq!(json_to_plain(&resp.body), "plain text");
    let resp = stored_as(200, Some(Json::Bool(false)), "anything", Vec::new());
    assert_eq!(json_to_plain(&resp.body), "false");
    let resp = stored_as(200, None, "anything", Vec::new());
    assert_eq!(json_to_plain(&resp.body), "anything");
}

#[test]
fn json_is_parsed_and_walked() {
    assert!(parse_json("{").is_none());
    let v = parse_json("{\"a\":{\"b\":[1,2]},\"n\":18446744073709551615}").expect("JSON");
    let at = |p: &str| navigate_json(&v, p).map(json_to_plain);
    assert_eq!(at("a.b.1").as_deref(), Some("2"));
    assert_eq!(at("a").as_deref(), Some("{\"b\":[1,2]}"));
    assert_eq!(at("").as_deref(), Some("{\"a\":{\"b\":[1,2]},\"n\":18446744073709551615}"));
    assert_eq!(at("a.x"), None);
    assert_eq!(at("a.b.x"), None);
}

#[test]
fn unresolved_tokens_are_collected_once() {
    let mut out = vec!["x".to_string()];
    collect_unresolved("{{ a }} {{}} {{a}} {{x}} {{b}} {{open", &mut out);
    assert_eq!(out, vec!["x", "a", "b"]);
}

#[test]
fn what_is_left_unresolved_in_a_request() {
    let (vars, reqs) = parse_document("GET http://h/{{u}}\n{{k}}: {{v}}\n\n{{b}} {{u}}\n");
    let o = resolve_outbound(&reqs[0], &vars, &Table::new(), &nothing());
    assert_eq!(missing_variables(&o), vec!["u", "k", "v", "b"]);
    assert!(refusal(&o).is_some());
    let all = table(&[("u", "1"), ("k", "A"), ("v", "2"), ("b", "3")]);
    let o = resolve_outbound(&reqs[0], &all, &Table::new(), &nothing());
    assert_eq!(o.url, "http://h/1");
    assert_eq!(o.headers, vec![("A".to_string(), "2".to_string())]);
    assert_eq!(o.body.as_deref(), Some("3 1"));
    assert_eq!(refusal(&o), None);
}

#[test]
fn dotenv_lines() {
    let mut m = table(&[("A", "first")]);
    merge_dotenv(
        "# comment\n\nA=second\nB = \"quoted\"\nC='single'\nD=\"half\nE=a=b\nF=\"\nno equals sign\n  G =  spaced  \n",
        &mut m,
    );
    let get = |k: &str| m.get(k).map(|s| s.as_str());
    assert_eq!(get("A"), Some("first"));
    assert_eq!(get("B"), Some("quoted"));
    assert_eq!(get("C"), Some("single"));
    assert_eq!(get("D"), Some("\"half"));
    assert_eq!(get("E"), Some("a=b"));
    assert_eq!(get("F"), Some("\""));
    assert_eq!(get("G"), Some("spaced"));
    assert_eq!(m.count(), 7);
}

#[test]
fn the_closest_dotenv_wins() {
    assert_eq!(
        dotenv_files(Some("/w/rest/prd"), Some("/w")),
        vec!["/w/rest/prd/.env", "/w/rest/.env", "/w/.env"]
    );
    // The root is consulted for a document outside of it too.
    assert_eq!(dotenv_files(Some("/o"), Some("/w")), vec!["/o/.env", "/.env", "/w/.env"]);
    assert_eq!(dotenv_files(Some("/w/a"), Some("/w/")), vec!["/w/a/.env", "/w/.env"]);
    assert_eq!(dotenv_files(None, Some("/w")), vec!["/w/.env"]);
    assert!(dotenv_files(None, None).is_empty());
    let m = load_dotenv(&vec![Some("A=near\n".to_string()), None, Some("A=far\nB=far\n".to_string())]);
    assert_eq!(m.get("A").map(|s| s.as_str()), Some("near"));
    assert_eq!(m.get("B").map(|s| s.as_str()), Some("far"));
}

#[test]
fn files_in_a_body() {
    let body = "a\n  < ./f.txt\n<@ g.txt \n< missing\nb";
    let paths = included_paths(body);
    assert_eq!(
        paths,
        vec![None, Some("./f.txt".to_string()), Some("g.txt".to_string()), Some("missing".to_string()), None]
    );
    let vars = table(&[("x", "1")]);
    let contents = vec![None, Some("{{x}}".to_string()), Some("{{x}}".to_string()), None];
    let out = expand_file_includes(body, &contents, &vars, &Table::new(), &nothing());
    assert_eq!(out, "a\n{{x}}\n1\n< missing\nb");
}

#[test]
fn files_are_confined() {
    assert_eq!(include_path(Some("/w/a"), "f.txt").as_deref(), Some("/w/a/f.txt"));
    assert_eq!(include_path(Some("/w/a"), "/etc/hosts").as_deref(), Some("/etc/hosts"));
    assert_eq!(include_path(None, "f.txt"), None);
    assert_eq!(include_boundary(Some("/w/a"), Some("/w")), Some("/w"));
    assert_eq!(include_boundary(Some("/w/a"), None), Some("/w/a"));
    assert!(include_verdict("/w/a/f.txt", Some("/w")) == Verdict::Allowed);
    assert!(include_verdict("/wx/f.txt", Some("/w")) == Verdict::Outside);
    assert!(include_verdict("/etc/hosts", Some("/w")) == Verdict::Outside);
    assert!(include_verdict("/w/f.txt", None) == Verdict::NoBoundary);
}

#[test]
fn a_request_with_a_file() {
    let (vars, reqs) = parse_document("POST http://h/\n\n< f.json\n");
    let o = resolve_outbound(&reqs[0], &vars, &Table::new(), &nothing());
    let o = take_in_files(o, &vec![Some("{\"a\":1}".to_string())], &vars, &Table::new(), &nothing());
    assert_eq!(o.body.as_deref(), Some("{\"a\":1}"));
    assert_eq!(o.method, "POST");
}

#[test]
fn limits_and_where_they_come_from() {
    let limit = |text: &str, dotenv: &[(&str, &str)]| {
        let (_, reqs) = parse_document(text);
        resolve_timeout(&reqs[0], &table(dotenv))
    };
    let env = [("HTTP_REQUEST_TIMEOUT", " 60 ")];
    assert_eq!(limit("GET u\n", &[]), (Some(30), "default".to_string()));
    assert_eq!(limit("GET u\n", &env), (Some(60), "HTTP_REQUEST_TIMEOUT (.env)".to_string()));
    assert_eq!(limit("# @timeout 120\nGET u\n", &env), (Some(120), "# @timeout".to_string()));
    assert_eq!(limit("# @timeout 0\nGET u\n", &env), (None, "# @timeout".to_string()));
    assert_eq!(limit("# @timeout soon\nGET u\n", &env), (Some(60), "HTTP_REQUEST_TIMEOUT (.env)".to_string()));
    assert_eq!(limit("GET u\n", &[("HTTP_REQUEST_TIMEOUT", "x")]), (Some(30), "default".to_string()));
    assert_eq!(to_timeout(0), None);
    assert_eq!(to_timeout(5), Some(5));
    assert_eq!(show_limit(Some(2), "none"), "2s");
    assert_eq!(show_limit(None, "none"), "none");
}

#[test]
fn a_separator_parts_documents() {
    let a = "@x = 1\n@y = 1\n# @name first\n# @timeout 5\nPOST u\nA: b\n\nbody\n\n# @name lost\n# @timeout 9";
    let b = "@y = 2\nGET v\nC: d\n\nlast\n";
    for a in [a.to_string(), format!("{a}\n"), "# @name lost".to_string(), String::new()] {
        let (va, ra) = parse_document(&a);
        let (vb, rb) = parse_document(b);
        let (v, r) = parse_document(&format!("{a}\n###\n{b}"));
        let by = a.matches('\n').count() as u32 + 2;
        assert_eq!(r.len(), ra.len() + rb.len());
        for (i, q) in r.iter().enumerate() {
            let (p, moved) = if i < ra.len() { (&ra[i], 0) } else { (&rb[i - ra.len()], by) };
            assert_eq!(q.line, p.line + moved);
            assert_eq!((&q.name, &q.method, &q.url), (&p.name, &p.method, &p.url));
            assert_eq!((&q.headers, &q.body, &q.timeout_raw), (&p.headers, &p.body, &p.timeout_raw));
        }
        assert_eq!(v.get("y"), vb.get("y"));
        assert_eq!(v.get("x"), va.get("x"));
    }
}

#[test]
fn bodies_are_lines_of_the_text() {
    let (_, reqs) = parse_document("POST u\n\n  a \n# no\n\n\tb\n// no\n \n\n###\n");
    assert_eq!(reqs[0].body.as_deref(), Some("  a \n\n\tb"));
}
