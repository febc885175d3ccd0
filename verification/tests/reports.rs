//! Texts, hashes, numbers, paths and the editor extension.

use http_request_client::artifacts::{
    artifact_dir, base_usable, ensure_result_dir, is_private_dir, random_dir_name, random_token, user_dir_name, Creation,
};
use http_request_client::digits::{read_number, write_hex16};
use http_request_client::exchange::{content_type, reason_phrase};
use http_request_client::extension::{
    asset_name, binary_path, cached_binary, download_binary, finish_install, installed_path, is_stale_install,
    Architecture, Os,
};
use http_request_client::hash::fnv1a;
use http_request_client::paths::{
    directory_key, doc_base_dir, doc_scope, log_file_name, log_overgrown, log_path, response_scope, responses_path,
    result_file_name, result_path, result_uri_for, workspace_key,
};
use http_request_client::report::{
    display_body, format_request_error, format_response, progress_title, response_page, send_line, sending_page,
    unresolved_page, url_no_query,
};
use http_request_client::session::{lens_nudges, loading_rest, progress_token};

#[test]
fn hashes() {
    assert_eq!(fnv1a(b""), 0xcbf2_9ce4_8422_2325);
    assert_eq!(fnv1a(b"a"), 0xaf63_dc4c_8601_ec8c);
    assert_eq!(fnv1a(b"foobar"), 0x8594_4171_f739_67e8);
}

#[test]
fn numbers() {
    let read = |s: &str, base: u64| {
        let c: Vec<char> = s.chars().collect();
        read_number(&c, base, u64::MAX)
    };
    assert_eq!(read("18446744073709551615", 10), Some(u64::MAX));
    assert_eq!(read("18446744073709551616", 10), None);
    assert_eq!(read("+7", 10), Some(7));
    assert_eq!(read("", 10), None);
    assert_eq!(read("+", 10), None);
    assert_eq!(read("-1", 10), None);
    assert_eq!(read("00fF", 16), Some(255));
    assert_eq!(write_hex16(255), "00000000000000ff");
    assert_eq!(read(&write_hex16(u64::MAX), 16), Some(u64::MAX));
    assert_eq!(progress_token(12), "http-request-12");
    assert_eq!(progress_token(i32::MIN), "http-request--2147483648");
}

#[test]
fn paths_of_a_workspace() {
    assert_eq!(workspace_key(None), "no-workspace");
    assert_eq!(workspace_key(Some("/home/me/my app")), "my_app-815813e8c4768c80");
    assert_eq!(workspace_key(Some("/")), "workspace-af63a24c860189fe");
    assert_eq!(directory_key("/", None), "workspace-af63a24c860189fe");
    assert_eq!(directory_key("/", Some("a/b é-_".to_string())), "a_b_é-_-af63a24c860189fe");
    assert_eq!(result_file_name(Some("app".to_string())), "app.http");
    assert_eq!(log_file_name(None), "http-request-client-lsp.log");
    assert_eq!(responses_path("/d"), "/d/responses.json");
    assert_eq!(result_path("/d", Some("/home/me/app")), "/d/requests/app.http");
    assert_eq!(result_path("/d", None), "/d/requests/http-response.http");
    assert_eq!(result_uri_for("/d", Some("/home/me/app")), "file:///d/requests/app.http");
    assert_eq!(log_path("/d", Some("/home/me/app")), "/d/http-request-client-lsp-app.log");
    assert_eq!(log_path("/d", None), "/d/http-request-client-lsp.log");
    assert!(!log_overgrown(2 << 20));
    assert!(log_overgrown((2 << 20) + 1));
    assert_eq!(artifact_dir("/tmp/x", None), "/tmp/x/no-workspace");
    assert_eq!(ensure_result_dir("/d/requests/app.http").as_deref(), Some("/d/requests"));
}

#[test]
fn environments() {
    assert_eq!(doc_base_dir("file:///w/a/x.http", Some("/w")).as_deref(), Some("/w/a"));
    assert_eq!(doc_base_dir("untitled:1", Some("/w")).as_deref(), Some("/w"));
    assert_eq!(doc_base_dir("untitled:1", None), None);
    assert_eq!(response_scope("untitled:1", None), "untitled:1");
    assert_eq!(doc_scope("file:///w/hml/api.http", None), "/w/hml");
    assert_eq!(doc_scope("file:///w/hml/api.http", None), doc_scope("file:///w/hml/login.http", None));
    assert_ne!(doc_scope("file:///w/hml/api.http", None), doc_scope("file:///w/prd/api.http", None));
}

#[test]
fn private_directories() {
    assert_eq!(user_dir_name(Some(1000)), "http-request-client-1000");
    assert_eq!(user_dir_name(None), "http-request-client-user");
    assert_eq!(random_token(Some(&[0, 15, 255]), 1, 2), "000fff");
    assert_eq!(random_token(None, 255, 4096), "ff1000");
    assert_eq!(random_dir_name("ff"), "http-request-client-ff");
    assert!(is_private_dir(true, 0o40700, 7, Some(7)));
    assert!(!is_private_dir(false, 0o40700, 7, Some(7)));
    assert!(!is_private_dir(true, 0o40755, 7, Some(7)));
    assert!(!is_private_dir(true, 0o40700, 7, Some(8)));
    assert!(!is_private_dir(true, 0o40700, 7, None));
    assert!(base_usable(Creation::Created, false));
    assert!(base_usable(Creation::AlreadyThere, true));
    assert!(!base_usable(Creation::AlreadyThere, false));
    assert!(!base_usable(Creation::Failed, true));
}

#[test]
fn responses_as_text() {
    let headers = vec![
        ("content-type".to_string(), "text/html".to_string()),
        ("Content-Type".to_string(), "application/json; charset=utf-8".to_string()),
    ];
    let kind = content_type(&headers);
    assert_eq!(kind, "application/json; charset=utf-8");
    assert_eq!(content_type(&Vec::new()), "");
    assert_eq!(
        format_response(200, "OK", &headers, "{\"a\":[1]}", &kind),
        "HTTP/1.1 200 OK\ncontent-type: text/html\nContent-Type: application/json; charset=utf-8\n\n{\n  \"a\": [\n    1\n  ]\n}\n"
    );
    assert_eq!(format_response(200, "OK", &Vec::new(), "not json", "application/json"), "HTTP/1.1 200 OK\n\nnot json\n");
    assert_eq!(format_response(200, "OK", &Vec::new(), "{\"a\":1}", "text/plain"), "HTTP/1.1 200 OK\n\n{\"a\":1}\n");
    assert_eq!(response_page(599, "", &Vec::new(), "x"), "HTTP/1.1 599 \n\nx\n");
    assert_eq!(display_body("application/json", "b", Some("p".to_string())), "p");
    assert_eq!(display_body("application/json", "b", None), "b");
    assert_eq!(display_body("text/plain", "b", Some("p".to_string())), "b");
}

#[test]
fn reason_phrases() {
    assert_eq!(reason_phrase(200), "OK");
    assert_eq!(reason_phrase(404), "Not Found");
    assert_eq!(reason_phrase(599), "");
    assert_eq!(reason_phrase(42), "");
    assert_eq!(reason_phrase(1000), "");
}

#[test]
fn errors_as_text() {
    assert_eq!(
        format_request_error(false, "io: refused", "GET", "http://h/", Some(30), "default", "0.1"),
        "# Error running the request\n\nGET http://h/\n\nio: refused\n"
    );
    assert_eq!(
        format_request_error(true, "timeout: global", "GET", "https://example/v1/resource", Some(30), "default", "30.0"),
        "# Timeout after 30.0s\n\nGET https://example/v1/resource\n\nLimit: 30s (set by default)\n\nThe client stopped waiting, but the server may still be working on this\nrequest — a timeout here does not cancel anything on the other side.\n\nClicking \"Send request\" again does not replace that work: it starts another\nrequest on top of the one still running, which usually makes both slower.\nPrefer waiting, or narrowing the request.\n\nTo allow more time:\n\n  - this request only:  # @timeout 120   (seconds, on a line above it)\n  - whole workspace:    HTTP_REQUEST_TIMEOUT=120   (in .env)\n\nUse 0 in either place to wait with no limit.\n"
    );
    assert!(format_request_error(true, "", "GET", "u", None, "# @timeout", "1.0")
        .contains("Limit: none (set by # @timeout)\n"));
    assert_eq!(sending_page("GET", "u"), "# ⏳ Sending…\n\nGET u\n");
    assert!(unresolved_page("GET", "u", &vec!["a".to_string(), "b".to_string()]).contains("\n  - {{a}}\n  - {{b}}\n\n"));
}

#[test]
fn log_lines_have_no_query() {
    assert_eq!(url_no_query("http://h/a?token=x?y"), "http://h/a");
    assert_eq!(url_no_query("http://h/a"), "http://h/a");
    assert_eq!(
        send_line("GET", "http://127.0.0.1:8799/slow?k=v", Some(2), "# @timeout"),
        "=> GET http://127.0.0.1:8799/slow (timeout 2s, from # @timeout)"
    );
    assert_eq!(send_line("GET", "u", None, "default"), "=> GET u (timeout no limit, from default)");
    assert_eq!(progress_title("GET", "u?q=1"), "Sending GET u");
}

#[test]
fn pauses() {
    assert_eq!(lens_nudges(), vec![50, 350, 1100, 2500]);
    assert_eq!(loading_rest(0), Some(400_000_000));
    assert_eq!(loading_rest(400_000_000), Some(0));
    assert_eq!(loading_rest(400_000_001), None);
}

#[test]
fn where_the_binary_is_found() {
    let some = |s: &str| Some(s.to_string());
    assert_eq!(binary_path(some("/s"), true, "/r", some("/p")), some("/s"));
    assert_eq!(binary_path(None, true, "/r", some("/p")), some("/r/target/debug/http-request-client-lsp"));
    assert_eq!(binary_path(None, false, "/r", some("/p")), some("/p"));
    assert_eq!(binary_path(None, false, "/r", None), None);
    assert_eq!(cached_binary(some("/c"), true), some("/c"));
    assert_eq!(cached_binary(some("/c"), false), None);
    assert_eq!(cached_binary(None, true), None);
}

#[test]
fn what_is_downloaded() {
    assert_eq!(asset_name(Os::Mac, Architecture::Aarch64), "http-request-client-lsp-macos-aarch64.gz");
    assert_eq!(asset_name(Os::Linux, Architecture::X8664), "http-request-client-lsp-linux-x86_64.gz");
    assert_eq!(asset_name(Os::Windows, Architecture::X86), "http-request-client-lsp-windows-x86.gz");
    let assets = vec![
        "http-request-client-lsp-linux-x86_64.gz".to_string(),
        "http-request-client-lsp-windows-x86_64.gz".to_string(),
    ];
    match download_binary("v1.2.0", &assets, Os::Windows, Architecture::X8664, false) {
        Ok(i) => {
            assert_eq!(i.asset, 1);
            assert!(i.download);
            assert_eq!(i.dir, "http-request-client-lsp-v1.2.0");
            assert_eq!(i.path, "http-request-client-lsp-v1.2.0/http-request-client-lsp.exe");
        }
        Err(e) => panic!("{e}"),
    }
    match download_binary("v1.2.0", &assets, Os::Linux, Architecture::X8664, true) {
        Ok(i) => {
            assert_eq!(i.path, "http-request-client-lsp-v1.2.0/http-request-client-lsp");
            assert!(!i.download);
        }
        Err(e) => panic!("{e}"),
    }
    match download_binary("v1.2.0", &assets, Os::Mac, Architecture::Aarch64, false) {
        Ok(_) => panic!("no such asset"),
        Err(e) => assert_eq!(
            e,
            "release v1.2.0 has no `http-request-client-lsp-macos-aarch64.gz` asset for this platform. Available assets: [http-request-client-lsp-linux-x86_64.gz, http-request-client-lsp-windows-x86_64.gz]"
        ),
    }
    assert!(!is_stale_install("http-request-client-lsp-v1.2.0", "v1.2.0"));
    assert!(is_stale_install("http-request-client-lsp-v1.1.0", "v1.2.0"));
    assert!(!is_stale_install("other", "v1.2.0"));
}

#[test]
fn other_versions_go_only_after_a_download() {
    let assets = vec!["http-request-client-lsp-linux-x86_64.gz".to_string()];
    let names: Vec<String> = ["a", "http-request-client-lsp-v1", "http-request-client-lsp-v2", "http-request-client-lsp"]
        .iter()
        .map(|s| s.to_string())
        .collect();
    let path = "http-request-client-lsp-v2/http-request-client-lsp";
    assert_eq!(installed_path("v2", Os::Linux), path);
    for (present, removed) in [(false, vec![1, 3]), (true, vec![])] {
        let mut cached = Some("old".to_string());
        match download_binary("v2", &assets, Os::Linux, Architecture::X8664, present) {
            Ok(i) => assert_eq!(finish_install(&i, "v2", &names, &mut cached), (path.to_string(), removed)),
            Err(e) => panic!("{e}"),
        }
        // A later call uses the path again while the file is there.
        assert_eq!(cached.as_deref(), Some(path));
        assert_eq!(cached_binary(cached, true).as_deref(), Some(path));
    }
}
