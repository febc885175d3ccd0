//! What a click on "Send request" sends to the editor, and what it must not send.

use http_request_client::click::{command_kind, parse_click, Asked};
use http_request_client::exchange::refusal;
use http_request_client::json::{parse_json, Json};
use http_request_client::report::sending_page;
use http_request_client::session::{show_document_support, workspace_root, Effect, Outcome, Reply, Session};
use http_request_client::table::Table;
use http_request_client::timeout::resolve_timeout;

/// What the server sent.
#[derive(Debug, PartialEq)]
enum Sent {
    Show(i32),
    Edit { create: bool, text: String },
    Refresh,
}

/// The server, and an editor that refuses to show documents as one that does not
/// know the request does.
struct Editor {
    session: Session,
    disk: Option<String>,
    sent: Vec<Sent>,
    /// The requests to show the result that were not answered yet.
    unanswered: Vec<i32>,
    /// Whether the editor answers at once.
    prompt: bool,
}

fn json(text: &str) -> Json {
    parse_json(text).expect("valid JSON")
}

impl Editor {
    fn start(root: &str) -> Editor {
        let init = json(&format!(
            "{{\"processId\":null,\"rootUri\":\"file://{root}\",\"capabilities\":{{}}}}"
        ));
        let session = Session::new(
            "/tmp/http-request-client-1000/w",
            workspace_root(&init),
            show_document_support(&init),
            Table::new(),
        );
        Editor { session, disk: None, sent: Vec::new(), unanswered: Vec::new(), prompt: true }
    }

    fn open(&mut self, uri: &str, text: &str) {
        let text = text.replace('\n', "\\n");
        let params = json(&format!(
            "{{\"textDocument\":{{\"uri\":\"{uri}\",\"languageId\":\"http\",\"version\":1,\"text\":\"{text}\"}}}}"
        ));
        let _ = self.session.did_open(&params);
    }

    fn change(&mut self, uri: &str, text: &str) {
        let text = text.replace('\n', "\\n");
        let params = json(&format!(
            "{{\"textDocument\":{{\"uri\":\"{uri}\"}},\"contentChanges\":[{{\"text\":\"{text}\"}}]}}"
        ));
        if self.session.did_change(&params) {
            self.sent.push(Sent::Refresh);
        }
    }

    fn close(&mut self, uri: &str) {
        let params = json(&format!("{{\"textDocument\":{{\"uri\":\"{uri}\"}}}}"));
        let _ = self.session.did_close(&params);
    }

    fn answer(&mut self, id: i32) {
        // An error carries no value.
        let content = self.disk.clone().unwrap_or_default();
        let more = self.session.handle_response(id, None, &content);
        self.run(more);
    }

    fn run(&mut self, effects: Vec<Effect>) {
        for e in effects {
            match e {
                Effect::WriteResult(s) => self.disk = Some(s),
                Effect::RemoveResult => self.disk = None,
                Effect::ShowDocument(id) => {
                    self.sent.push(Sent::Show(id));
                    if self.prompt {
                        self.answer(id);
                    } else {
                        self.unanswered.push(id);
                    }
                }
                Effect::ApplyEdit { create, text, .. } => {
                    if create {
                        self.disk = Some(String::new());
                    }
                    self.sent.push(Sent::Edit { create, text });
                }
            }
        }
    }

    /// Starts the request of a line, up to the announcement in the result tab.
    fn begin(&mut self, uri: &str, line: u32) -> Outcome {
        assert_eq!(command_kind("http.sendRequest") == Asked::Send, true);
        let args = match json(&format!("[\"{uri}\",{line}]")) {
            Json::Array { items, .. } => items,
            _ => unreachable!(),
        };
        let click = parse_click(&args).expect("arguments");
        let text = self.session.document_text(uri, None);
        let outcome = self.session.click(&click, text.as_deref());
        if let Outcome::Start { request, file_vars, .. } = &outcome {
            let o = self.session.resolve(uri, request, file_vars, &Table::new());
            let page = sending_page(&o.method, &o.url);
            let effects = self.session.publish_result(&page, true);
            self.run(effects);
        }
        outcome
    }

    fn end(&mut self, uri: &str, outcome: Outcome, reply: Reply) {
        let Outcome::Start { request, file_vars, .. } = outcome else {
            panic!("the request does not start");
        };
        let dotenv = Table::new();
        let o = self.session.resolve(uri, &request, &file_vars, &dotenv);
        let (limit, from) = resolve_timeout(&request, &dotenv);
        let page = match refusal(&o) {
            Some(page) => page,
            None => self.session.conclude(uri, request.name.as_deref(), &o, limit, &from, reply).0,
        };
        let effects = self.session.publish_result(&page, false);
        self.run(effects);
        self.session.finish(uri, request.line);
    }

    /// A whole click; what the server sent because of it.
    fn click(&mut self, uri: &str, line: u32, reply: Reply) -> Vec<Sent> {
        self.sent.clear();
        let outcome = self.begin(uri, line);
        self.end(uri, outcome, reply);
        let late: Vec<i32> = self.unanswered.drain(..).collect();
        for id in late {
            self.answer(id);
        }
        self.sent.drain(..).collect()
    }
}

fn ok() -> Reply {
    Reply::Answer {
        code: 200,
        headers: vec![("content-type".to_string(), "text/plain".to_string())],
        body: "ok".to_string(),
    }
}

fn connection_refused() -> Reply {
    Reply::Failure {
        timed_out: false,
        error: "io: Connection refused".to_string(),
        elapsed: "0.0".to_string(),
    }
}

fn edits(sent: &[Sent]) -> usize {
    sent.iter().filter(|s| matches!(s, Sent::Edit { .. })).count()
}

fn creates(sent: &[Sent]) -> usize {
    sent.iter().filter(|s| matches!(s, Sent::Edit { create: true, .. })).count()
}

const ROOT: &str = "/tmp/http-client-test";
const URI: &str = "file:///tmp/http-client-test/api.http";
const TEXT: &str = "GET http://127.0.0.1:8080/\n";

#[test]
fn one_click_opens_the_result_tab_once() {
    let mut editor = Editor::start(ROOT);
    editor.open(URI, TEXT);

    let sent = editor.click(URI, 0, ok());
    assert_eq!(edits(&sent), 1, "one applyEdit per click, got: {sent:?}");
    assert_eq!(creates(&sent), 1, "the single applyEdit has to open the tab");
    assert_eq!(
        sent.last(),
        Some(&Sent::Edit {
            create: true,
            text: "HTTP/1.1 200 OK\ncontent-type: text/plain\n\nok\n".to_string()
        })
    );
}

#[test]
fn a_refused_connection_opens_the_result_tab_once() {
    let mut editor = Editor::start(ROOT);
    editor.open(URI, TEXT);

    let sent = editor.click(URI, 0, connection_refused());
    assert_eq!(edits(&sent), 1, "one applyEdit per click, got: {sent:?}");
    assert_eq!(creates(&sent), 1, "the error still has to be shown somewhere");
    assert_eq!(
        sent.last(),
        Some(&Sent::Edit {
            create: true,
            text: "# Error running the request\n\nGET http://127.0.0.1:8080/\n\nio: Connection refused\n".to_string()
        })
    );
}

#[test]
fn a_second_click_does_not_recreate_the_tab() {
    let mut editor = Editor::start(ROOT);
    editor.open(URI, TEXT);

    let _ = editor.click(URI, 0, ok());
    let result = editor.session.result_uri.clone();
    editor.open(&result, "");

    let second = editor.click(URI, 0, ok());
    assert_eq!(creates(&second), 0, "the tab is open; nothing to create: {second:?}");
}

#[test]
fn closing_the_tab_and_clicking_again_reopens_it_once() {
    let mut editor = Editor::start(ROOT);
    editor.open(URI, TEXT);

    let _ = editor.click(URI, 0, ok());
    let result = editor.session.result_uri.clone();
    editor.open(&result, "");
    editor.close(&result);

    let again = editor.click(URI, 0, ok());
    assert_eq!(edits(&again), 1, "one applyEdit per click, got: {again:?}");
    assert_eq!(creates(&again), 1, "the closed tab has to come back");
}

#[test]
fn a_click_never_asks_for_a_code_lens_refresh() {
    let mut editor = Editor::start(ROOT);
    editor.open(URI, TEXT);

    let before = editor.session.number;
    let sent = editor.click(URI, 0, ok());
    assert!(!sent.contains(&Sent::Refresh), "a click must not invalidate the lenses: {sent:?}");
    // Every request to the editor takes a number, and only those for the tab took one.
    assert_eq!((editor.session.number - before) as usize, sent.len());
    // Nor does anything that a click leaves behind make the next message ask for one.
    editor.change(URI, TEXT);
    assert!(editor.sent.is_empty());
}

#[test]
fn the_button_stays_send_request_while_the_request_runs() {
    let mut editor = Editor::start(ROOT);
    editor.open(URI, TEXT);

    let outcome = editor.begin(URI, 0);
    assert!(matches!(outcome, Outcome::Start { .. }));
    let lenses = editor.session.lenses(URI, None);
    assert_eq!(lenses[0].title, "▶ Send request");
    assert_eq!(lenses[0].command, "http.sendRequest");
}

#[test]
fn late_answers_still_open_the_tab_once() {
    let mut editor = Editor::start(ROOT);
    editor.prompt = false;
    editor.open(URI, TEXT);

    let sent = editor.click(URI, 0, ok());
    assert_eq!(edits(&sent), 1);
    assert_eq!(creates(&sent), 1);
    assert_eq!(sent.iter().filter(|s| matches!(s, Sent::Show(_))).count(), 2);
    match sent.last() {
        Some(Sent::Edit { text, .. }) => assert!(text.starts_with("HTTP/1.1 200 OK\n")),
        other => panic!("{other:?}"),
    }
}

#[test]
fn an_editor_that_shows_documents_gets_no_edits() {
    let init = json("{\"rootPath\":\"/w\",\"capabilities\":{\"window\":{\"showDocument\":{\"support\":true}}}}");
    assert_eq!(workspace_root(&init).as_deref(), Some("/w"));
    assert_eq!(show_document_support(&init), Some(true));
    let mut session = Session::new("/d", workspace_root(&init), show_document_support(&init), Table::new());
    let effects = session.publish_result("one", true);
    assert_eq!(effects.len(), 2);
    assert!(matches!(&effects[0], Effect::WriteResult(s) if s == "one"));
    let id = match &effects[1] {
        Effect::ShowDocument(id) => *id,
        _ => panic!("no request to show the result"),
    };
    assert!(session.awaits(id));
    assert!(session.handle_response(id, Some(&json("{\"success\":true}")), "one").is_empty());
    assert!(!session.awaits(id));
    // The tab is not known to be open yet, so it is asked for again.
    assert_eq!(session.publish_result("two", false).len(), 2);
    let open = json("{\"textDocument\":{\"uri\":\"file:///d/requests/w.http\",\"text\":\"\"}}");
    assert_eq!(session.did_open(&open), Some(false));
    let effects = session.publish_result("three", false);
    assert_eq!(effects.len(), 1);
    assert!(matches!(&effects[0], Effect::WriteResult(s) if s == "three"));
}

#[test]
fn a_value_that_says_no_is_a_refusal_too() {
    let mut session = Session::new("/d", None, None, Table::new());
    let effects = session.publish_result("done", false);
    let id = match &effects[1] {
        Effect::ShowDocument(id) => *id,
        _ => panic!("no request to show the result"),
    };
    let more = session.handle_response(id, Some(&json("{\"success\":false}")), "done");
    assert_eq!(more.len(), 2);
    assert!(matches!(more[0], Effect::RemoveResult));
    assert!(matches!(&more[1], Effect::ApplyEdit { create: true, text, .. } if text == "done"));
    // A second answer to the same request changes nothing.
    assert!(session.handle_response(id, None, "done").is_empty());
}

#[test]
fn silence_is_a_refusal_unless_the_tab_opened() {
    let mut session = Session::new("/d", None, None, Table::new());
    let _ = session.publish_result("done", false);
    let more = session.show_timed_out(1, "done");
    assert!(matches!(&more[1], Effect::ApplyEdit { create: true, .. }));

    let mut session = Session::new("/d", None, None, Table::new());
    let _ = session.publish_result("done", false);
    let uri = session.result_uri.clone();
    let open = json(&format!("{{\"textDocument\":{{\"uri\":\"{uri}\",\"text\":\"\"}}}}"));
    assert_eq!(session.did_open(&open), Some(false));
    assert!(session.show_timed_out(1, "done").is_empty());
    assert!(session.tab.use_show_document());
}

#[test]
fn an_editor_that_says_no_at_the_start_is_never_asked() {
    let mut session = Session::new("/d", None, Some(false), Table::new());
    assert!(session.publish_result("running", true).is_empty());
    let effects = session.publish_result("done", false);
    assert_eq!(effects.len(), 2);
    assert!(matches!(&effects[1], Effect::ApplyEdit { id: 1, create: true, .. }));
    // The new buffer may be unsaved, so the next text goes through an edit too; after
    // that the file is enough.
    assert!(matches!(&session.publish_result("a", true)[0], Effect::ApplyEdit { id: 2, create: false, .. }));
    assert!(matches!(&session.publish_result("b", false)[0], Effect::WriteResult(s) if s == "b"));
}

#[test]
fn a_second_click_on_a_running_request_is_a_warning() {
    let mut editor = Editor::start(ROOT);
    editor.open(URI, "# @name login\nPOST http://h/\n\nGET http://h/a\n");
    let first = editor.begin(URI, 1);
    assert!(matches!(first, Outcome::Start { .. }));
    match editor.begin(URI, 1) {
        Outcome::Busy(w) => assert_eq!(w, "⏳ login is already running — wait for the response."),
        _ => panic!("two requests on one line"),
    }
    editor.end(URI, first, ok());
    assert!(matches!(editor.begin(URI, 1), Outcome::Start { .. }));
}

#[test]
fn requests_on_different_lines_run_together() {
    let mut editor = Editor::start(ROOT);
    editor.open(URI, "GET http://h/a\n###\nGET http://h/b\n");
    assert!(matches!(editor.begin(URI, 0), Outcome::Start { .. }));
    assert!(matches!(editor.begin(URI, 2), Outcome::Start { .. }));
    match editor.begin(URI, 2) {
        Outcome::Busy(w) => assert_eq!(w, "⏳ GET http://h/b is already running — wait for the response."),
        _ => panic!("two requests on one line"),
    }
}

#[test]
fn unresolved_variables_are_reported_and_not_sent() {
    let mut editor = Editor::start(ROOT);
    editor.open(URI, "GET http://h/{{id}}\nX: {{ token }}\n");
    let sent = editor.click(URI, 0, connection_refused());
    match sent.last() {
        Some(Sent::Edit { create: true, text }) => assert_eq!(
            text,
            "# Error: unresolved variables\n\nGET http://h/{{id}}\n\nThe following variables were not found:\n  - {{id}}\n  - {{token}}\n\nMake sure they are defined in the .http file itself (@name = value) or in .env (for {{$dotenv NAME}}). The .env file is looked up starting from the .http file's folder, walking up to the workspace root.\n"
        ),
        other => panic!("{other:?}"),
    }
}

#[test]
fn only_edits_that_touch_a_lens_refresh_them() {
    let mut editor = Editor::start(ROOT);
    editor.open(URI, "POST http://h/\n\n{}\n");
    editor.change(URI, "POST http://h/\n\n{\\\"a\\\": 1}\n");
    assert!(editor.sent.is_empty());
    editor.change(URI, "\nPOST http://h/\n\n{}\n");
    assert_eq!(editor.sent, vec![Sent::Refresh]);
    // A change to the result never does.
    editor.sent.clear();
    let result = editor.session.result_uri.clone();
    editor.change(&result, "GET http://h/\n");
    assert!(editor.sent.is_empty());
}

#[test]
fn responses_are_chained_to_later_requests() {
    let mut editor = Editor::start(ROOT);
    editor.open(URI, "# @name login\nPOST http://h/\n\nGET http://h/a\n");
    let reply = Reply::Answer {
        code: 201,
        headers: vec![
            ("Content-Type".to_string(), "application/json".to_string()),
            ("X-Id".to_string(), "7".to_string()),
        ],
        body: "{\"json\":{\"key\":\"k1\"}}".to_string(),
    };
    let sent = editor.click(URI, 1, reply);
    match sent.last() {
        Some(Sent::Edit { text, .. }) => assert_eq!(
            text,
            "HTTP/1.1 201 Created\nContent-Type: application/json\nX-Id: 7\n\n{\n  \"json\": {\n    \"key\": \"k1\"\n  }\n}\n"
        ),
        other => panic!("{other:?}"),
    }
    // Another document of the folder sees the response, one of another folder does not.
    let near = "file:///tmp/http-client-test/orders.http";
    let far = "file:///tmp/http-client-test/prd/api.http";
    let text = "GET http://h/{{login.response.status}}/{{login.response.body.json.key}}/{{login.response.headers.x-id}}\n";
    let (vars, reqs) = http_request_client::document::parse_document(text);
    assert_eq!(editor.session.resolve(near, &reqs[0], &vars, &Table::new()).url, "http://h/201/k1/7");
    let o = editor.session.resolve(far, &reqs[0], &vars, &Table::new());
    assert_eq!(
        http_request_client::exchange::missing_variables(&o),
        vec!["login.response.status", "login.response.body.json.key", "login.response.headers.x-id"]
    );
}

#[test]
fn a_refusal_with_the_tab_open_writes_the_file_again() {
    let mut session = Session::new("/d", None, None, Table::new());
    let _ = session.publish_result("done", false);
    let uri = session.result_uri.clone();
    let open = json(&format!("{{\"textDocument\":{{\"uri\":\"{uri}\",\"text\":\"\"}}}}"));
    assert_eq!(session.did_open(&open), Some(false));
    let more = session.handle_response(1, None, "done");
    assert_eq!(more.len(), 1);
    assert!(matches!(&more[0], Effect::WriteResult(s) if s == "done"));
    assert!(!session.tab.use_show_document());
}
