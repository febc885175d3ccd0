//! The state of the language server, and what each message of the editor does to
//! it.

use vstd::prelude::*;

use crate::click::{Click, InFlight};
use crate::digits::write_number;
use crate::document::{parse_document, HttpRequest};
use crate::exchange::{
    content_type, reason_phrase, resolve_outbound, stored_response, take_in_files, Outbound,
};
use crate::json::{as_bool, as_text, get_in, last_of, Json};
use crate::lens::{code_lenses, lens_signature, resolve_request, Lens};
use crate::paths::{doc_scope, path_of_uri, result_uri_for};
use crate::report::{busy_warning, format_request_error, format_response};
use crate::result_tab::{Delivery, ResultTab};
use crate::scan::{after_prefix, same};
use crate::table::Table;
use crate::text::{chars, string};
use crate::vars::StoredResponse;

verus! {

use crate::click::ClickView;
use crate::digits::decimal;
use crate::document::{document, pairs, RequestView};
use crate::exchange::{content_type_in, kept_response, outbound, standard_reason, with_files, OutboundView};
use crate::includes::read_texts;
use crate::json::{
    bool_of, field, field_of, last_item, opt_json, parsed_json, pretty_json, text_of, JsonView,
};
use crate::lens::{law_signature_is_lines_and_names, lenses_of, meant, or_empty, signature};
use crate::paths::{law_environment_is_the_folder, result_location, scope_of, uri_folder, uri_path};
use crate::report::{busy_text, error_text, response_text, shown_body};
use crate::result_tab::{accepted, delivered, delivery, refused, timed_out, TabView};
use crate::text::{opt_str, opt_text, strip_prefix, views};
use crate::vars::{is_chain_name, law_chained_status, lookup, token_value, Env, ResponseView};
use vstd::utf8::encode_utf8;

/// How long after a document was closed its responses are kept, in milliseconds.
pub const CLOSE_GRACE: u64 = 3000;

/// How long the answer to a request to show a document is waited for, in
/// milliseconds.
pub const SHOW_DOCUMENT_TIMEOUT: u64 = 3000;

/// How long a request holds its line at least, in nanoseconds.
pub const MIN_LOADING: u64 = 400000000;

/// How much longer a request holds its line, after the time that has passed since
/// the click.
pub fn loading_rest(elapsed: u64) -> (r: Option<u64>)
    ensures
        r == (if elapsed <= MIN_LOADING {
            Some((MIN_LOADING - elapsed) as u64)
        } else {
            None
        }),
{
    if elapsed <= MIN_LOADING {
        Some(MIN_LOADING - elapsed)
    } else {
        None
    }
}

/// The pauses, in milliseconds, between the requests to refresh the lenses that
/// follow the opening of a document: at 50, 400, 1500 and 4000 milliseconds after
/// it.
pub fn lens_nudges() -> (r: Vec<u64>)
    ensures
        r@ == seq![50u64, 350, 1100, 2500],
        r@[0] == 50,
        r@[0] + r@[1] == 400,
        r@[0] + r@[1] + r@[2] == 1500,
        r@[0] + r@[1] + r@[2] + r@[3] == 4000,
{
    let mut r: Vec<u64> = Vec::new();
    r.push(50);
    r.push(350);
    r.push(1100);
    r.push(2500);
    assert(r@ =~= seq![50u64, 350, 1100, 2500]);
    r
}

/// Whether a text is a URI.
pub uninterp spec fn parsed_uri(text: Seq<char>) -> bool;

/// `FromStr` for `lsp_types::Uri`: whether a text parses as a URI. Claimed is only
/// that the outcome depends on the text alone. The parser does not take texts of
/// more than `i32::MAX` bytes.
#[verifier::external_body]
fn parses_as_uri(text: &str) -> (r: bool)
    requires
        encode_utf8(text@).len() <= i32::MAX,
    ensures
        r == parsed_uri(text@),
{
    text.parse::<lsp_types::Uri>().is_ok()
}

/// Whether a text can be sent as a URI.
pub open spec fn usable_uri(text: Seq<char>) -> bool {
    encode_utf8(text).len() <= i32::MAX && parsed_uri(text)
}

/// Whether a text can be sent as a URI.
pub fn is_usable_uri(text: &str) -> (r: bool)
    ensures
        r == usable_uri(text@),
{
    text.as_bytes().len() <= i32::MAX as usize && parses_as_uri(text)
}

/// Something for the editor or for the result file.
pub enum Effect {
    /// Write the result file.
    WriteResult(String),
    /// Remove the result file, so that an edit creates a new one.
    RemoveResult,
    /// Ask the editor to show the result file, without taking the focus.
    ShowDocument(i32),
    /// Ask the editor to replace the whole text of the result file, creating it
    /// first where `create` says so.
    ApplyEdit { id: i32, create: bool, text: String },
}

/// An effect in mathematical terms.
pub enum EffectView {
    WriteResult(Seq<char>),
    RemoveResult,
    ShowDocument(i32),
    ApplyEdit { id: i32, create: bool, text: Seq<char> },
}

impl View for Effect {
    type V = EffectView;

    open spec fn view(&self) -> EffectView {
        match self {
            Effect::WriteResult(s) => EffectView::WriteResult(s@),
            Effect::RemoveResult => EffectView::RemoveResult,
            Effect::ShowDocument(id) => EffectView::ShowDocument(*id),
            Effect::ApplyEdit { id, create, text } => EffectView::ApplyEdit { id: *id, create: *create, text: text@ },
        }
    }
}

/// What a delivery does. Without a usable URI the editor cannot be asked anything.
pub open spec fn effects_of(d: Delivery, reachable: bool, id: i32, content: Seq<char>) -> Seq<EffectView> {
    match d {
        Delivery::Hold => seq![],
        Delivery::Write => seq![EffectView::WriteResult(content)],
        Delivery::Show => if reachable {
            seq![EffectView::WriteResult(content), EffectView::ShowDocument(id)]
        } else {
            seq![EffectView::WriteResult(content)]
        },
        Delivery::Open => if reachable {
            seq![EffectView::RemoveResult, EffectView::ApplyEdit { id, create: true, text: content }]
        } else {
            seq![EffectView::RemoveResult]
        },
        Delivery::Edit => if reachable {
            seq![EffectView::ApplyEdit { id, create: false, text: content }]
        } else {
            seq![]
        },
    }
}

/// Whether a delivery asks the editor something, which takes a number.
pub open spec fn asks(d: Delivery, reachable: bool) -> bool {
    reachable && (d == Delivery::Show || d == Delivery::Open || d == Delivery::Edit)
}

/// The number after a number; the largest one is followed by the smallest one.
pub open spec fn after(n: i32) -> i32 {
    if n == i32::MAX {
        i32::MIN
    } else {
        (n + 1) as i32
    }
}

/// The state of the server.
pub struct Session {
    /// The texts of the open documents.
    pub docs: Table<String>,
    /// The stored responses: by environment, and in it by the name of the request.
    pub responses: Table<Table<StoredResponse>>,
    /// The requests that run.
    pub inflight: InFlight,
    /// The workspace root.
    pub root: Option<String>,
    /// The result tab.
    pub tab: ResultTab,
    /// The URI of the result file.
    pub result_uri: String,
    /// Whether that URI can be sent.
    pub reachable: bool,
    /// The signatures of the lenses of the open documents.
    pub signatures: Table<u64>,
    /// The closed documents whose responses are about to be cleared, each with the
    /// ticket of its last closing.
    pub closing: Table<u64>,
    /// The ticket of the next closing.
    pub ticket: u64,
    /// The number of the next request to the editor.
    pub number: i32,
}

/// The state of the server in mathematical terms.
pub struct SessionView {
    pub docs: Map<Seq<char>, Seq<char>>,
    pub responses: Map<Seq<char>, Map<Seq<char>, ResponseView>>,
    pub inflight: Set<(Seq<char>, u32)>,
    pub root: Option<Seq<char>>,
    pub tab: TabView,
    pub result_uri: Seq<char>,
    pub reachable: bool,
    pub signatures: Map<Seq<char>, u64>,
    pub closing: Map<Seq<char>, u64>,
    pub ticket: u64,
    pub number: i32,
}

impl View for Session {
    type V = SessionView;

    open spec fn view(&self) -> SessionView {
        SessionView {
            docs: self.docs@,
            responses: self.responses@,
            inflight: self.inflight@,
            root: opt_text(self.root),
            tab: self.tab@,
            result_uri: self.result_uri@,
            reachable: self.reachable,
            signatures: self.signatures@,
            closing: self.closing@,
            ticket: self.ticket,
            number: self.number,
        }
    }
}

/// The workspace root that the editor names when it starts the server.
pub open spec fn root_in(init: JsonView) -> Option<Seq<char>> {
    match text_of(field(init, "rootPath"@)) {
        Some(p) => Some(p),
        None => match text_of(field(init, "rootUri"@)) {
            Some(u) => strip_prefix(u, "file://"@),
            None => None,
        },
    }
}

/// The workspace root that the editor names when it starts the server.
pub fn workspace_root(init: &Json) -> (r: Option<String>)
    ensures
        opt_text(r) == root_in(init@),
{
    if let Some(p) = as_text(init.get("rootPath")) {
        return Some(p.to_owned());
    }
    match as_text(init.get("rootUri")) {
        Some(u) => {
            let c = chars(u);
            match after_prefix(c.as_slice(), "file://") {
                Some(p) => Some(string(p)),
                None => None,
            }
        },
        None => None,
    }
}

/// What the editor says about showing documents.
pub open spec fn support_in(init: JsonView) -> Option<bool> {
    bool_of(
        field_of(field_of(field_of(field(init, "capabilities"@), "window"@), "showDocument"@), "support"@),
    )
}

/// What the editor says about showing documents, or nothing.
pub fn show_document_support(init: &Json) -> (r: Option<bool>)
    ensures
        r == support_in(init@),
{
    as_bool(get_in(get_in(get_in(init.get("capabilities"), "window"), "showDocument"), "support"))
}

/// Whether an answer to a request to show a document refuses it: an error (here
/// without a value), or a value that says so.
pub open spec fn refuses(answer: Option<JsonView>) -> bool {
    match answer {
        Some(v) => bool_of(field(v, "success"@)) == Some(false),
        None => true,
    }
}

/// Whether an open document other than `uri` has the same environment.
pub open spec fn shared(s: SessionView, uri: Seq<char>) -> bool {
    exists|other: Seq<char>|
        #[trigger] s.docs.contains_key(other) && other != uri && scope_of(other, s.root) == scope_of(uri, s.root)
}

/// The state after the responses of the environment of a document are cleared,
/// which happens only where no other open document has that environment.
pub open spec fn cleared(s: SessionView, uri: Seq<char>) -> SessionView {
    if shared(s, uri) {
        s
    } else {
        SessionView { responses: s.responses.remove(scope_of(uri, s.root)), ..s }
    }
}

/// Whether an environment belongs to a closed document that waits to be cleared,
/// and to no other open one.
pub open spec fn discarded(s: SessionView, scope: Seq<char>) -> bool {
    exists|uri: Seq<char>|
        #[trigger] s.closing.contains_key(uri) && !shared(s, uri) && scope_of(uri, s.root) == scope
}

/// The state after everything that waits to be cleared is cleared.
pub open spec fn flushed(s: SessionView) -> SessionView {
    SessionView {
        responses: s.responses.remove_keys(Set::new(|scope: Seq<char>| discarded(s, scope))),
        closing: Map::empty(),
        ..s
    }
}

/// The URI and the text of a document that was opened.
pub open spec fn opened_in(params: JsonView) -> Option<(Seq<char>, Seq<char>)> {
    let td = field(params, "textDocument"@);
    match (text_of(field_of(td, "uri"@)), text_of(field_of(td, "text"@))) {
        (Some(uri), Some(text)) => Some((uri, text)),
        _ => None,
    }
}

/// The state after a document was opened. What waited to be cleared of it is kept.
pub open spec fn opened(s: SessionView, uri: Seq<char>, text: Seq<char>) -> SessionView {
    SessionView {
        docs: s.docs.insert(uri, text),
        signatures: s.signatures.insert(uri, signature(text)),
        closing: s.closing.remove(uri),
        tab: if uri == s.result_uri {
            TabView { open: true, ..s.tab }
        } else {
            s.tab
        },
        ..s
    }
}

/// The URI and the new text of a document that was changed: the text of its last
/// change.
pub open spec fn changed_in(params: JsonView) -> Option<(Seq<char>, Seq<char>)> {
    let uri = text_of(field_of(field(params, "textDocument"@), "uri"@));
    let text = text_of(field_of(last_item(field(params, "contentChanges"@)), "text"@));
    match (uri, text) {
        (Some(u), Some(t)) => Some((u, t)),
        _ => None,
    }
}

/// The state after a document was changed.
pub open spec fn changed(s: SessionView, uri: Seq<char>, text: Seq<char>) -> SessionView {
    SessionView {
        docs: s.docs.insert(uri, text),
        signatures: s.signatures.insert(uri, signature(text)),
        ..s
    }
}

/// Whether a change touches the lenses of a document: the line or the name of one
/// of its requests.
pub open spec fn touches_lenses(s: SessionView, uri: Seq<char>, text: Seq<char>) -> bool {
    uri != s.result_uri && lookup(s.signatures, uri) != Some(signature(text))
}

/// The URI of a document that was closed.
pub open spec fn closed_in(params: JsonView) -> Option<Seq<char>> {
    text_of(field_of(field(params, "textDocument"@), "uri"@))
}

/// The state after a document was closed. Its responses are not cleared yet.
pub open spec fn closed(s: SessionView, uri: Seq<char>) -> SessionView {
    let t = SessionView { docs: s.docs.remove(uri), signatures: s.signatures.remove(uri), ..s };
    if uri == s.result_uri {
        SessionView { tab: TabView { open: false, ..s.tab }, ..t }
    } else {
        SessionView {
            closing: s.closing.insert(uri, s.ticket),
            ticket: if s.ticket == u64::MAX {
                0
            } else {
                (s.ticket + 1) as u64
            },
            ..t
        }
    }
}

/// The state when the grace period of a closing ends: where neither an opening nor
/// a request for lenses nor a later closing came in between, the responses are
/// cleared, unless the document is open after all.
pub open spec fn grace_over(s: SessionView, uri: Seq<char>, ticket: u64) -> SessionView {
    if lookup(s.closing, uri) != Some(ticket) {
        s
    } else {
        let t = SessionView { closing: s.closing.remove(uri), ..s };
        if s.docs.contains_key(uri) {
            t
        } else {
            cleared(t, uri)
        }
    }
}

/// The text of a document: what the editor sent or, failing that, what is on disk.
pub open spec fn text_in(s: SessionView, uri: Seq<char>, disk: Option<Seq<char>>) -> Option<Seq<char>> {
    match lookup(s.docs, uri) {
        Some(t) => Some(t),
        None => disk,
    }
}

/// What comes of a click.
pub enum Outcome {
    /// There is no such document.
    NoDocument,
    /// No request of the document is meant.
    NotFound,
    /// The request runs already; the text is a warning.
    Busy(String),
    /// The request starts. `how` says which hint found it.
    Start { request: HttpRequest, file_vars: Table<String>, how: &'static str },
}

/// The request that a click means, and which hint told.
pub open spec fn clicked(c: ClickView, text: Seq<char>) -> Option<(int, Seq<char>)> {
    meant(document(text).requests, c.line, c.key, c.nth, c.name, c.method)
}

/// The request with an index in a document.
pub open spec fn request_in(text: Seq<char>, i: int) -> RequestView {
    document(text).requests[i]
}

/// The state after a response was stored.
pub open spec fn with_response(s: SessionView, scope: Seq<char>, name: Seq<char>, resp: ResponseView) -> SessionView {
    SessionView { responses: s.responses.insert(scope, responses_of(s, scope).insert(name, resp)), ..s }
}

/// What is shared depends on the open documents and the root alone.
proof fn lemma_same_documents(a: SessionView, b: SessionView, uri: Seq<char>)
    requires
        a.docs == b.docs,
        a.root == b.root,
    ensures
        shared(a, uri) == shared(b, uri),
{
    if shared(a, uri) {
        let other = choose|other: Seq<char>|
            #[trigger] a.docs.contains_key(other) && other != uri && scope_of(other, a.root) == scope_of(uri, a.root);
        assert(b.docs.contains_key(other));
    }
    if shared(b, uri) {
        let other = choose|other: Seq<char>|
            #[trigger] b.docs.contains_key(other) && other != uri && scope_of(other, b.root) == scope_of(uri, b.root);
        assert(a.docs.contains_key(other));
    }
}

/// The stored responses that a document can refer to: those of its environment.
pub open spec fn responses_of(s: SessionView, scope: Seq<char>) -> Map<Seq<char>, ResponseView> {
    match lookup(s.responses, scope) {
        Some(m) => m,
        None => Map::empty(),
    }
}

/// Everything that the variables of a document can refer to.
pub open spec fn env_of(
    s: SessionView,
    uri: Seq<char>,
    vars: Map<Seq<char>, Seq<char>>,
    dotenv: Map<Seq<char>, Seq<char>>,
) -> Env {
    Env { vars, dotenv, responses: responses_of(s, scope_of(uri, s.root)) }
}

/// What came of sending a request.
pub enum Reply {
    /// A response.
    Answer { code: u16, headers: Vec<(String, String)>, body: String },
    /// An error; `elapsed` is the time that passed, in seconds.
    Failure { timed_out: bool, error: String, elapsed: String },
}

/// The text of the result of a request. `pretty` is the body laid out as JSON, where
/// it is JSON.
pub open spec fn result_text(
    reply: Reply,
    o: OutboundView,
    limit: Option<u64>,
    from: Seq<char>,
    reason: Option<Seq<char>>,
    pretty: Option<Seq<char>>,
) -> Seq<char> {
    match reply {
        Reply::Answer { code, headers, body } => response_text(
            code,
            or_empty(reason),
            pairs(headers@),
            shown_body(content_type_in(pairs(headers@)), body@, pretty),
        ),
        Reply::Failure { timed_out, error, elapsed } => error_text(
            timed_out,
            error@,
            o.method,
            o.url,
            limit,
            from,
            elapsed@,
        ),
    }
}

/// The state after a request has been sent: the response of a named request is
/// stored under the environment of its document.
pub open spec fn concluded(
    s: SessionView,
    uri: Seq<char>,
    name: Option<Seq<char>>,
    reply: Reply,
    parsed: Option<JsonView>,
) -> SessionView {
    match (reply, name) {
        (Reply::Answer { code, headers, body }, Some(n)) => with_response(
            s,
            scope_of(uri, s.root),
            n,
            kept_response(code, parsed, body@, pairs(headers@)),
        ),
        _ => s,
    }
}

impl Session {
    /// The state of a server that has just been started, with the responses that an
    /// earlier one left.
    pub fn new(
        dir: &str,
        root: Option<String>,
        support: Option<bool>,
        responses: Table<Table<StoredResponse>>,
    ) -> (r: Self)
        ensures
            r@ == (SessionView {
                docs: Map::empty(),
                responses: responses@,
                inflight: Set::empty(),
                root: opt_text(root),
                tab: TabView {
                    support,
                    failed: false,
                    pending: Set::empty(),
                    open: false,
                    dirty: false,
                    running: false,
                },
                result_uri: "file://"@ + result_location(dir@, opt_text(root)),
                reachable: usable_uri("file://"@ + result_location(dir@, opt_text(root))),
                signatures: Map::empty(),
                closing: Map::empty(),
                ticket: 0,
                number: 1,
            }),
    {
        let result_uri = match &root {
            Some(r) => result_uri_for(dir, Some(r.as_str())),
            None => result_uri_for(dir, None),
        };
        let reachable: bool = is_usable_uri(result_uri.as_str());
        Session {
            docs: Table::new(),
            responses,
            inflight: InFlight::new(),
            root,
            tab: ResultTab::new(support),
            result_uri,
            reachable,
            signatures: Table::new(),
            closing: Table::new(),
            ticket: 0,
            number: 1,
        }
    }

    /// Takes the number of the next request to the editor.
    pub fn next_n(&mut self) -> (r: i32)
        ensures
            r == old(self)@.number,
            final(self)@ == (SessionView { number: after(old(self)@.number), ..old(self)@ }),
    {
        let n: i32 = self.number;
        self.number = if n == i32::MAX {
            i32::MIN
        } else {
            n + 1
        };
        n
    }

    fn perform(&mut self, d: Delivery, id: i32, content: &str) -> (r: Vec<Effect>)
        ensures
            views(r@) == effects_of(d, old(self)@.reachable, id, content@),
            final(self)@ == old(self)@,
    {
        let mut r: Vec<Effect> = Vec::new();
        match d {
            Delivery::Hold => {},
            Delivery::Write => {
                r.push(Effect::WriteResult(content.to_owned()));
            },
            Delivery::Show => {
                r.push(Effect::WriteResult(content.to_owned()));
                if self.reachable {
                    r.push(Effect::ShowDocument(id));
                }
            },
            Delivery::Open => {
                r.push(Effect::RemoveResult);
                if self.reachable {
                    r.push(apply_result_edit(id, content, true));
                }
            },
            Delivery::Edit => {
                if self.reachable {
                    r.push(apply_result_edit(id, content, false));
                }
            },
        }
        assert(views(r@) =~= effects_of(d, self@.reachable, id, content@));
        r
    }

    /// Publishes a result; `running` says that it only tells that a request runs.
    pub fn publish_result(&mut self, content: &str, running: bool) -> (r: Vec<Effect>)
        ensures
            ({
                let s = old(self)@;
                let d = delivery(s.tab, running);
                let asked = if s.reachable {
                    Some(s.number)
                } else {
                    None
                };
                &&& views(r@) == effects_of(d, s.reachable, s.number, content@)
                &&& final(self)@ == (SessionView {
                    tab: delivered(s.tab, d, running, asked),
                    number: if asks(d, s.reachable) {
                        after(s.number)
                    } else {
                        s.number
                    },
                    ..s
                })
            }),
    {
        let d = self.tab.plan(running);
        let id: i32 = self.number;
        let asked: Option<i32> = if self.reachable {
            Some(id)
        } else {
            None
        };
        self.tab.deliver(d, running, asked);
        let r = self.perform(d, id, content);
        if self.reachable && (d == Delivery::Show || d == Delivery::Open || d == Delivery::Edit) {
            let _ = self.next_n();
        }
        r
    }

    /// Whether the editor still owes the answer to a request to show a document.
    pub fn awaits(&self, id: i32) -> (r: bool)
        ensures
            r == self@.tab.pending.contains(id),
    {
        self.tab.pending.has(id)
    }

    fn fall_back(&mut self, d: Delivery, content: &str) -> (r: Vec<Effect>)
        ensures
            views(r@) == effects_of(d, old(self)@.reachable, old(self)@.number, content@),
            final(self)@ == (SessionView {
                number: if asks(d, old(self)@.reachable) {
                    after(old(self)@.number)
                } else {
                    old(self)@.number
                },
                ..old(self)@
            }),
    {
        let id: i32 = self.number;
        let r = self.perform(d, id, content);
        if self.reachable && (d == Delivery::Show || d == Delivery::Open || d == Delivery::Edit) {
            let _ = self.next_n();
        }
        r
    }

    /// The editor answered a request: with a value, or with an error (here without
    /// one). Only the answers to requests to show the result matter. `content` is
    /// what the result file holds.
    pub fn handle_response(&mut self, id: i32, answer: Option<&Json>, content: &str) -> (r: Vec<Effect>)
        ensures
            ({
                let s = old(self)@;
                let (tab, d) = if refuses(opt_json(answer)) {
                    refused(s.tab, id)
                } else {
                    (accepted(s.tab, id), Delivery::Hold)
                };
                &&& views(r@) == effects_of(d, s.reachable, s.number, content@)
                &&& final(self)@ == (SessionView {
                    tab,
                    number: if asks(d, s.reachable) {
                        after(s.number)
                    } else {
                        s.number
                    },
                    ..s
                })
            }),
    {
        let refusal: bool = match answer {
            Some(v) => match as_bool(v.get("success")) {
                Some(b) => !b,
                None => false,
            },
            None => true,
        };
        let d = if refusal {
            self.tab.refuse(id)
        } else {
            self.tab.accept(id);
            Delivery::Hold
        };
        self.fall_back(d, content)
    }

    /// The editor did not answer a request to show the result in time. `content` is
    /// what the result file holds.
    pub fn show_timed_out(&mut self, id: i32, content: &str) -> (r: Vec<Effect>)
        ensures
            ({
                let s = old(self)@;
                let (tab, d) = timed_out(s.tab, id);
                &&& views(r@) == effects_of(d, s.reachable, s.number, content@)
                &&& final(self)@ == (SessionView {
                    tab,
                    number: if asks(d, s.reachable) {
                        after(s.number)
                    } else {
                        s.number
                    },
                    ..s
                })
            }),
    {
        let d = self.tab.time_out(id);
        self.fall_back(d, content)
    }

    /// The editor opened a document. Where the message is sound, tells whether
    /// refreshes of the lenses are to follow; they are for every document but the
    /// result.
    pub fn did_open(&mut self, params: &Json) -> (r: Option<bool>)
        ensures
            match opened_in(params@) {
                Some((uri, text)) => final(self)@ == opened(old(self)@, uri, text) && r == Some(
                    uri != old(self)@.result_uri,
                ),
                None => final(self)@ == old(self)@ && r is None,
            },
    {
        let td = params.get("textDocument");
        let (uri, text) = match (as_text(get_in(td, "uri")), as_text(get_in(td, "text"))) {
            (Some(u), Some(t)) => (u, t),
            _ => {
                return None;
            },
        };
        let _ = self.docs.insert(uri.to_owned(), text.to_owned());
        let _ = self.signatures.insert(uri.to_owned(), lens_signature(text));
        let _ = self.closing.take(uri);
        if same(uri, self.result_uri.as_str()) {
            self.tab.open = true;
            Some(false)
        } else {
            Some(true)
        }
    }

    /// The editor changed a document. Tells whether the lenses are to be refreshed.
    pub fn did_change(&mut self, params: &Json) -> (r: bool)
        ensures
            match changed_in(params@) {
                Some((uri, text)) => final(self)@ == changed(old(self)@, uri, text) && r == touches_lenses(
                    old(self)@,
                    uri,
                    text,
                ),
                None => final(self)@ == old(self)@ && !r,
            },
    {
        let uri = as_text(get_in(params.get("textDocument"), "uri"));
        let text = as_text(get_in(last_of(params.get("contentChanges")), "text"));
        let (uri, text) = match (uri, text) {
            (Some(u), Some(t)) => (u, t),
            _ => {
                return false;
            },
        };
        let signature: u64 = lens_signature(text);
        let moved: bool = match self.signatures.get(uri) {
            Some(old) => *old != signature,
            None => true,
        };
        let _ = self.docs.insert(uri.to_owned(), text.to_owned());
        let _ = self.signatures.insert(uri.to_owned(), signature);
        moved && !same(uri, self.result_uri.as_str())
    }

    /// The editor closed a document. Gives the document and the ticket of this
    /// closing, where its responses are to be cleared after the grace period.
    pub fn did_close(&mut self, params: &Json) -> (r: Option<(String, u64)>)
        ensures
            match closed_in(params@) {
                Some(uri) => final(self)@ == closed(old(self)@, uri) && (if uri == old(self)@.result_uri {
                    r is None
                } else {
                    r matches Some((u, t)) && u@ == uri && t == old(self)@.ticket
                }),
                None => final(self)@ == old(self)@ && r is None,
            },
    {
        let uri = match as_text(get_in(params.get("textDocument"), "uri")) {
            Some(u) => u,
            None => {
                return None;
            },
        };
        let _ = self.docs.take(uri);
        let _ = self.signatures.take(uri);
        if same(uri, self.result_uri.as_str()) {
            self.tab.open = false;
            return None;
        }
        let ticket: u64 = self.ticket;
        let _ = self.closing.insert(uri.to_owned(), ticket);
        self.ticket = if ticket == u64::MAX {
            0
        } else {
            ticket + 1
        };
        Some((uri.to_owned(), ticket))
    }

    fn is_shared(&self, uri: &str) -> (r: bool)
        ensures
            r == shared(self@, uri@),
    {
        let scope = self.scope(uri);
        let n: usize = self.docs.count();
        let mut i: usize = 0;
        while i < n
            invariant
                i <= n == self.docs.listed().len(),
                scope@ == scope_of(uri@, self@.root),
                forall|k: Seq<char>|
                    #![trigger self.docs@.contains_key(k)]
                    self.docs@.contains_key(k) <==> exists|i: int|
                        0 <= i < self.docs.listed().len() && (#[trigger] self.docs.listed()[i]).0 == k,
                forall|j: int|
                    0 <= j < i ==> (#[trigger] self.docs.listed()[j]).0 == uri@ || scope_of(
                        self.docs.listed()[j].0,
                        self@.root,
                    ) != scope@,
            decreases n - i,
        {
            let other = self.docs.key_at(i);
            let its = self.scope(other);
            if !same(other, uri) && same(its.as_str(), scope.as_str()) {
                assert(self@.docs.contains_key(other@));
                return true;
            }
            i = i + 1;
        }
        false
    }

    /// The environment of a document.
    pub fn scope(&self, uri: &str) -> (r: String)
        ensures
            r@ == scope_of(uri@, self@.root),
    {
        match &self.root {
            Some(r) => doc_scope(uri, Some(r.as_str())),
            None => doc_scope(uri, None),
        }
    }

    /// Clears the responses of the environment of a document, unless another open
    /// document has the same one. Tells whether there were any.
    pub fn clear_responses_for(&mut self, uri: &str) -> (r: bool)
        ensures
            final(self)@ == cleared(old(self)@, uri@),
            r == (!shared(old(self)@, uri@) && old(self)@.responses.contains_key(scope_of(uri@, old(self)@.root))),
    {
        if self.is_shared(uri) {
            return false;
        }
        let scope = self.scope(uri);
        self.responses.take(scope.as_str()).is_some()
    }

    /// The grace period of a closing is over. Tells whether the stored responses
    /// changed.
    pub fn grace_ended(&mut self, uri: &str, ticket: u64) -> (r: bool)
        ensures
            final(self)@ == grace_over(old(self)@, uri@, ticket),
            r == (lookup(old(self)@.closing, uri@) == Some(ticket) && !old(self)@.docs.contains_key(uri@) && !shared(
                old(self)@,
                uri@,
            ) && old(self)@.responses.contains_key(scope_of(uri@, old(self)@.root))),
    {
        let current: bool = match self.closing.get(uri) {
            Some(t) => *t == ticket,
            None => false,
        };
        if !current {
            return false;
        }
        let ghost before = self@;
        let _ = self.closing.take(uri);
        proof {
            lemma_same_documents(self@, before, uri@);
        }
        if self.docs.has(uri) {
            return false;
        }
        self.clear_responses_for(uri)
    }

    /// Clears everything that waits to be cleared, because the server stops. Tells
    /// whether the stored responses changed.
    pub fn flush_pending_clears(&mut self) -> (r: bool)
        ensures
            final(self)@ == flushed(old(self)@),
            r == exists|scope: Seq<char>|
                #[trigger] old(self)@.responses.contains_key(scope) && discarded(old(self)@, scope),
    {
        let ghost before = self@;
        let mut closing: Table<u64> = Table::new();
        std::mem::swap(&mut closing, &mut self.closing);
        let n: usize = closing.count();
        let ghost listed = closing.listed();
        let ghost mut gone: Set<Seq<char>> = Set::empty();
        let mut any: bool = false;
        let mut i: usize = 0;
        assert(before.responses.remove_keys(gone) =~= before.responses);
        while i < n
            invariant
                i <= n == closing.listed().len(),
                listed == closing.listed(),
                forall|scope: Seq<char>|
                    #![trigger gone.contains(scope)]
                    gone.contains(scope) <==> exists|j: int|
                        0 <= j < i && !shared(before, (#[trigger] listed[j]).0) && scope_of(listed[j].0, before.root)
                            == scope,
                self@ == (SessionView {
                    responses: before.responses.remove_keys(gone),
                    closing: Map::empty(),
                    ..before
                }),
                any == exists|scope: Seq<char>| #[trigger] before.responses.contains_key(scope) && gone.contains(scope),
            decreases n - i,
        {
            let uri = closing.key_at(i);
            let ghost now = self@;
            let ghost scope = scope_of(uri@, before.root);
            let ghost old_gone = gone;
            assert(listed[i as int].0 == uri@);
            proof {
                lemma_same_documents(now, before, uri@);
            }
            let removed: bool = self.clear_responses_for(uri);
            proof {
                if !shared(before, uri@) {
                    gone = gone.insert(scope);
                }
                assert forall|s: Seq<char>| #![trigger gone.contains(s)] gone.contains(s) <==> exists|j: int|
                    0 <= j < i + 1 && !shared(before, (#[trigger] listed[j]).0) && scope_of(listed[j].0, before.root)
                        == s by {
                    if gone.contains(s) {
                        if old_gone.contains(s) {
                            let j = choose|j: int|
                                0 <= j < i && !shared(before, (#[trigger] listed[j]).0) && scope_of(
                                    listed[j].0,
                                    before.root,
                                ) == s;
                            assert(0 <= j < i + 1 && !shared(before, listed[j].0));
                        } else {
                            assert(!shared(before, listed[i as int].0));
                        }
                    }
                }
                assert(self@.responses =~= before.responses.remove_keys(gone));
                if removed {
                    assert(before.responses.contains_key(scope) && gone.contains(scope));
                }
                if exists|s: Seq<char>| #[trigger] before.responses.contains_key(s) && gone.contains(s) {
                    let s = choose|s: Seq<char>| #[trigger] before.responses.contains_key(s) && gone.contains(s);
                    if !old_gone.contains(s) {
                        assert(s == scope);
                        assert(now.responses.contains_key(s));
                    }
                }
            }
            any = any || removed;
            i = i + 1;
        }
        proof {
            assert forall|scope: Seq<char>| gone.contains(scope) <==> discarded(before, scope) by {
                if gone.contains(scope) {
                    let j = choose|j: int|
                        0 <= j < n && !shared(before, (#[trigger] listed[j]).0) && scope_of(listed[j].0, before.root)
                            == scope;
                    assert(before.closing.contains_key(listed[j].0));
                }
                if discarded(before, scope) {
                    let uri = choose|uri: Seq<char>|
                        #[trigger] before.closing.contains_key(uri) && !shared(before, uri) && scope_of(
                            uri,
                            before.root,
                        ) == scope;
                    let j = choose|j: int| 0 <= j < listed.len() && (#[trigger] listed[j]).0 == uri;
                    assert(!shared(before, listed[j].0));
                }
            }
            assert(gone =~= Set::new(|scope: Seq<char>| discarded(before, scope)));
        }
        any
    }

    /// The file on disk that a document is read from, where the editor has not sent
    /// its text.
    pub fn disk_path(&self, uri: &str) -> (r: Option<String>)
        ensures
            opt_text(r) == (if self@.docs.contains_key(uri@) {
                None
            } else {
                uri_path(uri@)
            }),
    {
        if self.docs.has(uri) {
            None
        } else {
            path_of_uri(uri)
        }
    }

    /// The text of a document; `disk` is what is on disk, where that was read.
    pub fn document_text(&self, uri: &str, disk: Option<String>) -> (r: Option<String>)
        ensures
            opt_text(r) == text_in(self@, uri@, opt_text(disk)),
    {
        match self.docs.get(uri) {
            Some(t) => Some(t.clone()),
            None => disk,
        }
    }

    /// The editor asks for the lenses of a document. It still shows the document, so
    /// what waited to be cleared of it is kept.
    pub fn lenses(&mut self, uri: &str, disk: Option<String>) -> (r: Vec<Lens>)
        ensures
            final(self)@ == (SessionView { closing: old(self)@.closing.remove(uri@), ..old(self)@ }),
            views(r@) == lenses_of(
                uri@,
                old(self)@.result_uri,
                match text_in(old(self)@, uri@, opt_text(disk)) {
                    Some(t) => t,
                    None => seq![],
                },
            ),
    {
        let _ = self.closing.take(uri);
        let text = match self.document_text(uri, disk) {
            Some(t) => t,
            None => String::new(),
        };
        code_lenses(uri, self.result_uri.as_str(), text.as_str())
    }

    /// A click on a lens. `text` is the text of its document. A request that runs
    /// already is not started again.
    pub fn click(&mut self, c: &Click, text: Option<&str>) -> (r: Outcome)
        ensures
            match opt_str(text) {
                None => r is NoDocument && final(self)@ == old(self)@,
                Some(t) => match clicked(c@, t) {
                    None => r is NotFound && final(self)@ == old(self)@,
                    Some((i, why)) => {
                        let req = request_in(t, i);
                        &&& 0 <= i < document(t).requests.len()
                        &&& final(self)@ == after_click(old(self)@, c@, t)
                        &&& if starts(old(self)@, c@, t) {
                            r matches Outcome::Start { request, file_vars, how } && request@ == req && file_vars@
                                == document(t).vars && how@ == why
                        } else {
                            r matches Outcome::Busy(w) && w@ == busy_text(req)
                        }
                    },
                },
            },
    {
        let text = match text {
            Some(t) => t,
            None => {
                return Outcome::NoDocument;
            },
        };
        let (file_vars, mut reqs) = parse_document(text);
        let name: Option<&str> = match &c.name {
            Some(n) => Some(n.as_str()),
            None => None,
        };
        let method: Option<&str> = match &c.method {
            Some(m) => Some(m.as_str()),
            None => None,
        };
        let (index, how) = match resolve_request(&reqs, c.line, c.key, c.nth, name, method) {
            Some(found) => found,
            None => {
                return Outcome::NotFound;
            },
        };
        assert(views(reqs@)[index as int] == reqs@[index as int]@);
        let request = reqs.swap_remove(index);
        if self.inflight.insert(c.uri.as_str(), request.line) {
            Outcome::Start { request, file_vars, how }
        } else {
            Outcome::Busy(busy_warning(&request))
        }
    }

    /// A request has ended, in whatever way.
    pub fn finish(&mut self, uri: &str, line: u32)
        ensures
            final(self)@ == finished(old(self)@, (uri@, line)),
    {
        self.inflight.remove(uri, line);
    }

    /// A request with its variables resolved, as far as its document can see.
    pub fn resolve(&self, uri: &str, req: &HttpRequest, file_vars: &Table<String>, dotenv: &Table<String>) -> (r:
        Outbound)
        ensures
            r@ == outbound(req@, env_of(self@, uri@, file_vars@, dotenv@)),
    {
        let scope = self.scope(uri);
        match self.responses.get(scope.as_str()) {
            Some(named) => resolve_outbound(req, file_vars, dotenv, named),
            None => {
                let none: Table<StoredResponse> = Table::new();
                resolve_outbound(req, file_vars, dotenv, &none)
            },
        }
    }

    /// A request with the files of its body taken in; `contents` is what was read for
    /// each line of the body.
    pub fn take_in(
        &self,
        uri: &str,
        o: Outbound,
        contents: &Vec<Option<String>>,
        file_vars: &Table<String>,
        dotenv: &Table<String>,
    ) -> (r: Outbound)
        ensures
            r@ == with_files(o@, read_texts(contents@), env_of(self@, uri@, file_vars@, dotenv@)),
    {
        let scope = self.scope(uri);
        match self.responses.get(scope.as_str()) {
            Some(named) => take_in_files(o, contents, file_vars, dotenv, named),
            None => {
                let none: Table<StoredResponse> = Table::new();
                take_in_files(o, contents, file_vars, dotenv, &none)
            },
        }
    }

    /// A request was sent: the response of a named request is stored, and the text of
    /// the result comes back. The second result tells whether the stored responses
    /// changed.
    pub fn conclude(
        &mut self,
        uri: &str,
        name: Option<&str>,
        o: &Outbound,
        timeout: Option<u64>,
        timeout_from: &str,
        reply: Reply,
    ) -> (r: (String, bool))
        ensures
            ({
                let (reason, pretty, parsed) = match reply {
                    Reply::Answer { code, body, .. } => (
                        standard_reason(code),
                        pretty_json(body@),
                        parsed_json(body@),
                    ),
                    _ => (None, None, None),
                };
                &&& r.0@ == result_text(reply, o@, timeout, timeout_from@, reason, pretty)
                &&& final(self)@ == concluded(old(self)@, uri@, opt_str(name), reply, parsed)
                &&& r.1 == (reply is Answer && name is Some)
            }),
    {
        match reply {
            Reply::Answer { code, headers, body } => {
                let kind = content_type(&headers);
                let reason = reason_phrase(code);
                let page = format_response(code, reason.as_str(), &headers, body.as_str(), kind.as_str());
                match name {
                    Some(n) => {
                        let scope = self.scope(uri);
                        let resp = stored_response(code, body.as_str(), headers);
                        self.store(scope.as_str(), n, resp);
                        (page, true)
                    },
                    None => (page, false),
                }
            },
            Reply::Failure { timed_out, error, elapsed } => (
                format_request_error(
                    timed_out,
                    error.as_str(),
                    o.method.as_str(),
                    o.url.as_str(),
                    timeout,
                    timeout_from,
                    elapsed.as_str(),
                ),
                false,
            ),
        }
    }

    /// Stores the response of a named request.
    pub fn store(&mut self, scope: &str, name: &str, resp: StoredResponse)
        ensures
            final(self)@ == with_response(old(self)@, scope@, name@, resp@),
    {
        let ghost before = self.responses@;
        let mut named: Table<StoredResponse> = match self.responses.take(scope) {
            Some(m) => m,
            None => Table::new(),
        };
        let _ = named.insert(name.to_owned(), resp);
        let ghost inner = named@;
        let _ = self.responses.insert(scope.to_owned(), named);
        assert(before.remove(scope@).insert(scope@, inner) =~= before.insert(scope@, inner));
    }
}

/// The request to replace the whole text of the result file.
pub fn apply_result_edit(id: i32, content: &str, create: bool) -> (r: Effect)
    ensures
        r@ == (EffectView::ApplyEdit { id, create, text: content@ }),
{
    Effect::ApplyEdit { id, create, text: content.to_owned() }
}

/// The token of the progress of a request.
pub open spec fn progress_token_text(n: i32) -> Seq<char> {
    if n < 0 {
        "http-request--"@ + decimal((-n) as nat)
    } else {
        "http-request-"@ + decimal(n as nat)
    }
}

/// The token of the progress of a request.
pub fn progress_token(n: i32) -> (r: String)
    ensures
        r@ == progress_token_text(n),
{
    if n < 0 {
        let mut r = "http-request--".to_owned();
        r.append(write_number((-(n as i64)) as u128, 10).as_str());
        r
    } else {
        let mut r = "http-request-".to_owned();
        r.append(write_number(n as u128, 10).as_str());
        r
    }
}

/// How many edits some effects ask for.
pub open spec fn edits_in(effects: Seq<EffectView>) -> nat
    decreases effects.len(),
{
    if effects.len() == 0 {
        0
    } else {
        edits_in(effects.drop_last()) + if effects.last() is ApplyEdit {
            1nat
        } else {
            0nat
        }
    }
}

/// A delivery asks for an edit only to create the tab or to reach an unsaved buffer,
/// and then for one; it creates the file only to open the tab. What it writes or
/// sends is the whole result.
pub proof fn law_effects_carry_the_result(d: Delivery, id: i32, content: Seq<char>)
    ensures
        edits_in(effects_of(d, true, id, content)) == (if d == Delivery::Open || d == Delivery::Edit {
            1nat
        } else {
            0nat
        }),
        forall|i: int|
            0 <= i < effects_of(d, true, id, content).len() ==> match #[trigger] effects_of(d, true, id, content)[i] {
                EffectView::ApplyEdit { create, text, .. } => text == content && create == (d == Delivery::Open),
                EffectView::WriteResult(text) => text == content,
                _ => true,
            },
{
    reveal_with_fuel(edits_in, 3);
    let es = effects_of(d, true, id, content);
    if es.len() == 2 {
        assert(es.drop_last().drop_last() =~= seq![]);
    }
    if es.len() == 1 {
        assert(es.drop_last() =~= seq![]);
    }
}

/// A document that comes back within the grace period keeps its responses, whether
/// it is opened again or only asks for its lenses.
pub proof fn law_reopening_keeps_the_responses(s: SessionView, uri: Seq<char>, text: Seq<char>)
    requires
        uri != s.result_uri,
    ensures
        ({
            let c = closed(s, uri);
            let back = opened(c, uri, text);
            let asking = SessionView { closing: c.closing.remove(uri), ..c };
            &&& grace_over(back, uri, s.ticket) == back
            &&& grace_over(asking, uri, s.ticket) == asking
            &&& back.responses == s.responses
            &&& asking.responses == s.responses
            &&& !flushed(back).closing.contains_key(uri)
        }),
{
}

/// A document that is closed twice waits out the grace period of its last closing.
pub proof fn law_last_closing_counts(s: SessionView, uri: Seq<char>, text: Seq<char>)
    requires
        uri != s.result_uri,
    ensures
        ({
            let again = closed(opened(closed(s, uri), uri, text), uri);
            grace_over(again, uri, s.ticket) == again
        }),
{
}

/// When the grace period is over, the responses of the environment are cleared, and
/// no others.
pub proof fn law_closing_clears_the_environment(s: SessionView, uri: Seq<char>)
    requires
        uri != s.result_uri,
        !shared(s, uri),
    ensures
        grace_over(closed(s, uri), uri, s.ticket).responses == s.responses.remove(scope_of(uri, s.root)),
{
    let c = closed(s, uri);
    let t = SessionView { closing: c.closing.remove(uri), ..c };
    if shared(t, uri) {
        let other = choose|other: Seq<char>|
            #[trigger] t.docs.contains_key(other) && other != uri && scope_of(other, t.root) == scope_of(uri, t.root);
        assert(s.docs.contains_key(other));
    }
}

/// While another open document has the environment, closing a document clears
/// nothing.
pub proof fn law_neighbour_keeps_the_responses(s: SessionView, uri: Seq<char>)
    requires
        uri != s.result_uri,
        shared(s, uri),
    ensures
        grace_over(closed(s, uri), uri, s.ticket).responses == s.responses,
{
    let c = closed(s, uri);
    let t = SessionView { closing: c.closing.remove(uri), ..c };
    let other = choose|other: Seq<char>|
        #[trigger] s.docs.contains_key(other) && other != uri && scope_of(other, s.root) == scope_of(uri, s.root);
    assert(t.docs.contains_key(other));
}

/// A server that stops without a document being closed clears nothing.
pub proof fn law_restart_keeps_the_responses(s: SessionView)
    requires
        s.closing == Map::<Seq<char>, u64>::empty(),
    ensures
        flushed(s) == s,
{
    assert(flushed(s).responses =~= s.responses);
}

/// A server that stops right after a document was closed clears what the end of the
/// grace period would have cleared.
pub proof fn law_stopping_ends_the_grace_period(s: SessionView, uri: Seq<char>)
    requires
        uri != s.result_uri,
        s.closing == Map::<Seq<char>, u64>::empty(),
    ensures
        flushed(closed(s, uri)).responses == grace_over(closed(s, uri), uri, s.ticket).responses,
{
    let c = closed(s, uri);
    let t = SessionView { closing: c.closing.remove(uri), ..c };
    lemma_same_documents(c, t, uri);
    assert(c.closing.contains_key(uri));
    assert forall|scope: Seq<char>| discarded(c, scope) <==> (!shared(c, uri) && scope_of(uri, c.root) == scope) by {
        if !shared(c, uri) && scope_of(uri, c.root) == scope {
            assert(c.closing.contains_key(uri));
        }
    }
    assert(flushed(c).responses =~= grace_over(c, uri, s.ticket).responses);
}

/// A stored response is found under its environment and name, and no other response
/// is touched, in this environment or in another one.
pub proof fn law_stored_response_is_found(
    s: SessionView,
    scope: Seq<char>,
    name: Seq<char>,
    resp: ResponseView,
    other_scope: Seq<char>,
    other_name: Seq<char>,
)
    ensures
        lookup(responses_of(with_response(s, scope, name, resp), scope), name) == Some(resp),
        other_scope != scope ==> responses_of(with_response(s, scope, name, resp), other_scope) == responses_of(
            s,
            other_scope,
        ),
        other_name != name ==> lookup(responses_of(with_response(s, scope, name, resp), scope), other_name) == lookup(
            responses_of(s, scope),
            other_name,
        ),
{
}

/// The response of a named request can be chained off by every document of its
/// folder, whichever of them sent the request; documents of other folders see what
/// they saw before.
pub proof fn law_responses_are_chained_within_a_folder(
    s: SessionView,
    sender: Seq<char>,
    reader: Seq<char>,
    name: Seq<char>,
    reply: Reply,
    parsed: Option<JsonView>,
    vars: Map<Seq<char>, Seq<char>>,
    dotenv: Map<Seq<char>, Seq<char>>,
)
    requires
        is_chain_name(name),
        reply is Answer,
        uri_folder(sender) is Some,
        uri_folder(reader) is Some,
    ensures
        ({
            let t = concluded(s, sender, Some(name), reply, parsed);
            if uri_folder(sender) == uri_folder(reader) {
                token_value(name + seq!['.'] + "response.status"@, env_of(t, reader, vars, dotenv)) == Some(
                    decimal(reply->code as nat),
                )
            } else {
                env_of(t, reader, vars, dotenv) == env_of(s, reader, vars, dotenv)
            }
        }),
{
    let t = concluded(s, sender, Some(name), reply, parsed);
    law_environment_is_the_folder(sender, reader, s.root);
    if uri_folder(sender) == uri_folder(reader) {
        law_chained_status(name, env_of(t, reader, vars, dotenv));
    }
}

/// A request that failed stores nothing.
pub proof fn law_failures_store_nothing(
    s: SessionView,
    uri: Seq<char>,
    name: Option<Seq<char>>,
    reply: Reply,
    parsed: Option<JsonView>,
)
    requires
        reply is Failure || name is None,
    ensures
        concluded(s, uri, name, reply, parsed) == s,
{
}

/// The document and the line of the request that a click means.
pub open spec fn place_of(c: ClickView, text: Seq<char>) -> Option<(Seq<char>, u32)> {
    match clicked(c, text) {
        Some((i, _)) => Some((c.uri, request_in(text, i).line)),
        None => None,
    }
}

/// Whether a click starts a request.
pub open spec fn starts(s: SessionView, c: ClickView, text: Seq<char>) -> bool {
    place_of(c, text) matches Some(place) && !s.inflight.contains(place)
}

/// The state after a click that means a request.
pub open spec fn after_click(s: SessionView, c: ClickView, text: Seq<char>) -> SessionView {
    match place_of(c, text) {
        Some(place) => SessionView { inflight: s.inflight.insert(place), ..s },
        None => s,
    }
}

/// The state after a request has ended.
pub open spec fn finished(s: SessionView, place: (Seq<char>, u32)) -> SessionView {
    SessionView { inflight: s.inflight.remove(place), ..s }
}

/// One request at a time for each line: while it runs, no click starts another one
/// on that line; when it has ended, a click does again. Other lines are not held up.
pub proof fn law_one_request_for_each_line(
    s: SessionView,
    c: ClickView,
    text: Seq<char>,
    other: ClickView,
    other_text: Seq<char>,
)
    requires
        starts(s, c, text),
        place_of(other, other_text) is Some,
    ensures
        ({
            let running = after_click(s, c, text);
            let ended = finished(running, place_of(c, text)->0);
            if place_of(other, other_text) == place_of(c, text) {
                !starts(running, other, other_text) && starts(ended, other, other_text)
            } else {
                starts(running, other, other_text) == starts(s, other, other_text)
            }
        }),
{
}

/// Edits that leave the line and the name of every request alone, such as typing in
/// a body, do not refresh the lenses.
pub proof fn law_typing_in_a_body_refreshes_nothing(s: SessionView, uri: Seq<char>, before: Seq<char>, now: Seq<char>)
    requires
        s.signatures.contains_key(uri),
        s.signatures[uri] == signature(before),
        document(before).requests.len() == document(now).requests.len(),
        forall|i: int|
            0 <= i < document(before).requests.len() ==> {
                &&& (#[trigger] document(before).requests[i]).line == document(now).requests[i].line
                &&& document(before).requests[i].name == document(now).requests[i].name
            },
    ensures
        !touches_lenses(s, uri, now),
{
    law_signature_is_lines_and_names(before, now);
}

/// Whether signatures are those of some documents.
pub open spec fn signatures_of(docs: Map<Seq<char>, Seq<char>>, signatures: Map<Seq<char>, u64>) -> bool {
    forall|uri: Seq<char>|
        #![trigger docs.contains_key(uri)]
        #![trigger signatures.contains_key(uri)]
        (docs.contains_key(uri) <==> signatures.contains_key(uri)) && (docs.contains_key(uri) ==> signatures[uri]
            == signature(docs[uri]))
}

/// Opening, changing and closing documents keep the signatures those of the open
/// documents.
pub proof fn law_signatures_follow_the_documents(s: SessionView, uri: Seq<char>, text: Seq<char>)
    requires
        signatures_of(s.docs, s.signatures),
    ensures
        signatures_of(opened(s, uri, text).docs, opened(s, uri, text).signatures),
        signatures_of(changed(s, uri, text).docs, changed(s, uri, text).signatures),
        signatures_of(closed(s, uri).docs, closed(s, uri).signatures),
{
}

}
