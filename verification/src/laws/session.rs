//! What the server remembers: texts, running requests, responses, and the result tab.

use vstd::prelude::*;

verus! {

use crate::click::ClickView;
use crate::document::{document, pairs};
use crate::json::{field, JsonView};
use crate::lens::{meant, signature};
use crate::paths::scope_of;
use crate::result_tab::{accepted, delivered, delivery, refused, tab_step, timed_out, Delivery, TabEvent, TabView};
use crate::session::{
    after, after_click, asks, changed, changed_in, clicked, closed, closed_in, concluded, discarded, effects_of,
    env_of, finished, flushed, grace_over, opened, opened_in, parsed_uri, progress_token_text, refuses, request_in,
    root_in, shared, starts, support_in, text_in, touches_lenses, usable_uri, EffectView, Reply, SessionView,
};
use crate::vars::ResponseView;
use vstd::utf8::encode_utf8;

/// Everything that the server remembers apart from the texts, the signatures, the
/// closings and the result tab.
pub open spec fn same_otherwise(a: SessionView, b: SessionView) -> bool {
    &&& a.responses == b.responses
    &&& a.inflight == b.inflight
    &&& a.root == b.root
    &&& a.result_uri == b.result_uri
    &&& a.reachable == b.reachable
    &&& a.number == b.number
}

/// The text of a document is the one that the editor sent last, by opening or by
/// changing it, whatever the document held before and whatever its signature was; the
/// text on disk counts only where the editor sent none. The texts of other documents
/// stay as they are.
pub proof fn law_texts_follow_the_editor(
    s: SessionView,
    uri: Seq<char>,
    text: Seq<char>,
    other: Seq<char>,
    disk: Option<Seq<char>>,
)
    ensures
        text_in(changed(s, uri, text), uri, disk) == Some(text),
        text_in(opened(s, uri, text), uri, disk) == Some(text),
        text_in(closed(s, uri), uri, disk) == disk,
        other != uri ==> text_in(changed(s, uri, text), other, disk) == text_in(s, other, disk),
        other != uri ==> text_in(opened(s, uri, text), other, disk) == text_in(s, other, disk),
        other != uri ==> text_in(closed(s, uri), other, disk) == text_in(s, other, disk),
        s.docs.contains_key(uri) ==> text_in(s, uri, disk) == Some(s.docs[uri]),
        !s.docs.contains_key(uri) ==> text_in(s, uri, disk) == disk,
        changed(s, uri, text).docs == s.docs.insert(uri, text),
        opened(s, uri, text).docs == s.docs.insert(uri, text),
        closed(s, uri).docs == s.docs.remove(uri),
{
}

/// The last of several edits is the one that counts, and an edit after the opening is
/// not lost.
pub proof fn law_last_edit_counts(
    s: SessionView,
    uri: Seq<char>,
    first: Seq<char>,
    second: Seq<char>,
    disk: Option<Seq<char>>,
)
    ensures
        text_in(changed(changed(s, uri, first), uri, second), uri, disk) == Some(second),
        text_in(changed(opened(s, uri, first), uri, second), uri, disk) == Some(second),
        text_in(opened(closed(opened(s, uri, first), uri), uri, second), uri, disk) == Some(second),
{
}

/// Messages about documents change nothing else: no response, no running request, and
/// of the closings only those of the document.
pub proof fn law_documents_leave_the_rest_alone(s: SessionView, uri: Seq<char>, text: Seq<char>, other: Seq<char>)
    ensures
        same_otherwise(changed(s, uri, text), s),
        changed(s, uri, text).tab == s.tab,
        changed(s, uri, text).closing == s.closing,
        changed(s, uri, text).ticket == s.ticket,
        same_otherwise(opened(s, uri, text), s),
        opened(s, uri, text).closing == s.closing.remove(uri),
        opened(s, uri, text).ticket == s.ticket,
        uri != s.result_uri ==> opened(s, uri, text).tab == s.tab,
        same_otherwise(closed(s, uri), s),
        uri != s.result_uri ==> closed(s, uri).tab == s.tab && closed(s, uri).closing == s.closing.insert(uri, s.ticket)
            && closed(s, uri).ticket != s.ticket,
        uri == s.result_uri ==> closed(s, uri).closing == s.closing && closed(s, uri).ticket == s.ticket,
        other != uri ==> (changed(s, uri, text).signatures.contains_key(other) <==> s.signatures.contains_key(other)),
{
}

/// The result tab is open from the opening of the result file to its closing; nothing
/// else is known of it from that.
pub proof fn law_result_file_is_watched(s: SessionView, text: Seq<char>)
    ensures
        opened(s, s.result_uri, text).tab == (TabView { open: true, ..s.tab }),
        closed(s, s.result_uri).tab == (TabView { open: false, ..s.tab }),
        closed(opened(s, s.result_uri, text), s.result_uri).tab.open == false,
{
}

/// What an opening says: a URI and a text, both of the document.
pub proof fn law_opening_is_read(params: JsonView, doc: JsonView, uri: Seq<char>, text: Seq<char>)
    requires
        field(params, "textDocument"@) == Some(doc),
        field(doc, "uri"@) == Some(JsonView::Text(uri)),
    ensures
        field(doc, "text"@) == Some(JsonView::Text(text)) ==> opened_in(params) == Some((uri, text)),
        field(doc, "text"@) is None ==> opened_in(params) is None,
        closed_in(params) == Some(uri),
{
}

/// What a change says: the whole new text, which is that of the last of its changes.
pub proof fn law_change_is_read(
    params: JsonView,
    doc: JsonView,
    items: Seq<JsonView>,
    layout: Seq<char>,
    uri: Seq<char>,
    text: Seq<char>,
)
    requires
        field(params, "textDocument"@) == Some(doc),
        field(params, "contentChanges"@) == Some(JsonView::Array { items, text: layout }),
        field(doc, "uri"@) == Some(JsonView::Text(uri)),
    ensures
        items.len() > 0 && field(items[items.len() - 1], "text"@) == Some(JsonView::Text(text)) ==> changed_in(params)
            == Some((uri, text)),
        items.len() == 0 ==> changed_in(params) is None,
        items.len() > 0 && field(items[items.len() - 1], "text"@) is None ==> changed_in(params) is None,
{
}

/// Messages that do not name a document are not sound.
pub proof fn law_unsound_messages(params: JsonView)
    requires
        field(params, "textDocument"@) is None,
    ensures
        opened_in(params) is None,
        changed_in(params) is None,
        closed_in(params) is None,
{
}

/// The root of the workspace is the path that the editor gives or, failing that, the
/// path of the URI that it gives.
pub proof fn law_root_is_read(init: JsonView, path: Seq<char>)
    ensures
        field(init, "rootPath"@) == Some(JsonView::Text(path)) ==> root_in(init) == Some(path),
        field(init, "rootPath"@) is None && field(init, "rootUri"@) == Some(JsonView::Text("file://"@ + path))
            ==> root_in(init) == Some(path),
        field(init, "rootPath"@) == Some(JsonView::Null) && field(init, "rootUri"@) == Some(
            JsonView::Text("file://"@ + path),
        ) ==> root_in(init) == Some(path),
        field(init, "rootPath"@) is None && field(init, "rootUri"@) is None ==> root_in(init) is None,
{
    crate::laws::text::law_prefix(path, "file://"@, path);
}

/// An editor can show documents where it says so under `capabilities`, `window`,
/// `showDocument`, `support`; where one of these is missing, it said nothing.
pub proof fn law_support_is_read(init: JsonView, caps: JsonView, window: JsonView, show: JsonView, yes: bool)
    requires
        field(init, "capabilities"@) == Some(caps),
    ensures
        field(caps, "window"@) == Some(window) && field(window, "showDocument"@) == Some(show) && field(
            show,
            "support"@,
        ) == Some(JsonView::Bool(yes)) ==> support_in(init) == Some(yes),
        field(caps, "window"@) is None ==> support_in(init) is None,
{
}

/// An answer refuses where it is an error or says that it did not succeed; any other
/// one accepts.
pub proof fn law_refusals(answer: JsonView, yes: bool)
    ensures
        refuses(None),
        field(answer, "success"@) == Some(JsonView::Bool(yes)) ==> refuses(Some(answer)) == !yes,
        field(answer, "success"@) is None ==> !refuses(Some(answer)),
{
}

/// The lenses are refreshed exactly where the signature of a document is new, and never
/// for the result; after the change its signature is known, so the same text again
/// refreshes nothing.
pub proof fn law_refreshes(s: SessionView, uri: Seq<char>, text: Seq<char>)
    ensures
        !touches_lenses(s, s.result_uri, text),
        uri != s.result_uri && !s.signatures.contains_key(uri) ==> touches_lenses(s, uri, text),
        uri != s.result_uri && s.signatures.contains_key(uri) ==> (touches_lenses(s, uri, text) <==> s.signatures[uri]
            != signature(text)),
        !touches_lenses(changed(s, uri, text), uri, text),
        !touches_lenses(opened(s, uri, text), uri, text),
{
}

/// A click means a request by its hints, and starts it unless that request, the one on
/// this line of this document, runs.
pub proof fn law_clicks(s: SessionView, c: ClickView, text: Seq<char>, i: int, how: Seq<char>)
    requires
        meant(document(text).requests, c.line, c.key, c.nth, c.name, c.method) == Some((i, how)),
    ensures
        starts(s, c, text) <==> !s.inflight.contains((c.uri, document(text).requests[i].line)),
        after_click(s, c, text) == (SessionView {
            inflight: s.inflight.insert((c.uri, document(text).requests[i].line)),
            ..s
        }),
        finished(after_click(s, c, text), (c.uri, document(text).requests[i].line)).inflight
            =~= s.inflight.remove((c.uri, document(text).requests[i].line)),
{
}

/// The request that a click means is taken from the document as it stands there.
pub proof fn law_clicked_request(c: ClickView, text: Seq<char>, i: int)
    ensures
        clicked(c, text) == meant(document(text).requests, c.line, c.key, c.nth, c.name, c.method),
        request_in(text, i) == document(text).requests[i],
{
}

/// A click that means no request starts nothing.
pub proof fn law_stray_clicks(s: SessionView, c: ClickView, text: Seq<char>)
    requires
        meant(document(text).requests, c.line, c.key, c.nth, c.name, c.method) is None,
    ensures
        !starts(s, c, text),
        after_click(s, c, text) == s,
{
}

/// Two clicks that mean one request, whatever hints they carry: while the first runs,
/// the second does not start it again. Clicks that mean requests on different lines, or
/// in different documents, do not hold each other up.
pub proof fn law_double_clicks(s: SessionView, a: ClickView, b: ClickView, text: Seq<char>, i: int, j: int)
    requires
        clicked(a, text) matches Some(found) && found.0 == i,
        clicked(b, text) matches Some(found) && found.0 == j,
        starts(s, a, text),
        starts(s, b, text),
    ensures
        starts(after_click(s, a, text), b, text) <==> a.uri != b.uri || document(text).requests[i].line != document(
            text,
        ).requests[j].line,
        starts(finished(after_click(s, a, text), (a.uri, document(text).requests[i].line)), b, text),
{
}

/// Whether another open document keeps its responses in the same environment.
pub open spec fn has_neighbour(s: SessionView, uri: Seq<char>) -> bool {
    exists|other: Seq<char>|
        #[trigger] s.docs.dom().contains(other) && other != uri && scope_of(other, s.root) == scope_of(uri, s.root)
}

proof fn lemma_neighbour(s: SessionView, uri: Seq<char>)
    ensures
        shared(s, uri) <==> has_neighbour(s, uri),
{
    if shared(s, uri) {
        let other = choose|other: Seq<char>|
            #[trigger] s.docs.contains_key(other) && other != uri && scope_of(other, s.root) == scope_of(uri, s.root);
        assert(s.docs.dom().contains(other));
    }
    if has_neighbour(s, uri) {
        let other = choose|other: Seq<char>|
            #[trigger] s.docs.dom().contains(other) && other != uri && scope_of(other, s.root) == scope_of(
                uri,
                s.root,
            );
        assert(s.docs.contains_key(other));
    }
}

/// The end of the grace period, in the state in which it comes: the responses of the
/// environment go only where this closing is the last word on the document, the document
/// is not open, and no open document has the same environment. Responses of other
/// environments stay, and so does everything else.
pub proof fn law_grace_period(s: SessionView, uri: Seq<char>, ticket: u64)
    ensures
        ({
            let t = grace_over(s, uri, ticket);
            let over = s.closing.contains_key(uri) && s.closing[uri] == ticket;
            &&& over && !s.docs.contains_key(uri) && !has_neighbour(s, uri) ==> t.responses == s.responses.remove(
                scope_of(uri, s.root),
            )
            &&& !over || s.docs.contains_key(uri) || has_neighbour(s, uri) ==> t.responses == s.responses
            &&& t.closing == (if over {
                s.closing.remove(uri)
            } else {
                s.closing
            })
            &&& t.docs == s.docs && t.inflight == s.inflight && t.tab == s.tab && t.signatures == s.signatures
                && t.root == s.root && t.ticket == s.ticket && t.number == s.number
        }),
{
    let t = SessionView { closing: s.closing.remove(uri), ..s };
    lemma_neighbour(t, uri);
    lemma_neighbour(s, uri);
    if has_neighbour(s, uri) {
        let other = choose|other: Seq<char>|
            #[trigger] s.docs.dom().contains(other) && other != uri && scope_of(other, s.root) == scope_of(
                uri,
                s.root,
            );
        assert(t.docs.dom().contains(other));
    }
    if has_neighbour(t, uri) {
        let other = choose|other: Seq<char>|
            #[trigger] t.docs.dom().contains(other) && other != uri && scope_of(other, t.root) == scope_of(
                uri,
                t.root,
            );
        assert(s.docs.dom().contains(other));
    }
}

/// A server that stops clears the environments of the documents that were closed, except
/// those that another open document has; every other response stays as it is, and
/// nothing waits any longer.
pub proof fn law_stopping(s: SessionView, scope: Seq<char>)
    ensures
        ({
            let t = flushed(s);
            let gone = exists|uri: Seq<char>|
                #[trigger] s.closing.dom().contains(uri) && !has_neighbour(s, uri) && scope_of(uri, s.root) == scope;
            &&& gone ==> !t.responses.contains_key(scope)
            &&& !gone ==> (t.responses.contains_key(scope) <==> s.responses.contains_key(scope))
            &&& !gone && s.responses.contains_key(scope) ==> t.responses[scope] == s.responses[scope]
            &&& t.closing == Map::<Seq<char>, u64>::empty()
            &&& t.docs == s.docs && t.inflight == s.inflight && t.tab == s.tab
        }),
{
    if discarded(s, scope) {
        let uri = choose|uri: Seq<char>|
            #[trigger] s.closing.contains_key(uri) && !shared(s, uri) && scope_of(uri, s.root) == scope;
        lemma_neighbour(s, uri);
        assert(s.closing.dom().contains(uri));
    }
    if exists|uri: Seq<char>|
        #[trigger] s.closing.dom().contains(uri) && !has_neighbour(s, uri) && scope_of(uri, s.root) == scope {
        let uri = choose|uri: Seq<char>|
            #[trigger] s.closing.dom().contains(uri) && !has_neighbour(s, uri) && scope_of(uri, s.root) == scope;
        lemma_neighbour(s, uri);
        assert(s.closing.contains_key(uri));
    }
}

/// The response of a named request is kept whole, under its name and in the environment
/// of its document: the status, all headers, and the body, as JSON where it is JSON and
/// as it came where it is not. A later response of that name takes its place. All other
/// responses stay.
pub proof fn law_response_is_kept(
    s: SessionView,
    uri: Seq<char>,
    name: Seq<char>,
    reply: Reply,
    parsed: Option<JsonView>,
    other_scope: Seq<char>,
    other_name: Seq<char>,
)
    requires
        reply is Answer,
    ensures
        ({
            let t = concluded(s, uri, Some(name), reply, parsed);
            let scope = scope_of(uri, s.root);
            &&& t.responses.contains_key(scope) && t.responses[scope].contains_key(name)
            &&& t.responses[scope][name].status == reply->code
            &&& t.responses[scope][name].headers == pairs(reply->headers@)
            &&& parsed matches Some(v) ==> t.responses[scope][name].body == v
            &&& parsed is None ==> t.responses[scope][name].body == JsonView::Text(reply->body@)
            &&& other_scope != scope ==> (t.responses.contains_key(other_scope) <==> s.responses.contains_key(other_scope))
                && t.responses[other_scope] == s.responses[other_scope]
            &&& other_name != name && s.responses.contains_key(scope) ==> (t.responses[scope].contains_key(other_name)
                <==> s.responses[scope].contains_key(other_name)) && t.responses[scope][other_name]
                == s.responses[scope][other_name]
            &&& !s.responses.contains_key(scope) && other_name != name ==> !t.responses[scope].contains_key(other_name)
            &&& t.docs == s.docs && t.inflight == s.inflight && t.tab == s.tab && t.closing == s.closing
                && t.signatures == s.signatures && t.number == s.number
        }),
{
}

/// What a document can refer to: the variables of its file, the `.env` entries, and the
/// responses of its own environment.
pub proof fn law_what_a_document_sees(
    s: SessionView,
    uri: Seq<char>,
    vars: Map<Seq<char>, Seq<char>>,
    dotenv: Map<Seq<char>, Seq<char>>,
)
    ensures
        env_of(s, uri, vars, dotenv).vars == vars,
        env_of(s, uri, vars, dotenv).dotenv == dotenv,
        s.responses.contains_key(scope_of(uri, s.root)) ==> env_of(s, uri, vars, dotenv).responses
            == s.responses[scope_of(uri, s.root)],
        !s.responses.contains_key(scope_of(uri, s.root)) ==> env_of(s, uri, vars, dotenv).responses == Map::<
            Seq<char>,
            ResponseView,
        >::empty(),
{
}

/// A result reaches the file or the editor whole, and in order: the file is written
/// before the editor is asked to show it, and removed before an edit creates it anew. An
/// editor that cannot be reached is asked nothing; what happens to the file happens all
/// the same.
pub proof fn law_effects(id: i32, content: Seq<char>, reachable: bool)
    ensures
        effects_of(Delivery::Hold, reachable, id, content).len() == 0,
        effects_of(Delivery::Write, reachable, id, content) == seq![EffectView::WriteResult(content)],
        effects_of(Delivery::Show, reachable, id, content)[0] == EffectView::WriteResult(content),
        reachable ==> effects_of(Delivery::Show, reachable, id, content) == seq![
            EffectView::WriteResult(content),
            EffectView::ShowDocument(id),
        ],
        effects_of(Delivery::Open, reachable, id, content)[0] == EffectView::RemoveResult,
        reachable ==> effects_of(Delivery::Open, reachable, id, content) == seq![
            EffectView::RemoveResult,
            EffectView::ApplyEdit { id, create: true, text: content },
        ],
        reachable ==> effects_of(Delivery::Edit, reachable, id, content) == seq![
            EffectView::ApplyEdit { id, create: false, text: content },
        ],
        !reachable ==> effects_of(Delivery::Show, reachable, id, content) == seq![EffectView::WriteResult(content)],
        !reachable ==> effects_of(Delivery::Open, reachable, id, content) == seq![EffectView::RemoveResult],
        !reachable ==> effects_of(Delivery::Edit, reachable, id, content).len() == 0,
{
}

/// A number is taken for each question to the editor, and for nothing else.
pub proof fn law_questions_take_numbers(d: Delivery, reachable: bool, id: i32, content: Seq<char>)
    ensures
        asks(d, reachable) <==> exists|i: int|
            0 <= i < effects_of(d, reachable, id, content).len() && (#[trigger] effects_of(
                d,
                reachable,
                id,
                content,
            )[i] is ShowDocument || effects_of(d, reachable, id, content)[i] is ApplyEdit),
        after(id) != id,
        id < i32::MAX ==> after(id) == id + 1,
        after(i32::MAX) == i32::MIN,
{
    let es = effects_of(d, reachable, id, content);
    if asks(d, reachable) {
        let last = es.len() - 1;
        assert(es[last] is ShowDocument || es[last] is ApplyEdit);
    }
}

/// How a result reaches an editor that is asked to show documents, and one that is not.
/// One that said nothing is asked; one that refused is not.
pub proof fn law_deliveries(t: TabView, running: bool)
    ensures
        t.support != Some(false) && !t.failed ==> delivery(t, running) == (if t.open {
            Delivery::Write
        } else {
            Delivery::Show
        }),
        (t.support == Some(false) || t.failed) && !t.open ==> delivery(t, running) == (if running {
            Delivery::Hold
        } else {
            Delivery::Open
        }),
        (t.support == Some(false) || t.failed) && t.open ==> delivery(t, running) == (if t.dirty {
            Delivery::Edit
        } else {
            Delivery::Write
        }),
{
}

/// A tab that an edit has created holds an unsaved buffer: the next result is edited
/// into it, and those after that are written to the file.
pub proof fn law_created_tab_is_edited_once(t: TabView, ids: Seq<Option<i32>>, running: bool, again: bool)
    requires
        t.support == Some(false) || t.failed,
        !t.open,
        ids.len() == 3,
    ensures
        ({
            let (t1, d1) = tab_step(t, TabEvent::Published { running: false, asked: ids[0] });
            let (t2, d2) = tab_step(t1, TabEvent::Published { running, asked: ids[1] });
            let (t3, d3) = tab_step(t2, TabEvent::Published { running: again, asked: ids[2] });
            d1 == Delivery::Open && d2 == Delivery::Edit && d3 == Delivery::Write && t3.open && !t3.dirty
        }),
{
}

/// What a publication changes of the tab: what was published last; the question that
/// now waits; after a creation, that the tab is open with an unsaved buffer; after an
/// edit, that the buffer is saved.
pub proof fn law_publications(t: TabView, running: bool, id: i32)
    ensures
        ({
            let d = delivery(t, running);
            let u = delivered(t, d, running, Some(id));
            &&& u.running == running && u.support == t.support && u.failed == t.failed
            &&& u.pending == (if d == Delivery::Show {
                t.pending.insert(id)
            } else {
                t.pending
            })
            &&& u.open == (t.open || d == Delivery::Open)
            &&& u.dirty == (d == Delivery::Open || (t.dirty && d != Delivery::Edit))
            &&& delivered(t, d, running, None).pending == t.pending
        }),
{
}

/// Answers settle the question they belong to and no other. An answer that nobody waits
/// for changes nothing and delivers nothing.
pub proof fn law_answers(t: TabView, id: i32)
    ensures
        accepted(t, id) == (TabView { pending: t.pending.remove(id), ..t }),
        refused(t, id).0.pending =~= t.pending.remove(id),
        timed_out(t, id).0.pending =~= t.pending.remove(id),
        !t.pending.contains(id) ==> refused(t, id) == (t, Delivery::Hold) && timed_out(t, id) == (t, Delivery::Hold),
        t.pending.contains(id) ==> refused(t, id).0.failed,
        t.pending.contains(id) && !t.open ==> timed_out(t, id) == refused(t, id),
        t.pending.contains(id) && t.open ==> timed_out(t, id) == (accepted(t, id), Delivery::Hold),
        t.pending.contains(id) && t.open ==> refused(t, id).1 == (if t.dirty {
            Delivery::Hold
        } else {
            Delivery::Write
        }) && refused(t, id).0.open && refused(t, id).0.dirty == t.dirty,
        t.pending.contains(id) && !t.open && t.running ==> refused(t, id).1 == Delivery::Hold && !refused(t, id).0.open,
        t.pending.contains(id) && !t.open && !t.running ==> refused(t, id).1 == Delivery::Open && refused(
            t,
            id,
        ).0.open && refused(t, id).0.dirty,
        refused(t, id).0.running == t.running,
        refused(t, id).0.support == t.support,
{
}

/// A text can be sent as a URI where it parses as one; texts that are too long for the
/// parser cannot.
pub proof fn law_usable_uris(text: Seq<char>)
    ensures
        usable_uri(text) <==> encode_utf8(text).len() < 0x8000_0000 && parsed_uri(text),
{
}

/// Progress is told apart by number.
pub proof fn law_progress_tokens(a: i32, b: i32)
    ensures
        a >= 0 ==> progress_token_text(a) == "http-request-"@ + crate::digits::decimal(a as nat),
        a < 0 ==> progress_token_text(a) == "http-request-"@ + "-"@ + crate::digits::decimal((-a) as nat),
{
    reveal_strlit("http-request-");
    reveal_strlit("http-request--");
    reveal_strlit("-");
    assert("http-request--"@ =~= "http-request-"@ + "-"@);
}

}
