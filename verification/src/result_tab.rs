//! The result tab: how a result reaches the editor, and what is known of the tab.
//!
//! The preferred way is to write the file and ask the editor to show it. An editor
//! that refuses, or does not answer, gets the result through an edit that creates
//! the file, which is what makes it open a tab.

use vstd::prelude::*;

verus! {

/// Numbers of requests that wait for an answer. None occurs twice.
pub struct Pending {
    ids: Vec<i32>,
}

impl View for Pending {
    type V = Set<i32>;

    closed spec fn view(&self) -> Set<i32> {
        self.ids@.to_set()
    }
}

impl Pending {
    #[verifier::type_invariant]
    spec fn distinct(self) -> bool {
        self.ids@.no_duplicates()
    }

    /// No requests.
    pub fn new() -> (r: Self)
        ensures
            r@ == Set::<i32>::empty(),
    {
        let r = Pending { ids: Vec::new() };
        assert(r@ =~= Set::<i32>::empty());
        r
    }

    fn place(&self, id: i32) -> (r: Option<usize>)
        ensures
            match r {
                Some(i) => i < self.ids@.len() && self.ids@[i as int] == id,
                None => !self@.contains(id),
            },
    {
        let mut i: usize = 0;
        while i < self.ids.len()
            invariant
                i <= self.ids@.len(),
                forall|j: int| 0 <= j < i ==> self.ids@[j] != id,
            decreases self.ids@.len() - i,
        {
            if self.ids[i] == id {
                return Some(i);
            }
            i = i + 1;
        }
        None
    }

    /// Whether a request is among them.
    pub fn has(&self, id: i32) -> (r: bool)
        ensures
            r == self@.contains(id),
    {
        match self.place(id) {
            Some(i) => {
                assert(self.ids@.contains(self.ids@[i as int]));
                true
            },
            None => false,
        }
    }

    /// Adds a request.
    pub fn add(&mut self, id: i32)
        ensures
            final(self)@ == old(self)@.insert(id),
    {
        proof {
            use_type_invariant(&*self);
        }
        match self.place(id) {
            Some(i) => {
                assert(self.ids@.contains(self.ids@[i as int]));
                assert(self@.insert(id) =~= self@);
            },
            None => {
                let ghost before = self.ids@;
                let mut ids: Vec<i32> = Vec::new();
                std::mem::swap(&mut ids, &mut self.ids);
                ids.push(id);
                assert(ids@.to_set() =~= before.to_set().insert(id)) by {
                    assert forall|x: i32| ids@.contains(x) <==> (before.contains(x) || x == id) by {
                        if before.contains(x) {
                            let k = choose|k: int| 0 <= k < before.len() && before[k] == x;
                            assert(ids@[k] == x);
                        }
                        assert(ids@[before.len() as int] == id);
                    }
                }
                assert(ids@.no_duplicates());
                self.ids = ids;
            },
        }
    }

    /// Takes a request out. Tells whether it was there.
    pub fn remove(&mut self, id: i32) -> (r: bool)
        ensures
            r == old(self)@.contains(id),
            final(self)@ == old(self)@.remove(id),
    {
        proof {
            use_type_invariant(&*self);
        }
        match self.place(id) {
            Some(i) => {
                let ghost before = self.ids@;
                assert(before.contains(before[i as int]));
                let mut ids: Vec<i32> = Vec::new();
                std::mem::swap(&mut ids, &mut self.ids);
                let _ = ids.remove(i);
                assert forall|x: i32| ids@.contains(x) <==> (before.contains(x) && x != id) by {
                    if ids@.contains(x) {
                        let k = choose|k: int| 0 <= k < ids@.len() && ids@[k] == x;
                        let m: int = if k < i { k } else { k + 1 };
                        assert(before[m] == x);
                        assert(before[i as int] != before[m]);
                    }
                    if before.contains(x) && x != id {
                        let m = choose|m: int| 0 <= m < before.len() && before[m] == x;
                        let k: int = if m < i { m } else { m - 1 };
                        assert(ids@[k] == x);
                    }
                }
                assert(ids@.to_set() =~= before.to_set().remove(id));
                assert forall|a: int, b: int| 0 <= a < b < ids@.len() implies ids@[a] != ids@[b] by {
                    let x: int = if a < i { a } else { a + 1 };
                    let y: int = if b < i { b } else { b + 1 };
                    assert(before[x] != before[y]);
                }
                assert(ids@.no_duplicates());
                self.ids = ids;
                true
            },
            None => {
                assert(self@.remove(id) =~= self@);
                false
            },
        }
    }
}

/// What is known of the result tab.
pub struct ResultTab {
    /// What the editor said about showing documents; `None` where it said nothing.
    pub support: Option<bool>,
    /// Whether the editor refused to show a document, or did not answer.
    pub failed: bool,
    /// The requests to show the document that wait for an answer.
    pub pending: Pending,
    /// Whether the editor has the file open.
    pub open: bool,
    /// Whether the buffer may be unsaved because an edit has just created it.
    pub dirty: bool,
    /// Whether the result that was published last only says that a request runs.
    pub running: bool,
}

/// A result tab in mathematical terms.
pub struct TabView {
    pub support: Option<bool>,
    pub failed: bool,
    pub pending: Set<i32>,
    pub open: bool,
    pub dirty: bool,
    pub running: bool,
}

impl View for ResultTab {
    type V = TabView;

    open spec fn view(&self) -> TabView {
        TabView {
            support: self.support,
            failed: self.failed,
            pending: self.pending@,
            open: self.open,
            dirty: self.dirty,
            running: self.running,
        }
    }
}

/// How a result is delivered.
#[derive(Clone, Copy, PartialEq, Eq, Structural)]
pub enum Delivery {
    /// Not at all: the result of the running request will be.
    Hold,
    /// By writing the file.
    Write,
    /// By writing the file and asking the editor to show it.
    Show,
    /// By an edit that creates the file, so that the editor opens a tab.
    Open,
    /// By an edit of the open buffer.
    Edit,
}

/// Whether the editor is asked to show the document. One that said nothing is
/// asked too.
pub open spec fn shows(t: TabView) -> bool {
    !t.failed && t.support != Some(false)
}

/// How a result is delivered. `running` says that it only tells that a request
/// runs. Creating the file is not idempotent, so it is left to the result of the
/// request.
pub open spec fn delivery(t: TabView, running: bool) -> Delivery {
    if shows(t) {
        if t.open {
            Delivery::Write
        } else {
            Delivery::Show
        }
    } else if !t.open {
        if running {
            Delivery::Hold
        } else {
            Delivery::Open
        }
    } else if t.dirty {
        Delivery::Edit
    } else {
        Delivery::Write
    }
}

/// The tab after a delivery. `asked` is the number of the request to show the
/// document, where one could be made.
pub open spec fn delivered(t: TabView, d: Delivery, running: bool, asked: Option<i32>) -> TabView {
    let t = TabView { running, ..t };
    match d {
        Delivery::Hold | Delivery::Write => t,
        Delivery::Show => match asked {
            Some(id) => TabView { pending: t.pending.insert(id), ..t },
            None => t,
        },
        Delivery::Open => TabView { open: true, dirty: true, ..t },
        Delivery::Edit => TabView { dirty: false, ..t },
    }
}

/// The tab after the editor refused a request to show the document, and how the
/// result is delivered then: by creating the file, unless the request still runs.
/// Where the tab is open by now, the file is written again; a buffer that an edit
/// has just created holds the result already.
pub open spec fn refused(t: TabView, id: i32) -> (TabView, Delivery) {
    if !t.pending.contains(id) {
        (t, Delivery::Hold)
    } else {
        let u = TabView { pending: t.pending.remove(id), failed: true, ..t };
        if u.open {
            (
                u,
                if u.dirty {
                    Delivery::Hold
                } else {
                    Delivery::Write
                },
            )
        } else if u.running {
            (u, Delivery::Hold)
        } else {
            (TabView { open: true, dirty: true, ..u }, Delivery::Open)
        }
    }
}

/// The same where the editor did not answer in time. Where the tab is open, the
/// request did work.
pub open spec fn timed_out(t: TabView, id: i32) -> (TabView, Delivery) {
    if t.pending.contains(id) && t.open {
        (TabView { pending: t.pending.remove(id), ..t }, Delivery::Hold)
    } else {
        refused(t, id)
    }
}

/// The tab after the editor accepted a request to show the document.
pub open spec fn accepted(t: TabView, id: i32) -> TabView {
    TabView { pending: t.pending.remove(id), ..t }
}

impl ResultTab {
    /// A tab of which nothing is known yet.
    pub fn new(support: Option<bool>) -> (r: Self)
        ensures
            r@ == (TabView {
                support,
                failed: false,
                pending: Set::empty(),
                open: false,
                dirty: false,
                running: false,
            }),
    {
        ResultTab { support, failed: false, pending: Pending::new(), open: false, dirty: false, running: false }
    }

    /// Whether the editor is asked to show the document.
    pub fn use_show_document(&self) -> (r: bool)
        ensures
            r == shows(self@),
    {
        !self.failed && (match self.support {
            Some(b) => b,
            None => true,
        })
    }

    /// How a result is delivered.
    pub fn plan(&self, running: bool) -> (r: Delivery)
        ensures
            r == delivery(self@, running),
    {
        if self.use_show_document() {
            if self.open {
                Delivery::Write
            } else {
                Delivery::Show
            }
        } else if !self.open {
            if running {
                Delivery::Hold
            } else {
                Delivery::Open
            }
        } else if self.dirty {
            Delivery::Edit
        } else {
            Delivery::Write
        }
    }

    /// Notes a delivery.
    pub fn deliver(&mut self, d: Delivery, running: bool, asked: Option<i32>)
        ensures
            final(self)@ == delivered(old(self)@, d, running, asked),
    {
        self.running = running;
        match d {
            Delivery::Hold | Delivery::Write => {},
            Delivery::Show => {
                if let Some(id) = asked {
                    self.pending.add(id);
                }
            },
            Delivery::Open => {
                self.open = true;
                self.dirty = true;
            },
            Delivery::Edit => {
                self.dirty = false;
            },
        }
    }

    /// Notes that the editor accepted a request to show the document.
    pub fn accept(&mut self, id: i32)
        ensures
            final(self)@ == accepted(old(self)@, id),
    {
        let _ = self.pending.remove(id);
    }

    /// Notes that the editor refused a request to show the document.
    pub fn refuse(&mut self, id: i32) -> (r: Delivery)
        ensures
            (final(self)@, r) == refused(old(self)@, id),
    {
        let ghost before = self.pending@;
        if !self.pending.remove(id) {
            assert(before.remove(id) =~= before);
            return Delivery::Hold;
        }
        self.failed = true;
        if self.open {
            if self.dirty {
                Delivery::Hold
            } else {
                Delivery::Write
            }
        } else if self.running {
            Delivery::Hold
        } else {
            self.open = true;
            self.dirty = true;
            Delivery::Open
        }
    }

    /// Notes that the editor did not answer in time.
    pub fn time_out(&mut self, id: i32) -> (r: Delivery)
        ensures
            (final(self)@, r) == timed_out(old(self)@, id),
    {
        if self.open {
            let ghost before = self.pending@;
            let was = self.pending.remove(id);
            assert(!was ==> before.remove(id) =~= before);
            Delivery::Hold
        } else {
            self.refuse(id)
        }
    }
}

/// What can happen to the tab.
pub enum TabEvent {
    /// A result is published; `asked` is the number of a request to show the
    /// document, should it be made.
    Published { running: bool, asked: Option<i32> },
    Accepted(i32),
    Refused(i32),
    TimedOut(i32),
    /// The editor opened the file.
    Opened,
    /// The editor closed the file.
    Closed,
}

/// One event: the tab after it, and what is delivered.
pub open spec fn tab_step(t: TabView, e: TabEvent) -> (TabView, Delivery) {
    match e {
        TabEvent::Published { running, asked } => {
            let d = delivery(t, running);
            (delivered(t, d, running, asked), d)
        },
        TabEvent::Accepted(id) => (accepted(t, id), Delivery::Hold),
        TabEvent::Refused(id) => refused(t, id),
        TabEvent::TimedOut(id) => timed_out(t, id),
        TabEvent::Opened => (TabView { open: true, ..t }, Delivery::Hold),
        TabEvent::Closed => (TabView { open: false, ..t }, Delivery::Hold),
    }
}

/// The tab after a series of events.
pub open spec fn tab_after(t: TabView, es: Seq<TabEvent>) -> TabView
    decreases es.len(),
{
    if es.len() == 0 {
        t
    } else {
        tab_after(tab_step(t, es[0]).0, es.drop_first())
    }
}

/// How many edits a series of events makes, those that create the file and those
/// that do not.
pub open spec fn edits(t: TabView, es: Seq<TabEvent>) -> nat
    decreases es.len(),
{
    if es.len() == 0 {
        0
    } else {
        let (u, d) = tab_step(t, es[0]);
        edits(u, es.drop_first()) + if d == Delivery::Open || d == Delivery::Edit {
            1nat
        } else {
            0nat
        }
    }
}

/// How many edits that create the file a series of events makes.
pub open spec fn creations(t: TabView, es: Seq<TabEvent>) -> nat
    decreases es.len(),
{
    if es.len() == 0 {
        0
    } else {
        let (u, d) = tab_step(t, es[0]);
        creations(u, es.drop_first()) + if d == Delivery::Open {
            1nat
        } else {
            0nat
        }
    }
}

/// Whether events are answers of the editor, or the opening of the file, alone.
pub open spec fn only_answers(es: Seq<TabEvent>) -> bool {
    forall|i: int| 0 <= i < es.len() ==> !((#[trigger] es[i]) is Published) && !(es[i] is Closed)
}

/// Whether the file is never closed.
pub open spec fn never_closed(es: Seq<TabEvent>) -> bool {
    forall|i: int| 0 <= i < es.len() ==> !((#[trigger] es[i]) is Closed)
}

/// An open tab is never created again: only a closed one is, and then once,
/// whatever is published and answered until the file is closed.
pub proof fn law_tab_is_created_once(t: TabView, es: Seq<TabEvent>)
    requires
        never_closed(es),
    ensures
        creations(t, es) <= if t.open {
            0nat
        } else {
            1nat
        },
    decreases es.len(),
{
    if es.len() > 0 {
        let u = tab_step(t, es[0]).0;
        assert(!(es[0] is Closed));
        assert forall|i: int| 0 <= i < es.drop_first().len() implies !((#[trigger] es.drop_first()[i]) is Closed) by {
            assert(es.drop_first()[i] == es[i + 1]);
        }
        law_tab_is_created_once(u, es.drop_first());
    }
}

/// Answers alone: at most one edit, and none where the tab is open or a request
/// still runs.
proof fn lemma_answers(t: TabView, es: Seq<TabEvent>)
    requires
        only_answers(es),
    ensures
        edits(t, es) <= if t.open || t.running {
            0nat
        } else {
            1nat
        },
        tab_after(t, es).running == t.running,
        t.open ==> tab_after(t, es).open && tab_after(t, es).dirty == t.dirty,
        t.running ==> tab_after(t, es).dirty == t.dirty,
    decreases es.len(),
{
    if es.len() > 0 {
        let u = tab_step(t, es[0]).0;
        assert(!(es[0] is Published) && !(es[0] is Closed));
        assert forall|i: int| 0 <= i < es.drop_first().len() implies !((#[trigger] es.drop_first()[i]) is Published)
            && !(es.drop_first()[i] is Closed) by {
            assert(es.drop_first()[i] == es[i + 1]);
        }
        lemma_answers(u, es.drop_first());
    }
}

/// A click: the request is announced, its result is published, and in between and
/// afterwards the editor answers in any order, or opens the file.
pub open spec fn click_events(
    first: Option<i32>,
    between: Seq<TabEvent>,
    second: Option<i32>,
    after: Seq<TabEvent>,
) -> Seq<TabEvent> {
    seq![TabEvent::Published { running: true, asked: first }] + between + seq![
        TabEvent::Published { running: false, asked: second },
    ] + after
}

proof fn lemma_edits_joined(t: TabView, a: Seq<TabEvent>, b: Seq<TabEvent>)
    ensures
        edits(t, a + b) == edits(t, a) + edits(tab_after(t, a), b),
        tab_after(t, a + b) == tab_after(tab_after(t, a), b),
    decreases a.len(),
{
    if a.len() == 0 {
        assert(a + b =~= b);
    } else {
        assert((a + b).drop_first() =~= a.drop_first() + b);
        lemma_edits_joined(tab_step(t, a[0]).0, a.drop_first(), b);
    }
}

/// A click makes at most one edit, whether the tab was open or closed and in
/// whatever order the editor answers: it never opens two tabs.
pub proof fn law_one_edit_for_each_click(
    t: TabView,
    first: Option<i32>,
    between: Seq<TabEvent>,
    second: Option<i32>,
    after: Seq<TabEvent>,
)
    requires
        only_answers(between),
        only_answers(after),
    ensures
        edits(t, click_events(first, between, second, after)) <= 1,
{
    let p = TabEvent::Published { running: true, asked: first };
    let f = TabEvent::Published { running: false, asked: second };
    let t1 = tab_step(t, p).0;
    let t2 = tab_after(t1, between);
    let t3 = tab_step(t2, f).0;
    lemma_answers(t1, between);
    lemma_answers(t3, after);
    let all = click_events(first, between, second, after);
    assert(seq![p].drop_first() =~= seq![]);
    assert(seq![f].drop_first() =~= seq![]);
    assert(edits(t1, seq![]) == 0);
    assert(edits(t3, seq![]) == 0);
    lemma_edits_joined(t, seq![p] + between + seq![f], after);
    lemma_edits_joined(t, seq![p] + between, seq![f]);
    lemma_edits_joined(t, seq![p], between);
    assert(tab_after(t, seq![p]) == t1) by {
        assert(tab_after(t1, seq![]) == t1);
    }
    assert(tab_after(t2, seq![f]) == t3) by {
        assert(tab_after(t3, seq![]) == t3);
    }
}

/// Whether events are refusals of the editor, or its silence, alone.
pub open spec fn only_refusals(es: Seq<TabEvent>) -> bool {
    forall|i: int| 0 <= i < es.len() ==> (#[trigger] es[i]) is Refused || es[i] is TimedOut
}

proof fn lemma_refusals(t: TabView, es: Seq<TabEvent>)
    requires
        only_refusals(es),
    ensures
        only_answers(es),
        t.running && !t.open ==> !tab_after(t, es).open,
        t.open ==> tab_after(t, es).open,
        forall|id: i32|
            #![trigger tab_after(t, es).pending.contains(id)]
            !t.open && !t.running && t.pending.contains(id) && !tab_after(t, es).pending.contains(id) ==> tab_after(
                t,
                es,
            ).open,
    decreases es.len(),
{
    if es.len() > 0 {
        assert(es[0] is Refused || es[0] is TimedOut);
        assert forall|i: int| 0 <= i < es.drop_first().len() implies (#[trigger] es.drop_first()[i]) is Refused
            || es.drop_first()[i] is TimedOut by {
            assert(es.drop_first()[i] == es[i + 1]);
        }
        lemma_refusals(tab_step(t, es[0]).0, es.drop_first());
    }
}

/// A tab that opens without the editor opening it was created.
proof fn lemma_opened_by_creation(t: TabView, es: Seq<TabEvent>)
    requires
        forall|i: int| 0 <= i < es.len() ==> !((#[trigger] es[i]) is Opened),
    ensures
        !t.open && tab_after(t, es).open ==> creations(t, es) >= 1,
        creations(t, es) <= edits(t, es),
    decreases es.len(),
{
    if es.len() > 0 {
        assert(!(es[0] is Opened));
        assert forall|i: int| 0 <= i < es.drop_first().len() implies !((#[trigger] es.drop_first()[i]) is Opened) by {
            assert(es.drop_first()[i] == es[i + 1]);
        }
        lemma_opened_by_creation(tab_step(t, es[0]).0, es.drop_first());
    }
}

/// A click on a closed tab, where the editor refuses every request to show the result
/// or does not answer it: exactly one edit is made, and it creates the file. The
/// refusals come in any order, before or after the result.
pub proof fn law_refused_click_creates_the_tab_once(
    t: TabView,
    first: i32,
    between: Seq<TabEvent>,
    second: i32,
    after: Seq<TabEvent>,
)
    requires
        !t.open,
        only_refusals(between),
        only_refusals(after),
        tab_after(t, click_events(Some(first), between, Some(second), after)).pending == Set::<i32>::empty(),
    ensures
        edits(t, click_events(Some(first), between, Some(second), after)) == 1,
        creations(t, click_events(Some(first), between, Some(second), after)) == 1,
        tab_after(t, click_events(Some(first), between, Some(second), after)).open,
{
    let p = TabEvent::Published { running: true, asked: Some(first) };
    let f = TabEvent::Published { running: false, asked: Some(second) };
    let all = click_events(Some(first), between, Some(second), after);
    let t1 = tab_step(t, p).0;
    let t2 = tab_after(t1, between);
    let t3 = tab_step(t2, f).0;
    lemma_refusals(t1, between);
    lemma_refusals(t3, after);
    lemma_answers(t1, between);
    law_one_edit_for_each_click(t, Some(first), between, Some(second), after);
    lemma_edits_joined(t, seq![p] + between + seq![f], after);
    lemma_edits_joined(t, seq![p] + between, seq![f]);
    lemma_edits_joined(t, seq![p], between);
    assert(seq![p].drop_first() =~= seq![]);
    assert(seq![f].drop_first() =~= seq![]);
    assert(tab_after(t1, seq![]) == t1);
    assert(tab_after(t3, seq![]) == t3);
    assert(tab_after(t, all) == tab_after(t3, after));
    assert(!tab_after(t3, after).pending.contains(second));
    assert forall|i: int| 0 <= i < all.len() implies !((#[trigger] all[i]) is Opened) && !(all[i] is Closed) by {
        let n = between.len();
        if 1 <= i < 1 + n {
            assert(all[i] == between[i - 1]);
        } else if i > 1 + n {
            assert(all[i] == after[i - 2 - n]);
        }
    }
    lemma_opened_by_creation(t, all);
    law_tab_is_created_once(t, all);
}

/// The result of a request is never left where nobody sees it: it is delivered
/// into the open tab, or the tab is created, or the editor is asked to show it.
/// Where the editor then refuses or does not answer, the tab is created.
pub proof fn law_result_is_delivered(t: TabView, id: i32)
    ensures
        ({
            let (u, d) = tab_step(t, TabEvent::Published { running: false, asked: Some(id) });
            &&& d != Delivery::Hold
            &&& u.open || (d == Delivery::Show && u.pending.contains(id))
            &&& !u.open ==> refused(u, id).1 == Delivery::Open && refused(u, id).0.open
            &&& !u.open ==> timed_out(u, id).1 == Delivery::Open && timed_out(u, id).0.open
        }),
{
}

/// A tab that was closed comes back with the next result.
pub proof fn law_closed_tab_is_reopened(t: TabView, id: i32)
    ensures
        ({
            let closed = tab_step(t, TabEvent::Closed).0;
            let d = tab_step(closed, TabEvent::Published { running: false, asked: Some(id) }).1;
            d == Delivery::Open || d == Delivery::Show
        }),
{
}

/// An editor that said that it cannot show documents, or refused once, is not
/// asked again.
pub proof fn law_no_second_request_after_a_refusal(t: TabView, es: Seq<TabEvent>, running: bool, asked: Option<i32>)
    requires
        t.failed || t.support == Some(false),
    ensures
        tab_step(tab_after(t, es), TabEvent::Published { running, asked }).1 != Delivery::Show,
    decreases es.len(),
{
    if es.len() > 0 {
        law_no_second_request_after_a_refusal(tab_step(t, es[0]).0, es.drop_first(), running, asked);
    }
}

}
