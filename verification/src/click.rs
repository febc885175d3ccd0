//! Clicks on a lens: what their arguments say, and the requests that run.

use vstd::prelude::*;

use crate::digits::read_number;
use crate::json::{as_text, as_uint, Json};
use crate::lens::{CMD_NOOP, CMD_SEND};
use crate::scan::same;
use crate::text::chars;

verus! {

use crate::digits::{lemma_hex16_reads_back, number};
use crate::document::{line_number, RequestView};
use crate::json::{opt_json, text_of, uint_of, JsonView};
use crate::lens::{key_of, law_fresh_lens_finds_its_request, lens_arguments, meant, nth_of, or_empty};
use crate::text::{opt_text, views};

/// What a command of the editor asks for.
#[derive(Clone, Copy, PartialEq, Eq, Structural)]
pub enum Asked {
    Send,
    Nothing,
    Unknown,
}

/// What a command of the editor asks for.
pub fn command_kind(command: &str) -> (r: Asked)
    ensures
        r == (if command@ == CMD_NOOP@ {
            Asked::Nothing
        } else if command@ == CMD_SEND@ {
            Asked::Send
        } else {
            Asked::Unknown
        }),
{
    if same(command, CMD_NOOP) {
        Asked::Nothing
    } else if same(command, CMD_SEND) {
        Asked::Send
    } else {
        Asked::Unknown
    }
}

/// What a click says of the request that it means. All of it may be outdated.
pub struct Click {
    pub uri: String,
    pub line: u32,
    pub key: Option<u64>,
    pub nth: Option<u32>,
    pub name: Option<String>,
    pub method: Option<String>,
}

/// A click in mathematical terms.
pub struct ClickView {
    pub uri: Seq<char>,
    pub line: u32,
    pub key: Option<u64>,
    pub nth: Option<u32>,
    pub name: Option<Seq<char>>,
    pub method: Option<Seq<char>>,
}

impl View for Click {
    type V = ClickView;

    open spec fn view(&self) -> ClickView {
        ClickView {
            uri: self.uri@,
            line: self.line,
            key: self.key,
            nth: self.nth,
            name: opt_text(self.name),
            method: opt_text(self.method),
        }
    }
}

/// One argument, where there is one.
pub open spec fn argument(args: Seq<JsonView>, i: int) -> Option<JsonView> {
    if 0 <= i < args.len() {
        Some(args[i])
    } else {
        None
    }
}

/// An argument as a line number, or as the number of a request.
pub open spec fn line_argument(args: Seq<JsonView>, i: int) -> Option<u32> {
    match uint_of(argument(args, i)) {
        Some(n) => Some(line_number(n as int)),
        None => None,
    }
}

/// An argument as an identity: a text of hexadecimal digits.
pub open spec fn key_argument(args: Seq<JsonView>, i: int) -> Option<u64> {
    match text_of(argument(args, i)) {
        Some(s) => match number(s, 16, u64::MAX as int) {
            Some(n) => Some(n as u64),
            None => None,
        },
        None => None,
    }
}

/// What the arguments of a click say. Without a document and a line they say
/// nothing.
pub open spec fn click_of(args: Seq<JsonView>) -> Option<ClickView> {
    match (text_of(argument(args, 0)), line_argument(args, 1)) {
        (Some(uri), Some(line)) => Some(
            ClickView {
                uri,
                line,
                key: key_argument(args, 2),
                nth: line_argument(args, 3),
                name: text_of(argument(args, 4)),
                method: text_of(argument(args, 5)),
            },
        ),
        _ => None,
    }
}

fn argument_at<'a>(args: &'a Vec<Json>, i: usize) -> (r: Option<&'a Json>)
    ensures
        opt_json(r) == argument(views(args@), i as int),
{
    if i < args.len() {
        Some(&args[i])
    } else {
        None
    }
}

fn line_at(args: &Vec<Json>, i: usize) -> (r: Option<u32>)
    ensures
        r == line_argument(views(args@), i as int),
{
    match as_uint(argument_at(args, i)) {
        Some(n) => Some((n % 0x1_0000_0000) as u32),
        None => None,
    }
}

fn key_at(args: &Vec<Json>, i: usize) -> (r: Option<u64>)
    ensures
        r == key_argument(views(args@), i as int),
{
    match as_text(argument_at(args, i)) {
        Some(s) => {
            let c = chars(s);
            read_number(c.as_slice(), 16, u64::MAX)
        },
        None => None,
    }
}

fn text_at(args: &Vec<Json>, i: usize) -> (r: Option<String>)
    ensures
        opt_text(r) == text_of(argument(views(args@), i as int)),
{
    match as_text(argument_at(args, i)) {
        Some(s) => Some(s.to_owned()),
        None => None,
    }
}

/// What the arguments of a click say.
pub fn parse_click(args: &Vec<Json>) -> (r: Option<Click>)
    ensures
        match r {
            Some(c) => click_of(views(args@)) == Some(c@),
            None => click_of(views(args@)) is None,
        },
{
    let line: u32 = match line_at(args, 1) {
        Some(n) => n,
        None => {
            return None;
        },
    };
    let uri = match text_at(args, 0) {
        Some(s) => s,
        None => {
            return None;
        },
    };
    Some(
        Click {
            uri,
            line,
            key: key_at(args, 2),
            nth: line_at(args, 3),
            name: text_at(args, 4),
            method: text_at(args, 5),
        },
    )
}

/// The requests that run, each by its document and line. None occurs twice.
pub struct InFlight {
    list: Vec<(String, u32)>,
}

spec fn places(list: Seq<(String, u32)>) -> Seq<(Seq<char>, u32)> {
    Seq::new(list.len(), |i: int| (list[i].0@, list[i].1))
}

impl View for InFlight {
    type V = Set<(Seq<char>, u32)>;

    closed spec fn view(&self) -> Set<(Seq<char>, u32)> {
        places(self.list@).to_set()
    }
}

impl InFlight {
    #[verifier::type_invariant]
    spec fn distinct(self) -> bool {
        places(self.list@).no_duplicates()
    }

    /// No requests.
    pub fn new() -> (r: Self)
        ensures
            r@ == Set::<(Seq<char>, u32)>::empty(),
    {
        let r = InFlight { list: Vec::new() };
        assert(r@ =~= Set::<(Seq<char>, u32)>::empty());
        r
    }

    fn place(&self, uri: &str, line: u32) -> (r: Option<usize>)
        ensures
            match r {
                Some(i) => i < self.list@.len() && places(self.list@)[i as int] == (uri@, line),
                None => !self@.contains((uri@, line)),
            },
    {
        let mut i: usize = 0;
        while i < self.list.len()
            invariant
                i <= self.list@.len(),
                forall|j: int| 0 <= j < i ==> (#[trigger] places(self.list@)[j]) != (uri@, line),
            decreases self.list@.len() - i,
        {
            if self.list[i].1 == line && same(self.list[i].0.as_str(), uri) {
                return Some(i);
            }
            i = i + 1;
        }
        None
    }

    /// Whether a request runs.
    pub fn has(&self, uri: &str, line: u32) -> (r: bool)
        ensures
            r == self@.contains((uri@, line)),
    {
        match self.place(uri, line) {
            Some(i) => {
                assert(places(self.list@).contains(places(self.list@)[i as int]));
                true
            },
            None => false,
        }
    }

    /// Adds a request that does not run yet. Tells whether it did not.
    pub fn insert(&mut self, uri: &str, line: u32) -> (r: bool)
        ensures
            r == !old(self)@.contains((uri@, line)),
            final(self)@ == old(self)@.insert((uri@, line)),
    {
        proof {
            use_type_invariant(&*self);
        }
        if self.has(uri, line) {
            assert(self@.insert((uri@, line)) =~= self@);
            return false;
        }
        let ghost before = places(self.list@);
        let mut list: Vec<(String, u32)> = Vec::new();
        std::mem::swap(&mut list, &mut self.list);
        list.push((uri.to_owned(), line));
        let ghost now = places(list@);
        assert(now =~= before.push((uri@, line)));
        assert forall|x: (Seq<char>, u32)| now.contains(x) <==> (before.contains(x) || x == (uri@, line)) by {
            if before.contains(x) {
                let k = choose|k: int| 0 <= k < before.len() && before[k] == x;
                assert(now[k] == x);
            }
            assert(now[before.len() as int] == (uri@, line));
        }
        assert(now.to_set() =~= before.to_set().insert((uri@, line)));
        assert(now.no_duplicates());
        self.list = list;
        true
    }

    /// Takes a request out.
    pub fn remove(&mut self, uri: &str, line: u32)
        ensures
            final(self)@ == old(self)@.remove((uri@, line)),
    {
        proof {
            use_type_invariant(&*self);
        }
        match self.place(uri, line) {
            Some(i) => {
                let ghost before = places(self.list@);
                let mut list: Vec<(String, u32)> = Vec::new();
                std::mem::swap(&mut list, &mut self.list);
                let _ = list.remove(i);
                let ghost now = places(list@);
                assert(now =~= before.remove(i as int));
                assert forall|x: (Seq<char>, u32)| now.contains(x) <==> (before.contains(x) && x != (uri@, line)) by {
                    if now.contains(x) {
                        let k = choose|k: int| 0 <= k < now.len() && now[k] == x;
                        let m: int = if k < i { k } else { k + 1 };
                        assert(before[m] == x);
                        assert(before[i as int] != before[m]);
                    }
                    if before.contains(x) && x != (uri@, line) {
                        let m = choose|m: int| 0 <= m < before.len() && before[m] == x;
                        let k: int = if m < i { m } else { m - 1 };
                        assert(now[k] == x);
                    }
                }
                assert(now.to_set() =~= before.to_set().remove((uri@, line)));
                assert forall|a: int, b: int| 0 <= a < b < now.len() implies now[a] != now[b] by {
                    let x: int = if a < i { a } else { a + 1 };
                    let y: int = if b < i { b } else { b + 1 };
                    assert(before[x] != before[y]);
                }
                assert(now.no_duplicates());
                self.list = list;
            },
            None => {
                assert(self@.remove((uri@, line)) =~= self@);
            },
        }
    }
}

/// The arguments of a lens, handed back by a click, say what the lens said.
pub proof fn lemma_arguments_read_back(uri: Seq<char>, reqs: Seq<RequestView>, i: int)
    ensures
        click_of(lens_arguments(uri, reqs, i)) == Some(
            ClickView {
                uri,
                line: reqs[i].line,
                key: Some(key_of(reqs[i])),
                nth: Some(nth_of(reqs, i)),
                name: Some(or_empty(reqs[i].name)),
                method: Some(reqs[i].method),
            },
        ),
{
    lemma_hex16_reads_back(key_of(reqs[i]));
}

/// A click on an up-to-date lens means the request that the lens belongs to.
pub proof fn law_click_on_a_fresh_lens(uri: Seq<char>, reqs: Seq<RequestView>, i: int)
    requires
        0 <= i < reqs.len() <= u32::MAX,
    ensures
        click_of(lens_arguments(uri, reqs, i)) matches Some(c) && c.uri == uri && (meant(
            reqs,
            c.line,
            c.key,
            c.nth,
            c.name,
            c.method,
        ) matches Some((found, _)) && found == i),
{
    lemma_arguments_read_back(uri, reqs, i);
    law_fresh_lens_finds_its_request(reqs, i);
}

}
