//! The file of stored responses: which of them go into it, and what it holds.

use vstd::prelude::*;

use crate::digits::write_decimal;
use crate::scan::join;

verus! {

use crate::digits::{decimal, hex_padded};
use crate::document::pairs;
use crate::text::{joined, views};
use vstd::utf8::encode_utf8;

/// The most bytes that one response may take. A larger one lives in memory only,
/// so that a large listing does not keep a small token from being saved.
pub const MAX_RESPONSE_ENTRY_BYTES: usize = 524288;

/// The most bytes that the whole file may take.
pub const MAX_RESPONSES_BYTES: usize = 8388608;

/// A character inside a JSON string: quotes, backslashes and control characters are
/// escaped, the common ones by a letter.
pub open spec fn json_char(c: char) -> Seq<char> {
    if c == '"' || c == '\\' {
        seq!['\\', c]
    } else if c == '\u{8}' {
        seq!['\\', 'b']
    } else if c == '\t' {
        seq!['\\', 't']
    } else if c == '\n' {
        seq!['\\', 'n']
    } else if c == '\u{c}' {
        seq!['\\', 'f']
    } else if c == '\r' {
        seq!['\\', 'r']
    } else if (c as u32) < 0x20 {
        seq!['\\', 'u'] + hex_padded(c as nat, 4)
    } else {
        seq![c]
    }
}

/// The characters of a text inside a JSON string.
pub open spec fn json_chars(s: Seq<char>) -> Seq<char>
    decreases s.len(),
{
    if s.len() == 0 {
        seq![]
    } else {
        json_chars(s.drop_last()) + json_char(s.last())
    }
}

/// A text as a JSON string.
pub open spec fn json_string(s: Seq<char>) -> Seq<char> {
    seq!['"'] + json_chars(s) + seq!['"']
}

/// `serde_json::to_string` of a text: the text as a JSON string, in quotes, with
/// quotes, backslashes and the characters below U+0020 escaped and no others.
#[verifier::external_body]
fn quote(s: &str) -> (r: String)
    ensures
        r@ == json_string(s@),
{
    serde_json::to_string(s).unwrap_or_default()
}

/// How many bytes a text takes.
pub open spec fn size(s: Seq<char>) -> nat {
    encode_utf8(s).len()
}

/// The responses of the environments: of each its key, and of each response its
/// name and its JSON text.
pub open spec fn groups(v: Seq<(String, Vec<(String, String)>)>) -> Seq<(Seq<char>, Seq<(Seq<char>, Seq<char>)>)> {
    Seq::new(v.len(), |i: int| (v[i].0@, pairs(v[i].1@)))
}

/// Whether a response is small enough for the file.
pub open spec fn fits(entry: (Seq<char>, Seq<char>)) -> bool {
    size(entry.1) <= MAX_RESPONSE_ENTRY_BYTES
}

/// A response as a member of a JSON object.
pub open spec fn entry_text(entry: (Seq<char>, Seq<char>)) -> Seq<char> {
    json_string(entry.0) + ":"@ + entry.1
}

/// The members for the responses that go into the file.
pub open spec fn kept(entries: Seq<(Seq<char>, Seq<char>)>) -> Seq<Seq<char>>
    decreases entries.len(),
{
    if entries.len() == 0 {
        seq![]
    } else if fits(entries.last()) {
        kept(entries.drop_last()).push(entry_text(entries.last()))
    } else {
        kept(entries.drop_last())
    }
}

/// What is said of the responses that do not: their names and sizes.
pub open spec fn left_out(entries: Seq<(Seq<char>, Seq<char>)>) -> Seq<Seq<char>>
    decreases entries.len(),
{
    if entries.len() == 0 {
        seq![]
    } else if fits(entries.last()) {
        left_out(entries.drop_last())
    } else {
        left_out(entries.drop_last()).push(
            entries.last().0 + " ("@ + decimal((size(entries.last().1) / 1024) as nat) + " KiB)"@,
        )
    }
}

/// An environment as a member of a JSON object.
pub open spec fn group_text(group: (Seq<char>, Seq<(Seq<char>, Seq<char>)>)) -> Seq<char> {
    json_string(group.0) + ":{"@ + joined(kept(group.1), ","@) + "}"@
}

/// The members for the environments that have responses in the file.
pub open spec fn kept_groups(gs: Seq<(Seq<char>, Seq<(Seq<char>, Seq<char>)>)>) -> Seq<Seq<char>>
    decreases gs.len(),
{
    if gs.len() == 0 {
        seq![]
    } else if kept(gs.last().1).len() > 0 {
        kept_groups(gs.drop_last()).push(group_text(gs.last()))
    } else {
        kept_groups(gs.drop_last())
    }
}

/// What is said of the responses of all environments that do not go into the file.
pub open spec fn all_left_out(gs: Seq<(Seq<char>, Seq<(Seq<char>, Seq<char>)>)>) -> Seq<Seq<char>>
    decreases gs.len(),
{
    if gs.len() == 0 {
        seq![]
    } else {
        all_left_out(gs.drop_last()) + left_out(gs.last().1)
    }
}

/// What the file holds: a JSON object of the environments.
pub open spec fn file_text(gs: Seq<(Seq<char>, Seq<(Seq<char>, Seq<char>)>)>) -> Seq<char> {
    "{"@ + joined(kept_groups(gs), ","@) + "}"@
}

/// Whether no response is stored at all.
pub open spec fn nothing_stored(gs: Seq<(Seq<char>, Seq<(Seq<char>, Seq<char>)>)>) -> bool {
    forall|i: int| 0 <= i < gs.len() ==> (#[trigger] gs[i]).1.len() == 0
}

/// What to do with the file of stored responses.
pub enum Save {
    /// Remove it.
    Remove,
    /// Leave it: the new one would take this many bytes.
    TooLarge(usize),
    /// Replace it.
    Write(String),
}

fn keep_entries(entries: &Vec<(String, String)>, out: &mut Vec<String>) -> (r: Vec<String>)
    ensures
        views(r@) == kept(pairs(entries@)),
        views(final(out)@) == views(old(out)@) + left_out(pairs(entries@)),
{
    let ghost all = pairs(entries@);
    let ghost start = views(out@);
    let mut r: Vec<String> = Vec::new();
    let mut i: usize = 0;
    assert(all.take(0) =~= seq![]);
    assert(views(r@) =~= kept(all.take(0)));
    assert(views(out@) =~= start + left_out(all.take(0)));
    while i < entries.len()
        invariant
            i <= entries@.len(),
            all == pairs(entries@),
            views(r@) == kept(all.take(i as int)),
            views(out@) == start + left_out(all.take(i as int)),
        decreases entries@.len() - i,
    {
        assert(all.take(i + 1).drop_last() =~= all.take(i as int));
        assert(all.take(i + 1).last() == all[i as int]);
        let ghost before = r@;
        let ghost said = out@;
        let n: usize = entries[i].1.as_str().as_bytes().len();
        if n > MAX_RESPONSE_ENTRY_BYTES {
            let mut s = entries[i].0.clone();
            s.append(" (");
            s.append(write_decimal((n / 1024) as u64).as_str());
            s.append(" KiB)");
            out.push(s);
            assert(views(out@) =~= views(said).push(s@));
            assert(views(out@) =~= start + left_out(all.take(i + 1)));
        } else {
            let mut s = quote(entries[i].0.as_str());
            s.append(":");
            s.append(entries[i].1.as_str());
            r.push(s);
            assert(views(r@) =~= views(before).push(s@));
        }
        i = i + 1;
    }
    assert(all.take(i as int) =~= all);
    r
}

fn is_nothing_stored(stored: &Vec<(String, Vec<(String, String)>)>) -> (r: bool)
    ensures
        r == nothing_stored(groups(stored@)),
{
    let mut i: usize = 0;
    while i < stored.len()
        invariant
            i <= stored@.len(),
            forall|j: int| 0 <= j < i ==> (#[trigger] groups(stored@)[j]).1.len() == 0,
        decreases stored@.len() - i,
    {
        if stored[i].1.len() > 0 {
            assert(groups(stored@)[i as int].1.len() > 0);
            return false;
        }
        i = i + 1;
    }
    true
}

/// What to do with the file of stored responses, and which responses it leaves
/// out. Responses that are too large are left out one by one.
pub fn save_responses(stored: &Vec<(String, Vec<(String, String)>)>) -> (r: (Save, Vec<String>))
    ensures
        match r.0 {
            Save::Remove => nothing_stored(groups(stored@)),
            Save::TooLarge(n) => !nothing_stored(groups(stored@)) && n == size(file_text(groups(stored@)))
                && n > MAX_RESPONSES_BYTES,
            Save::Write(s) => !nothing_stored(groups(stored@)) && s@ == file_text(groups(stored@)) && size(s@)
                <= MAX_RESPONSES_BYTES,
        },
        views(r.1@) == all_left_out(groups(stored@)),
{
    let ghost all = groups(stored@);
    let mut members: Vec<String> = Vec::new();
    let mut out: Vec<String> = Vec::new();
    let mut i: usize = 0;
    assert(all.take(0) =~= seq![]);
    assert(views(members@) =~= kept_groups(all.take(0)));
    assert(views(out@) =~= all_left_out(all.take(0)));
    while i < stored.len()
        invariant
            i <= stored@.len(),
            all == groups(stored@),
            views(members@) == kept_groups(all.take(i as int)),
            views(out@) == all_left_out(all.take(i as int)),
        decreases stored@.len() - i,
    {
        assert(all.take(i + 1).drop_last() =~= all.take(i as int));
        assert(all.take(i + 1).last() == all[i as int]);
        let ghost before = members@;
        let inner = keep_entries(&stored[i].1, &mut out);
        assert(views(inner@).len() == inner@.len());
        if inner.len() > 0 {
            let mut s = quote(stored[i].0.as_str());
            s.append(":{");
            s.append(join(&inner, ",").as_str());
            s.append("}");
            members.push(s);
            assert(views(members@) =~= views(before).push(s@));
        }
        i = i + 1;
    }
    assert(all.take(i as int) =~= all);
    if is_nothing_stored(stored) {
        return (Save::Remove, out);
    }
    let mut text = "{".to_owned();
    text.append(join(&members, ",").as_str());
    text.append("}");
    let n: usize = text.as_str().as_bytes().len();
    if n > MAX_RESPONSES_BYTES {
        (Save::TooLarge(n), out)
    } else {
        (Save::Write(text), out)
    }
}

proof fn lemma_kept_joined(a: Seq<(Seq<char>, Seq<char>)>, b: Seq<(Seq<char>, Seq<char>)>)
    ensures
        kept(a + b) == kept(a) + kept(b),
    decreases b.len(),
{
    if b.len() == 0 {
        assert(a + b =~= a);
        assert(kept(a) + kept(b) =~= kept(a));
    } else {
        assert((a + b).drop_last() =~= a + b.drop_last());
        assert((a + b).last() == b.last());
        lemma_kept_joined(a, b.drop_last());
        assert(kept(a + b) =~= kept(a) + kept(b));
    }
}

/// A response that is too large changes nothing of what is saved of the others.
pub proof fn law_large_response_does_not_stop_others(
    before: Seq<(Seq<char>, Seq<char>)>,
    large: (Seq<char>, Seq<char>),
    after: Seq<(Seq<char>, Seq<char>)>,
)
    requires
        !fits(large),
    ensures
        kept(before + seq![large] + after) == kept(before + after),
{
    reveal_with_fuel(kept, 2);
    lemma_kept_joined(before + seq![large], after);
    lemma_kept_joined(before, seq![large]);
    lemma_kept_joined(before, after);
    assert(seq![large].drop_last() =~= seq![]);
    assert(kept(seq![large]) =~= seq![]);
    assert(kept(before) + kept(seq![large]) =~= kept(before));
}

/// Every response that is small enough goes into the file, whatever else is
/// stored.
pub proof fn law_small_response_is_saved(entries: Seq<(Seq<char>, Seq<char>)>, i: int)
    requires
        0 <= i < entries.len(),
        fits(entries[i]),
    ensures
        kept(entries).contains(entry_text(entries[i])),
    decreases entries.len(),
{
    let front = entries.drop_last();
    if i == entries.len() - 1 {
        assert(kept(entries)[kept(front).len() as int] == entry_text(entries[i]));
    } else {
        law_small_response_is_saved(front, i);
        let k = choose|k: int| 0 <= k < kept(front).len() && kept(front)[k] == entry_text(entries[i]);
        assert(kept(entries)[k] == entry_text(entries[i]));
    }
}

/// Every environment with a response that is small enough goes into the file, with
/// that response in it.
pub proof fn law_environment_is_saved(gs: Seq<(Seq<char>, Seq<(Seq<char>, Seq<char>)>)>, g: int, i: int)
    requires
        0 <= g < gs.len(),
        0 <= i < gs[g].1.len(),
        fits(gs[g].1[i]),
    ensures
        !nothing_stored(gs),
        kept_groups(gs).contains(group_text(gs[g])),
        kept(gs[g].1).contains(entry_text(gs[g].1[i])),
    decreases gs.len(),
{
    law_small_response_is_saved(gs[g].1, i);
    let front = gs.drop_last();
    if g == gs.len() - 1 {
        assert(kept_groups(gs)[kept_groups(front).len() as int] == group_text(gs[g]));
    } else {
        law_environment_is_saved(front, g, i);
        let k = choose|k: int| 0 <= k < kept_groups(front).len() && kept_groups(front)[k] == group_text(gs[g]);
        assert(kept_groups(gs)[k] == group_text(gs[g]));
    }
}

}
