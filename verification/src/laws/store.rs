//! What goes into the file of stored responses.

use vstd::prelude::*;

verus! {

use crate::digits::decimal;
use crate::store::{
    all_left_out, file_text, fits, json_chars, kept, kept_groups, left_out, nothing_stored, MAX_RESPONSES_BYTES,
    MAX_RESPONSE_ENTRY_BYTES,
};
use crate::text::joined;
use vstd::utf8::encode_utf8;

/// Half a mebibyte for one response, eight for the file.
pub proof fn law_limits(name: Seq<char>, text: Seq<char>)
    ensures
        fits((name, text)) <==> encode_utf8(text).len() <= 512 * 1024,
        MAX_RESPONSE_ENTRY_BYTES == 512 * 1024,
        MAX_RESPONSES_BYTES == 8 * 1024 * 1024,
{
}

/// A response that is small enough adds its member, under its name and with its text as
/// it is; one that is too large adds a note of its name and its size in kibibytes.
pub proof fn law_one_more_response(entries: Seq<(Seq<char>, Seq<char>)>, name: Seq<char>, text: Seq<char>)
    ensures
        kept(seq![]).len() == 0,
        left_out(seq![]).len() == 0,
        encode_utf8(text).len() <= 512 * 1024 ==> kept(entries.push((name, text))) == kept(entries).push(
            seq!['"'] + json_chars(name) + seq!['"'] + ":"@ + text,
        ) && left_out(entries.push((name, text))) == left_out(entries),
        encode_utf8(text).len() > 512 * 1024 ==> kept(entries.push((name, text))) == kept(entries) && left_out(
            entries.push((name, text)),
        ) == left_out(entries).push(name + " ("@ + decimal((encode_utf8(text).len() / 1024) as nat) + " KiB)"@),
{
    assert(entries.push((name, text)).drop_last() =~= entries);
}

/// An environment with something to save adds its object; one without adds nothing. The
/// notes on what is left out are kept in either case.
pub proof fn law_one_more_environment(
    gs: Seq<(Seq<char>, Seq<(Seq<char>, Seq<char>)>)>,
    key: Seq<char>,
    entries: Seq<(Seq<char>, Seq<char>)>,
)
    ensures
        kept_groups(seq![]).len() == 0,
        all_left_out(seq![]).len() == 0,
        kept(entries).len() > 0 ==> kept_groups(gs.push((key, entries))) == kept_groups(gs).push(
            seq!['"'] + json_chars(key) + seq!['"'] + ":{"@ + joined(kept(entries), ","@) + "}"@,
        ),
        kept(entries).len() == 0 ==> kept_groups(gs.push((key, entries))) == kept_groups(gs),
        all_left_out(gs.push((key, entries))) == all_left_out(gs) + left_out(entries),
        file_text(gs) == "{"@ + joined(kept_groups(gs), ","@) + "}"@,
        entries.len() > 0 ==> !nothing_stored(gs.push((key, entries))),
        entries.len() == 0 ==> (nothing_stored(gs.push((key, entries))) <==> nothing_stored(gs)),
        nothing_stored(seq![]),
{
    let all = gs.push((key, entries));
    assert(all.drop_last() =~= gs);
    assert(all[gs.len() as int] == (key, entries));
    if nothing_stored(all) {
        assert forall|i: int| 0 <= i < gs.len() implies (#[trigger] gs[i]).1.len() == 0 by {
            assert(all[i].1.len() == 0);
        }
    }
}

}
