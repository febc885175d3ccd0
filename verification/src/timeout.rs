//! How long a request may take.

use vstd::prelude::*;

use crate::digits::{read_number, write_decimal};
use crate::document::HttpRequest;
use crate::scan::trimmed;
use crate::table::Table;
use crate::text::chars;

verus! {

use crate::digits::{decimal, number};
use crate::text::{opt_text, trim};
use crate::vars::lookup;

/// The limit in seconds where nothing else is asked for. It covers the whole
/// operation, from the name lookup to the last byte of the response.
pub const DEFAULT_TIMEOUT: u64 = 30;

/// The `.env` key that replaces the default limit.
pub const TIMEOUT_ENV_KEY: &'static str = "HTTP_REQUEST_TIMEOUT";

/// A number of seconds as a limit: zero means that there is none.
pub open spec fn limit_of(secs: u64) -> Option<u64> {
    if secs > 0 {
        Some(secs)
    } else {
        None
    }
}

/// The seconds that a text asks for.
pub open spec fn asked_seconds(raw: Option<Seq<char>>) -> Option<u64> {
    match raw {
        Some(s) => match number(s, 10, u64::MAX as int) {
            Some(n) => Some(n as u64),
            None => None,
        },
        None => None,
    }
}

/// The `.env` value for the limit, without surrounding whitespace.
pub open spec fn dotenv_limit(dotenv: Map<Seq<char>, Seq<char>>) -> Option<Seq<char>> {
    match lookup(dotenv, TIMEOUT_ENV_KEY@) {
        Some(raw) => Some(trim(raw)),
        None => None,
    }
}

/// The limit of a request and where it comes from: the `# @timeout` of the
/// request, else the `.env` files, else the default. What is not a number is
/// passed over.
pub open spec fn effective_timeout(
    raw: Option<Seq<char>>,
    dotenv: Map<Seq<char>, Seq<char>>,
) -> (Option<u64>, Seq<char>) {
    if let Some(secs) = asked_seconds(raw) {
        (limit_of(secs), "# @timeout"@)
    } else if let Some(secs) = asked_seconds(dotenv_limit(dotenv)) {
        (limit_of(secs), TIMEOUT_ENV_KEY@ + " (.env)"@)
    } else {
        (Some(DEFAULT_TIMEOUT), "default"@)
    }
}

/// A number of seconds as a limit: zero means that there is none.
pub fn to_timeout(secs: u64) -> (r: Option<u64>)
    ensures
        r == limit_of(secs),
{
    if secs > 0 {
        Some(secs)
    } else {
        None
    }
}

/// The limit of a request in seconds and where it comes from.
pub fn resolve_timeout(req: &HttpRequest, dotenv: &Table<String>) -> (r: (Option<u64>, String))
    ensures
        (r.0, r.1@) == effective_timeout(opt_text(req.timeout_raw), dotenv@),
{
    if let Some(raw) = &req.timeout_raw {
        let c = chars(raw.as_str());
        if let Some(secs) = read_number(c.as_slice(), 10, u64::MAX) {
            return (to_timeout(secs), "# @timeout".to_owned());
        }
    }
    if let Some(raw) = dotenv.get(TIMEOUT_ENV_KEY) {
        let c = chars(raw.as_str());
        if let Some(secs) = read_number(trimmed(c.as_slice()), 10, u64::MAX) {
            let mut from = TIMEOUT_ENV_KEY.to_owned();
            from.append(" (.env)");
            return (to_timeout(secs), from);
        }
    }
    (Some(DEFAULT_TIMEOUT), "default".to_owned())
}

/// A limit as text.
pub open spec fn limit_text(limit: Option<u64>, without: Seq<char>) -> Seq<char> {
    match limit {
        Some(secs) => decimal(secs as nat) + "s"@,
        None => without,
    }
}

/// A limit as text; `without` stands for no limit.
pub fn show_limit(limit: Option<u64>, without: &str) -> (r: String)
    ensures
        r@ == limit_text(limit, without@),
{
    match limit {
        Some(secs) => {
            let mut s = write_decimal(secs);
            s.append("s");
            s
        },
        None => without.to_owned(),
    }
}

/// The directive on the request wins over the `.env` files, and those over the
/// default; a zero in either place removes the limit.
pub proof fn law_timeout_precedence(raw: Option<Seq<char>>, dotenv: Map<Seq<char>, Seq<char>>)
    ensures
        asked_seconds(raw) matches Some(secs) ==> effective_timeout(raw, dotenv).0 == limit_of(secs),
        asked_seconds(raw) is None && asked_seconds(dotenv_limit(dotenv)) is Some ==> effective_timeout(raw, dotenv).0
            == limit_of(asked_seconds(dotenv_limit(dotenv))->0),
        asked_seconds(raw) is None && asked_seconds(dotenv_limit(dotenv)) is None ==> effective_timeout(raw, dotenv).0
            == Some(DEFAULT_TIMEOUT),
        effective_timeout(raw, dotenv).0 is None <==> (asked_seconds(raw) == Some(0u64) || (asked_seconds(raw) is None
            && asked_seconds(dotenv_limit(dotenv)) == Some(0u64))),
{
}

}
