//! Text assembly over `Seq<char>` models: joining with a separator and
//! wrapping in delimiters.

use itertools::Itertools;
use vstd::prelude::*;
use vstd::string::*;

verus! {

/// The character sequences of a list of strings, in order.
pub open spec fn texts(parts: Seq<String>) -> Seq<Seq<char>> {
    parts.map_values(|s: String| s@)
}

/// `parts` written one after another with `sep` between neighbours.
pub open spec fn join(parts: Seq<Seq<char>>, sep: Seq<char>) -> Seq<char>
    decreases parts.len(),
{
    if parts.len() == 0 {
        Seq::empty()
    } else if parts.len() == 1 {
        parts[0]
    } else {
        join(parts.drop_last(), sep) + sep + parts.last()
    }
}

/// `inner` between an opening and a closing delimiter.
pub open spec fn enclosed(open: Seq<char>, inner: Seq<char>, close: Seq<char>) -> Seq<char> {
    open + inner + close
}

/// Calls `itertools::Itertools::join` on the strings of `parts`.
///
/// Trusted: the result is the elements' text in order with `sep` between
/// neighbours, and the empty string for no elements. The separator is kept
/// short because the callee sizes its buffer by multiplying the separator's
/// byte length with the number of remaining elements.
#[verifier::external_body]
pub(crate) fn join_strings(parts: &Vec<String>, sep: &str) -> (joined: String)
    requires
        sep@.len() <= 8,
    ensures
        joined@ == join(texts(parts@), sep@),
{
    parts.iter().join(sep)
}

/// Puts `inner` between `open` and `close`.
pub fn enclose(open: &str, inner: &String, close: &str) -> (out: String)
    ensures
        out@ == enclosed(open@, inner@, close@),
{
    let mut out = String::from_str(open);
    out.append(inner.as_str());
    out.append(close);
    out
}

} // verus!
