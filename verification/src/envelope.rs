//! Classification of raw inbound relay messages.
//!
//! A relay speaks in JSON arrays whose first element is a string tag. The
//! classifier inspects only a literal prefix of the raw text — the opening
//! bracket, the quote and the tag characters — and never parses the full
//! structure; anything that does not open with one of the five known tags is
//! `Unsupported`.

use vstd::prelude::*;
use vstd::string::StrSliceExecFns;

verus! {

/// One inbound message, classified by its leading tag. Every variant keeps
/// the raw text it was classified from.
#[derive(Debug, Clone, PartialEq)]
pub enum Response {
    Event(String),
    Notice(String),
    Okay(String),
    EOSE(String),
    Count(String),
    Unsupported(String),
}

/// `p` is a literal prefix of `s`.
pub open spec fn has_prefix(s: Seq<char>, p: Seq<char>) -> bool {
    p.len() <= s.len() && s.subrange(0, p.len() as int) == p
}

pub open spec fn event_tag() -> Seq<char> {
    "[\"EVENT\""@
}

pub open spec fn notice_tag() -> Seq<char> {
    "[\"NOTICE\""@
}

pub open spec fn ok_tag() -> Seq<char> {
    "[\"OK\""@
}

pub open spec fn eose_tag() -> Seq<char> {
    "[\"EOSE\""@
}

pub open spec fn count_tag() -> Seq<char> {
    "[\"COUNT\""@
}

/// The text opens with one of the five recognized tags.
pub open spec fn begins_with_known_tag(t: Seq<char>) -> bool {
    ||| has_prefix(t, event_tag())
    ||| has_prefix(t, notice_tag())
    ||| has_prefix(t, ok_tag())
    ||| has_prefix(t, eose_tag())
    ||| has_prefix(t, count_tag())
}

/// What `Response::from_string` returns: the first matching tag wins, and the
/// order of the checks is immaterial because the tags are mutually exclusive
/// (see `lemma_tags_mutually_exclusive`).
pub open spec fn spec_classify(s: String) -> Response {
    if has_prefix(s@, event_tag()) {
        Response::Event(s)
    } else if has_prefix(s@, notice_tag()) {
        Response::Notice(s)
    } else if has_prefix(s@, ok_tag()) {
        Response::Okay(s)
    } else if has_prefix(s@, eose_tag()) {
        Response::EOSE(s)
    } else if has_prefix(s@, count_tag()) {
        Response::Count(s)
    } else {
        Response::Unsupported(s)
    }
}

/// `p` is a literal prefix of `s`.
fn starts_with(s: &str, p: &str) -> (b: bool)
    ensures
        b == has_prefix(s@, p@),
{
    let plen = p.unicode_len();
    let slen = s.unicode_len();
    if plen > slen {
        return false;
    }
    let mut i: usize = 0;
    while i < plen
        invariant
            i <= plen,
            plen == p@.len(),
            slen == s@.len(),
            plen <= slen,
            forall|j: int| 0 <= j < i ==> s@[j] == p@[j],
        decreases plen - i,
    {
        if s.get_char(i) != p.get_char(i) {
            proof {
                assert(!has_prefix(s@, p@)) by {
                    if has_prefix(s@, p@) {
                        assert(s@.subrange(0, p@.len() as int)[i as int] == s@[i as int]);
                    }
                }
            }
            return false;
        }
        i += 1;
    }
    proof {
        assert(s@.subrange(0, p@.len() as int) =~= p@);
    }
    true
}

impl Response {
    /// Classify one raw inbound message by its literal tag prefix.
    pub fn from_string(s: String) -> (r: Response)
        ensures
            r == spec_classify(s),
    {
        if starts_with(s.as_str(), "[\"EVENT\"") {
            Response::Event(s)
        } else if starts_with(s.as_str(), "[\"NOTICE\"") {
            Response::Notice(s)
        } else if starts_with(s.as_str(), "[\"OK\"") {
            Response::Okay(s)
        } else if starts_with(s.as_str(), "[\"EOSE\"") {
            Response::EOSE(s)
        } else if starts_with(s.as_str(), "[\"COUNT\"") {
            Response::Count(s)
        } else {
            Response::Unsupported(s)
        }
    }
}

/// Classification is total — it always yields exactly one variant — and the
/// variant is `Unsupported` exactly when the text opens with none of the five
/// recognized tags.
pub proof fn lemma_classify_unsupported(s: String)
    ensures
        (spec_classify(s) is Unsupported) <==> !begins_with_known_tag(s@),
{
}

/// A matched prefix pins down the characters of the text it matched.
proof fn lemma_prefix_index(t: Seq<char>, p: Seq<char>, i: int)
    requires
        has_prefix(t, p),
        0 <= i < p.len(),
    ensures
        t[i] == p[i],
{
    assert(t.subrange(0, p.len() as int)[i] == t[i]);
}

/// At most one of the five tag prefixes can match a given text, so the order
/// in which `from_string` tries them is immaterial.
pub proof fn lemma_tags_mutually_exclusive(t: Seq<char>)
    ensures
        has_prefix(t, event_tag()) ==> !has_prefix(t, notice_tag()) && !has_prefix(t, ok_tag())
            && !has_prefix(t, eose_tag()) && !has_prefix(t, count_tag()),
        has_prefix(t, notice_tag()) ==> !has_prefix(t, ok_tag()) && !has_prefix(t, eose_tag())
            && !has_prefix(t, count_tag()),
        has_prefix(t, ok_tag()) ==> !has_prefix(t, eose_tag()) && !has_prefix(t, count_tag()),
        has_prefix(t, eose_tag()) ==> !has_prefix(t, count_tag()),
{
    reveal_strlit("[\"EVENT\"");
    reveal_strlit("[\"NOTICE\"");
    reveal_strlit("[\"OK\"");
    reveal_strlit("[\"EOSE\"");
    reveal_strlit("[\"COUNT\"");
    // The tags pairwise disagree at character 2, except EVENT and EOSE,
    // which disagree at character 3.
    if has_prefix(t, event_tag()) {
        lemma_prefix_index(t, event_tag(), 2);
        lemma_prefix_index(t, event_tag(), 3);
    }
    if has_prefix(t, notice_tag()) {
        lemma_prefix_index(t, notice_tag(), 2);
    }
    if has_prefix(t, ok_tag()) {
        lemma_prefix_index(t, ok_tag(), 2);
    }
    if has_prefix(t, eose_tag()) {
        lemma_prefix_index(t, eose_tag(), 2);
        lemma_prefix_index(t, eose_tag(), 3);
    }
    if has_prefix(t, count_tag()) {
        lemma_prefix_index(t, count_tag(), 2);
    }
}

} // verus!
