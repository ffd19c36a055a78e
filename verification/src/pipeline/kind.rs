//! The first decision: what kind of question is this? A switch, not a rewrite.

use crate::clients::systemone::KindResult;
use crate::score::Score;
use crate::text::same;
use vstd::prelude::*;

verus! {

/// What the question is taken for.
#[derive(Debug)]
pub struct KindChoice {
    pub kind: String,
    pub confidence: Score,
    /// Whether the scorer was not sure enough for its own choice to stand.
    pub fell_back: bool,
}

/// The kind a question is taken for where the scorer is not sure.
pub const FALLBACK_KIND: &'static str = "atomic_lookup";

/// Takes the scorer's choice, or a plain lookup where the scorer is not sure enough.
pub fn settle_kind(k: &KindResult, min: Score) -> (r: KindChoice)
    ensures
        r.fell_back == k.confidence.below(min),
        r.kind@ == if r.fell_back {
            FALLBACK_KIND@
        } else {
            k.choice@
        },
        r.confidence == k.confidence,
{
    let fell_back = k.confidence.lt(min);
    let kind: String = if fell_back {
        FALLBACK_KIND.to_owned()
    } else {
        k.choice.clone()
    };
    KindChoice { kind, confidence: k.confidence, fell_back }
}

/// Whether a question is small talk, and surely so.
pub open spec fn small_talk(kind: Seq<char>, confidence: Score, min: Score) -> bool {
    kind == "chitchat"@ && min.at_most(confidence)
}

/// Whether a question is small talk, and surely so.
pub fn is_chitchat(kind: &str, confidence: Score, min: Score) -> (r: bool)
    ensures
        r == small_talk(kind@, confidence, min),
{
    same(kind, "chitchat") && confidence.ge(min)
}

/// Where the scorer is not sure enough, no question is taken for small talk.
pub proof fn law_unsure_is_no_small_talk(confidence: Score, min: Score)
    requires
        confidence.below(min),
    ensures
        forall|kind: Seq<char>| !small_talk(kind, confidence, min),
{
}

} // verus!
