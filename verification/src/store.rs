//! What is kept of an ask: the question, every candidate with its score and whether it was
//! admitted, and how long each stage took. The rejected ones are kept on purpose: a fit of the
//! thresholds needs them.

use crate::ids::id_text;
#[allow(unused_imports)]
use crate::ids::id_view;
#[allow(unused_imports)]
use crate::json::{items_view, lemma_items_push, no_fields, real_view, JsonV, Num};
use crate::json::{Fields, Json};
use crate::score::Score;
use crate::types::{Ask, Candidate, Citation, StageRecord};
use vstd::prelude::*;

verus! {

/// The first citation of a memory.
pub open spec fn cited_as(cites: Seq<Citation>, id: u128) -> Option<Citation>
    decreases cites.len(),
{
    if cites.len() == 0 {
        None
    } else if cites.first().id == id {
        Some(cites.first())
    } else {
        cited_as(cites.drop_first(), id)
    }
}

/// The first citation of a memory.
fn find_cited(cites: &Vec<Citation>, id: u128) -> (r: Option<&Citation>)
    ensures
        r is Some <==> cited_as(cites@, id) is Some,
        r matches Some(c) ==> cited_as(cites@, id) == Some(*c),
{
    let mut i: usize = 0;
    assert(cites@.skip(0) =~= cites@);
    while i < cites.len()
        invariant
            i <= cites@.len(),
            cited_as(cites@, id) == cited_as(cites@.skip(i as int), id),
        decreases cites@.len() - i,
    {
        assert(cites@.skip(i as int).first() == cites@[i as int]);
        assert(cites@.skip(i as int).drop_first() =~= cites@.skip(i + 1));
        if cites[i].id == id {
            return Some(&cites[i]);
        }
        i = i + 1;
    }
    None
}

pub open spec fn opt_real_view(s: Option<Score>) -> JsonV {
    match s {
        Some(x) => real_view(x),
        None => JsonV::Null,
    }
}

fn opt_double(s: Option<Score>) -> (r: Json)
    ensures
        r@ == opt_real_view(s),
{
    match s {
        Some(x) => Json::double(x),
        None => Json::Null,
    }
}

/// What is kept of a candidate: its score is that of its citation where it was admitted.
pub open spec fn candidate_view(admitted: Seq<Citation>, c: Candidate) -> JsonV {
    let cited = cited_as(admitted, c.id);
    JsonV::Obj(
        no_fields().push(("id"@, JsonV::Str(id_view(c.id)))).push(
            (
                "noul"@,
                opt_real_view(
                    match cited {
                        Some(a) => Some(a.noul),
                        None => c.noul,
                    },
                ),
            ),
        ).push(("admitted"@, JsonV::Bool(cited is Some))).push(
            ("rrf_score"@, real_view(c.rrf_score)),
        ),
    )
}

pub open spec fn candidates_view(ask: Ask) -> JsonV {
    JsonV::Arr(ask.candidates@.map_values(|c: Candidate| candidate_view(ask.admitted@, c)))
}

pub open spec fn admitted_view(ask: Ask) -> JsonV {
    JsonV::Arr(ask.admitted@.map_values(|c: Citation| JsonV::Str(id_view(c.id))))
}

pub open spec fn stage_view(s: StageRecord) -> JsonV {
    JsonV::Obj(
        no_fields().push(("stage"@, JsonV::Str(s.stage.name()))).push(
            ("ms"@, JsonV::Num(Num::Uint(s.ms))),
        ).push(("ok"@, JsonV::Bool(s.ok))),
    )
}

pub open spec fn stages_view(ask: Ask) -> JsonV {
    JsonV::Arr(ask.stages@.map_values(|s: StageRecord| stage_view(s)))
}

/// What is kept of an ask beside its plain columns.
#[derive(Debug)]
pub struct AskRecord {
    pub candidates: Json,
    pub admitted_ids: Json,
    pub stages: Json,
}

/// What is kept of the candidates.
fn candidates_json(ask: &Ask) -> (r: Json)
    ensures
        r@ == candidates_view(*ask),
{
    let ghost all = ask.candidates@.map_values(|c: Candidate| candidate_view(ask.admitted@, c));
    let mut list: Vec<Json> = Vec::new();
    let mut i: usize = 0;
    while i < ask.candidates.len()
        invariant
            i <= ask.candidates@.len(),
            all == ask.candidates@.map_values(
                |c: Candidate| candidate_view(ask.admitted@, c),
            ),
            items_view(list@) == all.take(i as int),
        decreases ask.candidates@.len() - i,
    {
        let c = &ask.candidates[i];
        let cited = find_cited(&ask.admitted, c.id);
        let noul: Option<Score> = match cited {
            Some(a) => Some(a.noul),
            None => c.noul,
        };
        let f = Fields::new().with("id", Json::Str(id_text(c.id))).with(
            "noul",
            opt_double(noul),
        ).with("admitted", Json::Bool(cited.is_some())).with("rrf_score", Json::double(c.rrf_score));
        let one = f.done();
        proof {
            lemma_items_push(list@, one);
        }
        list.push(one);
        assert(items_view(list@) =~= all.take(i + 1));
        i = i + 1;
    }
    assert(all.take(i as int) =~= all);
    Json::array(list)
}

/// The ids of the admitted memories.
fn admitted_json(ask: &Ask) -> (r: Json)
    ensures
        r@ == admitted_view(*ask),
{
    let ghost all = ask.admitted@.map_values(|c: Citation| JsonV::Str(id_view(c.id)));
    let mut list: Vec<Json> = Vec::new();
    let mut i: usize = 0;
    while i < ask.admitted.len()
        invariant
            i <= ask.admitted@.len(),
            all == ask.admitted@.map_values(|c: Citation| JsonV::Str(id_view(c.id))),
            items_view(list@) == all.take(i as int),
        decreases ask.admitted@.len() - i,
    {
        let one = Json::Str(id_text(ask.admitted[i].id));
        proof {
            lemma_items_push(list@, one);
        }
        list.push(one);
        assert(items_view(list@) =~= all.take(i + 1));
        i = i + 1;
    }
    assert(all.take(i as int) =~= all);
    Json::array(list)
}

/// How the stages went.
fn stages_json(ask: &Ask) -> (r: Json)
    ensures
        r@ == stages_view(*ask),
{
    let ghost all = ask.stages@.map_values(|s: StageRecord| stage_view(s));
    let mut list: Vec<Json> = Vec::new();
    let mut i: usize = 0;
    while i < ask.stages.len()
        invariant
            i <= ask.stages@.len(),
            all == ask.stages@.map_values(|s: StageRecord| stage_view(s)),
            items_view(list@) == all.take(i as int),
        decreases ask.stages@.len() - i,
    {
        let s = ask.stages[i];
        let f = Fields::new().with("stage", Json::text(s.stage.as_str())).with(
            "ms",
            Json::count(s.ms),
        ).with("ok", Json::Bool(s.ok));
        let one = f.done();
        proof {
            lemma_items_push(list@, one);
        }
        list.push(one);
        assert(items_view(list@) =~= all.take(i + 1));
        i = i + 1;
    }
    assert(all.take(i as int) =~= all);
    Json::array(list)
}

/// What is kept of an ask beside its plain columns.
pub fn record_of(ask: &Ask) -> (r: AskRecord)
    ensures
        r.candidates@ == candidates_view(*ask),
        r.admitted_ids@ == admitted_view(*ask),
        r.stages@ == stages_view(*ask),
{
    AskRecord {
        candidates: candidates_json(ask),
        admitted_ids: admitted_json(ask),
        stages: stages_json(ask),
    }
}

} // verus!
