//! The embedder: its request, and what its answer must look like.

#[allow(unused_imports)]
use crate::clients::unslashed;
use crate::clients::{address, trim_slashes};
use crate::error::{RecallError, Result};
#[allow(unused_imports)]
use crate::json::{items_view, lemma_items_push, no_fields, JsonV};
use crate::json::{Fields, Json};
#[allow(unused_imports)]
use crate::text::decimal;
use crate::text::decimal_text;
use crate::types::Stage;
use vstd::prelude::*;
use vstd::string::*;

verus! {

/// The dimension of the vectors in the index.
pub const EMBEDDING_DIM: usize = 768;

/// Where the embedder is reached.
#[derive(Debug)]
pub struct EmbedderClient {
    pub base_url: String,
}

/// A request for the vectors of some texts.
pub open spec fn embed_view(texts: Seq<String>) -> JsonV {
    JsonV::Obj(
        no_fields().push(
            ("input"@, JsonV::Arr(texts.map_values(|t: String| JsonV::Str(t@)))),
        ).push(("model"@, JsonV::Str("recall-embed"@))),
    )
}

/// Whether `e` says that the embedder answered with what cannot be used.
pub open spec fn unusable(e: RecallError, why: Seq<char>) -> bool {
    e matches RecallError::UpstreamStatus { stage, status, body } && stage == Stage::Embed && status
        == 502 && body@ == why
}

/// How an answer with the wrong number of vectors is reported.
pub open spec fn wrong_count(got: nat, wanted: nat) -> Seq<char> {
    "embedder returned "@ + decimal(got) + " vectors for "@ + decimal(wanted) + " inputs"@
}

/// How a vector of the wrong dimension is reported.
pub open spec fn wrong_dim(got: nat) -> Seq<char> {
    "embedder returned dim "@ + decimal(got) + " but the index expects "@ + decimal(
        EMBEDDING_DIM as nat,
    )
}

impl EmbedderClient {
    pub fn new(base_url: &str) -> (r: EmbedderClient)
        ensures
            r.base_url@ == unslashed(base_url@),
    {
        EmbedderClient { base_url: trim_slashes(base_url) }
    }

    /// Where texts are posted.
    pub fn endpoint(&self) -> (r: String)
        ensures
            r@ == self.base_url@ + "/v1/embeddings"@,
    {
        address(self.base_url.as_str(), "/v1/embeddings")
    }

    /// A request for the vectors of some texts.
    pub fn request(texts: &[String]) -> (r: Json)
        ensures
            r@ == embed_view(texts@),
    {
        let ghost all = texts@.map_values(|t: String| JsonV::Str(t@));
        let mut list: Vec<Json> = Vec::new();
        let mut i: usize = 0;
        while i < texts.len()
            invariant
                i <= texts@.len(),
                all == texts@.map_values(|t: String| JsonV::Str(t@)),
                items_view(list@) == all.take(i as int),
            decreases texts@.len() - i,
        {
            let t = Json::text(texts[i].as_str());
            proof {
                lemma_items_push(list@, t);
            }
            list.push(t);
            assert(items_view(list@) =~= all.take(i + 1));
            i = i + 1;
        }
        assert(all.take(i as int) =~= all);
        let f = Fields::new().with("input", Json::array(list)).with(
            "model",
            Json::text("recall-embed"),
        );
        f.done()
    }
}

/// Accepts an answer with one vector for each text, the first of the dimension of the index: a
/// mismatch would otherwise come up much later, as an error of the database.
pub fn accept_vectors<T>(vectors: Vec<Vec<T>>, inputs: usize) -> (r: Result<Vec<Vec<T>>>)
    ensures
        match r {
            Ok(v) => v == vectors && v@.len() == inputs && (v@.len() > 0 ==> v@[0]@.len()
                == EMBEDDING_DIM),
            Err(e) => if vectors@.len() != inputs {
                unusable(e, wrong_count(vectors@.len(), inputs as nat))
            } else {
                vectors@.len() > 0 && vectors@[0]@.len() != EMBEDDING_DIM && unusable(
                    e,
                    wrong_dim(vectors@[0]@.len()),
                )
            },
        },
{
    if vectors.len() != inputs {
        let mut body = "embedder returned ".to_owned();
        body.append(decimal_text(vectors.len() as u64).as_str());
        body.append(" vectors for ");
        body.append(decimal_text(inputs as u64).as_str());
        body.append(" inputs");
        return Err(RecallError::UpstreamStatus { stage: Stage::Embed, status: 502, body });
    }
    if vectors.len() > 0 && vectors[0].len() != EMBEDDING_DIM {
        let mut body = "embedder returned dim ".to_owned();
        body.append(decimal_text(vectors[0].len() as u64).as_str());
        body.append(" but the index expects ");
        body.append(decimal_text(EMBEDDING_DIM as u64).as_str());
        return Err(RecallError::UpstreamStatus { stage: Stage::Embed, status: 502, body });
    }
    Ok(vectors)
}

/// The last of the vectors.
pub fn only_vector<T>(vectors: Vec<Vec<T>>) -> (r: Result<Vec<T>>)
    ensures
        match r {
            Ok(v) => vectors@.len() > 0 && v == vectors@.last(),
            Err(e) => vectors@.len() == 0 && unusable(e, "embedder returned no vectors"@),
        },
{
    let mut vectors = vectors;
    match vectors.pop() {
        Some(v) => Ok(v),
        None => Err(
            RecallError::UpstreamStatus {
                stage: Stage::Embed,
                status: 502,
                body: "embedder returned no vectors".to_owned(),
            },
        ),
    }
}

/// One text has one vector, of the dimension of the index: an accepted answer to one text is
/// never found to be empty.
pub proof fn law_one_text_has_one_vector<T>(
    vectors: Vec<Vec<T>>,
    accepted: Result<Vec<Vec<T>>>,
    taken: Result<Vec<T>>,
)
    requires
        call_ensures(accept_vectors::<T>, (vectors, 1), accepted),
        accepted matches Ok(v) && call_ensures(only_vector::<T>, (v,), taken),
    ensures
        taken matches Ok(v) && v@.len() == EMBEDDING_DIM,
{
}

} // verus!
