//! Writing the index, where the service owns it.

use crate::clients::embedder::EMBEDDING_DIM;
use crate::error::RecallError;
use crate::ids::id_text;
#[allow(unused_imports)]
use crate::ids::id_view;
#[allow(unused_imports)]
use crate::json::{no_fields, JsonV, Num};
use crate::json::{Fields, Json};
#[allow(unused_imports)]
use crate::text::{decimal, trimmed};
use crate::text::{decimal_text, is_blank, same};
use crate::types::Timestamp;
use vstd::prelude::*;
use vstd::string::*;

verus! {

/// A chunk to be written. Its vector is made from its words where it brings none.
#[derive(Debug)]
pub struct UpsertChunk<T> {
    pub brain_id: u128,
    pub text: String,
    pub statement: String,
    pub embedding: Option<Vec<T>>,
    pub origin: String,
    pub grantor_brain_id: Option<u128>,
    pub grantor_name: Option<String>,
    pub sensitivity: String,
    pub valid_from: Option<Timestamp>,
    pub valid_to: Option<Timestamp>,
    pub state: String,
}

/// The sensitivity of a chunk that names none.
pub fn default_sensitivity() -> (r: String)
    ensures
        r@ == "normal"@,
{
    "normal".to_owned()
}

/// The state of a chunk that names none.
pub fn default_state() -> (r: String)
    ensures
        r@ == "active"@,
{
    "active".to_owned()
}

pub const SECRET_NEVER: &'static str = "sensitivity 'secret' is never indexed";

pub const PENDING_NEVER: &'static str = "state 'pending' is never indexed";

pub const NO_GRANTOR: &'static str = "granted chunks must carry a grantor_name";

pub const NO_WORDS: &'static str = "text and statement must be non-empty";

/// A word that is not known, and what it was meant for.
pub open spec fn unknown(what: Seq<char>, word: Seq<char>) -> Seq<char> {
    "unknown "@ + what + " '"@ + word + "'"@
}

/// How a vector of the wrong dimension is reported.
pub open spec fn wrong_dimension(got: nat) -> Seq<char> {
    "embedding must have "@ + decimal(EMBEDDING_DIM as nat) + " dimensions, got "@ + decimal(got)
}

/// A refusal because of one word.
fn unknown_word(what: &str, word: &str) -> (r: RecallError)
    ensures
        r matches RecallError::BadRequest(s) && s@ == unknown(what@, word@),
{
    let mut out = "unknown ".to_owned();
    out.append(what);
    out.append(" '");
    out.append(word);
    out.append("'");
    RecallError::BadRequest(out)
}

impl<T> UpsertChunk<T> {
    /// Why a chunk may not be written, the first reason first.
    pub open spec fn fault(self) -> Option<Seq<char>> {
        if self.sensitivity@ == "secret"@ {
            Some(SECRET_NEVER@)
        } else if self.state@ == "pending"@ {
            Some(PENDING_NEVER@)
        } else if self.sensitivity@ != "normal"@ && self.sensitivity@ != "sensitive"@ {
            Some(unknown("sensitivity"@, self.sensitivity@))
        } else if self.origin@ != "personal"@ && self.origin@ != "granted"@ {
            Some(unknown("origin"@, self.origin@))
        } else if self.origin@ == "granted"@ && self.grantor_name is None {
            Some(NO_GRANTOR@)
        } else if trimmed(self.text@).len() == 0 || trimmed(self.statement@).len() == 0 {
            Some(NO_WORDS@)
        } else {
            match self.embedding {
                Some(e) => if e@.len() != EMBEDDING_DIM {
                    Some(wrong_dimension(e@.len()))
                } else {
                    None
                },
                None => None,
            }
        }
    }

    /// The rules for what may be written, checked before the database does so that the caller is
    /// told which one is broken.
    pub fn validate(&self) -> (r: Result<(), RecallError>)
        ensures
            match r {
                Ok(_) => self.fault() is None,
                Err(e) => e matches RecallError::BadRequest(why) && self.fault() == Some(why@),
            },
    {
        let sensitivity = self.sensitivity.as_str();
        let origin = self.origin.as_str();
        if same(sensitivity, "secret") {
            return Err(RecallError::BadRequest(SECRET_NEVER.to_owned()));
        }
        if same(self.state.as_str(), "pending") {
            return Err(RecallError::BadRequest(PENDING_NEVER.to_owned()));
        }
        if !same(sensitivity, "normal") && !same(sensitivity, "sensitive") {
            return Err(unknown_word("sensitivity", sensitivity));
        }
        if !same(origin, "personal") && !same(origin, "granted") {
            return Err(unknown_word("origin", origin));
        }
        if same(origin, "granted") && self.grantor_name.is_none() {
            return Err(RecallError::BadRequest(NO_GRANTOR.to_owned()));
        }
        if is_blank(self.text.as_str()) || is_blank(self.statement.as_str()) {
            return Err(RecallError::BadRequest(NO_WORDS.to_owned()));
        }
        if let Some(e) = &self.embedding {
            if e.len() != EMBEDDING_DIM {
                let mut out = "embedding must have ".to_owned();
                out.append(decimal_text(EMBEDDING_DIM as u64).as_str());
                out.append(" dimensions, got ");
                out.append(decimal_text(e.len() as u64).as_str());
                return Err(RecallError::BadRequest(out));
            }
        }
        Ok(())
    }

    /// The words a chunk's vector is made from.
    pub fn embed_text(&self) -> (r: String)
        ensures
            r@ == self.statement@ + " "@ + self.text@,
    {
        let mut out = self.statement.clone();
        out.append(" ");
        out.append(self.text.as_str());
        out
    }
}

/// What is answered once a chunk was written.
pub fn put_reply(id: u128) -> (r: Json)
    ensures
        r@ == JsonV::Obj(
            no_fields().push(("id"@, JsonV::Str(id_view(id)))).push(("ok"@, JsonV::Bool(true))),
        ),
{
    let f = Fields::new().with("id", Json::Str(id_text(id))).with("ok", Json::Bool(true));
    f.done()
}

/// What is answered once a chunk was deleted.
pub fn delete_reply(id: u128, deleted: u64) -> (r: Json)
    ensures
        r@ == JsonV::Obj(
            no_fields().push(("id"@, JsonV::Str(id_view(id)))).push(
                ("deleted"@, JsonV::Num(Num::Uint(deleted))),
            ),
        ),
{
    let f = Fields::new().with("id", Json::Str(id_text(id))).with("deleted", Json::count(deleted));
    f.done()
}

/// Neither a secret chunk nor a pending one is ever written.
pub proof fn law_secret_and_pending_are_never_written<T>(chunk: UpsertChunk<T>)
    requires
        chunk.fault() is None,
    ensures
        chunk.sensitivity@ == "normal"@ || chunk.sensitivity@ == "sensitive"@,
        chunk.sensitivity@ != "secret"@,
        chunk.state@ != "pending"@,
{
}

} // verus!
