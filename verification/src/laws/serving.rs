//! What the service promises at its edge: who may ask, what may be written, what is answered and
//! when it starts.

#[allow(unused_imports)]
use crate::clients::embedder::{accept_vectors, only_vector, EmbedderClient};
#[allow(unused_imports)]
use crate::clients::generator::GeneratorClient;
#[allow(unused_imports)]
use crate::clients::systemone::{filter_request_at, SystemOneClient};
#[allow(unused_imports)]
use crate::clients::{refusal, success, trim_slashes, unslashed};
#[allow(unused_imports)]
use crate::config::{embedder_key, var_in, Config, ConfigError, Env};
#[allow(unused_imports)]
use crate::error::{after_attempt, ErrorReply, IndexFault, RecallError, Retry};
#[allow(unused_imports)]
use crate::http::auth::require_service_token;
#[allow(unused_imports)]
use crate::http::health::{probed, readyz, Check};
#[allow(unused_imports)]
use crate::http::index::UpsertChunk;
#[allow(unused_imports)]
use crate::http::{router, served, Handler, Method, Route};
#[allow(unused_imports)]
use crate::json::{json_of, Json, JsonV, Num};
#[allow(unused_imports)]
use crate::laws::verdicts::law_has;
#[allow(unused_imports)]
use crate::score::Score;
#[allow(unused_imports)]
use crate::text::{begins, decimal, occurs_at, signed_within, trimmed, unsigned_within};
#[allow(unused_imports)]
use crate::types::{AdmittedCitations, Ask, AskRequest, Candidate, Citation, Stage, Timestamp};
#[allow(unused_imports)]
use crate::when::rfc3339_of;
use vstd::prelude::*;

verus! {

// ---------------------------------------------------------------------------------------------
// The token
// ---------------------------------------------------------------------------------------------

/// A request passes exactly where a token is expected and the header is that token after
/// `Bearer `, white space around it aside. Without an expected token nothing passes.
pub proof fn law_who_may_ask(
    expected: Option<&str>,
    header: Option<&str>,
    r: Result<(), &'static str>,
)
    requires
        call_ensures(require_service_token, (expected, header), r),
    ensures
        r is Ok <==> (expected matches Some(t) && (header matches Some(h) && exists|rest: Seq<char>|
            h@ == #[trigger] ("Bearer "@ + rest) && trimmed(rest) == t@)),
        expected is None ==> (r matches Err(why) && why@ == "service token not configured"@),
        expected is Some && header is None ==> (r matches Err(why) && why@
            == "missing Bearer service token"@),
        expected is Some && r is Err && (header matches Some(h) && exists|rest: Seq<char>|
            h@ == #[trigger] ("Bearer "@ + rest)) ==> (r matches Err(why) && why@
            == "invalid service token"@),
        expected is Some && (header matches Some(h) && !(exists|rest: Seq<char>|
            h@ == #[trigger] ("Bearer "@ + rest))) ==> (r matches Err(why) && why@
            == "missing Bearer service token"@),
{
    if let Some(h) = header {
        lemma_bearer(h@);
    }
}

proof fn lemma_bearer(h: Seq<char>)
    ensures
        begins(h, "Bearer "@) <==> exists|rest: Seq<char>| h == #[trigger] ("Bearer "@ + rest),
        forall|rest: Seq<char>| h == #[trigger] ("Bearer "@ + rest) ==> rest == h.skip(
            "Bearer "@.len() as int,
        ),
        begins(h, "Bearer "@) ==> h == "Bearer "@ + h.skip("Bearer "@.len() as int),
{
    let b = "Bearer "@;
    let n = b.len() as int;
    if begins(h, b) {
        assert(h =~= b + h.skip(n)) by {
            assert forall|k: int| 0 <= k < h.len() implies h[k] == (b + h.skip(n))[k] by {
                if k < n {
                    assert(h.subrange(0, n)[k] == b[k]);
                }
            }
        }
    }
    assert forall|rest: Seq<char>| h == #[trigger] (b + rest) implies rest == h.skip(n) by {
        assert((b + rest).skip(n) =~= rest);
    }
    if exists|rest: Seq<char>| h == #[trigger] (b + rest) {
        let rest = choose|rest: Seq<char>| h == #[trigger] (b + rest);
        assert(h.subrange(0, n) =~= b);
        assert(occurs_at(h, b, 0));
    }
}

// ---------------------------------------------------------------------------------------------
// Routes
// ---------------------------------------------------------------------------------------------

/// Every handler is served at one route, with its method and path and behind the token unless it
/// only tells how the service is; those that write the index only where that is enabled.
pub proof fn law_routes(index_writes: bool, r: Vec<Route>, h: Handler)
    requires
        call_ensures(router, (index_writes,), r),
    ensures
        (exists|k: int| 0 <= k < r@.len() && (#[trigger] r@[k]).handler == h) <==> index_writes || (
        h != Handler::PutChunk && h != Handler::DeleteChunk),
        forall|j: int, k: int|
            0 <= j < k < r@.len() ==> (#[trigger] r@[j]).handler != (#[trigger] r@[k]).handler,
        forall|k: int|
            0 <= k < r@.len() ==> {
                let x = #[trigger] r@[k];
                &&& x.protected <==> x.handler != Handler::Healthz && x.handler != Handler::Readyz
                &&& x.handler == Handler::AskStream ==> x.method == Method::Post && x.path@
                    == "/v1/ask"@
                &&& x.handler == Handler::AskSync ==> x.method == Method::Post && x.path@
                    == "/v1/ask/sync"@
                &&& x.handler == Handler::GetAsk ==> x.method == Method::Get && x.path@
                    == "/v1/asks/{ask_id}"@
                &&& x.handler == Handler::PutChunk ==> x.method == Method::Put && x.path@
                    == "/v1/index/chunks/{id}"@
                &&& x.handler == Handler::DeleteChunk ==> x.method == Method::Delete && x.path@
                    == "/v1/index/chunks/{id}"@
                &&& x.handler == Handler::Healthz ==> x.method == Method::Get && x.path@
                    == "/healthz"@
                &&& x.handler == Handler::Readyz ==> x.method == Method::Get && x.path@
                    == "/readyz"@
            },
{
    let hs = r@.map_values(|x: Route| x.handler);
    assert(served(index_writes).contains(h) <==> hs.contains(h)) by {
        assert(hs.to_set().contains(h) <==> hs.contains(h));
    }
    if hs.contains(h) {
        let k = choose|k: int| 0 <= k < hs.len() && hs[k] == h;
        assert(r@[k].handler == h);
    }
    if exists|k: int| 0 <= k < r@.len() && (#[trigger] r@[k]).handler == h {
        let k = choose|k: int| 0 <= k < r@.len() && (#[trigger] r@[k]).handler == h;
        assert(hs[k] == h);
    }
    assert forall|j: int, k: int| 0 <= j < k < r@.len() implies (#[trigger] r@[j]).handler != (
    #[trigger] r@[k]).handler by {
        assert(hs[j] != hs[k]);
    }
}

// ---------------------------------------------------------------------------------------------
// Writing the index
// ---------------------------------------------------------------------------------------------

/// A chunk is written exactly where it is normal or sensitive, is not pending, is personal or
/// comes from a named grantor, has words in its text and in its statement, and brings a vector of
/// the right size or none.
pub proof fn law_what_may_be_written<T>(chunk: &UpsertChunk<T>, r: Result<(), RecallError>)
    requires
        call_ensures(UpsertChunk::<T>::validate, (chunk,), r),
    ensures
        r is Ok <==> {
            &&& chunk.sensitivity@ == "normal"@ || chunk.sensitivity@ == "sensitive"@
            &&& chunk.state@ != "pending"@
            &&& chunk.origin@ == "personal"@ || (chunk.origin@ == "granted"@
                && chunk.grantor_name is Some)
            &&& trimmed(chunk.text@).len() > 0
            &&& trimmed(chunk.statement@).len() > 0
            &&& chunk.embedding matches Some(e) ==> e@.len() == 768
        },
        r matches Err(e) ==> e is BadRequest,
        chunk.sensitivity@ == "secret"@ ==> (r matches Err(RecallError::BadRequest(why)) && why@
            == "sensitivity 'secret' is never indexed"@),
        chunk.sensitivity@ != "secret"@ && chunk.state@ == "pending"@ ==> (r matches Err(
            RecallError::BadRequest(why),
        ) && why@ == "state 'pending' is never indexed"@),
{
    reveal_strlit("secret");
    reveal_strlit("normal");
    reveal_strlit("sensitive");
    reveal_strlit("personal");
    reveal_strlit("granted");
    assert("secret"@[1] == 'e' && "normal"@[1] == 'o');
    assert("secret"@.len() == 6 && "sensitive"@.len() == 9);
    assert("personal"@.len() == 8 && "granted"@.len() == 7);
}

/// A chunk's vector is made from its statement and its text, with a space between them.
pub proof fn law_words_of_a_vector<T>(chunk: &UpsertChunk<T>, r: String)
    requires
        call_ensures(UpsertChunk::<T>::embed_text, (chunk,), r),
    ensures
        r@.len() == chunk.statement@.len() + 1 + chunk.text@.len(),
        r@.take(chunk.statement@.len() as int) == chunk.statement@,
        r@[chunk.statement@.len() as int] == ' ',
        r@.skip((chunk.statement@.len() + 1) as int) == chunk.text@,
{
    reveal_strlit(" ");
    assert(r@.take(chunk.statement@.len() as int) =~= chunk.statement@);
    assert(r@.skip((chunk.statement@.len() + 1) as int) =~= chunk.text@);
}

// ---------------------------------------------------------------------------------------------
// Vectors
// ---------------------------------------------------------------------------------------------

/// An answer of the embedder is taken over exactly where it has as many vectors as there were
/// texts and the first, if there is one, has the size that the index expects.
pub proof fn law_vectors_accepted<T>(
    vectors: Vec<Vec<T>>,
    inputs: usize,
    r: Result<Vec<Vec<T>>, RecallError>,
)
    requires
        call_ensures(accept_vectors::<T>, (vectors, inputs), r),
    ensures
        r is Ok <==> vectors@.len() == inputs && (vectors@.len() > 0 ==> vectors@[0]@.len() == 768),
        r matches Ok(v) ==> v == vectors,
        r matches Err(e) ==> (e matches RecallError::UpstreamStatus { stage, status, .. } && stage
            == Stage::Embed && status == 502),
{
}

// ---------------------------------------------------------------------------------------------
// Refusals and retries
// ---------------------------------------------------------------------------------------------

/// What an upstream answers is an error exactly where its status is not in the two hundreds; the
/// error keeps the status, the stage, and as much of the body as is kept.
pub proof fn law_refusals(stage: Stage, status: u16, body: &str, r: Option<RecallError>)
    requires
        call_ensures(refusal, (stage, status, body), r),
    ensures
        r is None <==> 200 <= status <= 299,
        r matches Some(e) ==> (e matches RecallError::UpstreamStatus { stage: s, status: t, body: b }
            && s == stage && t == status && b@.len() <= 500 && b@ == body@.take(b@.len() as int)
            && (body@.len() <= 500 ==> b@ == body@) && (body@.len() > 500 ==> b@.len() == 500)),
{
    assert(body@.take(body@.len() as int) =~= body@);
}

/// A failure is tried again exactly once, and only where it was a timeout, a connection that
/// failed, an overload or an error of the server, or a fault of the pool: never where the caller
/// was wrong.
pub proof fn law_retries<T>(first: bool, outcome: Result<T, RecallError>, r: Retry<T>)
    requires
        call_ensures(after_attempt::<T>, (first, outcome), r),
    ensures
        r is Again <==> first && (outcome matches Err(e) && match e {
            RecallError::Timeout { .. } => true,
            RecallError::Upstream { timeout, connect, request, .. } => timeout || connect
                || request,
            RecallError::UpstreamStatus { status, .. } => status == 429 || status >= 500,
            RecallError::Index { fault, .. } => fault == IndexFault::PoolTimedOut || fault
                == IndexFault::Io || fault == IndexFault::PoolClosed,
            RecallError::BadRequest(_) => false,
            RecallError::AtCapacity => false,
            RecallError::NotFound => false,
        }),
        r matches Retry::Give(given) ==> given == outcome,
{
}

/// The status and the code of each refusal, and who is told when to come back.
pub proof fn law_replies(e: &RecallError, r: ErrorReply)
    requires
        call_ensures(RecallError::reply, (e,), r),
    ensures
        *e is Timeout ==> r.status == 504 && r.code@ == "timeout"@,
        *e is Upstream || *e is UpstreamStatus ==> r.status == 502 && r.code@ == "upstream_error"@,
        *e is Index ==> r.status == 500 && r.code@ == "index_error"@,
        *e is BadRequest ==> r.status == 400 && r.code@ == "bad_request"@,
        *e is AtCapacity ==> r.status == 503 && r.code@ == "at_capacity"@,
        *e is NotFound ==> r.status == 404 && r.code@ == "not_found"@,
        r.retry_after is Some <==> *e is AtCapacity,
        r.retry_after matches Some(secs) ==> secs == 2,
{
}

/// What a refusal says names the stage and what went wrong there.
pub proof fn law_words_of_a_refusal(e: &RecallError, r: String)
    requires
        call_ensures(RecallError::message, (e,), r),
    ensures
        match *e {
            RecallError::Timeout { stage, ms } => r@ == stage.name() + (" timed out after "@
                + decimal(ms as nat) + "ms"@),
            RecallError::Upstream { stage, source, .. } => r@ == stage.name() + (
            " upstream failed: "@ + source@),
            RecallError::UpstreamStatus { stage, status, body } => r@ == stage.name() + (
            " returned "@ + decimal(status as nat) + ": "@ + body@),
            RecallError::Index { source, .. } => r@ == "index query failed: "@ + source@,
            RecallError::BadRequest(why) => r@ == "invalid request: "@ + why@,
            RecallError::AtCapacity => r@ == "at capacity"@,
            RecallError::NotFound => r@ == "ask not found"@,
        },
{
    match *e {
        RecallError::Timeout { stage, ms } => {
            assert(r@ =~= stage.name() + (" timed out after "@ + decimal(ms as nat) + "ms"@));
        },
        RecallError::Upstream { stage, source, .. } => {
            assert(r@ =~= stage.name() + (" upstream failed: "@ + source@));
        },
        RecallError::UpstreamStatus { stage, status, body } => {
            assert(r@ =~= stage.name() + (" returned "@ + decimal(status as nat) + ": "@ + body@));
        },
        _ => {},
    }
}

// ---------------------------------------------------------------------------------------------
// Readiness
// ---------------------------------------------------------------------------------------------

/// The service is ready exactly where the index, the embedder, the scorer and the generator all
/// are, and says of each whether it is.
pub proof fn law_readiness(
    index: Check,
    embedder: Check,
    system_one: Check,
    generator: Check,
    cfg: &Config,
    r: (u16, Json),
)
    requires
        call_ensures(readyz, (index, embedder, system_one, generator, cfg), r),
    ensures
        r.0 == 200 <==> index.ok && embedder.ok && system_one.ok && generator.ok,
        r.0 == 200 || r.0 == 503,
        r.1@ matches JsonV::Obj(f) && {
            &&& f.len() == 11
            &&& f.contains(
                ("ok"@, JsonV::Bool(index.ok && embedder.ok && system_one.ok && generator.ok)),
            )
            &&& f.contains(("index"@, JsonV::Bool(index.ok)))
            &&& f.contains(("embedder"@, JsonV::Bool(embedder.ok)))
            &&& f.contains(("system_one"@, JsonV::Bool(system_one.ok)))
            &&& f.contains(("generator"@, JsonV::Bool(generator.ok)))
            &&& f.contains(("index_ms"@, JsonV::Num(Num::Uint(index.ms))))
            &&& f.contains(("embed_ms"@, JsonV::Num(Num::Uint(embedder.ms))))
            &&& f.contains(("system_one_ms"@, JsonV::Num(Num::Uint(system_one.ms))))
            &&& f.contains(("generator_ms"@, JsonV::Num(Num::Uint(generator.ms))))
            &&& f.contains(
                ("admit_threshold_calibrated"@, JsonV::Bool(cfg.admit_thresholds_calibrated)),
            )
            &&& cfg.evidence_min.finite() ==> f.contains(
                ("admit_threshold"@, JsonV::Num(Num::Real(cfg.evidence_min))),
            )
        },
{
    let f = r.1@->Obj_0;
    let ok = index.ok && embedder.ok && system_one.ok && generator.ok;
    assert(f[0] == ("ok"@, JsonV::Bool(ok)));
    assert(f[1] == ("index_ms"@, JsonV::Num(Num::Uint(index.ms))));
    assert(f[2] == ("index"@, JsonV::Bool(index.ok)));
    assert(f[3] == ("embed_ms"@, JsonV::Num(Num::Uint(embedder.ms))));
    assert(f[4] == ("embedder"@, JsonV::Bool(embedder.ok)));
    assert(f[5] == ("system_one_ms"@, JsonV::Num(Num::Uint(system_one.ms))));
    assert(f[6] == ("system_one"@, JsonV::Bool(system_one.ok)));
    assert(f[7] == ("generator_ms"@, JsonV::Num(Num::Uint(generator.ms))));
    assert(f[8] == ("generator"@, JsonV::Bool(generator.ok)));
    assert(f[9].0 == "admit_threshold"@);
    assert(f[10] == (
        "admit_threshold_calibrated"@,
        JsonV::Bool(cfg.admit_thresholds_calibrated),
    ));
    assert(f[9] == f[9]);
}

// ---------------------------------------------------------------------------------------------
// Starting
// ---------------------------------------------------------------------------------------------

/// Whether a URL holds a text.
pub open spec fn mentions(url: Seq<char>, what: Seq<char>) -> bool {
    exists|a: Seq<char>, b: Seq<char>| url == #[trigger] (a + what + b)
}

/// The service starts exactly where it has a database and a token, the connection to the database
/// is encrypted or the environment allows it not to be, and its role is not the service role.
pub proof fn law_when_it_starts(cfg: &Config, env: &Env, r: Result<(), ConfigError>)
    requires
        call_ensures(Config::validate, (cfg, env), r),
    ensures
        ({
            let url = cfg.database_url@;
            let safe = mentions(url, "sslmode=require"@) || mentions(url, "sslmode=verify-ca"@)
                || mentions(url, "sslmode=verify-full"@);
            let allowed = env.value("ALLOW_INSECURE_DB"@) == Some("true"@);
            &&& r is Ok <==> trimmed(url).len() > 0 && cfg.service_token is Some && (safe
                || allowed) && !mentions(url, "service_role"@)
            &&& r == Err::<(), _>(ConfigError::NoDatabase) <==> trimmed(url).len() == 0
            &&& r == Err::<(), _>(ConfigError::NoServiceToken) <==> trimmed(url).len() > 0
                && cfg.service_token is None
            &&& r == Err::<(), _>(ConfigError::PlaintextDatabase) <==> trimmed(url).len() > 0
                && cfg.service_token is Some && !safe && !allowed
            &&& r == Err::<(), _>(ConfigError::ServiceRole) <==> trimmed(url).len() > 0
                && cfg.service_token is Some && (safe || allowed) && mentions(
                url,
                "service_role"@,
            )
        }),
{
    let url = cfg.database_url@;
    law_has(url, "sslmode=require"@);
    law_has(url, "sslmode=verify-ca"@);
    law_has(url, "sslmode=verify-full"@);
    law_has(url, "service_role"@);
}

/// The value of a variable is that of the first that goes by the name.
pub proof fn law_first_variable_counts(vars: Seq<(String, String)>, key: Seq<char>, k: int)
    requires
        0 <= k < vars.len(),
        vars[k].0@ == key,
        forall|j: int| 0 <= j < k ==> (#[trigger] vars[j]).0@ != key,
    ensures
        var_in(vars, key) == Some(vars[k].1@),
    decreases k,
{
    if k > 0 {
        let rest = vars.drop_first();
        assert(vars[0].0@ != key);
        assert forall|j: int| 0 <= j < k - 1 implies (#[trigger] rest[j]).0@ != key by {
            assert(rest[j] == vars[j + 1]);
        }
        law_first_variable_counts(rest, key, k - 1);
    }
}

/// A variable that is not there has no value.
pub proof fn law_missing_variable(vars: Seq<(String, String)>, key: Seq<char>)
    requires
        forall|j: int| 0 <= j < vars.len() ==> (#[trigger] vars[j]).0@ != key,
    ensures
        var_in(vars, key) is None,
    decreases vars.len(),
{
    if vars.len() > 0 {
        let rest = vars.drop_first();
        assert(vars[0].0@ != key);
        assert forall|j: int| 0 <= j < rest.len() implies (#[trigger] rest[j]).0@ != key by {
            assert(rest[j] == vars[j + 1]);
        }
        law_missing_variable(rest, key);
    }
}

/// In an environment that sets nothing the knobs have their defaults.
pub proof fn law_defaults(env: &Env, r: Config)
    requires
        call_ensures(Config::from_env, (env,), r),
        env.vars@.len() == 0,
        env.decimals@.len() == 0,
    ensures
        r.bind_addr@ == "0.0.0.0:8000"@,
        r.database_url@ == ""@,
        r.embedder_url@ == "https://api.openai.com"@,
        r.embedding_model@ == "text-embedding-3-small"@,
        r.embedding_dim == 1536,
        r.system_one_url@ == "http://localhost:8082"@,
        r.generator_url@ == "http://localhost:8080"@,
        r.generator_model@ == "local"@,
        r.service_token is None,
        !r.persist_asks && !r.index_writes_enabled && !r.admit_thresholds_calibrated,
        r.retrieve_k == 64 && r.admit_batch_size == 32,
        r.injection_max == (Score { bits: 0x3fe6_6666_6666_6666 }),
        r.contradicts_min == (Score { bits: 0x3fe6_6666_6666_6666 }),
        r.relevant_min == (Score { bits: 0x3fb9_9999_9999_999a }),
        r.evidence_min == (Score { bits: 0x3fb9_9999_9999_999a }),
        r.kind_confidence_min == (Score { bits: 0x3fe9_9999_9999_999a }),
        r.cite_confidence_min == (Score { bits: 0x3fe8_0000_0000_0000 }),
        r.max_citations == 4 && r.max_inflight == 4 && r.verify_regen_max == 1,
        r.embed_timeout == 5_000 && r.index_timeout == 5_000 && r.admit_timeout == 50_000,
        r.ask_timeout == 60_000 && r.stage_ping_interval == 15_000,
{
}

/// A flag is set by the words `true` and `false` and by no other.
pub proof fn law_flags(env: &Env, r: Config)
    requires
        call_ensures(Config::from_env, (env,), r),
    ensures
        r.persist_asks <==> env.value("PERSIST_ASKS"@) == Some("true"@),
        r.index_writes_enabled <==> env.value("INDEX_WRITES_ENABLED"@) == Some("true"@),
        r.admit_thresholds_calibrated <==> env.value("ADMIT_THRESHOLDS_CALIBRATED"@) == Some(
            "true"@,
        ),
        r.service_token is Some <==> (env.value("RECALL_SERVICE_TOKEN"@) matches Some(t)
            && trimmed(t).len() > 0),
        r.service_token matches Some(t) ==> env.value("RECALL_SERVICE_TOKEN"@) == Some(t@),
{
}

/// A number that a variable holds is taken over, and one that cannot be read is not.
pub proof fn law_numbers(env: &Env, r: Config)
    requires
        call_ensures(Config::from_env, (env,), r),
    ensures
        env.value("MAX_CITATIONS"@) matches Some(v) ==> (match unsigned_within(
            v,
            usize::MAX as nat,
        ) {
            Some(n) => r.max_citations == n,
            None => r.max_citations == 4,
        }),
        env.value("MAX_INFLIGHT"@) matches Some(v) ==> (match unsigned_within(
            v,
            usize::MAX as nat,
        ) {
            Some(n) => r.max_inflight == n,
            None => r.max_inflight == 4,
        }),
        env.value("VERIFY_REGEN_MAX"@) matches Some(v) ==> (match unsigned_within(
            v,
            u32::MAX as nat,
        ) {
            Some(n) => r.verify_regen_max == n,
            None => r.verify_regen_max == 1,
        }),
        env.value("RETRIEVE_K"@) matches Some(v) ==> (match signed_within(v) {
            Some(n) => r.retrieve_k == n,
            None => r.retrieve_k == 64,
        }),
        env.value("ASK_TIMEOUT_MS"@) matches Some(v) ==> (match unsigned_within(
            v,
            u64::MAX as nat,
        ) {
            Some(n) => r.ask_timeout == n,
            None => r.ask_timeout == 60_000,
        }),
{
}

/// The embedder's own key counts before the general one, also where it is blank, and a blank key
/// is none.
pub proof fn law_embedder_key(env: &Env, r: Option<String>)
    requires
        call_ensures(embedder_key, (env,), r),
    ensures
        env.value("EMBEDDER_API_KEY"@) matches Some(k) ==> (r is Some <==> trimmed(k).len() > 0)
            && (r matches Some(x) ==> x@ == k),
        env.value("EMBEDDER_API_KEY"@) is None ==> (r is Some <==> (env.value(
            "OPENAI_API_KEY"@,
        ) matches Some(k) && trimmed(k).len() > 0)) && (r matches Some(x) ==> env.value(
            "OPENAI_API_KEY"@,
        ) == Some(x@)),
{
}

/// Slashes at the end of an address are dropped, all of them, and nothing else.
pub proof fn law_slashes(s: &str, r: String)
    requires
        call_ensures(trim_slashes, (s,), r),
    ensures
        r@.len() <= s@.len(),
        r@ == s@.take(r@.len() as int),
        forall|k: int| r@.len() <= k < s@.len() ==> s@[k] == '/',
        r@.len() > 0 ==> r@.last() != '/',
{
    lemma_unslashed(s@);
}

proof fn lemma_unslashed(s: Seq<char>)
    ensures
        unslashed(s).len() <= s.len(),
        unslashed(s) == s.take(unslashed(s).len() as int),
        forall|k: int| unslashed(s).len() <= k < s.len() ==> s[k] == '/',
        unslashed(s).len() > 0 ==> unslashed(s).last() != '/',
    decreases s.len(),
{
    if s.len() > 0 && s.last() == '/' {
        let t = s.drop_last();
        lemma_unslashed(t);
        assert(t.take(unslashed(t).len() as int) =~= s.take(unslashed(t).len() as int));
        assert forall|k: int| unslashed(s).len() <= k < s.len() implies s[k] == '/' by {
            if k < t.len() {
                assert(t[k] == s[k]);
            }
        }
    } else {
        assert(s.take(s.len() as int) =~= s);
    }
}

// ---------------------------------------------------------------------------------------------
// Addresses
// ---------------------------------------------------------------------------------------------

/// Where each service is reached, under its address.
pub proof fn law_addresses(
    embedder: &EmbedderClient,
    scorer: &SystemOneClient,
    generator: &GeneratorClient,
    embeddings: String,
    questions: String,
    scorer_health: String,
    completions: String,
    generator_health: String,
)
    requires
        call_ensures(EmbedderClient::endpoint, (embedder,), embeddings),
        call_ensures(SystemOneClient::endpoint, (scorer,), questions),
        call_ensures(SystemOneClient::health_endpoint, (scorer,), scorer_health),
        call_ensures(GeneratorClient::endpoint, (generator,), completions),
        call_ensures(GeneratorClient::health_endpoint, (generator,), generator_health),
    ensures
        embeddings@ == embedder.base_url@ + "/v1/embeddings"@,
        questions@ == scorer.base_url@ + "/v1/systemone"@,
        scorer_health@ == scorer.base_url@ + "/healthz"@,
        completions@ == generator.base_url@ + "/v1/chat/completions"@,
        generator_health@ == generator.base_url@ + "/health"@,
{
}

/// The scorer is up exactly where it answered with success and its report names the real backend.
pub proof fn law_scorer_is_up(success: bool, body: &str, r: bool)
    requires
        call_ensures(SystemOneClient::healthy_laya, (success, body), r),
    ensures
        r <==> success && (json_of(body@) matches Some(v) && v.field("backend"@) == Some(
            JsonV::Str("laya"@),
        )),
{
}

/// A probe that was not answered, or answered with no, says that the dependency is down.
pub proof fn law_probes(answer: Option<bool>, ms: u64, r: Check)
    requires
        call_ensures(probed, (answer, ms), r),
    ensures
        r.ok <==> (answer matches Some(up) && up),
        r.ms == ms,
{
}

/// Of several vectors the last is taken, and of none none.
pub proof fn law_taken_vector<T>(vectors: Vec<Vec<T>>, r: Result<Vec<T>, RecallError>)
    requires
        call_ensures(only_vector::<T>, (vectors,), r),
    ensures
        r is Err <==> vectors@.len() == 0,
        r matches Ok(v) ==> v == vectors@[vectors@.len() - 1],
{
}

/// As many connections may be open as leave the number of asks in flight the limit.
pub proof fn law_connections(cfg: &Config, pool: u32, idle: usize)
    requires
        call_ensures(Config::pool_connections, (cfg,), pool),
        call_ensures(Config::idle_connections, (cfg,), idle),
    ensures
        pool >= 5,
        cfg.max_inflight >= 3 ==> pool == 2 * cfg.max_inflight,
        cfg.max_inflight <= 2 ==> pool == 5,
        idle >= 4,
        cfg.max_inflight >= 4 ==> idle == cfg.max_inflight,
        cfg.max_inflight < 4 ==> idle == 4,
{
}

// ---------------------------------------------------------------------------------------------
// Asks
// ---------------------------------------------------------------------------------------------

/// There are citations to write from exactly where something was let in, whatever conflicts.
pub proof fn law_citations_to_write_from(
    includes: Vec<Citation>,
    conflicts: Vec<Citation>,
    r: Option<AdmittedCitations>,
)
    requires
        call_ensures(AdmittedCitations::new, (includes, conflicts), r),
    ensures
        r is None <==> includes@.len() == 0,
        r matches Some(c) ==> c.included() == includes@ && c.conflicting() == conflicts@,
{
}

/// A question must have words.
pub proof fn law_valid_question(req: &AskRequest, r: Result<(), &'static str>)
    requires
        call_ensures(AskRequest::validate, (req,), r),
    ensures
        r is Err <==> trimmed(req.question@).len() == 0,
        r matches Err(why) ==> why@ == "question must not be empty"@,
{
}

/// An ask for which nothing was let in says so, cites nothing, and is otherwise as it was.
pub proof fn law_empty_ask(ask: Ask, r: Ask)
    requires
        call_ensures(Ask::into_empty_admit, (ask,), r),
    ensures
        r.empty && r.admitted@.len() == 0 && r.conflicts@.len() == 0,
        r.answer matches Some(a) && a@ == "I don't have that in my memory."@,
        r.ask_id == ask.ask_id && r.question == ask.question && r.candidates == ask.candidates,
        r.stages == ask.stages && r.verdicts == ask.verdicts && r.kind == ask.kind,
{
}

/// A question is about the moment it names, and about now where it names none.
pub proof fn law_moment(ask: &Ask, now: Timestamp, r: Timestamp)
    requires
        call_ensures(Ask::as_of_or, (ask, now), r),
    ensures
        ask.as_of matches Some(t) ==> r == t,
        ask.as_of is None ==> r == now,
{
}

/// Nothing is asked of the scorer where there is nothing to score, and else it is asked as of the
/// moment.
pub proof fn law_nothing_to_score(
    question: &str,
    as_of: Timestamp,
    candidates: &[Candidate],
    r: Result<Option<Json>, RecallError>,
)
    requires
        call_ensures(filter_request_at, (question, as_of, candidates), r),
    ensures
        (r matches Ok(q) && q is None) <==> candidates@.len() == 0,
        r is Err <==> candidates@.len() > 0 && rfc3339_of(as_of.secs, as_of.nanos) is None,
        r matches Err(e) ==> (e matches RecallError::BadRequest(why) && why@
            == "as_of is out of range"@),
{
}

} // verus!
