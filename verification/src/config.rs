//! The knobs of the service, from its environment.

use crate::score::Score;
#[allow(unused_imports)]
use crate::text::{has, opt_view, signed_within, trimmed, unsigned_within};
use crate::text::{contains, is_blank, parse_number, parse_signed, same};
use vstd::prelude::*;

verus! {

/// 0.7 as a double.
pub const SEVEN_TENTHS: u64 = 0x3fe6_6666_6666_6666;

/// 0.1 as a double.
pub const ONE_TENTH: u64 = 0x3fb9_9999_9999_999a;

/// 0.8 as a double.
pub const EIGHT_TENTHS: u64 = 0x3fe9_9999_9999_999a;

/// 0.75 as a double.
pub const THREE_QUARTERS: u64 = 0x3fe8_0000_0000_0000;

/// The environment: its variables, and of those whose value is a decimal number, that number.
#[derive(Debug)]
pub struct Env {
    pub vars: Vec<(String, String)>,
    pub decimals: Vec<(String, Score)>,
}

/// The value of the first of `vars` under `key`.
pub open spec fn var_in(vars: Seq<(String, String)>, key: Seq<char>) -> Option<Seq<char>>
    decreases vars.len(),
{
    if vars.len() == 0 {
        None
    } else if vars.first().0@ == key {
        Some(vars.first().1@)
    } else {
        var_in(vars.drop_first(), key)
    }
}

/// The number of the first of `decimals` under `key`.
pub open spec fn decimal_in(decimals: Seq<(String, Score)>, key: Seq<char>) -> Option<Score>
    decreases decimals.len(),
{
    if decimals.len() == 0 {
        None
    } else if decimals.first().0@ == key {
        Some(decimals.first().1)
    } else {
        decimal_in(decimals.drop_first(), key)
    }
}

impl Env {
    /// The value of the variable `key`.
    pub open spec fn value(self, key: Seq<char>) -> Option<Seq<char>> {
        var_in(self.vars@, key)
    }

    /// The value of `key`, or `default` where there is none.
    pub open spec fn text_or(self, key: Seq<char>, default: Seq<char>) -> Seq<char> {
        match self.value(key) {
            Some(v) => v,
            None => default,
        }
    }

    /// The value of `key` as a number up to `max`, or `default` where it is none.
    pub open spec fn number_or(self, key: Seq<char>, max: nat, default: nat) -> nat {
        match self.value(key) {
            Some(v) => match unsigned_within(v, max) {
                Some(n) => n,
                None => default,
            },
            None => default,
        }
    }

    /// The value of `key` as a 32-bit number with a sign, or `default` where it is none.
    pub open spec fn signed_or(self, key: Seq<char>, default: int) -> int {
        match self.value(key) {
            Some(v) => match signed_within(v) {
                Some(n) => n,
                None => default,
            },
            None => default,
        }
    }

    /// The value of `key` as `true` or `false`, or `default` where it is neither.
    pub open spec fn flag_or(self, key: Seq<char>, default: bool) -> bool {
        if self.value(key) == Some("true"@) {
            true
        } else if self.value(key) == Some("false"@) {
            false
        } else {
            default
        }
    }

    /// The value of `key` as a decimal number, or the one with the pattern `default`.
    pub open spec fn decimal_or(self, key: Seq<char>, default: u64) -> Score {
        match decimal_in(self.decimals@, key) {
            Some(s) => s,
            None => Score { bits: default },
        }
    }

    /// The value of the variable `key`.
    pub fn var(&self, key: &str) -> (r: Option<&String>)
        ensures
            r is Some <==> self.value(key@) is Some,
            r matches Some(v) ==> self.value(key@) == Some(v@),
    {
        let mut i: usize = 0;
        assert(self.vars@.skip(0) =~= self.vars@);
        while i < self.vars.len()
            invariant
                i <= self.vars@.len(),
                self.value(key@) == var_in(self.vars@.skip(i as int), key@),
            decreases self.vars@.len() - i,
        {
            assert(self.vars@.skip(i as int).first() == self.vars@[i as int]);
            assert(self.vars@.skip(i as int).drop_first() =~= self.vars@.skip(i + 1));
            if same(self.vars[i].0.as_str(), key) {
                return Some(&self.vars[i].1);
            }
            i = i + 1;
        }
        None
    }

    fn get_text(&self, key: &str, default: &str) -> (r: String)
        ensures
            r@ == self.text_or(key@, default@),
    {
        match self.var(key) {
            Some(v) => v.clone(),
            None => default.to_owned(),
        }
    }

    fn get_number(&self, key: &str, max: u64, default: u64) -> (r: u64)
        requires
            default <= max,
        ensures
            r == self.number_or(key@, max as nat, default as nat),
            r <= max,
    {
        match self.var(key) {
            Some(v) => match parse_number(v.as_str(), max) {
                Some(n) => n,
                None => default,
            },
            None => default,
        }
    }

    fn get_signed(&self, key: &str, default: i32) -> (r: i32)
        ensures
            r == self.signed_or(key@, default as int),
    {
        match self.var(key) {
            Some(v) => match parse_signed(v.as_str()) {
                Some(n) => n,
                None => default,
            },
            None => default,
        }
    }

    fn get_flag(&self, key: &str, default: bool) -> (r: bool)
        ensures
            r == self.flag_or(key@, default),
    {
        match self.var(key) {
            Some(v) => if same(v.as_str(), "true") {
                true
            } else if same(v.as_str(), "false") {
                false
            } else {
                default
            },
            None => default,
        }
    }

    fn get_decimal(&self, key: &str, default: u64) -> (r: Score)
        ensures
            r == self.decimal_or(key@, default),
    {
        let mut i: usize = 0;
        assert(self.decimals@.skip(0) =~= self.decimals@);
        while i < self.decimals.len()
            invariant
                i <= self.decimals@.len(),
                decimal_in(self.decimals@, key@) == decimal_in(
                    self.decimals@.skip(i as int),
                    key@,
                ),
            decreases self.decimals@.len() - i,
        {
            assert(self.decimals@.skip(i as int).first() == self.decimals@[i as int]);
            assert(self.decimals@.skip(i as int).drop_first() =~= self.decimals@.skip(i + 1));
            if same(self.decimals[i].0.as_str(), key) {
                return self.decimals[i].1;
            }
            i = i + 1;
        }
        Score { bits: default }
    }
}

/// The key for the embedder: its own, or where there is none the general one. A blank key is none.
pub open spec fn key_view(env: Env) -> Option<Seq<char>> {
    let key = match env.value("EMBEDDER_API_KEY"@) {
        Some(k) => Some(k),
        None => env.value("OPENAI_API_KEY"@),
    };
    match key {
        Some(k) => if trimmed(k).len() > 0 {
            Some(k)
        } else {
            None
        },
        None => None,
    }
}

/// The key for the embedder.
pub fn embedder_key(env: &Env) -> (r: Option<String>)
    ensures
        opt_view(r) == key_view(*env),
{
    let key = match env.var("EMBEDDER_API_KEY") {
        Some(k) => Some(k),
        None => env.var("OPENAI_API_KEY"),
    };
    match key {
        Some(k) => if is_blank(k.as_str()) {
            None
        } else {
            Some(k.clone())
        },
        None => None,
    }
}

/// The knobs of the service. Times are in milliseconds.
#[derive(Debug)]
pub struct Config {
    pub bind_addr: String,
    pub database_url: String,
    pub embedder_url: String,
    pub embedding_model: String,
    pub embedding_dim: usize,
    pub system_one_url: String,
    pub generator_url: String,
    pub generator_model: String,
    pub service_token: Option<String>,
    pub persist_asks: bool,
    pub index_writes_enabled: bool,
    pub retrieve_k: i32,
    pub admit_batch_size: usize,
    pub injection_max: Score,
    pub contradicts_min: Score,
    pub relevant_min: Score,
    pub evidence_min: Score,
    pub admit_thresholds_calibrated: bool,
    pub max_citations: usize,
    pub max_inflight: usize,
    pub kind_confidence_min: Score,
    pub cite_confidence_min: Score,
    pub verify_regen_max: u32,
    pub embed_timeout: u64,
    pub index_timeout: u64,
    pub admit_timeout: u64,
    pub ask_timeout: u64,
    pub stage_ping_interval: u64,
}

/// Why the service refuses to start.
#[derive(Debug, Clone, Copy, PartialEq, Eq, Structural)]
pub enum ConfigError {
    NoDatabase,
    NoServiceToken,
    PlaintextDatabase,
    ServiceRole,
}

pub const NO_DATABASE: &'static str = "DATABASE_URL is required (Nexus session pooler, role recall_search)";

pub const NO_SERVICE_TOKEN: &'static str = "RECALL_SERVICE_TOKEN is required: /v1/ask* and /v1/asks/* must not be reachable unauthenticated. Set it to the token issued to Nexus.";

pub const PLAINTEXT_DATABASE: &'static str = "DATABASE_URL must set sslmode=require (or verify-ca/verify-full) so the pooler connection cannot fall back to plaintext. For the local Compose Postgres only, set ALLOW_INSECURE_DB=true.";

pub const SERVICE_ROLE: &'static str = "refusing to run as service_role; use the recall_search role";

impl ConfigError {
    /// The refusal in words.
    pub fn message(&self) -> (r: &'static str)
        ensures
            r@ == match *self {
                ConfigError::NoDatabase => NO_DATABASE@,
                ConfigError::NoServiceToken => NO_SERVICE_TOKEN@,
                ConfigError::PlaintextDatabase => PLAINTEXT_DATABASE@,
                ConfigError::ServiceRole => SERVICE_ROLE@,
            },
    {
        match self {
            ConfigError::NoDatabase => NO_DATABASE,
            ConfigError::NoServiceToken => NO_SERVICE_TOKEN,
            ConfigError::PlaintextDatabase => PLAINTEXT_DATABASE,
            ConfigError::ServiceRole => SERVICE_ROLE,
        }
    }
}

/// Whether a database URL asks for an encrypted connection.
pub open spec fn encrypted(url: Seq<char>) -> bool {
    has(url, "sslmode=require"@) || has(url, "sslmode=verify-ca"@) || has(
        url,
        "sslmode=verify-full"@,
    )
}

impl Config {
    /// Whether the knobs are those of the environment.
    pub open spec fn set_by(self, env: Env) -> bool {
        &&& self.bind_addr@ == env.text_or("BIND_ADDR"@, "0.0.0.0:8000"@)
        &&& self.database_url@ == env.text_or("DATABASE_URL"@, ""@)
        &&& self.embedder_url@ == env.text_or("EMBEDDER_URL"@, "https://api.openai.com"@)
        &&& self.embedding_model@ == env.text_or(
            "NEXUS_EMBEDDING_MODEL"@,
            "text-embedding-3-small"@,
        )
        &&& self.embedding_dim == env.number_or("EMBEDDING_DIM"@, usize::MAX as nat, 1536)
        &&& self.system_one_url@ == env.text_or("SYSTEM_ONE_URL"@, "http://localhost:8082"@)
        &&& self.generator_url@ == env.text_or("GENERATOR_URL"@, "http://localhost:8080"@)
        &&& self.generator_model@ == env.text_or("GENERATOR_MODEL"@, "local"@)
        &&& match env.value("RECALL_SERVICE_TOKEN"@) {
            Some(t) => if trimmed(t).len() > 0 {
                self.service_token matches Some(s) && s@ == t
            } else {
                self.service_token is None
            },
            None => self.service_token is None,
        }
        &&& self.persist_asks == env.flag_or("PERSIST_ASKS"@, false)
        &&& self.index_writes_enabled == env.flag_or("INDEX_WRITES_ENABLED"@, false)
        &&& self.retrieve_k == env.signed_or("RETRIEVE_K"@, 64)
        &&& self.admit_batch_size == env.number_or("ADMIT_BATCH_SIZE"@, usize::MAX as nat, 32)
        &&& self.injection_max == env.decimal_or("INJECTION_MAX"@, SEVEN_TENTHS)
        &&& self.contradicts_min == env.decimal_or("CONTRADICTS_MIN"@, SEVEN_TENTHS)
        &&& self.relevant_min == env.decimal_or("RELEVANT_MIN"@, ONE_TENTH)
        &&& self.evidence_min == env.decimal_or("EVIDENCE_MIN"@, ONE_TENTH)
        &&& self.admit_thresholds_calibrated == env.flag_or("ADMIT_THRESHOLDS_CALIBRATED"@, false)
        &&& self.max_citations == env.number_or("MAX_CITATIONS"@, usize::MAX as nat, 4)
        &&& self.max_inflight == env.number_or("MAX_INFLIGHT"@, usize::MAX as nat, 4)
        &&& self.kind_confidence_min == env.decimal_or("KIND_CONFIDENCE_MIN"@, EIGHT_TENTHS)
        &&& self.cite_confidence_min == env.decimal_or("CITE_CONFIDENCE_MIN"@, THREE_QUARTERS)
        &&& self.verify_regen_max == env.number_or("VERIFY_REGEN_MAX"@, u32::MAX as nat, 1)
        &&& self.embed_timeout == env.number_or("EMBED_TIMEOUT_MS"@, u64::MAX as nat, 5_000)
        &&& self.index_timeout == env.number_or("INDEX_TIMEOUT_MS"@, u64::MAX as nat, 5_000)
        &&& self.admit_timeout == env.number_or("ADMIT_TIMEOUT_MS"@, u64::MAX as nat, 50_000)
        &&& self.ask_timeout == env.number_or("ASK_TIMEOUT_MS"@, u64::MAX as nat, 60_000)
        &&& self.stage_ping_interval == env.number_or(
            "STAGE_PING_INTERVAL_MS"@,
            u64::MAX as nat,
            15_000,
        )
    }

    /// The knobs of an environment. A variable that is missing, or that does not parse, leaves its
    /// knob at the default.
    pub fn from_env(env: &Env) -> (r: Config)
        ensures
            r.set_by(*env),
    {
        let max: u64 = usize::MAX as u64;
        let service_token: Option<String> = match env.var("RECALL_SERVICE_TOKEN") {
            Some(t) => if is_blank(t.as_str()) {
                None
            } else {
                Some(t.clone())
            },
            None => None,
        };
        Config {
            bind_addr: env.get_text("BIND_ADDR", "0.0.0.0:8000"),
            database_url: env.get_text("DATABASE_URL", ""),
            embedder_url: env.get_text("EMBEDDER_URL", "https://api.openai.com"),
            embedding_model: env.get_text("NEXUS_EMBEDDING_MODEL", "text-embedding-3-small"),
            embedding_dim: env.get_number("EMBEDDING_DIM", max, 1536) as usize,
            system_one_url: env.get_text("SYSTEM_ONE_URL", "http://localhost:8082"),
            generator_url: env.get_text("GENERATOR_URL", "http://localhost:8080"),
            generator_model: env.get_text("GENERATOR_MODEL", "local"),
            service_token,
            persist_asks: env.get_flag("PERSIST_ASKS", false),
            index_writes_enabled: env.get_flag("INDEX_WRITES_ENABLED", false),
            retrieve_k: env.get_signed("RETRIEVE_K", 64),
            admit_batch_size: env.get_number("ADMIT_BATCH_SIZE", max, 32) as usize,
            injection_max: env.get_decimal("INJECTION_MAX", SEVEN_TENTHS),
            contradicts_min: env.get_decimal("CONTRADICTS_MIN", SEVEN_TENTHS),
            relevant_min: env.get_decimal("RELEVANT_MIN", ONE_TENTH),
            evidence_min: env.get_decimal("EVIDENCE_MIN", ONE_TENTH),
            admit_thresholds_calibrated: env.get_flag("ADMIT_THRESHOLDS_CALIBRATED", false),
            max_citations: env.get_number("MAX_CITATIONS", max, 4) as usize,
            max_inflight: env.get_number("MAX_INFLIGHT", max, 4) as usize,
            kind_confidence_min: env.get_decimal("KIND_CONFIDENCE_MIN", EIGHT_TENTHS),
            cite_confidence_min: env.get_decimal("CITE_CONFIDENCE_MIN", THREE_QUARTERS),
            verify_regen_max: env.get_number("VERIFY_REGEN_MAX", 0xffff_ffff, 1) as u32,
            embed_timeout: env.get_number("EMBED_TIMEOUT_MS", u64::MAX, 5_000),
            index_timeout: env.get_number("INDEX_TIMEOUT_MS", u64::MAX, 5_000),
            admit_timeout: env.get_number("ADMIT_TIMEOUT_MS", u64::MAX, 50_000),
            ask_timeout: env.get_number("ASK_TIMEOUT_MS", u64::MAX, 60_000),
            stage_ping_interval: env.get_number("STAGE_PING_INTERVAL_MS", u64::MAX, 15_000),
        }
    }

    /// How many connections to the database may be open: enough that it is the number of asks in
    /// flight that limits the service, not the pool.
    pub fn pool_connections(&self) -> (r: u32)
        requires
            self.max_inflight <= 0x7fff_ffff,
        ensures
            r == if self.max_inflight <= 2 {
                5
            } else {
                2 * self.max_inflight
            },
    {
        if self.max_inflight <= 2 {
            5
        } else {
            2 * self.max_inflight as u32
        }
    }

    /// How many idle connections to a service are kept.
    pub fn idle_connections(&self) -> (r: usize)
        ensures
            r == if self.max_inflight < 4 {
                4
            } else {
                self.max_inflight
            },
    {
        if self.max_inflight < 4 {
            4
        } else {
            self.max_inflight
        }
    }

    /// What is wrong with the knobs, the first fault first.
    pub open spec fn fault(self, env: Env) -> Option<ConfigError> {
        if trimmed(self.database_url@).len() == 0 {
            Some(ConfigError::NoDatabase)
        } else if self.service_token is None {
            Some(ConfigError::NoServiceToken)
        } else if !encrypted(self.database_url@) && !env.flag_or("ALLOW_INSECURE_DB"@, false) {
            Some(ConfigError::PlaintextDatabase)
        } else if has(self.database_url@, "service_role"@) {
            Some(ConfigError::ServiceRole)
        } else {
            None
        }
    }

    /// Whether the database is reached over an encrypted connection.
    pub fn uses_tls(&self) -> (r: bool)
        ensures
            r == encrypted(self.database_url@),
    {
        let url = self.database_url.as_str();
        contains(url, "sslmode=require") || contains(url, "sslmode=verify-ca") || contains(
            url,
            "sslmode=verify-full",
        )
    }

    /// Refuses to start without a database or a token, over plaintext unless the environment
    /// allows it, and in a role that could write the corpus.
    pub fn validate(&self, env: &Env) -> (r: Result<(), ConfigError>)
        ensures
            match r {
                Ok(_) => self.fault(*env) is None,
                Err(e) => self.fault(*env) == Some(e),
            },
    {
        if is_blank(self.database_url.as_str()) {
            return Err(ConfigError::NoDatabase);
        }
        if self.service_token.is_none() {
            return Err(ConfigError::NoServiceToken);
        }
        if !self.uses_tls() && !env.get_flag("ALLOW_INSECURE_DB", false) {
            return Err(ConfigError::PlaintextDatabase);
        }
        if contains(self.database_url.as_str(), "service_role") {
            return Err(ConfigError::ServiceRole);
        }
        Ok(())
    }
}

/// A service that starts has a token that is not blank: no route behind the token is open.
pub proof fn law_started_service_has_a_token(cfg: Config, env: Env)
    requires
        cfg.set_by(env),
        cfg.fault(env) is None,
    ensures
        cfg.service_token matches Some(t) && trimmed(t@).len() > 0,
{
}

/// A service that starts without an encrypted database was allowed to by its environment.
pub proof fn law_plaintext_is_asked_for(cfg: Config, env: Env)
    requires
        cfg.fault(env) is None,
        !encrypted(cfg.database_url@),
    ensures
        env.value("ALLOW_INSECURE_DB"@) == Some("true"@),
{
}

} // verus!
