use recall::config::{embedder_key, Config, ConfigError, Env};
use recall::score::Score;

fn env(vars: &[(&str, &str)]) -> Env {
    Env {
        vars: vars.iter().map(|(k, v)| (k.to_string(), v.to_string())).collect(),
        decimals: vars
            .iter()
            .filter_map(|(k, v)| {
                v.parse::<f64>().ok().map(|x| (k.to_string(), Score { bits: x.to_bits() }))
            })
            .collect(),
    }
}

fn value(s: Score) -> f64 {
    f64::from_bits(s.bits)
}

#[test]
fn knobs_have_their_defaults() {
    let c = Config::from_env(&env(&[]));
    assert_eq!(c.bind_addr, "0.0.0.0:8000");
    assert_eq!(c.database_url, "");
    assert_eq!(c.embedder_url, "https://api.openai.com");
    assert_eq!(c.embedding_model, "text-embedding-3-small");
    assert_eq!(c.embedding_dim, 1536);
    assert_eq!(c.system_one_url, "http://localhost:8082");
    assert_eq!(c.generator_url, "http://localhost:8080");
    assert_eq!(c.generator_model, "local");
    assert_eq!(c.service_token, None);
    assert!(!c.persist_asks);
    assert!(!c.index_writes_enabled);
    assert_eq!(c.retrieve_k, 64);
    assert_eq!(c.admit_batch_size, 32);
    assert_eq!(value(c.injection_max), 0.70);
    assert_eq!(value(c.contradicts_min), 0.70);
    assert_eq!(value(c.relevant_min), 0.10);
    assert_eq!(value(c.evidence_min), 0.10);
    assert!(!c.admit_thresholds_calibrated);
    assert_eq!(c.max_citations, 4);
    assert_eq!(c.max_inflight, 4);
    assert_eq!(value(c.kind_confidence_min), 0.8);
    assert_eq!(value(c.cite_confidence_min), 0.75);
    assert_eq!(c.verify_regen_max, 1);
    assert_eq!(c.embed_timeout, 5_000);
    assert_eq!(c.index_timeout, 5_000);
    assert_eq!(c.admit_timeout, 50_000);
    assert_eq!(c.ask_timeout, 60_000);
    assert_eq!(c.stage_ping_interval, 15_000);
}

#[test]
fn knobs_are_read_from_the_environment() {
    let c = Config::from_env(&env(&[
        ("BIND_ADDR", "[::]:1"),
        ("RETRIEVE_K", "-7"),
        ("MAX_CITATIONS", "+9"),
        ("PERSIST_ASKS", "true"),
        ("EVIDENCE_MIN", "0.33"),
        ("RECALL_SERVICE_TOKEN", " tok "),
        ("EMBED_TIMEOUT_MS", "18446744073709551615"),
    ]));
    assert_eq!(c.bind_addr, "[::]:1");
    assert_eq!(c.retrieve_k, -7);
    assert_eq!(c.max_citations, 9);
    assert!(c.persist_asks);
    assert_eq!(value(c.evidence_min), 0.33);
    assert_eq!(c.service_token.as_deref(), Some(" tok "));
    assert_eq!(c.embed_timeout, u64::MAX);
}

#[test]
fn what_does_not_parse_leaves_the_default() {
    let c = Config::from_env(&env(&[
        ("RETRIEVE_K", "2147483648"),
        ("MAX_CITATIONS", "-1"),
        ("MAX_INFLIGHT", " 3"),
        ("VERIFY_REGEN_MAX", "4294967296"),
        ("PERSIST_ASKS", "yes"),
        ("EVIDENCE_MIN", "high"),
        ("RECALL_SERVICE_TOKEN", "  "),
    ]));
    assert_eq!(c.retrieve_k, 64);
    assert_eq!(c.max_citations, 4);
    assert_eq!(c.max_inflight, 4);
    assert_eq!(c.verify_regen_max, 1);
    assert!(!c.persist_asks);
    assert_eq!(value(c.evidence_min), 0.10);
    assert_eq!(c.service_token, None);
    assert_eq!(Config::from_env(&env(&[("RETRIEVE_K", "-2147483648")])).retrieve_k, i32::MIN);
}

fn fault(vars: &[(&str, &str)]) -> Result<(), ConfigError> {
    let e = env(vars);
    Config::from_env(&e).validate(&e)
}

#[test]
fn the_service_refuses_to_start_unsafely() {
    let url = ("DATABASE_URL", "postgres://h/db?sslmode=verify-full");
    let token = ("RECALL_SERVICE_TOKEN", "tok");
    assert_eq!(fault(&[token]), Err(ConfigError::NoDatabase));
    assert_eq!(fault(&[url]), Err(ConfigError::NoServiceToken));
    let plain = ("DATABASE_URL", "postgres://h/db");
    assert_eq!(fault(&[plain, token]), Err(ConfigError::PlaintextDatabase));
    assert_eq!(fault(&[plain, token, ("ALLOW_INSECURE_DB", "true")]), Ok(()));
    let role = ("DATABASE_URL", "postgres://service_role@h/db?sslmode=require");
    assert_eq!(fault(&[role, token]), Err(ConfigError::ServiceRole));
    assert_eq!(fault(&[url, token]), Ok(()));
    assert!(ConfigError::NoServiceToken.message().starts_with("RECALL_SERVICE_TOKEN is required"));
    assert!(ConfigError::NoDatabase.message().starts_with("DATABASE_URL is required"));
    assert!(ConfigError::PlaintextDatabase.message().contains("sslmode=require"));
    assert!(ConfigError::ServiceRole.message().contains("recall_search"));
}

#[test]
fn pools_are_sized_by_what_is_in_flight() {
    let mut c = Config::from_env(&env(&[]));
    assert_eq!(c.pool_connections(), 8);
    assert_eq!(c.idle_connections(), 4);
    c.max_inflight = 2;
    assert_eq!(c.pool_connections(), 5);
    c.max_inflight = 100;
    assert_eq!(c.pool_connections(), 200);
    assert_eq!(c.idle_connections(), 100);
}

#[test]
fn the_embedder_has_its_own_key_or_the_general_one() {
    assert_eq!(embedder_key(&env(&[])), None);
    assert_eq!(embedder_key(&env(&[("OPENAI_API_KEY", "b")])).as_deref(), Some("b"));
    let both = [("OPENAI_API_KEY", "b"), ("EMBEDDER_API_KEY", "a")];
    assert_eq!(embedder_key(&env(&both)).as_deref(), Some("a"));
    let blank = [("OPENAI_API_KEY", "b"), ("EMBEDDER_API_KEY", " ")];
    assert_eq!(embedder_key(&env(&blank)), None);
}
