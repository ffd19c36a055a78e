//! How the service is.

use crate::config::Config;
#[allow(unused_imports)]
use crate::json::{no_fields, real_view, JsonV, Num};
use crate::json::{Fields, Json};
use vstd::prelude::*;

verus! {

/// How a dependency answered, and how long it took.
#[derive(Debug, Clone, Copy, PartialEq, Eq, Structural)]
pub struct Check {
    pub ms: u64,
    pub ok: bool,
}

/// How long a dependency may take to answer a probe, in milliseconds.
pub const PROBE_LIMIT_MS: u64 = 2_000;

/// How a dependency is, given what it answered within the limit. One that did not answer counts as
/// down.
pub fn probed(answer: Option<bool>, ms: u64) -> (r: Check)
    ensures
        r.ok == (answer == Some(true)),
        r.ms == ms,
{
    let ok = match answer {
        Some(up) => up,
        None => false,
    };
    Check { ms, ok }
}

/// The answer to a probe of liveness. No dependency is checked, so a slow one never gets the
/// process killed.
pub fn healthz() -> (r: Json)
    ensures
        r@ == JsonV::Obj(no_fields().push(("ok"@, JsonV::Bool(true)))),
{
    let f = Fields::new().with("ok", Json::Bool(true));
    f.done()
}

pub open spec fn count_view(n: u64) -> JsonV {
    JsonV::Num(Num::Uint(n))
}

/// What a probe of readiness is told: which dependencies are up, and how long each took.
pub open spec fn readiness_view(
    index: Check,
    embedder: Check,
    system_one: Check,
    generator: Check,
    cfg: Config,
) -> JsonV {
    JsonV::Obj(
        no_fields().push(
            ("ok"@, JsonV::Bool(index.ok && embedder.ok && system_one.ok && generator.ok)),
        ).push(("index_ms"@, count_view(index.ms))).push(("index"@, JsonV::Bool(index.ok))).push(
            ("embed_ms"@, count_view(embedder.ms)),
        ).push(("embedder"@, JsonV::Bool(embedder.ok))).push(
            ("system_one_ms"@, count_view(system_one.ms)),
        ).push(("system_one"@, JsonV::Bool(system_one.ok))).push(
            ("generator_ms"@, count_view(generator.ms)),
        ).push(("generator"@, JsonV::Bool(generator.ok))).push(
            ("admit_threshold"@, real_view(cfg.evidence_min)),
        ).push(("admit_threshold_calibrated"@, JsonV::Bool(cfg.admit_thresholds_calibrated))),
    )
}

/// The answer to a probe of readiness. The service is ready only where every dependency is, and
/// the body says which one is not.
pub fn readyz(
    index: Check,
    embedder: Check,
    system_one: Check,
    generator: Check,
    cfg: &Config,
) -> (r: (u16, Json))
    ensures
        r.0 == if index.ok && embedder.ok && system_one.ok && generator.ok {
            200u16
        } else {
            503u16
        },
        r.1@ == readiness_view(index, embedder, system_one, generator, *cfg),
{
    let ok = index.ok && embedder.ok && system_one.ok && generator.ok;
    let f = Fields::new().with("ok", Json::Bool(ok)).with("index_ms", Json::count(index.ms)).with(
        "index",
        Json::Bool(index.ok),
    ).with("embed_ms", Json::count(embedder.ms)).with("embedder", Json::Bool(embedder.ok)).with(
        "system_one_ms",
        Json::count(system_one.ms),
    ).with("system_one", Json::Bool(system_one.ok)).with(
        "generator_ms",
        Json::count(generator.ms),
    ).with("generator", Json::Bool(generator.ok)).with(
        "admit_threshold",
        Json::double(cfg.evidence_min),
    ).with("admit_threshold_calibrated", Json::Bool(cfg.admit_thresholds_calibrated));
    let status: u16 = if ok {
        200
    } else {
        503
    };
    (status, f.done())
}

/// A service of which some dependency never answers is not ready.
pub proof fn law_silence_is_not_readiness(
    silent: Check,
    ms: u64,
    index: Check,
    embedder: Check,
    system_one: Check,
    generator: Check,
    cfg: Config,
    r: (u16, Json),
)
    requires
        call_ensures(probed, (None::<bool>, ms), silent),
        silent == index || silent == embedder || silent == system_one || silent == generator,
        call_ensures(readyz, (index, embedder, system_one, generator, &cfg), r),
    ensures
        r.0 == 503,
{
}

} // verus!
