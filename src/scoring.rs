//! Rule-based scoring of one kernel candidate against the fused context.

use vstd::prelude::*;
use crate::context::{has_tag, list_contains, GpuType, KernelContext};
use crate::kernel::{KernelInfo, KernelVariant};
use crate::text::{
    chars_of, contains, contains_ci, contains_exec, join_space, join_strs, str_contains_ci,
    str_views, views,
};

verus! {

pub const REASON_EEVDF: &'static str = "EEVDF recommended for desktop/gaming/dev on AMD/Intel";

pub const REASON_LTS: &'static str = "LTS preferred for server/battery stability";

pub const REASON_RT: &'static str = "RT best for audio/production";

pub const REASON_HARDENED: &'static str = "Hardened best for security-focused systems";

pub const REASON_STANDARD: &'static str = "Standard is a safe default";

pub const REASON_DEFAULT: &'static str = "no special advantage for this context.";

pub const WARN_PROBLEMATIC: &'static str = "previously marked problematic";

pub const WARN_ZEN_GPU: &'static str =
    "Zen causes overheating on AMD/Intel GPUs and laptops; prefer EEVDF/LTO variant";

pub const WARN_RT: &'static str = "RT not recommended without audio/production need";

pub const WARN_HARDENED: &'static str = "Hardened not recommended without security need";

pub const WARN_NVIDIA: &'static str = "avoid Zen/RT/Hardened with NVIDIA; use LTS/Standard";

pub const WARNING_PREFIX: &'static str = " WARNING: ";

pub const HEADERS_NOTE: &'static str =
    "\nNOTE: For development/programming, kernel headers are required. If missing, install with your package manager.";

/// The GPU is integrated, AMD or Intel.
pub open spec fn gpu_amd_intel(g: Option<GpuType>) -> bool {
    match g {
        Some(GpuType::Integrated) | Some(GpuType::Amd) | Some(GpuType::Intel) => true,
        _ => false,
    }
}

/// Some entry of the denylist occurs in the name.
pub open spec fn denylisted(name: Seq<char>, deny: Seq<Seq<char>>) -> bool {
    exists|i: int| 0 <= i < deny.len() && contains(name, #[trigger] deny[i])
}

/// The name or description mentions EEVDF, in any case.
pub open spec fn mentions_eevdf(k: KernelInfo) -> bool {
    contains_ci(k.name@, "eevdf"@) || contains_ci(k.description@, "eevdf"@)
}

/// Zen on an AMD, Intel or integrated GPU (penalty, warning).
pub open spec fn fires_zen_gpu(k: KernelInfo, ctx: KernelContext) -> bool {
    k.variant == KernelVariant::Zen && gpu_amd_intel(ctx.gpu_type)
}

/// EEVDF for desktop, gaming or development on AMD/Intel (bonus, reason).
pub open spec fn fires_eevdf(k: KernelInfo, ctx: KernelContext) -> bool {
    let uc = views(ctx.use_cases@);
    &&& mentions_eevdf(k)
    &&& has_tag(uc, "dev"@) || has_tag(uc, "gaming"@) || has_tag(uc, "desktop"@)
    &&& gpu_amd_intel(ctx.gpu_type)
}

/// LTS for servers or battery life (bonus, reason).
pub open spec fn fires_lts(k: KernelInfo, ctx: KernelContext) -> bool {
    let uc = views(ctx.use_cases@);
    k.variant == KernelVariant::Lts && (has_tag(uc, "server"@) || has_tag(uc, "battery"@))
}

/// Real-time with an audio use case (bonus, reason).
pub open spec fn fires_rt_audio(k: KernelInfo, ctx: KernelContext) -> bool {
    k.variant == KernelVariant::RealTime && has_tag(views(ctx.use_cases@), "audio"@)
}

/// Real-time without an audio use case (penalty, warning).
pub open spec fn fires_rt_warning(k: KernelInfo, ctx: KernelContext) -> bool {
    k.variant == KernelVariant::RealTime && !has_tag(views(ctx.use_cases@), "audio"@)
}

/// Hardened with a security use case (bonus, reason).
pub open spec fn fires_hardened_security(k: KernelInfo, ctx: KernelContext) -> bool {
    k.variant == KernelVariant::Hardened && has_tag(views(ctx.use_cases@), "security"@)
}

/// Hardened without a security use case (penalty, warning).
pub open spec fn fires_hardened_warning(k: KernelInfo, ctx: KernelContext) -> bool {
    k.variant == KernelVariant::Hardened && !has_tag(views(ctx.use_cases@), "security"@)
}

/// Standard for desktops or servers (bonus, reason).
pub open spec fn fires_standard(k: KernelInfo, ctx: KernelContext) -> bool {
    let uc = views(ctx.use_cases@);
    k.variant == KernelVariant::Standard && (has_tag(uc, "desktop"@) || has_tag(uc, "server"@))
}

/// Zen, real-time or hardened with the NVIDIA driver loaded (penalty, warning).
pub open spec fn fires_nvidia(k: KernelInfo, ctx: KernelContext) -> bool {
    &&& ctx.has_nvidia_driver
    &&& k.variant == KernelVariant::Zen || k.variant == KernelVariant::RealTime || k.variant
        == KernelVariant::Hardened
}

/// Real-time with audio hardware present (bonus).
pub open spec fn fires_audio_hw(k: KernelInfo, ctx: KernelContext) -> bool {
    ctx.has_audio_hardware && k.variant == KernelVariant::RealTime
}

/// Kernel headers are called for: "dev" is a use case.
pub open spec fn needs_headers(ctx: KernelContext) -> bool {
    has_tag(views(ctx.use_cases@), "dev"@)
}

/// The additive score, with `deny` as the list of problematic kernels.
pub open spec fn score_with(k: KernelInfo, ctx: KernelContext, deny: Seq<Seq<char>>) -> int {
    (if denylisted(k.name@, deny) { -10int } else { 0int }) + (if fires_zen_gpu(k, ctx) {
        -4int
    } else {
        0int
    }) + (if fires_eevdf(k, ctx) { 6int } else { 0int }) + (if fires_lts(k, ctx) {
        4int
    } else {
        0int
    }) + (if fires_rt_audio(k, ctx) { 5int } else { 0int }) + (if fires_rt_warning(k, ctx) {
        -2int
    } else {
        0int
    }) + (if fires_hardened_security(k, ctx) { 4int } else { 0int }) + (if fires_hardened_warning(
        k,
        ctx,
    ) {
        -2int
    } else {
        0int
    }) + (if fires_standard(k, ctx) { 2int } else { 0int }) + (if fires_nvidia(k, ctx) {
        -6int
    } else {
        0int
    }) + (if fires_audio_hw(k, ctx) { 2int } else { 0int })
}

/// The score of a candidate in a context.
pub open spec fn score_of(k: KernelInfo, ctx: KernelContext) -> int {
    score_with(k, ctx, views(ctx.problematic_kernels@))
}

/// One reason when `b` holds, none otherwise.
pub open spec fn reason_if(b: bool, r: Seq<char>) -> Seq<Seq<char>> {
    if b {
        seq![r]
    } else {
        Seq::empty()
    }
}

/// The reasons that fired, in rule order.
pub open spec fn reasons(k: KernelInfo, ctx: KernelContext) -> Seq<Seq<char>> {
    reason_if(fires_eevdf(k, ctx), REASON_EEVDF@) + reason_if(fires_lts(k, ctx), REASON_LTS@)
        + reason_if(fires_rt_audio(k, ctx), REASON_RT@) + reason_if(
        fires_hardened_security(k, ctx),
        REASON_HARDENED@,
    ) + reason_if(fires_standard(k, ctx), REASON_STANDARD@)
}

/// The warning of the last rule that set one.
pub open spec fn warning(k: KernelInfo, ctx: KernelContext) -> Option<Seq<char>> {
    if fires_nvidia(k, ctx) {
        Some(WARN_NVIDIA@)
    } else if fires_hardened_warning(k, ctx) {
        Some(WARN_HARDENED@)
    } else if fires_rt_warning(k, ctx) {
        Some(WARN_RT@)
    } else if fires_zen_gpu(k, ctx) {
        Some(WARN_ZEN_GPU@)
    } else if denylisted(k.name@, views(ctx.problematic_kernels@)) {
        Some(WARN_PROBLEMATIC@)
    } else {
        None
    }
}

/// The explanation: the reasons joined (or the default one), then the
/// warning, then the headers note.
pub open spec fn explanation(k: KernelInfo, ctx: KernelContext) -> Seq<char> {
    let rs = reasons(k, ctx);
    let base = if rs.len() == 0 {
        REASON_DEFAULT@
    } else {
        join_space(rs)
    };
    let warned = match warning(k, ctx) {
        Some(w) => base + WARNING_PREFIX@ + w,
        None => base,
    };
    if needs_headers(ctx) {
        warned + HEADERS_NOTE@
    } else {
        warned
    }
}

/// Whether some entry of the denylist occurs in the name.
pub fn is_denylisted(name: &str, deny: &Vec<String>) -> (r: bool)
    ensures
        r == denylisted(name@, views(deny@)),
{
    let n = chars_of(name);
    let mut i: usize = 0;
    while i < deny.len()
        invariant
            i <= deny.len(),
            n@ == name@,
            forall|j: int| 0 <= j < i ==> !contains(name@, #[trigger] views(deny@)[j]),
        decreases deny.len() - i,
    {
        if contains_exec(&n, &chars_of(deny[i].as_str())) {
            assert(contains(name@, views(deny@)[i as int]));
            return true;
        }
        i += 1;
    }
    false
}

proof fn lemma_join_nonempty(parts: Seq<Seq<char>>)
    requires
        parts.len() > 0,
        forall|i: int| 0 <= i < parts.len() ==> (#[trigger] parts[i]).len() > 0,
    ensures
        join_space(parts).len() > 0,
    decreases parts.len(),
{
    if parts.len() > 1 {
        assert(parts[parts.len() - 1].len() > 0);
    }
}

/// Scores a candidate and explains the score.
pub fn score_and_reason_kernel(k: &KernelInfo, ctx: &KernelContext) -> (r: (i32, String))
    ensures
        r.0 == score_of(*k, *ctx),
        r.1@ == explanation(*k, *ctx),
        r.1@.len() > 0,
{
    let uc = &ctx.use_cases;
    let v = k.variant;
    let amd_intel = match ctx.gpu_type {
        Some(GpuType::Integrated) | Some(GpuType::Amd) | Some(GpuType::Intel) => true,
        _ => false,
    };
    let mut score: i32 = 0;
    let mut fired: Vec<&str> = Vec::new();
    let mut warn: Option<&str> = None;
    let ghost kk = *k;
    let ghost cc = *ctx;

    let deny = is_denylisted(k.name.as_str(), &ctx.problematic_kernels);
    if deny {
        score -= 10;
        warn = Some(WARN_PROBLEMATIC);
    }
    let zen_gpu = v == KernelVariant::Zen && amd_intel;
    if zen_gpu {
        score -= 4;
        warn = Some(WARN_ZEN_GPU);
    }
    let eevdf = (str_contains_ci(k.name.as_str(), "eevdf") || str_contains_ci(
        k.description.as_str(),
        "eevdf",
    )) && (list_contains(uc, "dev") || list_contains(uc, "gaming") || list_contains(uc, "desktop"))
        && amd_intel;
    if eevdf {
        score += 6;
        fired.push(REASON_EEVDF);
    }
    let lts = v == KernelVariant::Lts && (list_contains(uc, "server") || list_contains(
        uc,
        "battery",
    ));
    if lts {
        score += 4;
        fired.push(REASON_LTS);
    }
    let rt = v == KernelVariant::RealTime;
    let audio_tag = list_contains(uc, "audio");
    if rt && audio_tag {
        score += 5;
        fired.push(REASON_RT);
    } else if rt {
        score -= 2;
        warn = Some(WARN_RT);
    }
    let hardened = v == KernelVariant::Hardened;
    let security_tag = list_contains(uc, "security");
    if hardened && security_tag {
        score += 4;
        fired.push(REASON_HARDENED);
    } else if hardened {
        score -= 2;
        warn = Some(WARN_HARDENED);
    }
    let standard = v == KernelVariant::Standard && (list_contains(uc, "desktop") || list_contains(
        uc,
        "server",
    ));
    if standard {
        score += 2;
        fired.push(REASON_STANDARD);
    }
    let nvidia = ctx.has_nvidia_driver && (v == KernelVariant::Zen || v == KernelVariant::RealTime
        || v == KernelVariant::Hardened);
    if nvidia {
        score -= 6;
        warn = Some(WARN_NVIDIA);
    }
    if ctx.has_audio_hardware && rt {
        score += 2;
    }
    let headers = list_contains(uc, "dev");

    assert(str_views(fired@) =~= reasons(kk, cc));
    let mut text = if fired.len() == 0 {
        REASON_DEFAULT.to_owned()
    } else {
        join_strs(&fired)
    };
    match warn {
        Some(w) => {
            text.append(WARNING_PREFIX);
            text.append(w);
        },
        None => {},
    }
    if headers {
        text.append(HEADERS_NOTE);
    }
    proof {
        reveal_strlit("no special advantage for this context.");
        reveal_strlit("EEVDF recommended for desktop/gaming/dev on AMD/Intel");
        reveal_strlit("LTS preferred for server/battery stability");
        reveal_strlit("RT best for audio/production");
        reveal_strlit("Hardened best for security-focused systems");
        reveal_strlit("Standard is a safe default");
        let rs = reasons(kk, cc);
        if rs.len() > 0 {
            assert forall|i: int| 0 <= i < rs.len() implies (#[trigger] rs[i]).len() > 0 by {}
            lemma_join_nonempty(rs);
        }
    }
    (score, text)
}

/// A name that some entry of the problematic list occurs in scores exactly
/// 10 lower than in the same context with an empty list.
pub proof fn lemma_denylist_penalty(k: KernelInfo, ctx: KernelContext, clean: KernelContext)
    requires
        denylisted(k.name@, views(ctx.problematic_kernels@)),
        clean.problematic_kernels@.len() == 0,
        clean.gpu_type == ctx.gpu_type,
        views(clean.use_cases@) == views(ctx.use_cases@),
        clean.has_nvidia_driver == ctx.has_nvidia_driver,
        clean.has_audio_hardware == ctx.has_audio_hardware,
    ensures
        score_of(k, ctx) == score_of(k, clean) - 10,
        score_of(k, ctx) < score_of(k, clean),
{
    assert(!denylisted(k.name@, views(clean.problematic_kernels@)));
}

} // verus!
