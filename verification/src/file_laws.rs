//! Under which key of its file each setting stands.
use vstd::prelude::*;
use vstd::string::*;
use crate::decimal::decimal_read;
use crate::ini::SectionView;
use crate::preset_file::{self, preset_pairs, preset_value};
use crate::presets::Preset;
use crate::sections::{flag_of, flag_shown, is_number, lemma_flag_reads, lemma_number_reads, lookup, number_shown};
use crate::server_cfg::ServerConfig;
use crate::server_file::{self, server_pairs, server_value};
use crate::text::{dec_int, opt, trim};

verus! {

/// Whether a list of keys and values has a value under a key.
pub open spec fn writes(pairs: Seq<(Seq<char>, Seq<char>)>, key: Seq<char>, value: Seq<char>) -> bool {
    exists|i: int| 0 <= i < pairs.len() && #[trigger] pairs[i] == (key, value)
}

/// Whether a number is written under a key: its numeral, or nothing.
pub open spec fn writes_number(
    pairs: Seq<(Seq<char>, Seq<char>)>,
    key: Seq<char>,
    v: Option<i32>,
) -> bool {
    match v {
        Some(n) => writes(pairs, key, dec_int(n as int)),
        None => writes(pairs, key, Seq::empty()),
    }
}

/// Whether a flag is written under a key.
pub open spec fn writes_flag(
    pairs: Seq<(Seq<char>, Seq<char>)>,
    key: Seq<char>,
    v: Option<bool>,
) -> bool {
    match v {
        Some(true) => writes(pairs, key, "true"@),
        Some(false) => writes(pairs, key, "false"@),
        None => writes(pairs, key, Seq::empty()),
    }
}

/// Whether a text that may be absent is written under a key.
pub open spec fn writes_text(
    pairs: Seq<(Seq<char>, Seq<char>)>,
    key: Seq<char>,
    v: Option<String>,
) -> bool {
    match v {
        Some(s) => writes(pairs, key, s@),
        None => writes(pairs, key, Seq::empty()),
    }
}

/// Whether a number is read from a text: from its numeral, and none from nothing.
pub open spec fn reads_number(v: Option<i32>, s: Seq<char>) -> bool {
    &&& forall|n: i32| s == #[trigger] dec_int(n as int) ==> v == Some(n)
    &&& s.len() == 0 ==> v is None
}

/// Whether a flag is read from a text.
pub open spec fn reads_flag(v: Option<bool>, s: Seq<char>) -> bool {
    &&& s == "true"@ ==> v == Some(true)
    &&& s == "false"@ ==> v == Some(false)
    &&& s.len() == 0 ==> v is None
}

proof fn lemma_reads_number(v: Option<i32>, s: Seq<char>)
    requires
        is_number(v, s),
    ensures
        reads_number(v, s),
{
    assert forall|n: i32| s == #[trigger] dec_int(n as int) implies v == Some(n) by {
        lemma_number_reads(Some(n));
        assert(number_shown(Some(n)) == s);
    }
    if s.len() == 0 {
        lemma_number_reads(None);
        assert(s =~= number_shown(None));
    }
}

proof fn lemma_reads_flag(v: Option<bool>, s: Seq<char>)
    requires
        v == flag_of(s),
    ensures
        reads_flag(v, s),
{
    lemma_flag_reads(Some(true));
    lemma_flag_reads(Some(false));
    lemma_flag_reads(None);
    if s.len() == 0 {
        assert(s =~= flag_shown(None));
    }
}

/// Every setting of a preset is written under the key of its own name.
pub proof fn law_preset_keys_hold_their_settings(p: Preset)
    ensures
        writes_flag(preset_pairs(p), "backend-sampling"@, p.backend_sampling),
        writes_number(preset_pairs(p), "batch-size"@, p.batch_size),
        writes_number(preset_pairs(p), "cache-ram"@, p.cache_ram),
        writes(preset_pairs(p), "cache-type-k"@, p.cache_type_k@),
        writes(preset_pairs(p), "cache-type-v"@, p.cache_type_v@),
        writes(preset_pairs(p), "chat-template-kwargs"@, p.chat_template_kwargs@),
        writes_number(preset_pairs(p), "ctx-size"@, p.ctx_size),
        writes(preset_pairs(p), "device"@, p.device@),
        writes(preset_pairs(p), "device-draft"@, p.device_draft@),
        writes_flag(preset_pairs(p), "flash-attn"@, p.flash_attn),
        writes_number(preset_pairs(p), "image-max-tokens"@, p.image_max_tokens),
        writes_number(preset_pairs(p), "image-min-tokens"@, p.image_min_tokens),
        writes_flag(preset_pairs(p), "jinja"@, p.jinja),
        writes_text(preset_pairs(p), "min-p"@, p.min_p),
        writes(preset_pairs(p), "mmproj"@, p.mmproj@),
        writes_flag(preset_pairs(p), "mmproj-offload"@, p.mmproj_offload),
        writes(preset_pairs(p), "model"@, p.model@),
        writes(preset_pairs(p), "model-draft"@, p.model_draft@),
        writes_number(preset_pairs(p), "n-cpu-ffn"@, p.n_cpu_ffn),
        writes_number(preset_pairs(p), "n-cpu-moe"@, p.n_cpu_moe),
        writes_number(preset_pairs(p), "n-gpu-layers"@, p.n_gpu_layers),
        writes_number(preset_pairs(p), "n-gpu-layers-draft"@, p.n_gpu_layers_draft),
        writes_number(preset_pairs(p), "n-predict"@, p.n_predict),
        writes(preset_pairs(p), "override-tensor"@, p.override_tensor@),
        writes_number(preset_pairs(p), "parallel"@, p.parallel),
        writes_text(preset_pairs(p), "presence-penalty"@, p.presence_penalty),
        writes(preset_pairs(p), "reasoning"@, p.reasoning@),
        writes_number(preset_pairs(p), "reasoning-budget"@, p.reasoning_budget),
        writes(preset_pairs(p), "reasoning-budget-message"@, p.reasoning_budget_message@),
        writes(preset_pairs(p), "reasoning-effort"@, p.reasoning_effort@),
        writes(preset_pairs(p), "reasoning-format"@, p.reasoning_format@),
        writes_flag(preset_pairs(p), "reasoning-preserve"@, p.reasoning_preserve),
        writes_text(preset_pairs(p), "repeat-penalty"@, p.repeat_penalty),
        writes_number(preset_pairs(p), "spec-draft-n-max"@, p.spec_draft_n_max),
        writes(preset_pairs(p), "spec-draft-type-k"@, p.spec_draft_type_k@),
        writes(preset_pairs(p), "spec-draft-type-v"@, p.spec_draft_type_v@),
        writes(preset_pairs(p), "spec-type"@, p.spec_type@),
        writes(preset_pairs(p), "split-mode"@, p.split_mode@),
        writes_text(preset_pairs(p), "temp"@, p.temp),
        writes(preset_pairs(p), "tensor-split"@, p.tensor_split@),
        writes_number(preset_pairs(p), "top-k"@, p.top_k),
        writes_text(preset_pairs(p), "top-p"@, p.top_p),
        writes_number(preset_pairs(p), "ubatch-size"@, p.ubatch_size),
{
    let v = preset_pairs(p);
    assert(v[0] == ("backend-sampling"@, preset_value(p, 0)));
    assert(v[1] == ("batch-size"@, preset_value(p, 1)));
    assert(v[2] == ("cache-ram"@, preset_value(p, 2)));
    assert(v[3] == ("cache-type-k"@, preset_value(p, 3)));
    assert(v[4] == ("cache-type-v"@, preset_value(p, 4)));
    assert(v[5] == ("chat-template-kwargs"@, preset_value(p, 5)));
    assert(v[6] == ("ctx-size"@, preset_value(p, 6)));
    assert(v[7] == ("device"@, preset_value(p, 7)));
    assert(v[8] == ("device-draft"@, preset_value(p, 8)));
    assert(v[9] == ("flash-attn"@, preset_value(p, 9)));
    assert(v[10] == ("image-max-tokens"@, preset_value(p, 10)));
    assert(v[11] == ("image-min-tokens"@, preset_value(p, 11)));
    assert(v[12] == ("jinja"@, preset_value(p, 12)));
    assert(v[13] == ("min-p"@, preset_value(p, 13)));
    assert(v[14] == ("mmproj"@, preset_value(p, 14)));
    assert(v[15] == ("mmproj-offload"@, preset_value(p, 15)));
    assert(v[16] == ("model"@, preset_value(p, 16)));
    assert(v[17] == ("model-draft"@, preset_value(p, 17)));
    assert(v[18] == ("n-cpu-ffn"@, preset_value(p, 18)));
    assert(v[19] == ("n-cpu-moe"@, preset_value(p, 19)));
    assert(v[20] == ("n-gpu-layers"@, preset_value(p, 20)));
    assert(v[21] == ("n-gpu-layers-draft"@, preset_value(p, 21)));
    assert(v[22] == ("n-predict"@, preset_value(p, 22)));
    assert(v[23] == ("override-tensor"@, preset_value(p, 23)));
    assert(v[24] == ("parallel"@, preset_value(p, 24)));
    assert(v[25] == ("presence-penalty"@, preset_value(p, 25)));
    assert(v[26] == ("reasoning"@, preset_value(p, 26)));
    assert(v[27] == ("reasoning-budget"@, preset_value(p, 27)));
    assert(v[28] == ("reasoning-budget-message"@, preset_value(p, 28)));
    assert(v[29] == ("reasoning-effort"@, preset_value(p, 29)));
    assert(v[30] == ("reasoning-format"@, preset_value(p, 30)));
    assert(v[31] == ("reasoning-preserve"@, preset_value(p, 31)));
    assert(v[32] == ("repeat-penalty"@, preset_value(p, 32)));
    assert(v[33] == ("spec-draft-n-max"@, preset_value(p, 33)));
    assert(v[34] == ("spec-draft-type-k"@, preset_value(p, 34)));
    assert(v[35] == ("spec-draft-type-v"@, preset_value(p, 35)));
    assert(v[36] == ("spec-type"@, preset_value(p, 36)));
    assert(v[37] == ("split-mode"@, preset_value(p, 37)));
    assert(v[38] == ("temp"@, preset_value(p, 38)));
    assert(v[39] == ("tensor-split"@, preset_value(p, 39)));
    assert(v[40] == ("top-k"@, preset_value(p, 40)));
    assert(v[41] == ("top-p"@, preset_value(p, 41)));
    assert(v[42] == ("ubatch-size"@, preset_value(p, 42)));
}

/// Every setting of a preset is read from the key of its own name.
pub proof fn law_preset_settings_are_read(p: Preset, s: SectionView)
    requires
        preset_file::held_in(p, s),
    ensures
        p.id@ == s.id,
        reads_flag(p.backend_sampling, lookup(s.keys, "backend-sampling"@)),
        reads_number(p.batch_size, lookup(s.keys, "batch-size"@)),
        reads_number(p.cache_ram, lookup(s.keys, "cache-ram"@)),
        p.cache_type_k@ == lookup(s.keys, "cache-type-k"@),
        p.cache_type_v@ == lookup(s.keys, "cache-type-v"@),
        p.chat_template_kwargs@ == lookup(s.keys, "chat-template-kwargs"@),
        reads_number(p.ctx_size, lookup(s.keys, "ctx-size"@)),
        p.device@ == lookup(s.keys, "device"@),
        p.device_draft@ == lookup(s.keys, "device-draft"@),
        reads_flag(p.flash_attn, lookup(s.keys, "flash-attn"@)),
        reads_number(p.image_max_tokens, lookup(s.keys, "image-max-tokens"@)),
        reads_number(p.image_min_tokens, lookup(s.keys, "image-min-tokens"@)),
        reads_flag(p.jinja, lookup(s.keys, "jinja"@)),
        opt(p.min_p) == decimal_read(lookup(s.keys, "min-p"@)),
        p.mmproj@ == lookup(s.keys, "mmproj"@),
        reads_flag(p.mmproj_offload, lookup(s.keys, "mmproj-offload"@)),
        p.model@ == lookup(s.keys, "model"@),
        p.model_draft@ == lookup(s.keys, "model-draft"@),
        reads_number(p.n_cpu_ffn, lookup(s.keys, "n-cpu-ffn"@)),
        reads_number(p.n_cpu_moe, lookup(s.keys, "n-cpu-moe"@)),
        reads_number(p.n_gpu_layers, lookup(s.keys, "n-gpu-layers"@)),
        reads_number(p.n_gpu_layers_draft, lookup(s.keys, "n-gpu-layers-draft"@)),
        reads_number(p.n_predict, lookup(s.keys, "n-predict"@)),
        p.override_tensor@ == lookup(s.keys, "override-tensor"@),
        reads_number(p.parallel, lookup(s.keys, "parallel"@)),
        opt(p.presence_penalty) == decimal_read(lookup(s.keys, "presence-penalty"@)),
        p.reasoning@ == lookup(s.keys, "reasoning"@),
        reads_number(p.reasoning_budget, lookup(s.keys, "reasoning-budget"@)),
        p.reasoning_budget_message@ == lookup(s.keys, "reasoning-budget-message"@),
        p.reasoning_effort@ == lookup(s.keys, "reasoning-effort"@),
        p.reasoning_format@ == lookup(s.keys, "reasoning-format"@),
        reads_flag(p.reasoning_preserve, lookup(s.keys, "reasoning-preserve"@)),
        opt(p.repeat_penalty) == decimal_read(lookup(s.keys, "repeat-penalty"@)),
        reads_number(p.spec_draft_n_max, lookup(s.keys, "spec-draft-n-max"@)),
        p.spec_draft_type_k@ == lookup(s.keys, "spec-draft-type-k"@),
        p.spec_draft_type_v@ == lookup(s.keys, "spec-draft-type-v"@),
        p.spec_type@ == lookup(s.keys, "spec-type"@),
        p.split_mode@ == lookup(s.keys, "split-mode"@),
        opt(p.temp) == decimal_read(lookup(s.keys, "temp"@)),
        p.tensor_split@ == lookup(s.keys, "tensor-split"@),
        reads_number(p.top_k, lookup(s.keys, "top-k"@)),
        opt(p.top_p) == decimal_read(lookup(s.keys, "top-p"@)),
        reads_number(p.ubatch_size, lookup(s.keys, "ubatch-size"@)),
{
    lemma_reads_flag(p.backend_sampling, lookup(s.keys, "backend-sampling"@));
    lemma_reads_number(p.batch_size, lookup(s.keys, "batch-size"@));
    lemma_reads_number(p.cache_ram, lookup(s.keys, "cache-ram"@));
    lemma_reads_number(p.ctx_size, lookup(s.keys, "ctx-size"@));
    lemma_reads_flag(p.flash_attn, lookup(s.keys, "flash-attn"@));
    lemma_reads_number(p.image_max_tokens, lookup(s.keys, "image-max-tokens"@));
    lemma_reads_number(p.image_min_tokens, lookup(s.keys, "image-min-tokens"@));
    lemma_reads_flag(p.jinja, lookup(s.keys, "jinja"@));
    lemma_reads_flag(p.mmproj_offload, lookup(s.keys, "mmproj-offload"@));
    lemma_reads_number(p.n_cpu_ffn, lookup(s.keys, "n-cpu-ffn"@));
    lemma_reads_number(p.n_cpu_moe, lookup(s.keys, "n-cpu-moe"@));
    lemma_reads_number(p.n_gpu_layers, lookup(s.keys, "n-gpu-layers"@));
    lemma_reads_number(p.n_gpu_layers_draft, lookup(s.keys, "n-gpu-layers-draft"@));
    lemma_reads_number(p.n_predict, lookup(s.keys, "n-predict"@));
    lemma_reads_number(p.parallel, lookup(s.keys, "parallel"@));
    lemma_reads_number(p.reasoning_budget, lookup(s.keys, "reasoning-budget"@));
    lemma_reads_flag(p.reasoning_preserve, lookup(s.keys, "reasoning-preserve"@));
    lemma_reads_number(p.spec_draft_n_max, lookup(s.keys, "spec-draft-n-max"@));
    lemma_reads_number(p.top_k, lookup(s.keys, "top-k"@));
    lemma_reads_number(p.ubatch_size, lookup(s.keys, "ubatch-size"@));
}

/// Every setting of the server is written under the key of its own name.
pub proof fn law_server_keys_hold_their_settings(c: ServerConfig)
    ensures
        writes_number(server_pairs(c), "CacheReuse"@, c.cache_reuse),
        writes_text(server_pairs(c), "Device"@, c.device),
        writes_flag(server_pairs(c), "Fit"@, c.fit),
        writes_text(server_pairs(c), "Hostname"@, c.hostname),
        writes_number(server_pairs(c), "LogVerbosity"@, c.log_verbosity),
        writes_flag(server_pairs(c), "Mlock"@, c.mlock),
        writes_text(server_pairs(c), "MmprojDevice"@, c.mmproj_device),
        writes_text(server_pairs(c), "ModelsDir"@, c.models_dir),
        writes_number(server_pairs(c), "ModelsMax"@, c.models_max),
        writes_flag(server_pairs(c), "NoMmap"@, c.no_mmap),
        writes_text(server_pairs(c), "OpencodeApiKey"@, c.opencode_api_key),
        writes_text(server_pairs(c), "OpencodeBaseUrl"@, c.opencode_base_url),
        writes_text(server_pairs(c), "OverrideTensor"@, c.override_tensor),
        writes_number(server_pairs(c), "Port"@, c.port),
        writes_flag(server_pairs(c), "PrefillAssistant"@, c.prefill_assistant),
        writes_text(server_pairs(c), "SplitMode"@, c.split_mode),
        writes_text(server_pairs(c), "TensorSplit"@, c.tensor_split),
        writes_number(server_pairs(c), "Threads"@, c.threads),
        writes_number(server_pairs(c), "ThreadsBatch"@, c.threads_batch),
        writes_flag(server_pairs(c), "WebuiMcpProxy"@, c.webui_mcp_proxy),
{
    let v = server_pairs(c);
    assert(v[0] == ("CacheReuse"@, server_value(c, 0)));
    assert(v[1] == ("Device"@, server_value(c, 1)));
    assert(v[2] == ("Fit"@, server_value(c, 2)));
    assert(v[3] == ("Hostname"@, server_value(c, 3)));
    assert(v[4] == ("LogVerbosity"@, server_value(c, 4)));
    assert(v[5] == ("Mlock"@, server_value(c, 5)));
    assert(v[6] == ("MmprojDevice"@, server_value(c, 6)));
    assert(v[7] == ("ModelsDir"@, server_value(c, 7)));
    assert(v[8] == ("ModelsMax"@, server_value(c, 8)));
    assert(v[9] == ("NoMmap"@, server_value(c, 9)));
    assert(v[10] == ("OpencodeApiKey"@, server_value(c, 10)));
    assert(v[11] == ("OpencodeBaseUrl"@, server_value(c, 11)));
    assert(v[12] == ("OverrideTensor"@, server_value(c, 12)));
    assert(v[13] == ("Port"@, server_value(c, 13)));
    assert(v[14] == ("PrefillAssistant"@, server_value(c, 14)));
    assert(v[15] == ("SplitMode"@, server_value(c, 15)));
    assert(v[16] == ("TensorSplit"@, server_value(c, 16)));
    assert(v[17] == ("Threads"@, server_value(c, 17)));
    assert(v[18] == ("ThreadsBatch"@, server_value(c, 18)));
    assert(v[19] == ("WebuiMcpProxy"@, server_value(c, 19)));
}

/// Every setting of the server is read from the key of its own name; a blank text is
/// none.
pub proof fn law_server_settings_are_read(c: ServerConfig, m: Map<Seq<char>, Seq<char>>)
    requires
        server_file::held_in(c, m),
    ensures
        reads_number(c.cache_reuse, lookup(m, "CacheReuse"@)),
        reads_text(c.device, lookup(m, "Device"@)),
        reads_flag(c.fit, lookup(m, "Fit"@)),
        reads_text(c.hostname, lookup(m, "Hostname"@)),
        reads_number(c.log_verbosity, lookup(m, "LogVerbosity"@)),
        reads_flag(c.mlock, lookup(m, "Mlock"@)),
        reads_text(c.mmproj_device, lookup(m, "MmprojDevice"@)),
        reads_text(c.models_dir, lookup(m, "ModelsDir"@)),
        reads_number(c.models_max, lookup(m, "ModelsMax"@)),
        reads_flag(c.no_mmap, lookup(m, "NoMmap"@)),
        reads_text(c.opencode_api_key, lookup(m, "OpencodeApiKey"@)),
        reads_text(c.opencode_base_url, lookup(m, "OpencodeBaseUrl"@)),
        reads_text(c.override_tensor, lookup(m, "OverrideTensor"@)),
        reads_number(c.port, lookup(m, "Port"@)),
        reads_flag(c.prefill_assistant, lookup(m, "PrefillAssistant"@)),
        reads_text(c.split_mode, lookup(m, "SplitMode"@)),
        reads_text(c.tensor_split, lookup(m, "TensorSplit"@)),
        reads_number(c.threads, lookup(m, "Threads"@)),
        reads_number(c.threads_batch, lookup(m, "ThreadsBatch"@)),
        reads_flag(c.webui_mcp_proxy, lookup(m, "WebuiMcpProxy"@)),
{
    lemma_reads_number(c.cache_reuse, lookup(m, "CacheReuse"@));
    lemma_reads_flag(c.fit, lookup(m, "Fit"@));
    lemma_reads_number(c.log_verbosity, lookup(m, "LogVerbosity"@));
    lemma_reads_flag(c.mlock, lookup(m, "Mlock"@));
    lemma_reads_number(c.models_max, lookup(m, "ModelsMax"@));
    lemma_reads_flag(c.no_mmap, lookup(m, "NoMmap"@));
    lemma_reads_number(c.port, lookup(m, "Port"@));
    lemma_reads_flag(c.prefill_assistant, lookup(m, "PrefillAssistant"@));
    lemma_reads_number(c.threads, lookup(m, "Threads"@));
    lemma_reads_number(c.threads_batch, lookup(m, "ThreadsBatch"@));
    lemma_reads_flag(c.webui_mcp_proxy, lookup(m, "WebuiMcpProxy"@));
}

/// Whether a text that may be absent is read from a text.
pub open spec fn reads_text(v: Option<String>, s: Seq<char>) -> bool {
    if trim(s).len() == 0 {
        v is None
    } else {
        opt(v) == Some(s)
    }
}

} // verus!
