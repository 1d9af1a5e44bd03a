//! The preset: one section of presets.ini, as typed fields.
//!
//! A numeric key that a preset does not name is `None`, a text key is empty: the
//! flag is then left out and llama.cpp's own default holds. The sampling
//! overrides are decimal numbers that nothing here computes with, so they are
//! held as the text of the number.
use vstd::prelude::*;
use crate::text::opt;

verus! {

/// One preset.
#[derive(Debug, PartialEq, Eq)]
pub struct Preset {
    /// The section name, which clients use as the model name.
    pub id: String,
    /// Path of the model file.
    pub model: String,
    /// Path of the vision projector, or empty.
    pub mmproj: String,
    /// `--mmproj-offload`.
    pub mmproj_offload: Option<bool>,
    /// `--image-min-tokens`.
    pub image_min_tokens: Option<i32>,
    /// `--image-max-tokens`.
    pub image_max_tokens: Option<i32>,
    /// Path of the draft model, or empty.
    pub model_draft: String,
    /// `--spec-type`; empty omits it.
    pub spec_type: String,
    /// `--spec-draft-n-max`.
    pub spec_draft_n_max: Option<i32>,
    /// `--spec-draft-type-k`; empty omits it.
    pub spec_draft_type_k: String,
    /// `--spec-draft-type-v`; empty omits it.
    pub spec_draft_type_v: String,
    /// `--n-gpu-layers-draft`.
    pub n_gpu_layers_draft: Option<i32>,
    /// `--device-draft`; empty omits it.
    pub device_draft: String,
    /// `--device`; empty omits it.
    pub device: String,
    /// `--split-mode`; empty omits it.
    pub split_mode: String,
    /// `--tensor-split`; empty omits it.
    pub tensor_split: String,
    /// `--override-tensor`; empty omits it.
    pub override_tensor: String,
    /// `--ctx-size`.
    pub ctx_size: Option<i32>,
    /// `--n-gpu-layers`.
    pub n_gpu_layers: Option<i32>,
    /// `--parallel`.
    pub parallel: Option<i32>,
    /// `--batch-size`.
    pub batch_size: Option<i32>,
    /// `--ubatch-size`.
    pub ubatch_size: Option<i32>,
    /// `--cache-type-k`; empty omits it.
    pub cache_type_k: String,
    /// `--cache-type-v`; empty omits it.
    pub cache_type_v: String,
    /// `--flash-attn`.
    pub flash_attn: Option<bool>,
    /// `--cache-ram`.
    pub cache_ram: Option<i32>,
    /// `--jinja`.
    pub jinja: Option<bool>,
    /// `--reasoning`.
    pub reasoning: String,
    /// `--reasoning-format`.
    pub reasoning_format: String,
    /// `--reasoning-effort`; empty omits it.
    pub reasoning_effort: String,
    /// `--reasoning-preserve`.
    pub reasoning_preserve: Option<bool>,
    /// `--reasoning-budget`.
    pub reasoning_budget: Option<i32>,
    /// `--reasoning-budget-message`; empty omits it.
    pub reasoning_budget_message: String,
    /// `--n-predict`.
    pub n_predict: Option<i32>,
    /// `--n-cpu-moe`.
    pub n_cpu_moe: Option<i32>,
    /// `--n-cpu-ffn`.
    pub n_cpu_ffn: Option<i32>,
    /// `--temp`, as decimal text.
    pub temp: Option<String>,
    /// `--top-k`.
    pub top_k: Option<i32>,
    /// `--top-p`, as decimal text.
    pub top_p: Option<String>,
    /// `--min-p`, as decimal text.
    pub min_p: Option<String>,
    /// `--repeat-penalty`, as decimal text.
    pub repeat_penalty: Option<String>,
    /// `--presence-penalty`, as decimal text.
    pub presence_penalty: Option<String>,
    /// `--backend-sampling`.
    pub backend_sampling: Option<bool>,
    /// `--chat-template-kwargs`; empty omits it.
    pub chat_template_kwargs: String,
}

impl Preset {
    /// Two presets with the same values.
    pub open spec fn same(self, other: Preset) -> bool {
        &&& self.same_texts(other)
        &&& self.same_choices(other)
        &&& self.same_numbers(other)
        &&& self.same_flags(other)
        &&& self.same_decimals(other)
    }

    /// The free texts.
    pub open spec fn same_texts(self, other: Preset) -> bool {
        &&& self.id@ == other.id@
        &&& self.model@ == other.model@
        &&& self.mmproj@ == other.mmproj@
        &&& self.model_draft@ == other.model_draft@
        &&& self.device_draft@ == other.device_draft@
        &&& self.device@ == other.device@
        &&& self.tensor_split@ == other.tensor_split@
        &&& self.override_tensor@ == other.override_tensor@
        &&& self.reasoning@ == other.reasoning@
        &&& self.reasoning_format@ == other.reasoning_format@
        &&& self.reasoning_budget_message@ == other.reasoning_budget_message@
        &&& self.chat_template_kwargs@ == other.chat_template_kwargs@
    }

    /// The choices out of a list.
    pub open spec fn same_choices(self, other: Preset) -> bool {
        &&& self.spec_type@ == other.spec_type@
        &&& self.spec_draft_type_k@ == other.spec_draft_type_k@
        &&& self.spec_draft_type_v@ == other.spec_draft_type_v@
        &&& self.split_mode@ == other.split_mode@
        &&& self.cache_type_k@ == other.cache_type_k@
        &&& self.cache_type_v@ == other.cache_type_v@
        &&& self.reasoning_effort@ == other.reasoning_effort@
    }

    /// The whole numbers.
    pub open spec fn same_numbers(self, other: Preset) -> bool {
        &&& self.image_min_tokens == other.image_min_tokens
        &&& self.image_max_tokens == other.image_max_tokens
        &&& self.spec_draft_n_max == other.spec_draft_n_max
        &&& self.n_gpu_layers_draft == other.n_gpu_layers_draft
        &&& self.ctx_size == other.ctx_size
        &&& self.n_gpu_layers == other.n_gpu_layers
        &&& self.parallel == other.parallel
        &&& self.batch_size == other.batch_size
        &&& self.ubatch_size == other.ubatch_size
        &&& self.cache_ram == other.cache_ram
        &&& self.reasoning_budget == other.reasoning_budget
        &&& self.n_predict == other.n_predict
        &&& self.n_cpu_moe == other.n_cpu_moe
        &&& self.n_cpu_ffn == other.n_cpu_ffn
        &&& self.top_k == other.top_k
    }

    /// The flags.
    pub open spec fn same_flags(self, other: Preset) -> bool {
        &&& self.mmproj_offload == other.mmproj_offload
        &&& self.flash_attn == other.flash_attn
        &&& self.jinja == other.jinja
        &&& self.reasoning_preserve == other.reasoning_preserve
        &&& self.backend_sampling == other.backend_sampling
    }

    /// The decimal numbers.
    pub open spec fn same_decimals(self, other: Preset) -> bool {
        &&& opt(self.temp) == opt(other.temp)
        &&& opt(self.top_p) == opt(other.top_p)
        &&& opt(self.min_p) == opt(other.min_p)
        &&& opt(self.repeat_penalty) == opt(other.repeat_penalty)
        &&& opt(self.presence_penalty) == opt(other.presence_penalty)
    }
}

impl Clone for Preset {
    fn clone(&self) -> (r: Self)
        ensures
            r.same(*self),
    {
        Preset {
            id: self.id.clone(),
            model: self.model.clone(),
            mmproj: self.mmproj.clone(),
            mmproj_offload: self.mmproj_offload,
            image_min_tokens: self.image_min_tokens,
            image_max_tokens: self.image_max_tokens,
            model_draft: self.model_draft.clone(),
            spec_type: self.spec_type.clone(),
            spec_draft_n_max: self.spec_draft_n_max,
            spec_draft_type_k: self.spec_draft_type_k.clone(),
            spec_draft_type_v: self.spec_draft_type_v.clone(),
            n_gpu_layers_draft: self.n_gpu_layers_draft,
            device_draft: self.device_draft.clone(),
            device: self.device.clone(),
            split_mode: self.split_mode.clone(),
            tensor_split: self.tensor_split.clone(),
            override_tensor: self.override_tensor.clone(),
            ctx_size: self.ctx_size,
            n_gpu_layers: self.n_gpu_layers,
            parallel: self.parallel,
            batch_size: self.batch_size,
            ubatch_size: self.ubatch_size,
            cache_type_k: self.cache_type_k.clone(),
            cache_type_v: self.cache_type_v.clone(),
            flash_attn: self.flash_attn,
            cache_ram: self.cache_ram,
            jinja: self.jinja,
            reasoning: self.reasoning.clone(),
            reasoning_format: self.reasoning_format.clone(),
            reasoning_effort: self.reasoning_effort.clone(),
            reasoning_preserve: self.reasoning_preserve,
            reasoning_budget: self.reasoning_budget,
            reasoning_budget_message: self.reasoning_budget_message.clone(),
            n_predict: self.n_predict,
            n_cpu_moe: self.n_cpu_moe,
            n_cpu_ffn: self.n_cpu_ffn,
            temp: copied(&self.temp),
            top_k: self.top_k,
            top_p: copied(&self.top_p),
            min_p: copied(&self.min_p),
            repeat_penalty: copied(&self.repeat_penalty),
            presence_penalty: copied(&self.presence_penalty),
            backend_sampling: self.backend_sampling,
            chat_template_kwargs: self.chat_template_kwargs.clone(),
        }
    }
}

/// A copy of an optional text.
pub fn copied(o: &Option<String>) -> (r: Option<String>)
    ensures
        opt(r) == opt(*o),
{
    match o {
        Some(s) => Some(s.clone()),
        None => None,
    }
}

/// The text of a preset's `reasoning` and `reasoning_format` that names no choice.
pub open spec fn auto_text() -> Seq<char> {
    "auto"@
}

impl Default for Preset {
    /// A new preset: every key unset but the four that a form always shows.
    fn default() -> (r: Self)
        ensures
            r.id@.len() == 0,
            r.model@.len() == 0,
            r.mmproj@.len() == 0,
            r.mmproj_offload == Some(true),
            r.image_min_tokens == None::<i32>,
            r.image_max_tokens == None::<i32>,
            r.model_draft@.len() == 0,
            r.spec_type@.len() == 0,
            r.spec_draft_n_max == None::<i32>,
            r.spec_draft_type_k@.len() == 0,
            r.spec_draft_type_v@.len() == 0,
            r.n_gpu_layers_draft == None::<i32>,
            r.device_draft@.len() == 0,
            r.device@.len() == 0,
            r.split_mode@.len() == 0,
            r.tensor_split@.len() == 0,
            r.override_tensor@.len() == 0,
            r.ctx_size == None::<i32>,
            r.n_gpu_layers == None::<i32>,
            r.parallel == None::<i32>,
            r.batch_size == None::<i32>,
            r.ubatch_size == None::<i32>,
            r.cache_type_k@.len() == 0,
            r.cache_type_v@.len() == 0,
            r.flash_attn == None::<bool>,
            r.cache_ram == None::<i32>,
            r.jinja == Some(true),
            r.reasoning@ == auto_text(),
            r.reasoning_format@ == auto_text(),
            r.reasoning_effort@.len() == 0,
            r.reasoning_preserve == None::<bool>,
            r.reasoning_budget == None::<i32>,
            r.reasoning_budget_message@.len() == 0,
            r.n_predict == None::<i32>,
            r.n_cpu_moe == None::<i32>,
            r.n_cpu_ffn == None::<i32>,
            r.temp == None::<String>,
            r.top_k == None::<i32>,
            r.top_p == None::<String>,
            r.min_p == None::<String>,
            r.repeat_penalty == None::<String>,
            r.presence_penalty == None::<String>,
            r.backend_sampling == None::<bool>,
            r.chat_template_kwargs@.len() == 0,
    {
        Preset {
            id: String::new(),
            model: String::new(),
            mmproj: String::new(),
            mmproj_offload: Some(true),
            image_min_tokens: None,
            image_max_tokens: None,
            model_draft: String::new(),
            spec_type: String::new(),
            spec_draft_n_max: None,
            spec_draft_type_k: String::new(),
            spec_draft_type_v: String::new(),
            n_gpu_layers_draft: None,
            device_draft: String::new(),
            device: String::new(),
            split_mode: String::new(),
            tensor_split: String::new(),
            override_tensor: String::new(),
            ctx_size: None,
            n_gpu_layers: None,
            parallel: None,
            batch_size: None,
            ubatch_size: None,
            cache_type_k: String::new(),
            cache_type_v: String::new(),
            flash_attn: None,
            cache_ram: None,
            jinja: Some(true),
            reasoning: "auto".to_owned(),
            reasoning_format: "auto".to_owned(),
            reasoning_effort: String::new(),
            reasoning_preserve: None,
            reasoning_budget: None,
            reasoning_budget_message: String::new(),
            n_predict: None,
            n_cpu_moe: None,
            n_cpu_ffn: None,
            temp: None,
            top_k: None,
            top_p: None,
            min_p: None,
            repeat_penalty: None,
            presence_penalty: None,
            backend_sampling: None,
            chat_template_kwargs: String::new(),
        }
    }
}

// ── Draft keys ───────────────────────────────────────────────────────────

/// Whether the draft keys of a preset do anything: it names a draft model, or
/// its own model embeds one.
pub open spec fn drafts(p: Preset, embeds_mtp: bool) -> bool {
    p.model_draft@.len() > 0 || embeds_mtp
}

/// The draft keys that a preset sets.
pub open spec fn set_draft_keys(p: Preset) -> Seq<Seq<char>> {
    let a = if p.spec_type@.len() > 0 {
        seq!["spec-type"@]
    } else {
        Seq::empty()
    };
    let b = if p.spec_draft_n_max is Some {
        a.push("spec-draft-n-max"@)
    } else {
        a
    };
    let c = if p.spec_draft_type_k@.len() > 0 {
        b.push("spec-draft-type-k"@)
    } else {
        b
    };
    let d = if p.spec_draft_type_v@.len() > 0 {
        c.push("spec-draft-type-v"@)
    } else {
        c
    };
    let e = if p.n_gpu_layers_draft is Some {
        d.push("n-gpu-layers-draft"@)
    } else {
        d
    };
    if p.device_draft@.len() > 0 {
        e.push("device-draft"@)
    } else {
        e
    }
}

/// The views of a list of literals.
pub open spec fn literals(v: Seq<&'static str>) -> Seq<Seq<char>> {
    v.map_values(|s: &'static str| s@)
}

/// Whether two presets agree in everything but the draft keys.
pub open spec fn same_but_draft_keys(p: Preset, q: Preset) -> bool {
    &&& p.id@ == q.id@
    &&& p.model@ == q.model@
    &&& p.mmproj@ == q.mmproj@
    &&& p.mmproj_offload == q.mmproj_offload
    &&& p.image_min_tokens == q.image_min_tokens
    &&& p.image_max_tokens == q.image_max_tokens
    &&& p.model_draft@ == q.model_draft@
    &&& p.device@ == q.device@
    &&& p.split_mode@ == q.split_mode@
    &&& p.tensor_split@ == q.tensor_split@
    &&& p.override_tensor@ == q.override_tensor@
    &&& p.ctx_size == q.ctx_size
    &&& p.n_gpu_layers == q.n_gpu_layers
    &&& p.parallel == q.parallel
    &&& p.batch_size == q.batch_size
    &&& p.ubatch_size == q.ubatch_size
    &&& p.cache_type_k@ == q.cache_type_k@
    &&& p.cache_type_v@ == q.cache_type_v@
    &&& p.flash_attn == q.flash_attn
    &&& p.cache_ram == q.cache_ram
    &&& p.jinja == q.jinja
    &&& p.reasoning@ == q.reasoning@
    &&& p.reasoning_format@ == q.reasoning_format@
    &&& p.reasoning_effort@ == q.reasoning_effort@
    &&& p.reasoning_preserve == q.reasoning_preserve
    &&& p.reasoning_budget == q.reasoning_budget
    &&& p.reasoning_budget_message@ == q.reasoning_budget_message@
    &&& p.n_predict == q.n_predict
    &&& p.n_cpu_moe == q.n_cpu_moe
    &&& p.n_cpu_ffn == q.n_cpu_ffn
    &&& opt(p.temp) == opt(q.temp)
    &&& p.top_k == q.top_k
    &&& opt(p.top_p) == opt(q.top_p)
    &&& opt(p.min_p) == opt(q.min_p)
    &&& opt(p.repeat_penalty) == opt(q.repeat_penalty)
    &&& opt(p.presence_penalty) == opt(q.presence_penalty)
    &&& p.backend_sampling == q.backend_sampling
    &&& p.chat_template_kwargs@ == q.chat_template_kwargs@
}

/// Clears the draft keys of a preset whose model drafts nothing, and names those
/// that were set.
pub fn prune_inactive_draft_keys(p: &mut Preset, embeds_mtp: bool) -> (r: Vec<&'static str>)
    ensures
        same_but_draft_keys(*final(p), *old(p)),
        drafts(*old(p), embeds_mtp) ==> final(p).same(*old(p)) && r@.len() == 0,
        !drafts(*old(p), embeds_mtp) ==> {
            &&& literals(r@) == set_draft_keys(*old(p))
            &&& set_draft_keys(*final(p)).len() == 0
        },
{
    let mut dropped: Vec<&'static str> = Vec::new();
    if !p.model_draft.as_str().is_empty() || embeds_mtp {
        return dropped;
    }
    if !p.spec_type.as_str().is_empty() {
        dropped.push("spec-type");
        p.spec_type = String::new();
    }
    if p.spec_draft_n_max.is_some() {
        dropped.push("spec-draft-n-max");
        p.spec_draft_n_max = None;
    }
    if !p.spec_draft_type_k.as_str().is_empty() {
        dropped.push("spec-draft-type-k");
        p.spec_draft_type_k = String::new();
    }
    if !p.spec_draft_type_v.as_str().is_empty() {
        dropped.push("spec-draft-type-v");
        p.spec_draft_type_v = String::new();
    }
    if p.n_gpu_layers_draft.is_some() {
        dropped.push("n-gpu-layers-draft");
        p.n_gpu_layers_draft = None;
    }
    if !p.device_draft.as_str().is_empty() {
        dropped.push("device-draft");
        p.device_draft = String::new();
    }
    assert(literals(dropped@) =~= set_draft_keys(*old(p)));
    assert(set_draft_keys(*p) =~= Seq::<Seq<char>>::empty());
    dropped
}

} // verus!
