//! Between a preset and the form that edits it.
//!
//! The form holds what its widgets show. A number is text beside a "default" box,
//! a tri-state flag is one of three words, an empty choice is the word of the
//! list's first entry. [`preset_to_form`] shows a preset and [`form_to_preset`]
//! reads one; each states, field by field, what it does.
use vstd::prelude::*;
use vstd::string::*;
use crate::decimal::{decimal_read, keeps_short, parse_decimal};
use crate::ini::parse_int;
use crate::presets::{drafts, literals, prune_inactive_draft_keys, set_draft_keys, Preset};
use crate::text::{
    dec, dec_int, int_str, is_digit, lemma_dec, lemma_parse_dec_int, opt, parse_signed, str_eq,
    strs, trim, trim_end, trim_start,
};

verus! {

/// The "all layers" position of the layer sliders: above any real block count.
pub const ALL_LAYERS: i32 = 99;

// Where a numeric field parks while its "default" box is ticked.
pub const HINT_CTX_SIZE: i32 = 32768;

pub const HINT_PARALLEL: i32 = 4;

pub const HINT_BATCH_SIZE: i32 = 2048;

pub const HINT_UBATCH_SIZE: i32 = 512;

pub const HINT_CACHE_RAM: i32 = 8192;

pub const HINT_TOP_K: i32 = 40;

pub const HINT_SPEC_DRAFT_N_MAX: i32 = 3;

pub const HINT_IMAGE_MIN_TOKENS: i32 = 1024;

pub const HINT_IMAGE_MAX_TOKENS: i32 = 2048;

pub const HINT_REASONING_BUDGET: i32 = -1;

pub const HINT_N_PREDICT: i32 = -1;

/// The form: what the widgets of the preset editor show.
#[derive(Debug, Clone, PartialEq, Eq)]
pub struct PresetForm {
    pub id: String,
    pub model: String,
    pub mmproj: String,
    pub mmproj_offload: bool,
    pub image_min_tokens: String,
    pub image_min_tokens_default: bool,
    pub image_max_tokens: String,
    pub image_max_tokens_default: bool,
    pub model_draft: String,
    pub spec_type: String,
    pub spec_draft_n_max: String,
    pub spec_draft_n_max_default: bool,
    pub spec_draft_type_k: String,
    pub spec_draft_type_v: String,
    pub n_gpu_layers_draft: i32,
    pub n_gpu_layers_draft_auto: bool,
    pub device_draft: String,
    pub device: String,
    pub split_mode: String,
    pub tensor_split: String,
    pub override_tensor: String,
    pub ctx_size: String,
    pub ctx_size_default: bool,
    pub n_gpu_layers: i32,
    pub n_gpu_layers_auto: bool,
    pub parallel: String,
    pub parallel_default: bool,
    pub batch_size: String,
    pub batch_size_default: bool,
    pub ubatch_size: String,
    pub ubatch_size_default: bool,
    pub cache_type_k: String,
    pub cache_type_v: String,
    pub flash_attn: String,
    pub cache_ram: String,
    pub cache_ram_default: bool,
    pub jinja: bool,
    pub reasoning: String,
    pub reasoning_format: String,
    pub reasoning_effort: String,
    pub reasoning_preserve: String,
    pub reasoning_budget: String,
    pub reasoning_budget_default: bool,
    pub reasoning_budget_message: String,
    pub n_predict: String,
    pub n_predict_default: bool,
    pub n_cpu_moe: i32,
    pub n_cpu_moe_auto: bool,
    pub n_cpu_ffn: i32,
    pub n_cpu_ffn_auto: bool,
    pub temp: String,
    pub temp_default: bool,
    pub top_k: String,
    pub top_k_default: bool,
    pub top_p: String,
    pub top_p_default: bool,
    pub min_p: String,
    pub min_p_default: bool,
    pub repeat_penalty: String,
    pub repeat_penalty_default: bool,
    pub presence_penalty: String,
    pub presence_penalty_default: bool,
    pub backend_sampling: String,
    pub chat_template_kwargs: String,
}

impl PresetForm {
    /// Two forms that show the same.
    pub open spec fn same(self, other: PresetForm) -> bool {
        &&& self.same_but_draft_fields(other)
        &&& self.spec_type@ == other.spec_type@
        &&& self.spec_draft_n_max@ == other.spec_draft_n_max@
        &&& self.spec_draft_n_max_default == other.spec_draft_n_max_default
        &&& self.spec_draft_type_k@ == other.spec_draft_type_k@
        &&& self.spec_draft_type_v@ == other.spec_draft_type_v@
        &&& self.n_gpu_layers_draft == other.n_gpu_layers_draft
        &&& self.n_gpu_layers_draft_auto == other.n_gpu_layers_draft_auto
        &&& self.device_draft@ == other.device_draft@
    }

    /// Two forms that show the same but for the draft fields.
    pub open spec fn same_but_draft_fields(self, other: PresetForm) -> bool {
        &&& self.id@ == other.id@
        &&& self.model@ == other.model@
        &&& self.mmproj@ == other.mmproj@
        &&& self.mmproj_offload == other.mmproj_offload
        &&& self.image_min_tokens@ == other.image_min_tokens@
        &&& self.image_min_tokens_default == other.image_min_tokens_default
        &&& self.image_max_tokens@ == other.image_max_tokens@
        &&& self.image_max_tokens_default == other.image_max_tokens_default
        &&& self.model_draft@ == other.model_draft@
        &&& self.device@ == other.device@
        &&& self.split_mode@ == other.split_mode@
        &&& self.tensor_split@ == other.tensor_split@
        &&& self.override_tensor@ == other.override_tensor@
        &&& self.ctx_size@ == other.ctx_size@
        &&& self.ctx_size_default == other.ctx_size_default
        &&& self.n_gpu_layers == other.n_gpu_layers
        &&& self.n_gpu_layers_auto == other.n_gpu_layers_auto
        &&& self.parallel@ == other.parallel@
        &&& self.parallel_default == other.parallel_default
        &&& self.batch_size@ == other.batch_size@
        &&& self.batch_size_default == other.batch_size_default
        &&& self.ubatch_size@ == other.ubatch_size@
        &&& self.ubatch_size_default == other.ubatch_size_default
        &&& self.cache_type_k@ == other.cache_type_k@
        &&& self.cache_type_v@ == other.cache_type_v@
        &&& self.flash_attn@ == other.flash_attn@
        &&& self.cache_ram@ == other.cache_ram@
        &&& self.cache_ram_default == other.cache_ram_default
        &&& self.jinja == other.jinja
        &&& self.reasoning@ == other.reasoning@
        &&& self.reasoning_format@ == other.reasoning_format@
        &&& self.reasoning_effort@ == other.reasoning_effort@
        &&& self.reasoning_preserve@ == other.reasoning_preserve@
        &&& self.reasoning_budget@ == other.reasoning_budget@
        &&& self.reasoning_budget_default == other.reasoning_budget_default
        &&& self.reasoning_budget_message@ == other.reasoning_budget_message@
        &&& self.n_predict@ == other.n_predict@
        &&& self.n_predict_default == other.n_predict_default
        &&& self.n_cpu_moe == other.n_cpu_moe
        &&& self.n_cpu_moe_auto == other.n_cpu_moe_auto
        &&& self.n_cpu_ffn == other.n_cpu_ffn
        &&& self.n_cpu_ffn_auto == other.n_cpu_ffn_auto
        &&& self.temp@ == other.temp@
        &&& self.temp_default == other.temp_default
        &&& self.top_k@ == other.top_k@
        &&& self.top_k_default == other.top_k_default
        &&& self.top_p@ == other.top_p@
        &&& self.top_p_default == other.top_p_default
        &&& self.min_p@ == other.min_p@
        &&& self.min_p_default == other.min_p_default
        &&& self.repeat_penalty@ == other.repeat_penalty@
        &&& self.repeat_penalty_default == other.repeat_penalty_default
        &&& self.presence_penalty@ == other.presence_penalty@
        &&& self.presence_penalty_default == other.presence_penalty_default
        &&& self.backend_sampling@ == other.backend_sampling@
        &&& self.chat_template_kwargs@ == other.chat_template_kwargs@
    }
}

impl Default for PresetForm {
    /// A blank form.
    fn default() -> (r: Self)
        ensures
            r.id@.len() == 0,
            r.model@.len() == 0,
            r.mmproj@.len() == 0,
            !r.mmproj_offload,
            r.image_min_tokens@.len() == 0 && !r.image_min_tokens_default,
            r.image_max_tokens@.len() == 0 && !r.image_max_tokens_default,
            r.model_draft@.len() == 0,
            r.spec_type@.len() == 0,
            r.spec_draft_n_max@.len() == 0 && !r.spec_draft_n_max_default,
            r.spec_draft_type_k@.len() == 0,
            r.spec_draft_type_v@.len() == 0,
            r.n_gpu_layers_draft == 0 && !r.n_gpu_layers_draft_auto,
            r.device_draft@.len() == 0,
            r.device@.len() == 0,
            r.split_mode@.len() == 0,
            r.tensor_split@.len() == 0,
            r.override_tensor@.len() == 0,
            r.ctx_size@.len() == 0 && !r.ctx_size_default,
            r.n_gpu_layers == 0 && !r.n_gpu_layers_auto,
            r.parallel@.len() == 0 && !r.parallel_default,
            r.batch_size@.len() == 0 && !r.batch_size_default,
            r.ubatch_size@.len() == 0 && !r.ubatch_size_default,
            r.cache_type_k@.len() == 0,
            r.cache_type_v@.len() == 0,
            r.flash_attn@.len() == 0,
            r.cache_ram@.len() == 0 && !r.cache_ram_default,
            !r.jinja,
            r.reasoning@.len() == 0,
            r.reasoning_format@.len() == 0,
            r.reasoning_effort@.len() == 0,
            r.reasoning_preserve@.len() == 0,
            r.reasoning_budget@.len() == 0 && !r.reasoning_budget_default,
            r.reasoning_budget_message@.len() == 0,
            r.n_predict@.len() == 0 && !r.n_predict_default,
            r.n_cpu_moe == 0 && !r.n_cpu_moe_auto,
            r.n_cpu_ffn == 0 && !r.n_cpu_ffn_auto,
            r.temp@.len() == 0 && !r.temp_default,
            r.top_k@.len() == 0 && !r.top_k_default,
            r.top_p@.len() == 0 && !r.top_p_default,
            r.min_p@.len() == 0 && !r.min_p_default,
            r.repeat_penalty@.len() == 0 && !r.repeat_penalty_default,
            r.presence_penalty@.len() == 0 && !r.presence_penalty_default,
            r.backend_sampling@.len() == 0,
            r.chat_template_kwargs@.len() == 0,
    {
        PresetForm {
            id: String::new(),
            model: String::new(),
            mmproj: String::new(),
            mmproj_offload: false,
            image_min_tokens: String::new(),
            image_min_tokens_default: false,
            image_max_tokens: String::new(),
            image_max_tokens_default: false,
            model_draft: String::new(),
            spec_type: String::new(),
            spec_draft_n_max: String::new(),
            spec_draft_n_max_default: false,
            spec_draft_type_k: String::new(),
            spec_draft_type_v: String::new(),
            n_gpu_layers_draft: 0,
            n_gpu_layers_draft_auto: false,
            device_draft: String::new(),
            device: String::new(),
            split_mode: String::new(),
            tensor_split: String::new(),
            override_tensor: String::new(),
            ctx_size: String::new(),
            ctx_size_default: false,
            n_gpu_layers: 0,
            n_gpu_layers_auto: false,
            parallel: String::new(),
            parallel_default: false,
            batch_size: String::new(),
            batch_size_default: false,
            ubatch_size: String::new(),
            ubatch_size_default: false,
            cache_type_k: String::new(),
            cache_type_v: String::new(),
            flash_attn: String::new(),
            cache_ram: String::new(),
            cache_ram_default: false,
            jinja: false,
            reasoning: String::new(),
            reasoning_format: String::new(),
            reasoning_effort: String::new(),
            reasoning_preserve: String::new(),
            reasoning_budget: String::new(),
            reasoning_budget_default: false,
            reasoning_budget_message: String::new(),
            n_predict: String::new(),
            n_predict_default: false,
            n_cpu_moe: 0,
            n_cpu_moe_auto: false,
            n_cpu_ffn: 0,
            n_cpu_ffn_auto: false,
            temp: String::new(),
            temp_default: false,
            top_k: String::new(),
            top_k_default: false,
            top_p: String::new(),
            top_p_default: false,
            min_p: String::new(),
            min_p_default: false,
            repeat_penalty: String::new(),
            repeat_penalty_default: false,
            presence_penalty: String::new(),
            presence_penalty_default: false,
            backend_sampling: String::new(),
            chat_template_kwargs: String::new(),
        }
    }
}

// ── One value at a time ──────────────────────────────────────────────────

/// A text, or a word in its place where it is empty.
pub open spec fn text_or(val: Seq<char>, word: Seq<char>) -> Seq<char> {
    if val.len() == 0 {
        word
    } else {
        val
    }
}

fn str_or(val: &str, default: &str) -> (r: String)
    ensures
        r@ == text_or(val@, default@),
{
    if val.is_empty() {
        default.to_owned()
    } else {
        val.to_owned()
    }
}

/// The word of a tri-state flag.
pub open spec fn tri_word(v: Option<bool>) -> Seq<char> {
    match v {
        Some(true) => "on"@,
        Some(false) => "off"@,
        None => "default"@,
    }
}

/// The flag of a tri-state word. What is not an explicit on or off is unset.
pub open spec fn tri_value(s: Seq<char>) -> Option<bool> {
    if s == "on"@ {
        Some(true)
    } else if s == "off"@ {
        Some(false)
    } else {
        None
    }
}

/// The word that a tri-state control shows.
pub fn tri_state(v: Option<bool>) -> (r: String)
    ensures
        r@ == tri_word(v),
{
    match v {
        Some(true) => "on".to_owned(),
        Some(false) => "off".to_owned(),
        None => "default".to_owned(),
    }
}

/// The flag that a tri-state control stands for.
pub fn tri_bool(s: &str) -> (r: Option<bool>)
    ensures
        r == tri_value(s@),
{
    if str_eq(s, "on") {
        Some(true)
    } else if str_eq(s, "off") {
        Some(false)
    } else {
        None
    }
}

/// A tri-state flag survives its word.
pub proof fn law_tri_state_round_trips(v: Option<bool>)
    ensures
        tri_value(tri_word(v)) == v,
{
    reveal_strlit("on");
    reveal_strlit("off");
    reveal_strlit("default");
    assert("on"@.len() != "off"@.len());
    assert("default"@.len() != "off"@.len());
    assert("default"@.len() != "on"@.len());
}

/// The value that a choice stands for: the word of the first entry, like an empty
/// text, means none.
pub open spec fn unless_word(val: Seq<char>, word: Seq<char>) -> Seq<char> {
    if val == word {
        Seq::empty()
    } else {
        val
    }
}

fn enum_or_empty(val: &str, word: &str) -> (r: String)
    ensures
        r@ == unless_word(val@, word@),
{
    if str_eq(val, word) {
        String::new()
    } else {
        val.to_owned()
    }
}

/// The text of an optional number: its own, or that of the hint.
pub open spec fn number_text(v: Option<i32>, hint: i32) -> Seq<char> {
    match v {
        Some(n) => dec_int(n as int),
        None => dec_int(hint as int),
    }
}

fn itxt(v: Option<i32>, hint: i32) -> (r: String)
    ensures
        r@ == number_text(v, hint),
{
    match v {
        Some(n) => int_str(n as i64),
        None => int_str(hint as i64),
    }
}

/// The text of an optional decimal number, or nothing.
pub open spec fn decimal_shown(v: Option<String>) -> Seq<char> {
    match v {
        Some(s) => s@,
        None => Seq::empty(),
    }
}

fn txt(v: &Option<String>) -> (r: String)
    ensures
        r@ == decimal_shown(*v),
{
    match v {
        Some(s) => s.clone(),
        None => String::new(),
    }
}

/// The number that a text stands for where it is at least `lo`.
pub open spec fn int_at_least(s: Seq<char>, lo: int) -> Option<int> {
    match parse_signed(trim(s), i32::MIN as int, i32::MAX as int) {
        Some(v) => if v >= lo {
            Some(v)
        } else {
            None
        },
        None => None,
    }
}

/// Reads a number of a field that takes nothing below `lo`.
pub fn parse_int_in(s: &str, lo: i32) -> (r: Option<i32>)
    ensures
        match r {
            Some(v) => int_at_least(s@, lo as int) == Some(v as int),
            None => int_at_least(s@, lo as int) is None,
        },
{
    match parse_int(s) {
        Some(v) => if v >= lo {
            Some(v)
        } else {
            None
        },
        None => None,
    }
}

// ── The two conversions ──────────────────────────────────────────────────

/// What a form shows of a preset.
pub open spec fn shows(f: PresetForm, p: Preset) -> bool {
    &&& f.id@ == p.id@
    &&& f.model@ == p.model@
    &&& f.mmproj@ == p.mmproj@
    &&& f.mmproj_offload == (p.mmproj_offload != Some(false))
    &&& f.image_min_tokens@ == number_text(p.image_min_tokens, HINT_IMAGE_MIN_TOKENS)
    &&& f.image_min_tokens_default == (p.image_min_tokens is None)
    &&& f.image_max_tokens@ == number_text(p.image_max_tokens, HINT_IMAGE_MAX_TOKENS)
    &&& f.image_max_tokens_default == (p.image_max_tokens is None)
    &&& f.model_draft@ == p.model_draft@
    &&& f.spec_type@ == text_or(p.spec_type@, "none"@)
    &&& f.spec_draft_n_max@ == number_text(p.spec_draft_n_max, HINT_SPEC_DRAFT_N_MAX)
    &&& f.spec_draft_n_max_default == (p.spec_draft_n_max is None)
    &&& f.spec_draft_type_k@ == text_or(p.spec_draft_type_k@, "default"@)
    &&& f.spec_draft_type_v@ == text_or(p.spec_draft_type_v@, "default"@)
    &&& f.n_gpu_layers_draft == match p.n_gpu_layers_draft {
        Some(v) => v,
        None => ALL_LAYERS,
    }
    &&& f.n_gpu_layers_draft_auto == (p.n_gpu_layers_draft is None)
    &&& f.device_draft@ == p.device_draft@
    &&& f.device@ == p.device@
    &&& f.split_mode@ == text_or(p.split_mode@, "default"@)
    &&& f.tensor_split@ == p.tensor_split@
    &&& f.override_tensor@ == p.override_tensor@
    &&& f.ctx_size@ == number_text(p.ctx_size, HINT_CTX_SIZE)
    &&& f.ctx_size_default == (p.ctx_size is None)
    &&& f.n_gpu_layers == match p.n_gpu_layers {
        Some(v) => v,
        None => ALL_LAYERS,
    }
    &&& f.n_gpu_layers_auto == (p.n_gpu_layers is None)
    &&& f.parallel@ == number_text(p.parallel, HINT_PARALLEL)
    &&& f.parallel_default == (p.parallel is None)
    &&& f.batch_size@ == number_text(p.batch_size, HINT_BATCH_SIZE)
    &&& f.batch_size_default == (p.batch_size is None)
    &&& f.ubatch_size@ == number_text(p.ubatch_size, HINT_UBATCH_SIZE)
    &&& f.ubatch_size_default == (p.ubatch_size is None)
    &&& f.cache_type_k@ == text_or(p.cache_type_k@, "default"@)
    &&& f.cache_type_v@ == text_or(p.cache_type_v@, "default"@)
    &&& f.flash_attn@ == tri_word(p.flash_attn)
    &&& f.cache_ram@ == number_text(p.cache_ram, HINT_CACHE_RAM)
    &&& f.cache_ram_default == (p.cache_ram is None)
    &&& f.jinja == (p.jinja != Some(false))
    &&& f.reasoning@ == text_or(p.reasoning@, "auto"@)
    &&& f.reasoning_format@ == text_or(p.reasoning_format@, "auto"@)
    &&& f.reasoning_effort@ == text_or(p.reasoning_effort@, "default"@)
    &&& f.reasoning_preserve@ == tri_word(p.reasoning_preserve)
    &&& f.reasoning_budget@ == number_text(p.reasoning_budget, HINT_REASONING_BUDGET)
    &&& f.reasoning_budget_default == (p.reasoning_budget is None)
    &&& f.reasoning_budget_message@ == p.reasoning_budget_message@
    &&& f.n_predict@ == number_text(p.n_predict, HINT_N_PREDICT)
    &&& f.n_predict_default == (p.n_predict is None)
    &&& f.n_cpu_moe == match p.n_cpu_moe {
        Some(v) => v,
        None => 0,
    }
    &&& f.n_cpu_moe_auto == (p.n_cpu_moe is None)
    &&& f.n_cpu_ffn == match p.n_cpu_ffn {
        Some(v) => v,
        None => 0,
    }
    &&& f.n_cpu_ffn_auto == (p.n_cpu_ffn is None)
    &&& f.temp@ == decimal_shown(p.temp)
    &&& f.temp_default == (p.temp is None)
    &&& f.top_k@ == number_text(p.top_k, HINT_TOP_K)
    &&& f.top_k_default == (p.top_k is None)
    &&& f.top_p@ == decimal_shown(p.top_p)
    &&& f.top_p_default == (p.top_p is None)
    &&& f.min_p@ == decimal_shown(p.min_p)
    &&& f.min_p_default == (p.min_p is None)
    &&& f.repeat_penalty@ == decimal_shown(p.repeat_penalty)
    &&& f.repeat_penalty_default == (p.repeat_penalty is None)
    &&& f.presence_penalty@ == decimal_shown(p.presence_penalty)
    &&& f.presence_penalty_default == (p.presence_penalty is None)
    &&& f.backend_sampling@ == tri_word(p.backend_sampling)
    &&& f.chat_template_kwargs@ == p.chat_template_kwargs@
}

/// The number of a field, unless its "default" box is ticked.
pub open spec fn field_number(ticked: bool, s: Seq<char>, lo: int) -> Option<int> {
    if ticked {
        None
    } else {
        int_at_least(s, lo)
    }
}

/// The decimal number of a field, unless its "default" box is ticked.
pub open spec fn field_decimal(ticked: bool, s: Seq<char>) -> Option<Seq<char>> {
    if ticked {
        None
    } else {
        decimal_read(s)
    }
}

/// A machine number as a mathematical one.
pub open spec fn wide(v: Option<i32>) -> Option<int> {
    match v {
        Some(n) => Some(n as int),
        None => None,
    }
}

/// What a preset takes from a form.
pub open spec fn reads(p: Preset, f: PresetForm) -> bool {
    &&& p.id@ == f.id@
    &&& p.model@ == f.model@
    &&& p.mmproj@ == f.mmproj@
    &&& p.mmproj_offload == Some(f.mmproj_offload)
    &&& wide(p.image_min_tokens) == field_number(f.image_min_tokens_default, f.image_min_tokens@, 1)
    &&& wide(p.image_max_tokens) == field_number(f.image_max_tokens_default, f.image_max_tokens@, 1)
    &&& p.model_draft@ == f.model_draft@
    &&& p.spec_type@ == unless_word(f.spec_type@, "none"@)
    &&& wide(p.spec_draft_n_max) == field_number(f.spec_draft_n_max_default, f.spec_draft_n_max@, 1)
    &&& p.spec_draft_type_k@ == unless_word(f.spec_draft_type_k@, "default"@)
    &&& p.spec_draft_type_v@ == unless_word(f.spec_draft_type_v@, "default"@)
    &&& p.n_gpu_layers_draft == if f.n_gpu_layers_draft_auto {
        None
    } else {
        Some(f.n_gpu_layers_draft)
    }
    &&& p.device_draft@ == f.device_draft@
    &&& p.device@ == f.device@
    &&& p.split_mode@ == unless_word(f.split_mode@, "default"@)
    &&& p.tensor_split@ == f.tensor_split@
    &&& p.override_tensor@ == f.override_tensor@
    &&& wide(p.ctx_size) == field_number(f.ctx_size_default, f.ctx_size@, 1)
    &&& p.n_gpu_layers == if f.n_gpu_layers_auto {
        None
    } else {
        Some(f.n_gpu_layers)
    }
    &&& wide(p.parallel) == field_number(f.parallel_default, f.parallel@, 1)
    &&& wide(p.batch_size) == field_number(f.batch_size_default, f.batch_size@, 1)
    &&& wide(p.ubatch_size) == field_number(f.ubatch_size_default, f.ubatch_size@, 1)
    &&& p.cache_type_k@ == unless_word(f.cache_type_k@, "default"@)
    &&& p.cache_type_v@ == unless_word(f.cache_type_v@, "default"@)
    &&& p.flash_attn == tri_value(f.flash_attn@)
    &&& wide(p.cache_ram) == field_number(f.cache_ram_default, f.cache_ram@, i32::MIN as int)
    &&& p.jinja == Some(f.jinja)
    &&& p.reasoning@ == f.reasoning@
    &&& p.reasoning_format@ == f.reasoning_format@
    &&& p.reasoning_effort@ == unless_word(f.reasoning_effort@, "default"@)
    &&& p.reasoning_preserve == tri_value(f.reasoning_preserve@)
    &&& wide(p.reasoning_budget) == field_number(f.reasoning_budget_default, f.reasoning_budget@, i32::MIN as int)
    &&& p.reasoning_budget_message@ == f.reasoning_budget_message@
    &&& wide(p.n_predict) == field_number(f.n_predict_default, f.n_predict@, i32::MIN as int)
    &&& p.n_cpu_moe == if f.n_cpu_moe_auto {
        None
    } else {
        Some(f.n_cpu_moe)
    }
    &&& p.n_cpu_ffn == if f.n_cpu_ffn_auto {
        None
    } else {
        Some(f.n_cpu_ffn)
    }
    &&& opt(p.temp) == field_decimal(f.temp_default, f.temp@)
    &&& wide(p.top_k) == field_number(f.top_k_default, f.top_k@, i32::MIN as int)
    &&& opt(p.top_p) == field_decimal(f.top_p_default, f.top_p@)
    &&& opt(p.min_p) == field_decimal(f.min_p_default, f.min_p@)
    &&& opt(p.repeat_penalty) == field_decimal(f.repeat_penalty_default, f.repeat_penalty@)
    &&& opt(p.presence_penalty) == field_decimal(f.presence_penalty_default, f.presence_penalty@)
    &&& p.backend_sampling == tri_value(f.backend_sampling@)
    &&& p.chat_template_kwargs@ == f.chat_template_kwargs@
}

fn shown_flag(v: Option<bool>) -> (r: bool)
    ensures
        r == (v != Some(false)),
{
    match v {
        Some(b) => b,
        None => true,
    }
}

fn slider(v: Option<i32>, fallback: i32) -> (r: i32)
    ensures
        r == match v {
            Some(n) => n,
            None => fallback,
        },
{
    match v {
        Some(n) => n,
        None => fallback,
    }
}

/// Shows a preset.
pub fn preset_to_form(p: &Preset) -> (r: PresetForm)
    ensures
        shows(r, *p),
{
    PresetForm {
        id: p.id.clone(),
        model: p.model.clone(),
        mmproj: p.mmproj.clone(),
        mmproj_offload: shown_flag(p.mmproj_offload),
        image_min_tokens: itxt(p.image_min_tokens, HINT_IMAGE_MIN_TOKENS),
        image_min_tokens_default: p.image_min_tokens.is_none(),
        image_max_tokens: itxt(p.image_max_tokens, HINT_IMAGE_MAX_TOKENS),
        image_max_tokens_default: p.image_max_tokens.is_none(),
        model_draft: p.model_draft.clone(),
        spec_type: str_or(p.spec_type.as_str(), "none"),
        spec_draft_n_max: itxt(p.spec_draft_n_max, HINT_SPEC_DRAFT_N_MAX),
        spec_draft_n_max_default: p.spec_draft_n_max.is_none(),
        spec_draft_type_k: str_or(p.spec_draft_type_k.as_str(), "default"),
        spec_draft_type_v: str_or(p.spec_draft_type_v.as_str(), "default"),
        n_gpu_layers_draft: slider(p.n_gpu_layers_draft, ALL_LAYERS),
        n_gpu_layers_draft_auto: p.n_gpu_layers_draft.is_none(),
        device_draft: p.device_draft.clone(),
        device: p.device.clone(),
        split_mode: str_or(p.split_mode.as_str(), "default"),
        tensor_split: p.tensor_split.clone(),
        override_tensor: p.override_tensor.clone(),
        ctx_size: itxt(p.ctx_size, HINT_CTX_SIZE),
        ctx_size_default: p.ctx_size.is_none(),
        n_gpu_layers: slider(p.n_gpu_layers, ALL_LAYERS),
        n_gpu_layers_auto: p.n_gpu_layers.is_none(),
        parallel: itxt(p.parallel, HINT_PARALLEL),
        parallel_default: p.parallel.is_none(),
        batch_size: itxt(p.batch_size, HINT_BATCH_SIZE),
        batch_size_default: p.batch_size.is_none(),
        ubatch_size: itxt(p.ubatch_size, HINT_UBATCH_SIZE),
        ubatch_size_default: p.ubatch_size.is_none(),
        cache_type_k: str_or(p.cache_type_k.as_str(), "default"),
        cache_type_v: str_or(p.cache_type_v.as_str(), "default"),
        flash_attn: tri_state(p.flash_attn),
        cache_ram: itxt(p.cache_ram, HINT_CACHE_RAM),
        cache_ram_default: p.cache_ram.is_none(),
        jinja: shown_flag(p.jinja),
        reasoning: str_or(p.reasoning.as_str(), "auto"),
        reasoning_format: str_or(p.reasoning_format.as_str(), "auto"),
        reasoning_effort: str_or(p.reasoning_effort.as_str(), "default"),
        reasoning_preserve: tri_state(p.reasoning_preserve),
        reasoning_budget: itxt(p.reasoning_budget, HINT_REASONING_BUDGET),
        reasoning_budget_default: p.reasoning_budget.is_none(),
        reasoning_budget_message: p.reasoning_budget_message.clone(),
        n_predict: itxt(p.n_predict, HINT_N_PREDICT),
        n_predict_default: p.n_predict.is_none(),
        n_cpu_moe: slider(p.n_cpu_moe, 0),
        n_cpu_moe_auto: p.n_cpu_moe.is_none(),
        n_cpu_ffn: slider(p.n_cpu_ffn, 0),
        n_cpu_ffn_auto: p.n_cpu_ffn.is_none(),
        temp: txt(&p.temp),
        temp_default: p.temp.is_none(),
        top_k: itxt(p.top_k, HINT_TOP_K),
        top_k_default: p.top_k.is_none(),
        top_p: txt(&p.top_p),
        top_p_default: p.top_p.is_none(),
        min_p: txt(&p.min_p),
        min_p_default: p.min_p.is_none(),
        repeat_penalty: txt(&p.repeat_penalty),
        repeat_penalty_default: p.repeat_penalty.is_none(),
        presence_penalty: txt(&p.presence_penalty),
        presence_penalty_default: p.presence_penalty.is_none(),
        backend_sampling: tri_state(p.backend_sampling),
        chat_template_kwargs: p.chat_template_kwargs.clone(),
    }
}

fn number(ticked: bool, s: &str, lo: i32) -> (r: Option<i32>)
    ensures
        wide(r) == field_number(ticked, s@, lo as int),
{
    if ticked {
        None
    } else {
        parse_int_in(s, lo)
    }
}

fn decimal(ticked: bool, s: &str) -> (r: Option<String>)
    ensures
        opt(r) == field_decimal(ticked, s@),
        numeral(r),
        !ticked ==> keeps_short(s@, opt(r)),
{
    if ticked {
        None
    } else {
        parse_decimal(s)
    }
}

fn layers(auto: bool, n: i32) -> (r: Option<i32>)
    ensures
        r == if auto {
            None
        } else {
            Some(n)
        },
{
    if auto {
        None
    } else {
        Some(n)
    }
}

/// Reads a preset out of a form. A number that is not one, or that its field does
/// not take, reads as unset.
pub fn form_to_preset(f: &PresetForm) -> (r: Preset)
    ensures
        reads(r, *f),
        numerals(r),
        !f.temp_default ==> keeps_short(f.temp@, opt(r.temp)),
        !f.top_p_default ==> keeps_short(f.top_p@, opt(r.top_p)),
        !f.min_p_default ==> keeps_short(f.min_p@, opt(r.min_p)),
        !f.repeat_penalty_default ==> keeps_short(f.repeat_penalty@, opt(r.repeat_penalty)),
        !f.presence_penalty_default ==> keeps_short(f.presence_penalty@, opt(r.presence_penalty)),
{
    Preset {
        id: f.id.clone(),
        model: f.model.clone(),
        mmproj: f.mmproj.clone(),
        mmproj_offload: Some(f.mmproj_offload),
        image_min_tokens: number(f.image_min_tokens_default, f.image_min_tokens.as_str(), 1),
        image_max_tokens: number(f.image_max_tokens_default, f.image_max_tokens.as_str(), 1),
        model_draft: f.model_draft.clone(),
        spec_type: enum_or_empty(f.spec_type.as_str(), "none"),
        spec_draft_n_max: number(f.spec_draft_n_max_default, f.spec_draft_n_max.as_str(), 1),
        spec_draft_type_k: enum_or_empty(f.spec_draft_type_k.as_str(), "default"),
        spec_draft_type_v: enum_or_empty(f.spec_draft_type_v.as_str(), "default"),
        n_gpu_layers_draft: layers(f.n_gpu_layers_draft_auto, f.n_gpu_layers_draft),
        device_draft: f.device_draft.clone(),
        device: f.device.clone(),
        split_mode: enum_or_empty(f.split_mode.as_str(), "default"),
        tensor_split: f.tensor_split.clone(),
        override_tensor: f.override_tensor.clone(),
        ctx_size: number(f.ctx_size_default, f.ctx_size.as_str(), 1),
        n_gpu_layers: layers(f.n_gpu_layers_auto, f.n_gpu_layers),
        parallel: number(f.parallel_default, f.parallel.as_str(), 1),
        batch_size: number(f.batch_size_default, f.batch_size.as_str(), 1),
        ubatch_size: number(f.ubatch_size_default, f.ubatch_size.as_str(), 1),
        cache_type_k: enum_or_empty(f.cache_type_k.as_str(), "default"),
        cache_type_v: enum_or_empty(f.cache_type_v.as_str(), "default"),
        flash_attn: tri_bool(f.flash_attn.as_str()),
        cache_ram: number(f.cache_ram_default, f.cache_ram.as_str(), i32::MIN),
        jinja: Some(f.jinja),
        reasoning: f.reasoning.clone(),
        reasoning_format: f.reasoning_format.clone(),
        reasoning_effort: enum_or_empty(f.reasoning_effort.as_str(), "default"),
        reasoning_preserve: tri_bool(f.reasoning_preserve.as_str()),
        reasoning_budget: number(f.reasoning_budget_default, f.reasoning_budget.as_str(), i32::MIN),
        reasoning_budget_message: f.reasoning_budget_message.clone(),
        n_predict: number(f.n_predict_default, f.n_predict.as_str(), i32::MIN),
        n_cpu_moe: layers(f.n_cpu_moe_auto, f.n_cpu_moe),
        n_cpu_ffn: layers(f.n_cpu_ffn_auto, f.n_cpu_ffn),
        temp: decimal(f.temp_default, f.temp.as_str()),
        top_k: number(f.top_k_default, f.top_k.as_str(), i32::MIN),
        top_p: decimal(f.top_p_default, f.top_p.as_str()),
        min_p: decimal(f.min_p_default, f.min_p.as_str()),
        repeat_penalty: decimal(f.repeat_penalty_default, f.repeat_penalty.as_str()),
        presence_penalty: decimal(f.presence_penalty_default, f.presence_penalty.as_str()),
        backend_sampling: tri_bool(f.backend_sampling.as_str()),
        chat_template_kwargs: f.chat_template_kwargs.clone(),
    }
}

/// A preset in the shape that the form writes: the four fields that are always
/// shown are set, no choice is spelled as the word that stands for none, every
/// positive number is positive, and every decimal number is a numeral.
pub open spec fn saved_shape(p: Preset) -> bool {
    &&& p.mmproj_offload is Some
    &&& at_least_one(p.image_min_tokens)
    &&& at_least_one(p.image_max_tokens)
    &&& p.spec_type@ != "none"@
    &&& at_least_one(p.spec_draft_n_max)
    &&& p.spec_draft_type_k@ != "default"@
    &&& p.spec_draft_type_v@ != "default"@
    &&& p.split_mode@ != "default"@
    &&& at_least_one(p.ctx_size)
    &&& at_least_one(p.parallel)
    &&& at_least_one(p.batch_size)
    &&& at_least_one(p.ubatch_size)
    &&& p.cache_type_k@ != "default"@
    &&& p.cache_type_v@ != "default"@
    &&& p.jinja is Some
    &&& p.reasoning@.len() > 0
    &&& p.reasoning_format@.len() > 0
    &&& p.reasoning_effort@ != "default"@
    &&& numerals(p)
}

/// A preset whose decimal numbers are in the form that they are read in.
pub open spec fn numerals(p: Preset) -> bool {
    &&& numeral(p.temp)
    &&& numeral(p.top_p)
    &&& numeral(p.min_p)
    &&& numeral(p.repeat_penalty)
    &&& numeral(p.presence_penalty)
}

pub open spec fn at_least_one(v: Option<i32>) -> bool {
    match v {
        Some(n) => n >= 1,
        None => true,
    }
}

/// A decimal number in the form that it is read in.
pub open spec fn numeral(v: Option<String>) -> bool {
    match v {
        Some(s) => decimal_read(s@) == Some(s@),
        None => true,
    }
}

proof fn lemma_number_round_trips(v: Option<i32>, hint: i32, lo: int)
    requires
        v matches Some(n) ==> n >= lo,
    ensures
        field_number(v is None, number_text(v, hint), lo) == wide(v),
{
    if let Some(n) = v {
        let s = dec_int(n as int);
        lemma_parse_dec_int(n as int, i32::MIN as int, i32::MAX as int);
        if n < 0 {
            let d = dec((-(n as int)) as nat);
            lemma_dec((-(n as int)) as nat);
            assert(is_digit(d[d.len() - 1]));
            assert(s[0] == '-');
            assert(s.last() == d.last());
        } else {
            lemma_dec(n as nat);
            assert(is_digit(s[0]) && is_digit(s[s.len() - 1]));
        }
        assert(trim_start(s) == s);
        assert(trim_end(s) == s);
    }
}

proof fn lemma_choice_round_trips(val: Seq<char>, word: Seq<char>)
    requires
        val != word,
    ensures
        unless_word(text_or(val, word), word) == val,
{
    if val.len() == 0 {
        assert(val =~= Seq::<char>::empty());
    }
}

proof fn lemma_decimal_round_trips(v: Option<String>)
    requires
        numeral(v),
    ensures
        field_decimal(v is None, decimal_shown(v)) == opt(v),
{
}

proof fn lemma_texts_round_trip(p: Preset, f: PresetForm, q: Preset)
    requires
        saved_shape(p),
        shows(f, p),
        reads(q, f),
    ensures
        q.same_texts(p),
{
}

proof fn lemma_choices_round_trip(p: Preset, f: PresetForm, q: Preset)
    requires
        saved_shape(p),
        shows(f, p),
        reads(q, f),
    ensures
        q.same_choices(p),
{
    lemma_choice_round_trips(p.spec_type@, "none"@);
    lemma_choice_round_trips(p.spec_draft_type_k@, "default"@);
    lemma_choice_round_trips(p.spec_draft_type_v@, "default"@);
    lemma_choice_round_trips(p.split_mode@, "default"@);
    lemma_choice_round_trips(p.cache_type_k@, "default"@);
    lemma_choice_round_trips(p.cache_type_v@, "default"@);
    lemma_choice_round_trips(p.reasoning_effort@, "default"@);
}

proof fn lemma_numbers_round_trip(p: Preset, f: PresetForm, q: Preset)
    requires
        saved_shape(p),
        shows(f, p),
        reads(q, f),
    ensures
        q.same_numbers(p),
{
    lemma_number_round_trips(p.image_min_tokens, HINT_IMAGE_MIN_TOKENS, 1);
    lemma_number_round_trips(p.image_max_tokens, HINT_IMAGE_MAX_TOKENS, 1);
    lemma_number_round_trips(p.spec_draft_n_max, HINT_SPEC_DRAFT_N_MAX, 1);
    lemma_number_round_trips(p.ctx_size, HINT_CTX_SIZE, 1);
    lemma_number_round_trips(p.parallel, HINT_PARALLEL, 1);
    lemma_number_round_trips(p.batch_size, HINT_BATCH_SIZE, 1);
    lemma_number_round_trips(p.ubatch_size, HINT_UBATCH_SIZE, 1);
    lemma_number_round_trips(p.cache_ram, HINT_CACHE_RAM, i32::MIN as int);
    lemma_number_round_trips(p.reasoning_budget, HINT_REASONING_BUDGET, i32::MIN as int);
    lemma_number_round_trips(p.n_predict, HINT_N_PREDICT, i32::MIN as int);
    lemma_number_round_trips(p.top_k, HINT_TOP_K, i32::MIN as int);
}

proof fn lemma_shown_flag(v: Option<bool>)
    requires
        v is Some,
    ensures
        Some(v != Some(false)) == v,
{
    match v {
        Some(b) => {
            assert(b || !b);
        },
        None => {},
    }
}

proof fn lemma_flags_round_trip(p: Preset, f: PresetForm, q: Preset)
    requires
        saved_shape(p),
        shows(f, p),
        reads(q, f),
    ensures
        q.same_flags(p),
{
    lemma_shown_flag(p.mmproj_offload);
    lemma_shown_flag(p.jinja);
    law_tri_state_round_trips(p.flash_attn);
    law_tri_state_round_trips(p.reasoning_preserve);
    law_tri_state_round_trips(p.backend_sampling);
}

proof fn lemma_decimals_round_trip(p: Preset, f: PresetForm, q: Preset)
    requires
        saved_shape(p),
        shows(f, p),
        reads(q, f),
    ensures
        q.same_decimals(p),
{
    lemma_decimal_round_trips(p.temp);
    lemma_decimal_round_trips(p.top_p);
    lemma_decimal_round_trips(p.min_p);
    lemma_decimal_round_trips(p.repeat_penalty);
    lemma_decimal_round_trips(p.presence_penalty);
}

/// A preset in its saved shape survives the form: shown and read again it has the
/// same values.
pub proof fn law_form_round_trips(p: Preset, f: PresetForm, q: Preset)
    requires
        saved_shape(p),
        shows(f, p),
        reads(q, f),
    ensures
        q.same(p),
{
    lemma_texts_round_trip(p, f, q);
    lemma_choices_round_trip(p, f, q);
    lemma_numbers_round_trip(p, f, q);
    lemma_flags_round_trip(p, f, q);
    lemma_decimals_round_trip(p, f, q);
}

// ── Refusing mistyped numbers ────────────────────────────────────────────

/// A numeric text field of the form: its key, its "default" box, its text and the
/// least number it takes.
pub struct IntField<'a> {
    pub key: &'static str,
    pub unset: bool,
    pub text: &'a str,
    pub least: i32,
}

/// A numeric field as text and numbers.
pub struct IntFieldView {
    pub key: Seq<char>,
    pub unset: bool,
    pub text: Seq<char>,
    pub least: int,
}

impl<'a> View for IntField<'a> {
    type V = IntFieldView;

    open spec fn view(&self) -> IntFieldView {
        IntFieldView {
            key: self.key@,
            unset: self.unset,
            text: self.text@,
            least: self.least as int,
        }
    }
}

pub open spec fn fields_view(v: Seq<IntField<'_>>) -> Seq<IntFieldView> {
    v.map_values(|x: IntField<'_>| x@)
}

/// The numeric fields of a form, in the order of their keys' cards.
pub open spec fn int_fields_of(f: PresetForm) -> Seq<IntFieldView> {
    seq![
        IntFieldView {
            key: "image-min-tokens"@,
            unset: f.image_min_tokens_default,
            text: f.image_min_tokens@,
            least: 1,
        },
        IntFieldView {
            key: "image-max-tokens"@,
            unset: f.image_max_tokens_default,
            text: f.image_max_tokens@,
            least: 1,
        },
        IntFieldView {
            key: "spec-draft-n-max"@,
            unset: f.spec_draft_n_max_default,
            text: f.spec_draft_n_max@,
            least: 1,
        },
        IntFieldView {
            key: "ctx-size"@,
            unset: f.ctx_size_default,
            text: f.ctx_size@,
            least: 1,
        },
        IntFieldView {
            key: "parallel"@,
            unset: f.parallel_default,
            text: f.parallel@,
            least: 1,
        },
        IntFieldView {
            key: "batch-size"@,
            unset: f.batch_size_default,
            text: f.batch_size@,
            least: 1,
        },
        IntFieldView {
            key: "ubatch-size"@,
            unset: f.ubatch_size_default,
            text: f.ubatch_size@,
            least: 1,
        },
        IntFieldView {
            key: "cache-ram"@,
            unset: f.cache_ram_default,
            text: f.cache_ram@,
            least: i32::MIN as int,
        },
        IntFieldView {
            key: "reasoning-budget"@,
            unset: f.reasoning_budget_default,
            text: f.reasoning_budget@,
            least: i32::MIN as int,
        },
        IntFieldView {
            key: "n-predict"@,
            unset: f.n_predict_default,
            text: f.n_predict@,
            least: i32::MIN as int,
        },
        IntFieldView {
            key: "top-k"@,
            unset: f.top_k_default,
            text: f.top_k@,
            least: i32::MIN as int,
        },
    ]
}

/// The numeric fields of a form.
pub fn int_fields<'a>(f: &'a PresetForm) -> (r: Vec<IntField<'a>>)
    ensures
        fields_view(r@) == int_fields_of(*f),
{
    let mut out: Vec<IntField<'a>> = Vec::new();
    out.push(
        IntField {
            key: "image-min-tokens",
            unset: f.image_min_tokens_default,
            text: f.image_min_tokens.as_str(),
            least: 1,
        },
    );
    out.push(
        IntField {
            key: "image-max-tokens",
            unset: f.image_max_tokens_default,
            text: f.image_max_tokens.as_str(),
            least: 1,
        },
    );
    out.push(
        IntField {
            key: "spec-draft-n-max",
            unset: f.spec_draft_n_max_default,
            text: f.spec_draft_n_max.as_str(),
            least: 1,
        },
    );
    out.push(
        IntField {
            key: "ctx-size",
            unset: f.ctx_size_default,
            text: f.ctx_size.as_str(),
            least: 1,
        },
    );
    out.push(
        IntField {
            key: "parallel",
            unset: f.parallel_default,
            text: f.parallel.as_str(),
            least: 1,
        },
    );
    out.push(
        IntField {
            key: "batch-size",
            unset: f.batch_size_default,
            text: f.batch_size.as_str(),
            least: 1,
        },
    );
    out.push(
        IntField {
            key: "ubatch-size",
            unset: f.ubatch_size_default,
            text: f.ubatch_size.as_str(),
            least: 1,
        },
    );
    out.push(
        IntField {
            key: "cache-ram",
            unset: f.cache_ram_default,
            text: f.cache_ram.as_str(),
            least: i32::MIN,
        },
    );
    out.push(
        IntField {
            key: "reasoning-budget",
            unset: f.reasoning_budget_default,
            text: f.reasoning_budget.as_str(),
            least: i32::MIN,
        },
    );
    out.push(
        IntField {
            key: "n-predict",
            unset: f.n_predict_default,
            text: f.n_predict.as_str(),
            least: i32::MIN,
        },
    );
    out.push(
        IntField {
            key: "top-k",
            unset: f.top_k_default,
            text: f.top_k.as_str(),
            least: i32::MIN,
        },
    );
    assert(fields_view(out@) =~= int_fields_of(*f));
    out
}

/// What a field is told whose text is not a number that it takes.
pub open spec fn problem_text(key: Seq<char>, text: Seq<char>) -> Seq<char> {
    key + ": '"@ + text + "' is not a number it takes"@
}

/// The complaint about a field's text, or none.
pub open spec fn problem_of(x: IntFieldView) -> Option<Seq<char>> {
    if !x.unset && int_at_least(x.text, x.least) is None {
        Some(problem_text(x.key, x.text))
    } else {
        None
    }
}

/// The complaint about a text that should be a number of at least `least`.
pub fn int_problem(key: &str, text: &str, least: i32) -> (r: Option<String>)
    ensures
        opt(r) == if int_at_least(text@, least as int) is None {
            Some(problem_text(key@, text@))
        } else {
            None
        },
{
    if parse_int_in(text, least).is_some() {
        return None;
    }
    let mut out: String = key.to_owned();
    out.append(": '");
    out.append(text);
    out.append("' is not a number it takes");
    Some(out)
}

/// The complaints of a list of fields.
pub open spec fn problems(v: Seq<IntFieldView>) -> Seq<Seq<char>>
    decreases v.len(),
{
    if v.len() == 0 {
        Seq::empty()
    } else {
        match problem_of(v.last()) {
            Some(t) => problems(v.drop_last()).push(t),
            None => problems(v.drop_last()),
        }
    }
}

/// The numeric fields whose "default" box is not ticked and whose text is not a
/// number they take, one phrase each.
pub fn invalid_numbers(f: &PresetForm) -> (r: Vec<String>)
    ensures
        strs(r@) == problems(int_fields_of(*f)),
{
    let fields = int_fields(f);
    let mut out: Vec<String> = Vec::new();
    let mut i: usize = 0;
    assert(strs(out@) =~= problems(fields_view(fields@).take(0)));
    while i < fields.len()
        invariant
            i <= fields.len(),
            strs(out@) == problems(fields_view(fields@).take(i as int)),
        decreases fields.len() - i,
    {
        let ghost before = out@;
        proof {
            let t = fields_view(fields@).take(i + 1);
            assert(t.drop_last() =~= fields_view(fields@).take(i as int));
            assert(t.last() == fields@[i as int]@);
        }
        if !fields[i].unset {
            if let Some(p) = int_problem(fields[i].key, fields[i].text, fields[i].least) {
                out.push(p);
                assert(strs(out@) =~= strs(before).push(p@));
            }
        }
        i += 1;
    }
    assert(fields_view(fields@).take(fields@.len() as int) =~= fields_view(fields@));
    out
}

proof fn lemma_no_problems(v: Seq<IntFieldView>)
    ensures
        problems(v).len() == 0 <==> forall|i: int| 0 <= i < v.len() ==> problem_of(#[trigger] v[i]) is None,
    decreases v.len(),
{
    if v.len() > 0 {
        let init = v.drop_last();
        lemma_no_problems(init);
        assert(v.last() == v[v.len() - 1]);
        if problems(v).len() == 0 {
            assert forall|i: int| 0 <= i < v.len() implies problem_of(#[trigger] v[i]) is None by {
                if i < init.len() {
                    assert(v[i] == init[i]);
                }
            }
        }
        if forall|i: int| 0 <= i < v.len() ==> problem_of(#[trigger] v[i]) is None {
            assert forall|i: int| 0 <= i < init.len() implies problem_of(#[trigger] init[i]) is None by {
                assert(init[i] == v[i]);
            }
        }
    }
}

/// A form is refused exactly where reading it would drop a number: without a
/// complaint every unticked numeric field reads as a number.
pub proof fn law_refusal_matches_conversion(f: PresetForm, p: Preset)
    requires
        reads(p, f),
    ensures
        problems(int_fields_of(f)).len() == 0 <==> {
            &&& f.image_min_tokens_default || p.image_min_tokens is Some
            &&& f.image_max_tokens_default || p.image_max_tokens is Some
            &&& f.spec_draft_n_max_default || p.spec_draft_n_max is Some
            &&& f.ctx_size_default || p.ctx_size is Some
            &&& f.parallel_default || p.parallel is Some
            &&& f.batch_size_default || p.batch_size is Some
            &&& f.ubatch_size_default || p.ubatch_size is Some
            &&& f.cache_ram_default || p.cache_ram is Some
            &&& f.reasoning_budget_default || p.reasoning_budget is Some
            &&& f.n_predict_default || p.n_predict is Some
            &&& f.top_k_default || p.top_k is Some
        },
{
    let v = int_fields_of(f);
    lemma_no_problems(v);
    assert(v[0].text == f.image_min_tokens@);
    assert(v[1].text == f.image_max_tokens@);
    assert(v[2].text == f.spec_draft_n_max@);
    assert(v[3].text == f.ctx_size@);
    assert(v[4].text == f.parallel@);
    assert(v[5].text == f.batch_size@);
    assert(v[6].text == f.ubatch_size@);
    assert(v[7].text == f.cache_ram@);
    assert(v[8].text == f.reasoning_budget@);
    assert(v[9].text == f.n_predict@);
    assert(v[10].text == f.top_k@);
}

// ── Pruning ──────────────────────────────────────────────────────────────

/// Clears the draft fields of a form whose model drafts nothing, and names the
/// keys that were set. Every other field keeps its text, finished or not.
pub fn prune_inactive_draft_fields(f: &mut PresetForm, embeds_mtp: bool) -> (r: Vec<&'static str>)
    ensures
        final(f).same_but_draft_fields(*old(f)),
        exists|p: Preset|
            {
                &&& #[trigger] reads(p, *old(f))
                &&& literals(r@) == if drafts(p, embeds_mtp) {
                    Seq::<Seq<char>>::empty()
                } else {
                    set_draft_keys(p)
                }
            },
        r@.len() == 0 ==> final(f).same(*old(f)),
        r@.len() > 0 ==> {
            &&& final(f).spec_type@ == "none"@
            &&& final(f).spec_draft_n_max@ == dec_int(HINT_SPEC_DRAFT_N_MAX as int)
            &&& final(f).spec_draft_n_max_default
            &&& final(f).spec_draft_type_k@ == "default"@
            &&& final(f).spec_draft_type_v@ == "default"@
            &&& final(f).n_gpu_layers_draft == ALL_LAYERS
            &&& final(f).n_gpu_layers_draft_auto
            &&& final(f).device_draft@.len() == 0
        },
{
    let mut p = form_to_preset(f);
    let ghost read = p;
    let dropped = prune_inactive_draft_keys(&mut p, embeds_mtp);
    proof {
        assert(reads(read, *old(f)));
        assert(literals(dropped@).len() == dropped@.len());
        if drafts(read, embeds_mtp) {
            assert(literals(dropped@) =~= Seq::<Seq<char>>::empty());
        }
    }
    if dropped.len() > 0 {
        let pruned = preset_to_form(&p);
        f.spec_type = pruned.spec_type;
        f.spec_draft_n_max = pruned.spec_draft_n_max;
        f.spec_draft_n_max_default = pruned.spec_draft_n_max_default;
        f.spec_draft_type_k = pruned.spec_draft_type_k;
        f.spec_draft_type_v = pruned.spec_draft_type_v;
        f.n_gpu_layers_draft = pruned.n_gpu_layers_draft;
        f.n_gpu_layers_draft_auto = pruned.n_gpu_layers_draft_auto;
        f.device_draft = pruned.device_draft;
    }
    dropped
}

} // verus!
