//! What the header of a model file says, in the words of the info box.
//!
//! [`Metadata`] holds the values of a header. [`ModelInfo`] and [`MmprojInfo`] are
//! what is read out of it, with one method for each line of the box.
use vstd::prelude::*;
use vstd::slice::slice_subrange;
use vstd::string::*;
use crate::model_scan::FileOption;
use crate::pathname::{file_name, name_in};
use crate::presets::literals;
use crate::rounding::{
    as_double, nearest_double, push_two_decimals, push_wide, round_half_even, rounded, two_decimals,
};
use crate::text::{
    contains, dec, dec_str, digit, from_chars, is_digit, is_str, join, join_strs, lower_all, opt,
    pieces, push_chars, push_dec, str_contains, str_eq, strs, to_chars, to_lower_all,
};

verus! {

/// What stands between the parts of a line.
pub open spec fn separator() -> Seq<char> {
    "  ·  "@
}

// ── The header ───────────────────────────────────────────────────────────

/// A value of a header.
#[derive(Debug, Clone, PartialEq, Eq)]
pub enum Entry {
    Number(u32),
    Text(String),
    Flag(bool),
}

/// A tensor of a header: its ggml type, and its size in bytes.
#[derive(Debug, Clone, PartialEq, Eq)]
pub struct Tensor {
    pub name: String,
    pub kind: u32,
    pub bytes: u64,
}

/// The values and tensors of a header.
#[derive(Debug, Clone, PartialEq, Eq)]
pub struct Metadata {
    pub values: Vec<(String, Entry)>,
    pub tensors: Vec<Tensor>,
}

/// The first value under a key, or -1.
pub open spec fn value_at(v: Seq<(String, Entry)>, key: Seq<char>) -> int
    decreases v.len(),
{
    if v.len() == 0 {
        -1
    } else if value_at(v.drop_last(), key) >= 0 {
        value_at(v.drop_last(), key)
    } else if v.last().0@ == key {
        v.len() - 1
    } else {
        -1
    }
}

/// The first tensor of a name, or -1.
pub open spec fn tensor_at(v: Seq<Tensor>, name: Seq<char>) -> int
    decreases v.len(),
{
    if v.len() == 0 {
        -1
    } else if tensor_at(v.drop_last(), name) >= 0 {
        tensor_at(v.drop_last(), name)
    } else if v.last().name@ == name {
        v.len() - 1
    } else {
        -1
    }
}

proof fn lemma_value_at_prefix(v: Seq<(String, Entry)>, key: Seq<char>, n: int)
    requires
        0 <= n <= v.len(),
        value_at(v.take(n), key) >= 0,
    ensures
        value_at(v, key) == value_at(v.take(n), key),
    decreases v.len() - n,
{
    if n == v.len() {
        assert(v.take(n) =~= v);
    } else {
        assert(v.take(n + 1).drop_last() =~= v.take(n));
        lemma_value_at_prefix(v, key, n + 1);
    }
}

proof fn lemma_tensor_at_prefix(v: Seq<Tensor>, name: Seq<char>, n: int)
    requires
        0 <= n <= v.len(),
        tensor_at(v.take(n), name) >= 0,
    ensures
        tensor_at(v, name) == tensor_at(v.take(n), name),
    decreases v.len() - n,
{
    if n == v.len() {
        assert(v.take(n) =~= v);
    } else {
        assert(v.take(n + 1).drop_last() =~= v.take(n));
        lemma_tensor_at_prefix(v, name, n + 1);
    }
}

impl Metadata {
    /// The value under a key.
    pub open spec fn value_of(self, key: Seq<char>) -> Option<Entry> {
        let at = value_at(self.values@, key);
        if 0 <= at < self.values@.len() {
            Some(self.values@[at].1)
        } else {
            None
        }
    }

    pub open spec fn number_of(self, key: Seq<char>) -> Option<u32> {
        match self.value_of(key) {
            Some(Entry::Number(n)) => Some(n),
            _ => None,
        }
    }

    /// The number under a key, or 0.
    pub open spec fn count_of(self, key: Seq<char>) -> u32 {
        match self.number_of(key) {
            Some(n) => n,
            None => 0,
        }
    }

    pub open spec fn text_of(self, key: Seq<char>) -> Option<Seq<char>> {
        match self.value_of(key) {
            Some(Entry::Text(s)) => Some(s@),
            _ => None,
        }
    }

    /// The text under a key, or the empty one.
    pub open spec fn text_or_empty(self, key: Seq<char>) -> Seq<char> {
        match self.text_of(key) {
            Some(s) => s,
            None => Seq::empty(),
        }
    }

    /// Whether a flag is there and set.
    pub open spec fn flag_of(self, key: Seq<char>) -> bool {
        self.value_of(key) == Some(Entry::Flag(true))
    }

    pub open spec fn tensor_of(self, name: Seq<char>) -> Option<(u32, u64)> {
        let at = tensor_at(self.tensors@, name);
        if 0 <= at < self.tensors@.len() {
            Some((self.tensors@[at].kind, self.tensors@[at].bytes))
        } else {
            None
        }
    }

    fn find(&self, key: &str) -> (r: Option<&Entry>)
        ensures
            match r {
                Some(v) => self.value_of(key@) == Some(*v),
                None => self.value_of(key@) is None,
            },
    {
        let mut i: usize = 0;
        while i < self.values.len()
            invariant
                i <= self.values@.len(),
                value_at(self.values@.take(i as int), key@) < 0,
            decreases self.values.len() - i,
        {
            proof {
                assert(self.values@.take(i + 1).drop_last() =~= self.values@.take(i as int));
                assert(self.values@.take(i + 1).last() == self.values@[i as int]);
            }
            if str_eq(self.values[i].0.as_str(), key) {
                proof {
                    lemma_value_at_prefix(self.values@, key@, i + 1);
                }
                return Some(&self.values[i].1);
            }
            i += 1;
        }
        assert(self.values@.take(self.values@.len() as int) =~= self.values@);
        None
    }

    /// The number under a key.
    pub fn number(&self, key: &str) -> (r: Option<u32>)
        ensures
            r == self.number_of(key@),
    {
        match self.find(key) {
            Some(Entry::Number(n)) => Some(*n),
            _ => None,
        }
    }

    /// The number under a key, or 0.
    pub fn count(&self, key: &str) -> (r: u32)
        ensures
            r == self.count_of(key@),
    {
        match self.number(key) {
            Some(n) => n,
            None => 0,
        }
    }

    /// The text under a key.
    pub fn text(&self, key: &str) -> (r: Option<String>)
        ensures
            opt(r) == self.text_of(key@),
    {
        match self.find(key) {
            Some(Entry::Text(s)) => Some(s.clone()),
            _ => None,
        }
    }

    /// Whether a flag is there and set.
    pub fn flag(&self, key: &str) -> (r: bool)
        ensures
            r == self.flag_of(key@),
    {
        match self.find(key) {
            Some(Entry::Flag(b)) => *b,
            _ => false,
        }
    }

    /// The ggml type and the size of a tensor.
    pub fn tensor(&self, name: &str) -> (r: Option<(u32, u64)>)
        ensures
            r == self.tensor_of(name@),
    {
        let mut i: usize = 0;
        while i < self.tensors.len()
            invariant
                i <= self.tensors@.len(),
                tensor_at(self.tensors@.take(i as int), name@) < 0,
            decreases self.tensors.len() - i,
        {
            proof {
                assert(self.tensors@.take(i + 1).drop_last() =~= self.tensors@.take(i as int));
                assert(self.tensors@.take(i + 1).last() == self.tensors@[i as int]);
            }
            if str_eq(self.tensors[i].name.as_str(), name) {
                proof {
                    lemma_tensor_at_prefix(self.tensors@, name@, i + 1);
                }
                return Some((self.tensors[i].kind, self.tensors[i].bytes));
            }
            i += 1;
        }
        assert(self.tensors@.take(self.tensors@.len() as int) =~= self.tensors@);
        None
    }

    /// The number of an architecture's own key, or 0.
    fn arch_count(&self, arch: &str, key: &str) -> (r: u32)
        ensures
            r == self.count_of(arch@ + "."@ + key@),
    {
        let mut full: String = arch.to_owned();
        full.append(".");
        full.append(key);
        self.count(full.as_str())
    }
}

// ── The model ────────────────────────────────────────────────────────────

/// What the header of a model says.
#[derive(Debug, Clone, PartialEq, Eq)]
pub struct ModelInfo {
    pub arch: String,
    pub size_label: String,
    /// The name of the quantization, or empty where the header has none.
    pub quant: String,
    pub is_moe: bool,
    pub expert_count: u32,
    pub expert_used: u32,
    pub expert_shared_count: u32,
    /// The dense layers in front; 0 where every layer has experts.
    pub leading_dense_block_count: u32,
    /// The distance between layers that have experts.
    pub moe_every_n_layers: u32,
    pub n_layer: u32,
    pub n_ctx_train: u32,
    pub head_count: u32,
    pub head_count_kv: u32,
    /// More than 0 where the model has heads for multi-token prediction.
    pub nextn_predict_layers: u32,
    /// The block that a diffusion drafter was trained on; 0 for any other model.
    pub block_size: u32,
    pub chat_template: Option<String>,
    /// The ggml type and the size of the embedding table.
    pub embd: Option<(u32, u64)>,
}

/// The quantization that a header names.
pub open spec fn quant_in(m: Metadata) -> Seq<char> {
    match m.number_of("general.file_type"@) {
        Some(n) => ftype_text(n),
        None => Seq::empty(),
    }
}

/// The chat template in a header; an empty one is none.
pub open spec fn template_in(m: Metadata) -> Option<Seq<char>> {
    match m.text_of("tokenizer.chat_template"@) {
        Some(t) => if t.len() > 0 {
            Some(t)
        } else {
            None
        },
        None => None,
    }
}

/// Whether a description is that of a header with the architecture.
pub open spec fn describes(i: ModelInfo, m: Metadata, arch: Seq<char>) -> bool {
    &&& i.arch@ == arch
    &&& i.size_label@ == m.text_or_empty("general.size_label"@)
    &&& i.quant@ == quant_in(m)
    &&& i.is_moe == (i.expert_count > 0)
    &&& describes_layers(i, m, arch)
    &&& describes_experts(i, m, arch)
    &&& opt(i.chat_template) == template_in(m)
    &&& i.embd == m.tensor_of("token_embd.weight"@)
}

pub open spec fn describes_experts(i: ModelInfo, m: Metadata, arch: Seq<char>) -> bool {
    &&& i.expert_count == m.count_of(arch + "."@ + "expert_count"@)
    &&& i.expert_used == m.count_of(arch + "."@ + "expert_used_count"@)
    &&& i.expert_shared_count == m.count_of(arch + "."@ + "expert_shared_count"@)
    &&& i.leading_dense_block_count == m.count_of(arch + "."@ + "leading_dense_block_count"@)
    &&& i.moe_every_n_layers == m.count_of(arch + "."@ + "moe_every_n_layers"@)
}

pub open spec fn describes_layers(i: ModelInfo, m: Metadata, arch: Seq<char>) -> bool {
    &&& i.n_layer == m.count_of(arch + "."@ + "block_count"@)
    &&& i.n_ctx_train == m.count_of(arch + "."@ + "context_length"@)
    &&& i.head_count == m.count_of(arch + "."@ + "attention.head_count"@)
    &&& i.head_count_kv == m.count_of(arch + "."@ + "attention.head_count_kv"@)
    &&& i.nextn_predict_layers == m.count_of(arch + "."@ + "nextn_predict_layers"@)
    &&& i.block_size == m.count_of(arch + "."@ + "block_size"@)
}

impl ModelInfo {
    /// Reads the description out of a header; none where it names no architecture.
    pub fn from_kv(m: &Metadata) -> (r: Option<ModelInfo>)
        ensures
            match m.text_of("general.architecture"@) {
                Some(arch) => r is Some && describes(r->0, *m, arch),
                None => r is None,
            },
    {
        let arch = match m.text("general.architecture") {
            Some(a) => a,
            None => return None,
        };
        let quant = match m.number("general.file_type") {
            Some(n) => ftype_name(n),
            None => String::new(),
        };
        let size_label = match m.text("general.size_label") {
            Some(s) => s,
            None => String::new(),
        };
        let chat_template = match m.text("tokenizer.chat_template") {
            Some(t) => if t.as_str().is_empty() {
                None
            } else {
                Some(t)
            },
            None => None,
        };
        let a = arch.as_str();
        let expert_count: u32 = m.arch_count(a, "expert_count");
        let expert_used: u32 = m.arch_count(a, "expert_used_count");
        let expert_shared_count: u32 = m.arch_count(a, "expert_shared_count");
        let leading_dense_block_count: u32 = m.arch_count(a, "leading_dense_block_count");
        let moe_every_n_layers: u32 = m.arch_count(a, "moe_every_n_layers");
        let n_layer: u32 = m.arch_count(a, "block_count");
        let n_ctx_train: u32 = m.arch_count(a, "context_length");
        let head_count: u32 = m.arch_count(a, "attention.head_count");
        let head_count_kv: u32 = m.arch_count(a, "attention.head_count_kv");
        let nextn_predict_layers: u32 = m.arch_count(a, "nextn_predict_layers");
        let block_size: u32 = m.arch_count(a, "block_size");
        let embd = m.tensor("token_embd.weight");
        Some(
            ModelInfo {
                size_label,
                quant,
                is_moe: expert_count > 0,
                expert_count,
                expert_used,
                expert_shared_count,
                leading_dense_block_count,
                moe_every_n_layers,
                n_layer,
                n_ctx_train,
                head_count,
                head_count_kv,
                nextn_predict_layers,
                block_size,
                chat_template,
                embd,
                arch,
            },
        )
    }

    // ── The lines of the box ─────────────────────────────────────────────

    pub open spec fn kind_text(self) -> Seq<char> {
        if !self.is_moe {
            "Dense"@
        } else {
            "MoE — "@ + join(
                seq![dec(self.expert_count as nat) + " experts"@] + part_if(
                    self.expert_used > 0,
                    dec(self.expert_used as nat) + " active/tok"@,
                ) + part_if(
                    self.expert_shared_count > 0,
                    dec(self.expert_shared_count as nat) + " shared"@,
                ),
                ", "@,
            )
        }
    }

    /// Dense, or how many experts.
    pub fn kind_line(&self) -> (r: String)
        ensures
            r@ == self.kind_text(),
    {
        if !self.is_moe {
            return "Dense".to_owned();
        }
        let mut parts: Vec<String> = Vec::new();
        parts.push(counted(self.expert_count, " experts"));
        if self.expert_used > 0 {
            parts.push(counted(self.expert_used, " active/tok"));
        }
        if self.expert_shared_count > 0 {
            parts.push(counted(self.expert_shared_count, " shared"));
        }
        assert(strs(parts@) =~= seq![dec(self.expert_count as nat) + " experts"@] + part_if(
            self.expert_used > 0,
            dec(self.expert_used as nat) + " active/tok"@,
        ) + part_if(self.expert_shared_count > 0, dec(self.expert_shared_count as nat) + " shared"@));
        let list = join_strs(&parts, ", ");
        let mut out: String = "MoE — ".to_owned();
        out.append(list.as_str());
        out
    }

    pub open spec fn moe_offload_text(self) -> Seq<char> {
        if !self.is_moe || self.n_layer == 0 {
            Seq::empty()
        } else {
            (if 0 < self.leading_dense_block_count < self.n_layer {
                dec((self.n_layer - self.leading_dense_block_count) as nat) + " of "@ + dec(
                    self.n_layer as nat,
                ) + " layers hold experts (first "@ + dec(self.leading_dense_block_count as nat)
                    + " dense)"@
            } else if self.moe_every_n_layers > 1 {
                "experts every "@ + dec(self.moe_every_n_layers as nat) + " layers of "@ + dec(
                    self.n_layer as nat,
                )
            } else {
                "all "@ + dec(self.n_layer as nat) + " layers hold experts"@
            }) + separator() + "saves VRAM (slower)"@
        }
    }

    /// How many layers have experts that can stay on the CPU; empty for a dense
    /// model.
    pub fn moe_offload_line(&self) -> (r: String)
        ensures
            r@ == self.moe_offload_text(),
    {
        if !self.is_moe || self.n_layer == 0 {
            return String::new();
        }
        let mut out: String = String::new();
        if self.leading_dense_block_count > 0 && self.leading_dense_block_count < self.n_layer {
            push_dec(&mut out, (self.n_layer - self.leading_dense_block_count) as u64);
            assert(out@ =~= dec((self.n_layer - self.leading_dense_block_count) as nat));
            out.append(" of ");
            push_dec(&mut out, self.n_layer as u64);
            out.append(" layers hold experts (first ");
            push_dec(&mut out, self.leading_dense_block_count as u64);
            out.append(" dense)");
        } else if self.moe_every_n_layers > 1 {
            out.append("experts every ");
            assert(out@ =~= "experts every "@);
            push_dec(&mut out, self.moe_every_n_layers as u64);
            out.append(" layers of ");
            push_dec(&mut out, self.n_layer as u64);
        } else {
            out.append("all ");
            assert(out@ =~= "all "@);
            push_dec(&mut out, self.n_layer as u64);
            out.append(" layers hold experts");
        }
        out.append("  ·  ");
        out.append("saves VRAM (slower)");
        out
    }

    pub open spec fn arch_quant_text(self) -> Seq<char> {
        join(
            seq![self.arch@] + part_if(self.quant@.len() > 0, self.quant@) + part_if(
                self.size_label@.len() > 0,
                self.size_label@,
            ),
            separator(),
        )
    }

    /// The architecture, the quantization and the size.
    pub fn arch_quant_line(&self) -> (r: String)
        ensures
            r@ == self.arch_quant_text(),
    {
        let mut parts: Vec<String> = Vec::new();
        parts.push(self.arch.clone());
        if !self.quant.as_str().is_empty() {
            parts.push(self.quant.clone());
        }
        if !self.size_label.as_str().is_empty() {
            parts.push(self.size_label.clone());
        }
        assert(strs(parts@) =~= seq![self.arch@] + part_if(self.quant@.len() > 0, self.quant@)
            + part_if(self.size_label@.len() > 0, self.size_label@));
        join_strs(&parts, "  ·  ")
    }

    pub open spec fn embd_text(self) -> Seq<char> {
        match self.embd {
            Some((kind, bytes)) => ggml_type_text(kind) + separator() + size_text(bytes as nat),
            None => "n/a"@,
        }
    }

    /// The type and the size of the embedding table.
    pub fn embd_line(&self) -> (r: String)
        ensures
            r@ == self.embd_text(),
    {
        match self.embd {
            Some((kind, bytes)) => {
                let mut out = ggml_type_name(kind);
                out.append("  ·  ");
                let size = format_mib(bytes);
                out.append(size.as_str());
                out
            },
            None => "n/a".to_owned(),
        }
    }

    pub open spec fn embd_pin_text(self) -> Seq<char> {
        match self.embd {
            Some((kind, _)) => if has_get_rows(kind) {
                Seq::empty()
            } else {
                "This model stores token_embd as "@ + ggml_type_text(kind)
                    + " — CUDA/ROCm have no get_rows kernel for K-quants, so pinning it to a GPU sends the whole table back to host RAM on EVERY token (measured: 25 → 2.8 tok/s). Point the rule at CPU, or use a build whose embedding table is Q8_0/F16/BF16."@
            },
            None => Seq::empty(),
        }
    }

    /// The warning about a table that a GPU cannot read; empty where it can, and
    /// where nothing is known of it.
    pub fn embd_pin_warning(&self) -> (r: String)
        ensures
            r@ == self.embd_pin_text(),
    {
        match self.embd {
            Some((kind, _)) => {
                if gpu_has_get_rows(kind) {
                    return String::new();
                }
                let mut out: String = "This model stores token_embd as ".to_owned();
                let name = ggml_type_name(kind);
                out.append(name.as_str());
                out.append(
                    " — CUDA/ROCm have no get_rows kernel for K-quants, so pinning it to a GPU sends the whole table back to host RAM on EVERY token (measured: 25 → 2.8 tok/s). Point the rule at CPU, or use a build whose embedding table is Q8_0/F16/BF16.",
                );
                out
            },
            None => String::new(),
        }
    }

    pub open spec fn layers_ctx_text(self) -> Seq<char> {
        let parts = part_if(self.n_layer > 0, dec(self.n_layer as nat) + " layers"@) + part_if(
            self.n_ctx_train > 0,
            "trained ctx "@ + grouped(dec(self.n_ctx_train as nat)),
        );
        if parts.len() == 0 {
            "n/a"@
        } else {
            join(parts, separator())
        }
    }

    /// The layers, and the context the model was trained with.
    pub fn layers_ctx_line(&self) -> (r: String)
        ensures
            r@ == self.layers_ctx_text(),
    {
        let mut parts: Vec<String> = Vec::new();
        if self.n_layer > 0 {
            parts.push(counted(self.n_layer, " layers"));
        }
        if self.n_ctx_train > 0 {
            let mut s: String = "trained ctx ".to_owned();
            let n = group_thousands(self.n_ctx_train as u64);
            s.append(n.as_str());
            parts.push(s);
        }
        assert(strs(parts@) =~= part_if(self.n_layer > 0, dec(self.n_layer as nat) + " layers"@)
            + part_if(
            self.n_ctx_train > 0,
            "trained ctx "@ + grouped(dec(self.n_ctx_train as nat)),
        ));
        assert(strs(parts@).len() == parts@.len());
        if parts.len() == 0 {
            return "n/a".to_owned();
        }
        join_strs(&parts, "  ·  ")
    }

    pub open spec fn attn_text(self) -> Seq<char> {
        let heads = dec(self.head_count as nat);
        let kv = dec(self.head_count_kv as nat);
        if self.head_count == 0 {
            "n/a"@
        } else if self.head_count_kv == 0 || self.head_count_kv == self.head_count {
            heads + " heads (MHA)"@
        } else if self.head_count % self.head_count_kv == 0 {
            heads + " heads / "@ + kv + " KV (GQA "@ + dec(
                (self.head_count / self.head_count_kv) as nat,
            ) + "×)"@
        } else {
            heads + " heads / "@ + kv + " KV (GQA)"@
        }
    }

    /// The heads of the attention, and how many share a key.
    pub fn attn_line(&self) -> (r: String)
        ensures
            r@ == self.attn_text(),
    {
        if self.head_count == 0 {
            return "n/a".to_owned();
        }
        if self.head_count_kv == 0 || self.head_count_kv == self.head_count {
            return counted(self.head_count, " heads (MHA)");
        }
        let mut out = counted(self.head_count, " heads / ");
        push_dec(&mut out, self.head_count_kv as u64);
        if self.head_count % self.head_count_kv == 0 {
            out.append(" KV (GQA ");
            push_dec(&mut out, (self.head_count / self.head_count_kv) as u64);
            out.append("×)");
        } else {
            out.append(" KV (GQA)");
        }
        out
    }

    pub open spec fn chat_template_text(self) -> Seq<char> {
        match self.chat_template {
            None => "none"@,
            Some(t) => if contains(t@, "{%"@) || contains(t@, "{{"@) {
                "Jinja (embedded)"@
            } else {
                "embedded (non-Jinja)"@
            },
        }
    }

    /// What kind of chat template the model has.
    pub fn chat_template_line(&self) -> (r: String)
        ensures
            r@ == self.chat_template_text(),
    {
        match &self.chat_template {
            None => "none".to_owned(),
            Some(t) => {
                if str_contains(t.as_str(), "{%") || str_contains(t.as_str(), "{{") {
                    "Jinja (embedded)".to_owned()
                } else {
                    "embedded (non-Jinja)".to_owned()
                }
            },
        }
    }

    pub open spec fn draft_file_parts(self) -> Seq<Seq<char>> {
        seq![self.arch@] + part_if(self.quant@.len() > 0, self.quant@) + seq![
            if self.n_layer > 0 {
                dec(self.n_layer as nat) + " layers"@
            } else {
                "0 layers (head)"@
            },
        ] + part_if(
            self.block_size > 0,
            "block_size "@ + dec(self.block_size as nat) + " (n-max ≤ "@ + dec(
                (self.block_size - 1) as nat,
            ) + ")"@,
        ) + part_if(
            self.nextn_predict_layers > 0,
            "nextn "@ + dec(self.nextn_predict_layers as nat),
        )
    }

    /// What the header of a draft says of itself.
    pub fn draft_file_line(&self) -> (r: String)
        ensures
            r@ == join(self.draft_file_parts(), separator()),
    {
        let mut parts: Vec<String> = Vec::new();
        parts.push(self.arch.clone());
        if !self.quant.as_str().is_empty() {
            parts.push(self.quant.clone());
        }
        if self.n_layer > 0 {
            parts.push(counted(self.n_layer, " layers"));
        } else {
            parts.push("0 layers (head)".to_owned());
        }
        if self.block_size > 0 {
            let mut s: String = "block_size ".to_owned();
            push_dec(&mut s, self.block_size as u64);
            s.append(" (n-max ≤ ");
            push_dec(&mut s, (self.block_size - 1) as u64);
            s.append(")");
            parts.push(s);
        }
        if self.nextn_predict_layers > 0 {
            let mut s: String = "nextn ".to_owned();
            push_dec(&mut s, self.nextn_predict_layers as u64);
            parts.push(s);
        }
        assert(strs(parts@) =~= self.draft_file_parts());
        join_strs(&parts, "  ·  ")
    }
}

/// A part of a line that is there on a condition.
pub open spec fn part_if(on: bool, part: Seq<char>) -> Seq<Seq<char>> {
    if on {
        seq![part]
    } else {
        Seq::empty()
    }
}

fn counted(n: u32, what: &str) -> (r: String)
    ensures
        r@ == dec(n as nat) + what@,
{
    let mut out = dec_str(n as u64);
    out.append(what);
    out
}

// ── The projector ────────────────────────────────────────────────────────

/// What the header of a projector says.
#[derive(Debug, Clone, PartialEq, Eq)]
pub struct MmprojInfo {
    pub projector_type: String,
    pub has_vision: bool,
    pub has_audio: bool,
    pub vision_block_count: u32,
    pub image_size: u32,
    pub patch_size: u32,
}

/// Whether a header is that of a projector.
pub open spec fn is_mmproj(m: Metadata) -> bool {
    ||| m.text_or_empty("clip.projector_type"@).len() > 0
    ||| m.flag_of("clip.has_vision_encoder"@)
    ||| m.flag_of("clip.has_audio_encoder"@)
}

impl MmprojInfo {
    /// Reads the description out of a header; none where it is no projector's.
    pub fn from_kv(m: &Metadata) -> (r: Option<MmprojInfo>)
        ensures
            match r {
                Some(i) => {
                    &&& is_mmproj(*m)
                    &&& i.projector_type@ == m.text_or_empty("clip.projector_type"@)
                    &&& i.has_vision == m.flag_of("clip.has_vision_encoder"@)
                    &&& i.has_audio == m.flag_of("clip.has_audio_encoder"@)
                    &&& i.vision_block_count == m.count_of("clip.vision.block_count"@)
                    &&& i.image_size == m.count_of("clip.vision.image_size"@)
                    &&& i.patch_size == m.count_of("clip.vision.patch_size"@)
                },
                None => !is_mmproj(*m),
            },
    {
        let projector_type = match m.text("clip.projector_type") {
            Some(s) => s,
            None => String::new(),
        };
        let has_vision: bool = m.flag("clip.has_vision_encoder");
        let has_audio: bool = m.flag("clip.has_audio_encoder");
        if projector_type.as_str().is_empty() && !has_vision && !has_audio {
            return None;
        }
        Some(
            MmprojInfo {
                projector_type,
                has_vision,
                has_audio,
                vision_block_count: m.count("clip.vision.block_count"),
                image_size: m.count("clip.vision.image_size"),
                patch_size: m.count("clip.vision.patch_size"),
            },
        )
    }

    pub open spec fn mmproj_parts(self) -> Seq<Seq<char>> {
        part_if(self.projector_type@.len() > 0, self.projector_type@) + seq![
            if self.has_vision && self.has_audio {
                "vision + audio"@
            } else if self.has_vision {
                "vision"@
            } else if self.has_audio {
                "audio"@
            } else {
                "projector"@
            },
        ] + part_if(
            self.vision_block_count > 0,
            dec(self.vision_block_count as nat) + " enc. layers"@,
        ) + part_if(
            self.image_size > 0,
            if self.patch_size > 0 {
                dec(self.image_size as nat) + "px / patch "@ + dec(self.patch_size as nat)
            } else {
                dec(self.image_size as nat) + "px"@
            },
        )
    }

    /// What the projector takes in, and at which size.
    pub fn mmproj_line(&self) -> (r: String)
        ensures
            r@ == join(self.mmproj_parts(), separator()),
    {
        let mut parts: Vec<String> = Vec::new();
        if !self.projector_type.as_str().is_empty() {
            parts.push(self.projector_type.clone());
        }
        let modality: &'static str = if self.has_vision && self.has_audio {
            "vision + audio"
        } else if self.has_vision {
            "vision"
        } else if self.has_audio {
            "audio"
        } else {
            "projector"
        };
        parts.push(modality.to_owned());
        if self.vision_block_count > 0 {
            parts.push(counted(self.vision_block_count, " enc. layers"));
        }
        if self.image_size > 0 {
            if self.patch_size > 0 {
                let mut s = counted(self.image_size, "px / patch ");
                push_dec(&mut s, self.patch_size as u64);
                parts.push(s);
            } else {
                parts.push(counted(self.image_size, "px"));
            }
        }
        assert(strs(parts@) =~= self.mmproj_parts());
        join_strs(&parts, "  ·  ")
    }
}

// ── Drafts ───────────────────────────────────────────────────────────────

/// The drafts in the library, held against a model by their names.
#[derive(Debug, Clone)]
pub struct ExternalDraft {
    pub mtp_count: usize,
    pub dflash_count: usize,
    /// The best match, and its kind.
    pub best: Option<(String, &'static str)>,
}

impl Default for ExternalDraft {
    fn default() -> (r: Self)
        ensures
            r.mtp_count == 0,
            r.dflash_count == 0,
            r.best is None,
    {
        ExternalDraft { mtp_count: 0, dflash_count: 0, best: None }
    }
}

pub open spec fn embedded_text(n: u32) -> Seq<char> {
    if n > 0 {
        "embedded MTP: yes ("@ + dec(n as nat) + " nextn layer"@ + (if n == 1 {
            ""@
        } else {
            "s"@
        }) + ")"@
    } else {
        "embedded MTP: no"@
    }
}

pub open spec fn external_text(ext: ExternalDraft) -> Seq<char> {
    match ext.best {
        Some((label, kind)) => "external: "@ + kind@ + " looks compatible ("@ + label@ + ")"@,
        None => if ext.mtp_count + ext.dflash_count > 0 {
            "external: none matched ("@ + dec(ext.mtp_count as nat) + " MTP, "@ + dec(
                ext.dflash_count as nat,
            ) + " DFlash in library)"@
        } else {
            "external: none in library"@
        },
    }
}

/// Whether the model drafts for itself, and what else could draft for it.
pub fn draft_line(info: &ModelInfo, ext: &ExternalDraft) -> (r: String)
    ensures
        r@ == embedded_text(info.nextn_predict_layers) + separator() + external_text(*ext),
{
    let n: u32 = info.nextn_predict_layers;
    let mut out: String = String::new();
    if n > 0 {
        out.append("embedded MTP: yes (");
        assert(out@ =~= "embedded MTP: yes ("@);
        push_dec(&mut out, n as u64);
        out.append(" nextn layer");
        out.append(
            if n == 1 {
                ""
            } else {
                "s"
            },
        );
        out.append(")");
    } else {
        out.append("embedded MTP: no");
    }
    assert(out@ =~= embedded_text(n));
    out.append("  ·  ");
    let mut e: String = "external: ".to_owned();
    match &ext.best {
        Some((label, kind)) => {
            e.append(kind);
            e.append(" looks compatible (");
            e.append(label.as_str());
            e.append(")");
        },
        None => {
            if ext.mtp_count > 0 || ext.dflash_count > 0 {
                e = "external: none matched (".to_owned();
                push_dec(&mut e, ext.mtp_count as u64);
                e.append(" MTP, ");
                push_dec(&mut e, ext.dflash_count as u64);
                e.append(" DFlash in library)");
            } else {
                e = "external: none in library".to_owned();
            }
        },
    }
    assert(e@ =~= external_text(*ext));
    out.append(e.as_str());
    out
}

/// Whether a character belongs to a word of a file name.
pub open spec fn is_word_char(c: char) -> bool {
    ('a' <= c <= 'z') || ('A' <= c <= 'Z') || is_digit(c)
}

/// The words of a name: the runs between characters that belong to none.
pub open spec fn words(s: Seq<char>) -> Seq<Seq<char>>
    decreases s.len(),
{
    let i = gap_from(s, 0);
    if i < s.len() && i >= 0 {
        seq![s.take(i)] + words(s.skip(i + 1))
    } else {
        seq![s]
    }
}

/// The first character at or behind a place that belongs to no word, or the length.
pub open spec fn gap_from(s: Seq<char>, from: int) -> int
    decreases s.len() - from,
{
    if from < 0 || from >= s.len() {
        s.len() as int
    } else if !is_word_char(s[from]) {
        from
    } else {
        gap_from(s, from + 1)
    }
}

/// The words that say nothing about what a model is.
pub open spec fn noise() -> Seq<Seq<char>> {
    seq![
        "gguf"@,
        "mtp"@,
        "dflash"@,
        "draft"@,
        "of"@,
        "the"@,
        "model"@,
        "instruct"@,
        "chat"@,
        "it"@,
        "base"@,
        "hf"@,
        "gs"@,
        "mostly"@,
        "f16"@,
        "f32"@,
        "bf16"@,
        "fp16"@,
        "fp32"@,
        "mxfp4"@,
        "nvfp4"@,
        "iq1"@,
        "iq2"@,
        "iq3"@,
        "iq4"@,
        "tq1"@,
        "tq2"@,
        "xxs"@,
        "xs"@,
        "km"@,
        "ks"@,
        "moe"@,
    ]
}

fn noise_words() -> (r: Vec<&'static str>)
    ensures
        literals(r@) == noise(),
{
    let r: Vec<&'static str> = vec![
        "gguf",
        "mtp",
        "dflash",
        "draft",
        "of",
        "the",
        "model",
        "instruct",
        "chat",
        "it",
        "base",
        "hf",
        "gs",
        "mostly",
        "f16",
        "f32",
        "bf16",
        "fp16",
        "fp32",
        "mxfp4",
        "nvfp4",
        "iq1",
        "iq2",
        "iq3",
        "iq4",
        "tq1",
        "tq2",
        "xxs",
        "xs",
        "km",
        "ks",
        "moe",
    ];
    assert(literals(r@) =~= noise());
    r
}

/// A word that names a quantization, or a letter that is left of one.
pub open spec fn is_quant(t: Seq<char>) -> bool {
    t == "k"@ || t == "m"@ || t == "s"@ || (t.len() == 2 && t[0] == 'q' && is_digit(t[1]))
}

/// Whether a word says what a model is.
pub open spec fn tells(t: Seq<char>) -> bool {
    &&& t.len() >= 2
    &&& exists|i: int| 0 <= i < t.len() && !is_digit(#[trigger] t[i])
    &&& !is_quant(t)
    &&& !noise().contains(t)
}

pub open spec fn telling(v: Seq<Seq<char>>) -> Seq<Seq<char>>
    decreases v.len(),
{
    if v.len() == 0 {
        Seq::empty()
    } else if tells(v.last()) {
        telling(v.drop_last()).push(v.last())
    } else {
        telling(v.drop_last())
    }
}

/// The words of a file name that say what the model is.
pub open spec fn family(name: Seq<char>) -> Seq<Seq<char>> {
    telling(words(lower_all(name)))
}

fn word_char(c: char) -> (r: bool)
    ensures
        r == is_word_char(c),
{
    ('a' <= c && c <= 'z') || ('A' <= c && c <= 'Z') || digit(c)
}

/// Whether a word names a quantization.
pub fn is_quant_token(t: &[char]) -> (r: bool)
    ensures
        r == is_quant(t@),
{
    is_str(t, "k") || is_str(t, "m") || is_str(t, "s") || (t.len() == 2 && t[0] == 'q' && digit(t[1]))
}

fn some_letter(t: &[char]) -> (r: bool)
    ensures
        r == exists|i: int| 0 <= i < t@.len() && !is_digit(#[trigger] t@[i]),
{
    let mut i: usize = 0;
    while i < t.len()
        invariant
            i <= t.len(),
            forall|k: int| 0 <= k < i ==> is_digit(#[trigger] t@[k]),
        decreases t.len() - i,
    {
        if !digit(t[i]) {
            return true;
        }
        i += 1;
    }
    false
}

fn is_noise(t: &[char]) -> (r: bool)
    ensures
        r == noise().contains(t@),
{
    let all = noise_words();
    let mut i: usize = 0;
    while i < all.len()
        invariant
            i <= all.len(),
            literals(all@) == noise(),
            forall|k: int| 0 <= k < i ==> (#[trigger] noise()[k]) != t@,
        decreases all.len() - i,
    {
        assert(literals(all@)[i as int] == all@[i as int]@);
        if is_str(t, all[i]) {
            return true;
        }
        i += 1;
    }
    assert(literals(all@).len() == all@.len());
    false
}

fn split_words<'a>(c: &'a [char]) -> (r: Vec<&'a [char]>)
    ensures
        pieces(r@) == words(c@),
{
    let mut out: Vec<&'a [char]> = Vec::new();
    let mut start: usize = 0;
    let n: usize = c.len();
    assert(c@.skip(0) =~= c@);
    assert(pieces(out@) + words(c@.skip(0)) =~= words(c@));
    loop
        invariant
            start <= n,
            n == c@.len(),
            pieces(out@) + words(c@.skip(start as int)) == words(c@),
        decreases n - start,
    {
        let ghost rest = c@.skip(start as int);
        let ghost before = out@;
        let mut i: usize = start;
        while i < n && word_char(c[i])
            invariant
                start <= i <= n,
                n == c@.len(),
                rest == c@.skip(start as int),
                gap_from(rest, 0) == gap_from(rest, i - start),
            decreases n - i,
        {
            assert(rest[i - start] == c@[i as int]);
            i += 1;
        }
        if i >= n {
            let part = slice_subrange(c, start, n);
            assert(part@ =~= rest);
            out.push(part);
            assert(pieces(out@) =~= pieces(before).push(rest));
            assert(words(rest) == seq![rest]);
            assert(pieces(out@) =~= words(c@));
            return out;
        }
        assert(rest[i - start] == c@[i as int]);
        let part = slice_subrange(c, start, i);
        assert(part@ =~= rest.take(i - start));
        out.push(part);
        proof {
            assert(pieces(out@) =~= pieces(before).push(part@));
            assert(rest.skip(i - start + 1) =~= c@.skip(i + 1));
            assert(words(rest) == seq![part@] + words(c@.skip(i + 1)));
            assert(pieces(out@) + words(c@.skip(i + 1)) =~= pieces(before) + words(rest));
        }
        start = i + 1;
    }
}

/// The words of a file name that say what the model is.
pub fn family_tokens(name: &str) -> (r: Vec<String>)
    ensures
        strs(r@) == family(name@),
{
    let c = to_chars(name);
    let low = to_lower_all(c.as_slice());
    let all = split_words(low.as_slice());
    let ghost ws = pieces(all@);
    let mut out: Vec<String> = Vec::new();
    let mut i: usize = 0;
    assert(ws.take(0) =~= Seq::<Seq<char>>::empty());
    assert(strs(out@) =~= telling(ws.take(0)));
    while i < all.len()
        invariant
            i <= all.len(),
            ws == pieces(all@),
            strs(out@) == telling(ws.take(i as int)),
        decreases all.len() - i,
    {
        let ghost before = out@;
        proof {
            assert(ws.take(i + 1).drop_last() =~= ws.take(i as int));
            assert(ws.take(i + 1).last() == all@[i as int]@);
        }
        let t = all[i];
        if t.len() >= 2 && some_letter(t) && !is_quant_token(t) && !is_noise(t) {
            out.push(from_chars(t));
            assert(strs(out@) =~= strs(before).push(t@));
        }
        i += 1;
    }
    assert(ws.take(all@.len() as int) =~= ws);
    out
}

/// How many different words two names share.
pub open spec fn overlap(a: Seq<Seq<char>>, b: Seq<Seq<char>>) -> nat {
    a.to_set().intersect(b.to_set()).len()
}

fn listed(v: &Vec<String>, end: usize, s: &str) -> (r: bool)
    requires
        end <= v@.len(),
    ensures
        r == strs(v@).take(end as int).contains(s@),
{
    let ghost vs = strs(v@).take(end as int);
    let mut i: usize = 0;
    while i < end
        invariant
            i <= end <= v@.len(),
            vs == strs(v@).take(end as int),
            forall|k: int| 0 <= k < i ==> (#[trigger] vs[k]) != s@,
        decreases end - i,
    {
        assert(vs[i as int] == v@[i as int]@);
        if str_eq(v[i].as_str(), s) {
            return true;
        }
        i += 1;
    }
    false
}

/// How many different words two lists share: one that is repeated counts once.
pub fn token_overlap(a: &Vec<String>, b: &Vec<String>) -> (r: usize)
    ensures
        r == overlap(strs(a@), strs(b@)),
        r <= a@.len(),
{
    let ghost xs = strs(a@);
    let ghost ys = strs(b@);
    let mut n: usize = 0;
    let mut i: usize = 0;
    proof {
        assert(xs.take(0).to_set().intersect(ys.to_set()) =~= Set::<Seq<char>>::empty());
    }
    while i < a.len()
        invariant
            i <= a.len(),
            n <= i,
            xs == strs(a@),
            ys == strs(b@),
            n == xs.take(i as int).to_set().intersect(ys.to_set()).len(),
        decreases a.len() - i,
    {
        let ghost before = xs.take(i as int).to_set().intersect(ys.to_set());
        let ghost now = xs.take(i + 1).to_set().intersect(ys.to_set());
        let x = a[i].as_str();
        let fresh: bool = !listed(a, i, x);
        let shared: bool = listed(b, b.len(), x);
        proof {
            assert(ys.take(b@.len() as int) =~= ys);
            assert(xs[i as int] == x@);
            let head = xs.take(i as int);
            assert(xs.take(i + 1) =~= head.push(x@));
            assert forall|w: Seq<char>| #[trigger]
                xs.take(i + 1).contains(w) == (head.contains(w) || w == x@) by {
                if head.contains(w) {
                    let k = choose|k: int| 0 <= k < head.len() && head[k] == w;
                    assert(xs.take(i + 1)[k] == w);
                }
                if w == x@ {
                    assert(xs.take(i + 1)[i as int] == w);
                }
                if xs.take(i + 1).contains(w) {
                    let k = choose|k: int| 0 <= k < i + 1 && #[trigger] xs.take(i + 1)[k] == w;
                    if k < i {
                        assert(head[k] == w);
                    }
                }
            }
            vstd::seq_lib::seq_to_set_is_finite(head);
            assert(before.finite());
            if fresh && shared {
                assert(now =~= before.insert(x@));
            } else {
                assert(now =~= before);
            }
        }
        if fresh && shared {
            n += 1;
        }
        i += 1;
    }
    assert(xs.take(a@.len() as int) =~= xs);
    n
}

/// How well the name of a draft fits a model.
pub open spec fn fit(model: Seq<Seq<char>>, label: Seq<char>) -> nat {
    overlap(model, family(label))
}

/// Whether a draft is the best of those that share more than one word with the
/// model: no earlier one fits as well, and no later one better.
pub open spec fn best_fit(model: Seq<Seq<char>>, labels: Seq<Seq<char>>, i: int) -> bool {
    &&& 0 <= i < labels.len()
    &&& fit(model, labels[i]) > 1
    &&& forall|k: int|
        0 <= k < labels.len() ==> fit(model, #[trigger] labels[k]) <= fit(model, labels[i])
    &&& forall|k: int| 0 <= k < i ==> fit(model, #[trigger] labels[k]) < fit(model, labels[i])
}

/// The labels of the heads, then of the drafters.
pub open spec fn draft_names(mtp: Seq<FileOption>, dflash: Seq<FileOption>) -> Seq<Seq<char>> {
    (mtp + dflash).map_values(|f: FileOption| f.label@)
}

/// The name that a model is known by: that of its file.
pub open spec fn model_words(path: Seq<char>) -> Seq<Seq<char>> {
    family(
        match name_in(path) {
            Some(n) => n,
            None => Seq::empty(),
        },
    )
}

/// Holds the drafts of the library against a model by the words of their names.
pub fn external_drafters(mtp: &Vec<FileOption>, dflash: &Vec<FileOption>, model_path: &str) -> (r: ExternalDraft)
    ensures
        r.mtp_count == mtp@.len(),
        r.dflash_count == dflash@.len(),
        match r.best {
            Some((label, kind)) => exists|i: int| #[trigger]
                best_fit(model_words(model_path@), draft_names(mtp@, dflash@), i) && label@
                    == draft_names(mtp@, dflash@)[i] && kind@ == if i < mtp@.len() {
                    "MTP"@
                } else {
                    "DFlash"@
                },
            None => forall|k: int|
                0 <= k < draft_names(mtp@, dflash@).len() ==> fit(
                    model_words(model_path@),
                    #[trigger] draft_names(mtp@, dflash@)[k],
                ) <= 1,
        },
{
    let name = match file_name(model_path) {
        Some(n) => n,
        None => String::new(),
    };
    let model = family_tokens(name.as_str());
    let ghost mw = model_words(model_path@);
    let ghost all = draft_names(mtp@, dflash@);
    let mut best: Option<(String, &'static str)> = None;
    let mut best_score: usize = 1;
    let ghost mut at: int = -1;
    let mut i: usize = 0;
    assert(strs(model@) == mw);
    while i < mtp.len()
        invariant
            i <= mtp@.len(),
            strs(model@) == mw,
            all == draft_names(mtp@, dflash@),
            best_score >= 1,
            forall|k: int| 0 <= k < i ==> fit(mw, #[trigger] all[k]) <= best_score,
            match best {
                Some((label, kind)) => {
                    &&& 0 <= at < i
                    &&& best_score > 1
                    &&& best_score == fit(mw, all[at])
                    &&& label@ == all[at]
                    &&& kind@ == "MTP"@
                    &&& forall|k: int| 0 <= k < at ==> fit(mw, #[trigger] all[k]) < best_score
                },
                None => best_score == 1,
            },
        decreases mtp.len() - i,
    {
        assert(all[i as int] == mtp@[i as int].label@);
        let words = family_tokens(mtp[i].label.as_str());
        let score: usize = token_overlap(&model, &words);
        if score > best_score {
            best_score = score;
            best = Some((mtp[i].label.clone(), "MTP"));
            proof {
                at = i as int;
            }
        }
        i += 1;
    }
    let mut j: usize = 0;
    while j < dflash.len()
        invariant
            j <= dflash@.len(),
            strs(model@) == mw,
            all == draft_names(mtp@, dflash@),
            best_score >= 1,
            forall|k: int| 0 <= k < mtp@.len() + j ==> fit(mw, #[trigger] all[k]) <= best_score,
            match best {
                Some((label, kind)) => {
                    &&& 0 <= at < mtp@.len() + j
                    &&& best_score > 1
                    &&& best_score == fit(mw, all[at])
                    &&& label@ == all[at]
                    &&& kind@ == if at < mtp@.len() {
                        "MTP"@
                    } else {
                        "DFlash"@
                    }
                    &&& forall|k: int| 0 <= k < at ==> fit(mw, #[trigger] all[k]) < best_score
                },
                None => best_score == 1,
            },
        decreases dflash.len() - j,
    {
        assert(all[mtp@.len() + j] == dflash@[j as int].label@);
        let words = family_tokens(dflash[j].label.as_str());
        let score: usize = token_overlap(&model, &words);
        if score > best_score {
            best_score = score;
            best = Some((dflash[j].label.clone(), "DFlash"));
            proof {
                at = mtp@.len() + j;
            }
        }
        j += 1;
    }
    assert(all.len() == mtp@.len() + dflash@.len());
    assert(best is Some ==> best_fit(mw, all, at));
    ExternalDraft { mtp_count: mtp.len(), dflash_count: dflash.len(), best }
}

// ── Numbers and names ────────────────────────────────────────────────────

/// A numeral with a comma before every third digit from the right.
pub open spec fn grouped(s: Seq<char>) -> Seq<char>
    decreases s.len(),
{
    if s.len() <= 3 {
        s
    } else {
        grouped(s.take(s.len() - 3)) + ","@ + s.skip(s.len() - 3)
    }
}

fn push_grouped(out: &mut String, c: &[char])
    ensures
        final(out)@ == old(out)@ + grouped(c@),
    decreases c@.len(),
{
    let n: usize = c.len();
    let ghost start = out@;
    if n <= 3 {
        push_chars(out, c);
        return;
    }
    let head = slice_subrange(c, 0, n - 3);
    assert(head@ =~= c@.take(n - 3));
    push_grouped(out, head);
    out.append(",");
    let tail = slice_subrange(c, n - 3, n);
    assert(tail@ =~= c@.skip(n - 3));
    push_chars(out, tail);
    assert(out@ =~= start + grouped(c@));
}

/// A number with commas between its thousands.
pub fn group_thousands(n: u64) -> (r: String)
    ensures
        r@ == grouped(dec(n as nat)),
{
    let s = dec_str(n);
    let c = to_chars(s.as_str());
    let mut out: String = String::new();
    push_grouped(&mut out, c.as_slice());
    assert(out@ =~= grouped(dec(n as nat)));
    out
}

/// A size in MiB, or from 1 GiB on in GiB with two decimals.
pub open spec fn size_text(bytes: nat) -> Seq<char> {
    if nearest_double(bytes) >= 0x4000_0000 {
        two_decimals(bytes, 0x4000_0000) + " GiB"@
    } else {
        dec(round_half_even(nearest_double(bytes), 0x10_0000)) + " MiB"@
    }
}

/// A size in MiB or GiB.
pub fn format_mib(bytes: u64) -> (r: String)
    ensures
        r@ == size_text(bytes as nat),
{
    let d: u128 = as_double(bytes as u128);
    let mut out: String = String::new();
    if d >= 0x4000_0000 {
        push_two_decimals(&mut out, bytes, 0x4000_0000);
        assert(out@ =~= two_decimals(bytes as nat, 0x4000_0000));
        out.append(" GiB");
    } else {
        let q: u128 = rounded(d, 0x10_0000);
        push_wide(&mut out, q);
        assert(out@ =~= dec(round_half_even(nearest_double(bytes as nat), 0x10_0000)));
        out.append(" MiB");
    }
    out
}

/// The name of a tensor's ggml type.
pub open spec fn ggml_type_text(t: u32) -> Seq<char> {
    match t {
        0 => "F32"@,
        1 => "F16"@,
        2 => "Q4_0"@,
        3 => "Q4_1"@,
        6 => "Q5_0"@,
        7 => "Q5_1"@,
        8 => "Q8_0"@,
        9 => "Q8_1"@,
        10 => "Q2_K"@,
        11 => "Q3_K"@,
        12 => "Q4_K"@,
        13 => "Q5_K"@,
        14 => "Q6_K"@,
        15 => "Q8_K"@,
        16 => "IQ2_XXS"@,
        17 => "IQ2_XS"@,
        18 => "IQ3_XXS"@,
        19 => "IQ1_S"@,
        20 => "IQ4_NL"@,
        21 => "IQ3_S"@,
        22 => "IQ2_S"@,
        23 => "IQ4_XS"@,
        24 => "I8"@,
        25 => "I16"@,
        26 => "I32"@,
        27 => "I64"@,
        28 => "F64"@,
        29 => "IQ1_M"@,
        30 => "BF16"@,
        34 => "TQ1_0"@,
        35 => "TQ2_0"@,
        39 => "MXFP4"@,
        40 => "NVFP4"@,
        41 => "Q1_0"@,
        42 => "Q2_0"@,
        _ => "ggml_type "@ + dec(t as nat),
    }
}

/// The name of a tensor's ggml type.
pub fn ggml_type_name(t: u32) -> (r: String)
    ensures
        r@ == ggml_type_text(t),
{
    let name: &'static str = match t {
        0 => "F32",
        1 => "F16",
        2 => "Q4_0",
        3 => "Q4_1",
        6 => "Q5_0",
        7 => "Q5_1",
        8 => "Q8_0",
        9 => "Q8_1",
        10 => "Q2_K",
        11 => "Q3_K",
        12 => "Q4_K",
        13 => "Q5_K",
        14 => "Q6_K",
        15 => "Q8_K",
        16 => "IQ2_XXS",
        17 => "IQ2_XS",
        18 => "IQ3_XXS",
        19 => "IQ1_S",
        20 => "IQ4_NL",
        21 => "IQ3_S",
        22 => "IQ2_S",
        23 => "IQ4_XS",
        24 => "I8",
        25 => "I16",
        26 => "I32",
        27 => "I64",
        28 => "F64",
        29 => "IQ1_M",
        30 => "BF16",
        34 => "TQ1_0",
        35 => "TQ2_0",
        39 => "MXFP4",
        40 => "NVFP4",
        41 => "Q1_0",
        42 => "Q2_0",
        _ => {
            let mut out: String = "ggml_type ".to_owned();
            push_dec(&mut out, t as u64);
            return out;
        },
    };
    name.to_owned()
}

/// Whether CUDA and ROCm can look rows up in a tensor of this ggml type.
pub open spec fn has_get_rows(t: u32) -> bool {
    t == 0 || t == 1 || t == 2 || t == 3 || t == 6 || t == 7 || t == 8 || t == 26 || t == 30 || t == 41
}

/// Whether CUDA and ROCm can look rows up in a tensor of this ggml type: every type
/// that is missing here, all K-quants among them, goes back to the host.
pub fn gpu_has_get_rows(t: u32) -> (r: bool)
    ensures
        r == has_get_rows(t),
{
    t == 0 || t == 1 || t == 2 || t == 3 || t == 6 || t == 7 || t == 8 || t == 26 || t == 30 || t == 41
}

/// The name of a file's quantization. These numbers are not those of the ggml types.
pub open spec fn ftype_text(t: u32) -> Seq<char> {
    match t {
        0 => "F32"@,
        1 => "F16"@,
        2 => "Q4_0"@,
        3 => "Q4_1"@,
        7 => "Q8_0"@,
        8 => "Q5_0"@,
        9 => "Q5_1"@,
        10 => "Q2_K"@,
        11 => "Q3_K_S"@,
        12 => "Q3_K_M"@,
        13 => "Q3_K_L"@,
        14 => "Q4_K_S"@,
        15 => "Q4_K_M"@,
        16 => "Q5_K_S"@,
        17 => "Q5_K_M"@,
        18 => "Q6_K"@,
        19 => "IQ2_XXS"@,
        20 => "IQ2_XS"@,
        21 => "Q2_K_S"@,
        22 => "IQ3_XS"@,
        23 => "IQ3_XXS"@,
        24 => "IQ1_S"@,
        25 => "IQ4_NL"@,
        26 => "IQ3_S"@,
        27 => "IQ3_M"@,
        28 => "IQ2_S"@,
        29 => "IQ2_M"@,
        30 => "IQ4_XS"@,
        31 => "IQ1_M"@,
        32 => "BF16"@,
        36 => "TQ1_0"@,
        37 => "TQ2_0"@,
        38 => "MXFP4_MOE"@,
        39 => "NVFP4"@,
        40 => "Q1_0"@,
        _ => "ftype "@ + dec(t as nat),
    }
}

/// The name of a file's quantization. These numbers are not those of the ggml types.
pub fn ftype_name(t: u32) -> (r: String)
    ensures
        r@ == ftype_text(t),
{
    let name: &'static str = match t {
        0 => "F32",
        1 => "F16",
        2 => "Q4_0",
        3 => "Q4_1",
        7 => "Q8_0",
        8 => "Q5_0",
        9 => "Q5_1",
        10 => "Q2_K",
        11 => "Q3_K_S",
        12 => "Q3_K_M",
        13 => "Q3_K_L",
        14 => "Q4_K_S",
        15 => "Q4_K_M",
        16 => "Q5_K_S",
        17 => "Q5_K_M",
        18 => "Q6_K",
        19 => "IQ2_XXS",
        20 => "IQ2_XS",
        21 => "Q2_K_S",
        22 => "IQ3_XS",
        23 => "IQ3_XXS",
        24 => "IQ1_S",
        25 => "IQ4_NL",
        26 => "IQ3_S",
        27 => "IQ3_M",
        28 => "IQ2_S",
        29 => "IQ2_M",
        30 => "IQ4_XS",
        31 => "IQ1_M",
        32 => "BF16",
        36 => "TQ1_0",
        37 => "TQ2_0",
        38 => "MXFP4_MOE",
        39 => "NVFP4",
        40 => "Q1_0",
        _ => {
            let mut out: String = "ftype ".to_owned();
            push_dec(&mut out, t as u64);
            return out;
        },
    };
    name.to_owned()
}

} // verus!
