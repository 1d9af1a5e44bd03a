//! What is read out of a model's header, and what is said of it.
use vstd::prelude::*;
use vstd::string::*;
use crate::gguf::{
    best_fit, describes, embedded_text, external_text, family, fit, gap_from, ggml_type_text,
    grouped, has_get_rows, is_mmproj, is_word_char, part_if, separator, size_text, tells, telling,
    value_at, words, Entry, ExternalDraft, Metadata, ModelInfo,
};
use crate::rounding::{
    law_rounds_to_nearest, law_small_numbers_are_doubles, round_half_even, two_decimals,
};
use crate::text::{contains, dec, join, lower_all, opt};

verus! {

/// The value under a key is the first one.
pub proof fn law_first_value_counts(m: Metadata, key: Seq<char>, k: int)
    requires
        0 <= k <= m.values@.len(),
        forall|j: int| 0 <= j < k ==> (#[trigger] m.values@[j]).0@ != key,
        k < m.values@.len() ==> m.values@[k].0@ == key,
    ensures
        k < m.values@.len() ==> m.value_of(key) == Some(m.values@[k].1),
        k == m.values@.len() ==> m.value_of(key) is None,
{
    lemma_value_at(m.values@, key, k);
}

proof fn lemma_value_at(v: Seq<(String, Entry)>, key: Seq<char>, k: int)
    requires
        0 <= k <= v.len(),
        forall|j: int| 0 <= j < k ==> (#[trigger] v[j]).0@ != key,
        k < v.len() ==> v[k].0@ == key,
    ensures
        value_at(v, key) == if k < v.len() {
            k
        } else {
            -1
        },
    decreases v.len(),
{
    if v.len() > 0 {
        let init = v.drop_last();
        if k < init.len() {
            assert(init[k] == v[k]);
            assert forall|j: int| 0 <= j < k implies (#[trigger] init[j]).0@ != key by {
                assert(init[j] == v[j]);
            }
            lemma_value_at(init, key, k);
        } else {
            assert forall|j: int| 0 <= j < init.len() implies (#[trigger] init[j]).0@ != key by {
                assert(init[j] == v[j]);
            }
            lemma_value_at(init, key, init.len() as int);
            assert(v[v.len() - 1] == v.last());
        }
    }
}

/// Whether a number is the one that a header has under a key of the architecture, and 0
/// where it has none.
pub open spec fn is_under(n: u32, m: Metadata, arch: Seq<char>, key: Seq<char>) -> bool {
    match m.value_of(arch + "."@ + key) {
        Some(Entry::Number(x)) => n == x,
        _ => n == 0,
    }
}

/// Every number of a description is the one that the header has under its key; a model
/// has experts where it counts any.
pub proof fn law_header_is_read(i: ModelInfo, m: Metadata, arch: Seq<char>)
    requires
        describes(i, m, arch),
    ensures
        i.arch@ == arch,
        is_under(i.n_layer, m, arch, "block_count"@),
        is_under(i.n_ctx_train, m, arch, "context_length"@),
        is_under(i.head_count, m, arch, "attention.head_count"@),
        is_under(i.head_count_kv, m, arch, "attention.head_count_kv"@),
        is_under(i.nextn_predict_layers, m, arch, "nextn_predict_layers"@),
        is_under(i.block_size, m, arch, "block_size"@),
        is_under(i.expert_count, m, arch, "expert_count"@),
        is_under(i.expert_used, m, arch, "expert_used_count"@),
        is_under(i.expert_shared_count, m, arch, "expert_shared_count"@),
        is_under(i.leading_dense_block_count, m, arch, "leading_dense_block_count"@),
        is_under(i.moe_every_n_layers, m, arch, "moe_every_n_layers"@),
        i.is_moe <==> i.expert_count >= 1,
        m.value_of("general.size_label"@) matches Some(Entry::Text(s)) ==> i.size_label@ == s@,
        m.value_of("tokenizer.chat_template"@) matches Some(Entry::Text(s)) ==> (if s@.len() > 0 {
            opt(i.chat_template) == Some(s@)
        } else {
            i.chat_template is None
        }),
        m.value_of("tokenizer.chat_template"@) is None ==> i.chat_template is None,
{
}

/// A model without experts is dense, and nothing of it can be kept on the CPU for them.
pub proof fn law_dense_models(i: ModelInfo)
    requires
        !i.is_moe,
    ensures
        i.kind_text() == "Dense"@,
        i.moe_offload_text().len() == 0,
{
}

/// The layers with experts and the dense ones in front of them are all layers.
pub proof fn law_expert_layers(i: ModelInfo, experts: nat)
    requires
        i.is_moe,
        0 < i.leading_dense_block_count < i.n_layer,
        experts + i.leading_dense_block_count == i.n_layer,
    ensures
        i.moe_offload_text() == dec(experts) + " of "@ + dec(i.n_layer as nat)
            + " layers hold experts (first "@ + dec(i.leading_dense_block_count as nat) + " dense)"@
            + separator() + "saves VRAM (slower)"@,
{
}

/// Where every KV head serves the same number of heads, that number is told.
pub proof fn law_grouped_attention(i: ModelInfo, ratio: nat)
    requires
        ratio >= 2,
        i.head_count_kv > 0,
        i.head_count == ratio * i.head_count_kv,
    ensures
        i.attn_text() == dec(i.head_count as nat) + " heads / "@ + dec(i.head_count_kv as nat)
            + " KV (GQA "@ + dec(ratio) + "×)"@,
{
    let kv = i.head_count_kv as int;
    let h = i.head_count as int;
    vstd::arithmetic::div_mod::lemma_fundamental_div_mod_converse(h, kv, ratio as int, 0);
    assert(ratio * kv == kv * ratio) by (nonlinear_arith);
    assert(h > kv) by (nonlinear_arith)
        requires
            h == ratio * kv,
            ratio >= 2,
            kv > 0,
    ;
}

/// The warning about pinning the embedding table is there exactly for a table that the
/// GPUs cannot look rows up in. They can in the plain formats and in the quantizations
/// of the first kinds, and in none of those with K.
pub proof fn law_pinning_warning(i: ModelInfo, t: u32)
    ensures
        i.embd is None ==> i.embd_pin_text().len() == 0,
        i.embd matches Some((k, _)) ==> (i.embd_pin_text().len() == 0 <==> has_get_rows(k)),
        10 <= t <= 15 ==> !has_get_rows(t),
        16 <= t <= 23 ==> !has_get_rows(t),
        t == 0 || t == 1 || t == 30 ==> has_get_rows(t),
        t == 2 || t == 3 || t == 6 || t == 7 || t == 8 ==> has_get_rows(t),
{
    reveal_strlit("This model stores token_embd as ");
}

/// A model drafts for itself where its header counts layers that predict ahead.
pub proof fn law_embedded_draft(n: u32)
    requires
        n >= 2,
    ensures
        embedded_text(0) == "embedded MTP: no"@,
        embedded_text(n) == "embedded MTP: yes ("@ + dec(n as nat) + " nextn layer"@ + "s"@ + ")"@,
        embedded_text(1) == "embedded MTP: yes ("@ + dec(1) + " nextn layer"@ + ""@ + ")"@,
{
}

// ── Words ────────────────────────────────────────────────────────────────

proof fn lemma_gap(a: Seq<char>, s: Seq<char>, from: int)
    requires
        0 <= from <= a.len() < s.len(),
        s.take(a.len() as int) == a,
        forall|k: int| 0 <= k < a.len() ==> is_word_char(#[trigger] a[k]),
        !is_word_char(s[a.len() as int]),
    ensures
        gap_from(s, from) == a.len(),
    decreases a.len() - from,
{
    if from < a.len() {
        assert(s[from] == s.take(a.len() as int)[from]);
        assert(is_word_char(a[from]));
        lemma_gap(a, s, from + 1);
    }
}

/// A name is cut at what is neither a letter nor a digit: the word before it is the
/// first, and the rest is cut in the same way.
pub proof fn law_names_are_cut(word: Seq<char>, c: char, rest: Seq<char>)
    requires
        forall|k: int|
            0 <= k < word.len() ==> ('a' <= #[trigger] word[k] <= 'z') || ('A' <= word[k] <= 'Z') || ('0'
                <= word[k] <= '9'),
        !(('a' <= c <= 'z') || ('A' <= c <= 'Z') || ('0' <= c <= '9')),
    ensures
        words(word + seq![c] + rest) == seq![word] + words(rest),
{
    let s = word + seq![c] + rest;
    assert(s.take(word.len() as int) =~= word);
    lemma_gap(word, s, 0);
    assert(s.skip(word.len() as int + 1) =~= rest);
}

/// The words that tell what a model is are those of its name that are no noise, in any
/// case of the letters.
pub proof fn law_telling_words(name: Seq<char>, w: Seq<char>)
    ensures
        family(name).contains(w) <==> words(lower_all(name)).contains(w) && tells(w),
{
    lemma_telling(words(lower_all(name)), w);
}

proof fn lemma_telling(v: Seq<Seq<char>>, w: Seq<char>)
    ensures
        telling(v).contains(w) <==> v.contains(w) && tells(w),
    decreases v.len(),
{
    if v.len() > 0 {
        let init = v.drop_last();
        lemma_telling(init, w);
        let before = telling(init);
        let now = telling(v);
        assert(v[v.len() - 1] == v.last());
        if v.contains(w) && v.last() != w {
            let k = choose|k: int| 0 <= k < v.len() && v[k] == w;
            assert(init[k] == w);
        }
        if init.contains(w) {
            let k = choose|k: int| 0 <= k < init.len() && init[k] == w;
            assert(v[k] == w);
        }
        if before.contains(w) {
            let k = choose|k: int| 0 <= k < before.len() && before[k] == w;
            assert(now[k] == w);
        }
        if now.contains(w) && !before.contains(w) {
            let k = choose|k: int| 0 <= k < now.len() && now[k] == w;
            assert(k == before.len());
        }
        if v.last() == w && tells(w) {
            assert(now[before.len() as int] == w);
        }
    }
}

/// Numbers, single letters and the names of quantizations tell nothing; a longer word
/// of letters does, unless it is one of the noise.
pub proof fn law_what_tells(w: Seq<char>)
    ensures
        w.len() <= 1 ==> !tells(w),
        (forall|i: int| 0 <= i < w.len() ==> '0' <= #[trigger] w[i] <= '9') ==> !tells(w),
        w.len() == 2 && w[0] == 'q' && '0' <= w[1] <= '9' ==> !tells(w),
        crate::gguf::noise().contains(w) ==> !tells(w),
        w.len() >= 3 && !('0' <= w[0] <= '9') && !crate::gguf::noise().contains(w) ==> tells(w),
{
    reveal_strlit("k");
    reveal_strlit("m");
    reveal_strlit("s");
}

/// A numeral is grouped in threes from the right.
pub proof fn law_groups_of_three(front: Seq<char>, three: Seq<char>)
    requires
        three.len() == 3,
        front.len() > 0,
    ensures
        grouped(three) == three,
        grouped(front + three) == grouped(front) + ","@ + three,
{
    let s = front + three;
    assert(s.take(s.len() - 3) =~= front);
    assert(s.skip(s.len() - 3) =~= three);
}

// ── Lines ────────────────────────────────────────────────────────────────

/// The line about a model's size has the layers and the trained context, each where it is
/// known.
pub proof fn law_layers_and_context(i: ModelInfo)
    ensures
        i.n_layer > 0 && i.n_ctx_train > 0 ==> i.layers_ctx_text() == dec(i.n_layer as nat)
            + " layers"@ + separator() + ("trained ctx "@ + grouped(dec(i.n_ctx_train as nat))),
        i.n_layer > 0 && i.n_ctx_train == 0 ==> i.layers_ctx_text() == dec(i.n_layer as nat)
            + " layers"@,
        i.n_layer == 0 && i.n_ctx_train > 0 ==> i.layers_ctx_text() == "trained ctx "@ + grouped(
            dec(i.n_ctx_train as nat),
        ),
        i.n_layer == 0 && i.n_ctx_train == 0 ==> i.layers_ctx_text() == "n/a"@,
{
    let a = dec(i.n_layer as nat) + " layers"@;
    let b = "trained ctx "@ + grouped(dec(i.n_ctx_train as nat));
    let parts = part_if(i.n_layer > 0, a) + part_if(i.n_ctx_train > 0, b);
    if i.n_layer > 0 && i.n_ctx_train > 0 {
        assert(parts =~= seq![a, b]);
        lemma_join_two(a, b, separator());
    } else if i.n_layer > 0 {
        assert(parts =~= seq![a]);
    } else if i.n_ctx_train > 0 {
        assert(parts =~= seq![b]);
    } else {
        assert(parts.len() == 0);
    }
}

proof fn lemma_join_two(a: Seq<char>, b: Seq<char>, sep: Seq<char>)
    ensures
        join(seq![a, b], sep) == a + sep + b,
        join(seq![a], sep) == a,
{
    let v = seq![a, b];
    assert(v.drop_last() =~= seq![a]);
    assert(v.last() == b);
    assert(join(seq![a], sep) == a);
}

/// The line about the embedding table has its type and its size; without a table there is
/// nothing to tell. A chat template is Jinja where it holds a tag of it.
pub proof fn law_table_and_template(i: ModelInfo)
    ensures
        i.embd is None ==> i.embd_text() == "n/a"@,
        i.embd matches Some((k, b)) ==> i.embd_text() == ggml_type_text(k) + separator() + size_text(
            b as nat,
        ),
        i.chat_template is None ==> i.chat_template_text() == "none"@,
        i.chat_template matches Some(t) ==> (i.chat_template_text() == "Jinja (embedded)"@ <==> contains(
            t@,
            "{%"@,
        ) || contains(t@, "{{"@)),
{
    reveal_strlit("Jinja (embedded)");
    reveal_strlit("embedded (non-Jinja)");
    assert("Jinja (embedded)"@.len() != "embedded (non-Jinja)"@.len());
}

/// A size is told in whole MiB below a GiB, and in GiB with two decimals from there on.
pub proof fn law_model_sizes(bytes: nat)
    requires
        bytes < 0x20_0000_0000_0000,
    ensures
        bytes < 1024 * 1024 * 1024 ==> exists|m: nat|
            size_text(bytes) == #[trigger] dec(m) + " MiB"@ && -1048576 <= 2 * (m * 1048576 - bytes)
                <= 1048576,
        bytes >= 1024 * 1024 * 1024 ==> size_text(bytes) == two_decimals(bytes, 1073741824) + " GiB"@,
{
    law_small_numbers_are_doubles(bytes);
    law_rounds_to_nearest(bytes, 1048576);
    let m = round_half_even(bytes, 1048576);
    if bytes < 1024 * 1024 * 1024 {
        assert(size_text(bytes) == dec(m) + " MiB"@);
    }
}

/// A header is one of a projector exactly where it names a projector, or has an encoder
/// for pictures or for sound.
pub proof fn law_projectors(m: Metadata)
    ensures
        (m.value_of("clip.projector_type"@) matches Some(Entry::Text(s)) && s@.len() > 0) ==> is_mmproj(m),
        m.value_of("clip.has_vision_encoder"@) == Some(Entry::Flag(true)) ==> is_mmproj(m),
        m.value_of("clip.has_audio_encoder"@) == Some(Entry::Flag(true)) ==> is_mmproj(m),
        m.value_of("clip.projector_type"@) is None && m.value_of("clip.has_vision_encoder"@) is None
            && m.value_of("clip.has_audio_encoder"@) is None ==> !is_mmproj(m),
{
}

/// The draft that is proposed shares two words with the model at least, no other shares
/// more, and it is the first of those that share as many.
pub proof fn law_best_draft(model: Seq<Seq<char>>, labels: Seq<Seq<char>>, i: int, k: int)
    requires
        best_fit(model, labels, i),
        0 <= k < labels.len(),
    ensures
        ({
            let shared = |label: Seq<char>| model.to_set().intersect(family(label).to_set()).len();
            &&& shared(labels[i]) >= 2
            &&& shared(labels[k]) <= shared(labels[i])
            &&& k < i ==> shared(labels[k]) < shared(labels[i])
        }),
        best_fit(model, labels, k) ==> k == i,
{
    assert(fit(model, labels[k]) <= fit(model, labels[i]));
    if k < i {
        assert(fit(model, labels[k]) < fit(model, labels[i]));
    }
    if best_fit(model, labels, k) && i < k {
        assert(fit(model, labels[i]) < fit(model, labels[k]));
    }
}

/// What is said of drafts in the library: the one that fits, else how many there are.
pub proof fn law_external_drafts(ext: ExternalDraft)
    ensures
        ext.best matches Some((label, kind)) ==> external_text(ext) == "external: "@ + kind@
            + " looks compatible ("@ + label@ + ")"@,
        ext.best is None && (ext.mtp_count > 0 || ext.dflash_count > 0) ==> external_text(ext)
            == "external: none matched ("@ + dec(ext.mtp_count as nat) + " MTP, "@ + dec(
            ext.dflash_count as nat,
        ) + " DFlash in library)"@,
        ext.best is None && ext.mtp_count == 0 && ext.dflash_count == 0 ==> external_text(ext)
            == "external: none in library"@,
{
}

} // verus!
