//! What a merged configuration says of each preset, and what it keeps of the section.
use vstd::prelude::*;
use vstd::string::*;
use crate::integrations::{
    capitalized, config_in, empty_object, entry_json, env_script, fresh_section, friendly, known_ctx, last_dot,
    last_preset_at, lemma_keys_differ, lemma_section_is_there, lemma_with_member, member_or,
    merged, model_entries, provider_members, reply_limit, section_members, section_of, spaced, stem,
    title, usable_ctx, with_member, with_section, without_api,
};
use crate::json::{int_json, json_read, lemma_member_at_is, lemma_member_at_none, member, JsonView};
use crate::letters::uppercase;
use crate::presets::Preset;
use crate::text::{contains, ends_with, join, occurs_at, trim};

verus! {

// ── An entry ─────────────────────────────────────────────────────────────

/// The entry of a preset promises the context that one request may use, for what goes
/// in as well, and has a name. It says whether the model reasons where the preset does.
pub proof fn law_entry_promises(p: Preset, trained: Option<u32>)
    ensures
        ({
            let e = entry_json(p, trained);
            let context = usable_ctx(p.ctx_size, p.parallel, trained);
            &&& member(e, "limit"@) matches Some(l) && member(l, "context"@) == Some(
                int_json(context as i64),
            ) && member(l, "input"@) == Some(int_json(context as i64)) && member(l, "output"@) == Some(
                int_json(reply_limit(context) as i64),
            )
            &&& member(e, "name"@) == Some(JsonView::Text(friendly(p.id@, p.model@)))
            &&& p.reasoning@ == "on"@ ==> member(e, "reasoning"@) == Some(JsonView::Bool(true))
            &&& p.reasoning@ == "off"@ ==> member(e, "reasoning"@) == Some(JsonView::Bool(false))
            &&& p.reasoning@ == "auto"@ || p.reasoning@.len() == 0 ==> member(e, "reasoning"@) is None
        }),
{
    reveal_strlit("name");
    reveal_strlit("reasoning");
    reveal_strlit("limit");
    reveal_strlit("context");
    reveal_strlit("input");
    reveal_strlit("output");
    reveal_strlit("on");
    reveal_strlit("off");
    reveal_strlit("auto");
    assert("name"@.len() == 4 && "reasoning"@.len() == 9 && "limit"@.len() == 5);
    assert("context"@.len() == 7 && "input"@.len() == 5 && "output"@.len() == 6);
    assert("on"@.len() == 2 && "off"@.len() == 3 && "auto"@.len() == 4);
    let m = entry_json(p, trained)->Object_0;
    let n = m.len() as int;
    assert(m[0].0 == "name"@);
    lemma_member_at_is(m, "name"@, 0);
    if p.reasoning@.len() > 0 && p.reasoning@ != "auto"@ {
        assert(n == 3 && m[1].0 == "reasoning"@ && m[2].0 == "limit"@);
        lemma_member_at_is(m, "reasoning"@, 1);
        lemma_member_at_is(m, "limit"@, 2);
    } else {
        assert(n == 2 && m[1].0 == "limit"@);
        lemma_member_at_is(m, "limit"@, 1);
        lemma_member_at_none(m, "reasoning"@);
    }
    let l = m[n - 1].1->Object_0;
    assert(l[0].0 == "context"@ && l[1].0 == "input"@ && l[2].0 == "output"@);
    lemma_member_at_is(l, "context"@, 0);
    lemma_member_at_is(l, "input"@, 1);
    lemma_member_at_is(l, "output"@, 2);
}

proof fn lemma_last_preset(all: Seq<Preset>, id: Seq<char>, k: int)
    requires
        0 <= k < all.len(),
        all[k].id@ == id,
        forall|j: int| k < j < all.len() ==> (#[trigger] all[j]).id@ != id,
    ensures
        last_preset_at(all, id) == k,
    decreases all.len(),
{
    let init = all.drop_last();
    assert(all[all.len() - 1] == all.last());
    if k < init.len() {
        assert(init[k] == all[k]);
        assert forall|j: int| k < j < init.len() implies (#[trigger] init[j]).id@ != id by {
            assert(init[j] == all[j]);
        }
        lemma_last_preset(init, id, k);
    }
}

/// Every wanted id has the entry of the last preset with that id, and of the context
/// that its model was trained with; a context of 0 in a header is none.
pub proof fn law_each_id_has_its_entry(
    ids: Seq<Seq<char>>,
    all: Seq<Preset>,
    trained: Seq<Option<u32>>,
    id: Seq<char>,
    k: int,
)
    requires
        ids.contains(id),
        0 <= k < all.len(),
        all[k].id@ == id,
        forall|j: int| k < j < all.len() ==> (#[trigger] all[j]).id@ != id,
    ensures
        member(JsonView::Object(model_entries(ids, all, trained)), id) == Some(
            entry_json(
                all[k],
                if trained[k] == Some(0u32) {
                    None
                } else {
                    trained[k]
                },
            ),
        ),
    decreases ids.len(),
{
    lemma_last_preset(all, id, k);
    let init = ids.drop_last();
    let before = model_entries(init, all, trained);
    let last = ids.last();
    let at = last_preset_at(all, last);
    if last == id {
        lemma_with_member(before, last, entry_json(all[at], known_ctx(trained[at])), id);
    } else {
        let i = choose|i: int| 0 <= i < ids.len() && ids[i] == id;
        assert(init[i] == id);
        law_each_id_has_its_entry(init, all, trained, id, k);
        if at >= 0 {
            lemma_with_member(before, last, entry_json(all[at], known_ctx(trained[at])), id);
        }
    }
}

/// The models of a merged configuration are those entries, in the section of the server.
pub proof fn law_merge_holds_the_entries(
    v: JsonView,
    base_url: Seq<char>,
    ids: Seq<Seq<char>>,
    all: Seq<Preset>,
    trained: Seq<Option<u32>>,
)
    requires
        merged(v, base_url, ids, all, trained) is Ok,
    ensures
        ({
            let now = merged(v, base_url, ids, all, trained)->Ok_0;
            member(now, "provider"@) matches Some(p) && member(p, "llama.cpp"@) matches Some(s) && member(
                s,
                "models"@,
            ) == Some(JsonView::Object(model_entries(ids, all, trained)))
        }),
{
    let now = with_section(v, base_url)->Ok_0;
    lemma_section_is_there(v, base_url);
    let models = model_entries(ids, all, trained);
    let m = now->Object_0;
    let p = member_or(m, "provider"@, empty_object())->Object_0;
    let s = member_or(p, "llama.cpp"@, empty_object())->Object_0;
    let s2 = with_member(s, "models"@, JsonView::Object(models));
    let p2 = with_member(p, "llama.cpp"@, JsonView::Object(s2));
    lemma_with_member(s, "models"@, JsonView::Object(models), "models"@);
    lemma_with_member(p, "llama.cpp"@, JsonView::Object(s2), "llama.cpp"@);
    lemma_with_member(m, "provider"@, JsonView::Object(p2), "provider"@);
}

/// What else the section of the server held stays in it, and so does what else its
/// options held.
pub proof fn law_section_keeps_its_own(
    v: JsonView,
    base_url: Seq<char>,
    key: Seq<char>,
    option: Seq<char>,
)
    requires
        with_section(v, base_url) is Ok,
        section_of(v) is Some,
        key != "npm"@ && key != "name"@ && key != "options"@ && key != "models"@,
        option != "baseURL"@,
    ensures
        ({
            let now = section_of(with_section(v, base_url)->Ok_0)->0;
            let was = section_of(v)->0;
            &&& member(now, key) == member(was, key)
            &&& member(was, "models"@) matches Some(x) ==> member(now, "models"@) == Some(x)
            &&& member(was, "options"@) matches Some(o) ==> (member(now, "options"@) matches Some(q)
                && member(q, option) == member(o, option))
        }),
{
    let m = v->Object_0;
    let p = member_or(m, "provider"@, empty_object())->Object_0;
    let now = provider_members(p, base_url)->Ok_0;
    lemma_with_member(m, "provider"@, JsonView::Object(now), "provider"@);
    let s = member_or(p, "llama.cpp"@, fresh_section(base_url))->Object_0;
    let updated = section_members(s, base_url)->Ok_0;
    lemma_with_member(p, "llama.cpp"@, JsonView::Object(updated), "llama.cpp"@);
    let npm = JsonView::Text("@ai-sdk/openai-compatible"@);
    let name = JsonView::Text("llama-server (local)"@);
    let a = with_member(s, "npm"@, npm);
    let b = with_member(a, "name"@, name);
    let o = member_or(b, "options"@, empty_object())->Object_0;
    let opts = JsonView::Object(with_member(o, "baseURL"@, JsonView::Text(base_url)));
    let c = with_member(b, "options"@, opts);
    let models = member_or(c, "models"@, empty_object());
    lemma_keys_differ();
    lemma_with_member(s, "npm"@, npm, key);
    lemma_with_member(a, "name"@, name, key);
    lemma_with_member(b, "options"@, opts, key);
    lemma_with_member(c, "models"@, models, key);
    lemma_with_member(s, "npm"@, npm, "options"@);
    lemma_with_member(a, "name"@, name, "options"@);
    lemma_with_member(c, "models"@, models, "options"@);
    lemma_with_member(s, "npm"@, npm, "models"@);
    lemma_with_member(a, "name"@, name, "models"@);
    lemma_with_member(b, "options"@, opts, "models"@);
    lemma_with_member(o, "baseURL"@, JsonView::Text(base_url), option);
}

// ── Names and addresses ──────────────────────────────────────────────────

/// A name loses its extension, the last one alone.
pub proof fn law_extension_goes(base: Seq<char>, ext: Seq<char>)
    requires
        base.len() > 0,
        !ext.contains('.'),
    ensures
        stem(base + seq!['.'] + ext) == base,
{
    let s = base + seq!['.'] + ext;
    lemma_last_dot(s, base.len() as int);
    assert(s.take(base.len() as int) =~= base);
}

proof fn lemma_last_dot(s: Seq<char>, at: int)
    requires
        0 <= at < s.len(),
        s[at] == '.',
        !s.skip(at + 1).contains('.'),
    ensures
        last_dot(s) == at,
    decreases s.len(),
{
    if at < s.len() - 1 {
        let init = s.drop_last();
        let tail = s.skip(at + 1);
        assert(tail[tail.len() - 1] == s.last());
        assert(tail.contains(s.last()));
        assert(!init.skip(at + 1).contains('.')) by {
            let t = init.skip(at + 1);
            if t.contains('.') {
                let i = choose|i: int| 0 <= i < t.len() && t[i] == '.';
                assert(tail[i] == '.');
            }
        }
        lemma_last_dot(init, at);
    }
}

/// Hyphens and underscores become spaces, and nothing else changes.
pub proof fn law_words_are_spaced(s: Seq<char>)
    ensures
        spaced(s).len() == s.len(),
        forall|i: int|
            0 <= i < s.len() ==> #[trigger] spaced(s)[i] == if s[i] == '-' || s[i] == '_' {
                ' '
            } else {
                s[i]
            },
{
}

/// A title has the words of a name, each with a capital, and six of them at most.
pub proof fn law_titles(words: Seq<Seq<char>>, more: Seq<char>)
    ensures
        words.len() == 1 ==> title(words) == capitalized(words[0]),
        words.len() == 2 ==> title(words) == capitalized(words[0]) + " "@ + capitalized(words[1]),
        words.len() >= 6 ==> title(words.push(more)) == title(words),
        more.len() > 0 ==> capitalized(more) == uppercase(more[0]) + more.skip(1),
{
    let f = |w: Seq<char>| capitalized(w);
    let cs = words.map_values(f);
    if words.len() == 1 {
        assert(words.take(1) =~= words);
        assert(cs =~= seq![capitalized(words[0])]);
    }
    if words.len() == 2 {
        assert(words.take(2) =~= words);
        let a = capitalized(words[0]);
        let b = capitalized(words[1]);
        assert(cs =~= seq![a, b]);
        assert(cs.drop_last() =~= seq![a]);
        assert(join(seq![a], " "@) == a);
    }
    if words.len() >= 6 {
        assert(words.push(more).take(6) =~= words.take(6));
    }
}

/// The path of the API goes from the end of an address, and nothing else does.
pub proof fn law_api_path_goes(url: Seq<char>)
    ensures
        without_api(url + "/v1"@) == without_api(url),
        !ends_with(url, "/v1"@) ==> without_api(url) == url,
{
    reveal_strlit("/v1");
    let s = url + "/v1"@;
    assert(s.skip(s.len() - 3) =~= "/v1"@);
    assert(s.subrange(s.len() - 3, s.len() as int) =~= "/v1"@);
    assert(s.take(s.len() - 3) =~= url);
}

/// A configuration file that is blank is an empty object; any other one is what it says.
pub proof fn law_blank_configuration(text: Seq<char>)
    ensures
        trim(text).len() == 0 ==> config_in(text) == Ok::<JsonView, Seq<char>>(
            JsonView::Object(Seq::empty()),
        ),
        trim(text).len() > 0 ==> config_in(text) == json_read(text),
{
}

/// The script sets the address, and names the tool and how it is launched.
pub proof fn law_script_sets_the_address(
    tool: Seq<char>,
    command: Seq<char>,
    base: Seq<char>,
    example: Seq<char>,
)
    ensures
        contains(
            env_script(tool, command, base, example),
            "$env:ANTHROPIC_BASE_URL = \""@ + base + "\""@,
        ),
        ends_with(env_script(tool, command, base, example), "# Then launch: "@ + command + "\r\n"@),
{
    let s = env_script(tool, command, base, example);
    let a = "# Run this in PowerShell before launching "@;
    let b = " to use your local llama-server.\r\n$env:ANTHROPIC_BASE_URL = \""@;
    let p = "$env:ANTHROPIC_BASE_URL = \""@ + base + "\""@;
    reveal_strlit(" to use your local llama-server.\r\n$env:ANTHROPIC_BASE_URL = \"");
    reveal_strlit("$env:ANTHROPIC_BASE_URL = \"");
    reveal_strlit("\"");
    let c =
        "\"\r\n$env:ANTHROPIC_API_KEY = \"not-needed\"\r\n# Pick a preset id from your presets.ini as the model name, e.g.:\r\n# $env:ANTHROPIC_DEFAULT_SONNET_MODEL = \""@;
    reveal_strlit(
        "\"\r\n$env:ANTHROPIC_API_KEY = \"not-needed\"\r\n# Pick a preset id from your presets.ini as the model name, e.g.:\r\n# $env:ANTHROPIC_DEFAULT_SONNET_MODEL = \"",
    );
    let at = (a.len() + tool.len() + b.len() - "$env:ANTHROPIC_BASE_URL = \""@.len()) as int;
    assert(s.subrange(at, at + p.len()) =~= p);
    assert(occurs_at(s, p, at));
    let e = "\"\r\n# Then launch: "@;
    reveal_strlit("\"\r\n# Then launch: ");
    reveal_strlit("# Then launch: ");
    reveal_strlit("\r\n");
    let end = "# Then launch: "@ + command + "\r\n"@;
    assert(s.subrange(s.len() - end.len(), s.len() as int) =~= end);
}

} // verus!
