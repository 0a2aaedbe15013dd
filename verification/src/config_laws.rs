use vstd::prelude::*;

use crate::config::{
    add_section_result, auto_generate_result, extra_args_of, gguf_file_name, ini_section_lines,
    ini_section_text, model_section_params, path_in_dir, profile_section_params, sync_result,
    sync_scan, sync_step, update_profile_result, wildcard_params, ConfigView, IniFileView,
    IniUpdateView,
};
use crate::ini_laws::lemma_lines_of_join;
use crate::launcher_laws::lemma_decimal_reads_back;
use crate::text::{decimal, lines, trim, trim_end_char};
use crate::ini::{
    first_named, ini_sections, ini_text, lemma_first_named, lemma_first_named_unique, SectionView,
};
use crate::ini_laws::{
    law_added_section_found, law_first_section_survives, law_ini_round_trip, law_read_sections_writable, no_newline,
    writable_param, writable_section,
};

verus! {

/// The sections that an operation on `config.ini` starts from: those of the file when it could
/// be read, none otherwise.
pub open spec fn sections_on_disk(ini: IniFileView) -> Seq<SectionView> {
    match ini {
        IniFileView::Text(t) => ini_sections(t),
        _ => seq![],
    }
}

proof fn lemma_on_disk_writable(ini: IniFileView)
    ensures
        forall|i: int|
            0 <= i < sections_on_disk(ini).len() ==> writable_section(
                #[trigger] sections_on_disk(ini)[i],
            ),
{
    match ini {
        IniFileView::Text(t) => law_read_sections_writable(t),
        _ => {},
    }
}

proof fn lemma_all_writable_update(secs: Seq<SectionView>, p: int, sec: SectionView)
    requires
        forall|i: int| 0 <= i < secs.len() ==> writable_section(#[trigger] secs[i]),
        writable_section(sec),
        0 <= p < secs.len(),
    ensures
        forall|i: int|
            0 <= i < secs.update(p, sec).len() ==> writable_section(#[trigger] secs.update(p, sec)[i]),
{
    assert forall|i: int| 0 <= i < secs.update(p, sec).len() implies writable_section(
        #[trigger] secs.update(p, sec)[i],
    ) by {
        if i != p {
            assert(secs.update(p, sec)[i] == secs[i]);
        }
    }
}

proof fn lemma_all_writable_push(secs: Seq<SectionView>, sec: SectionView)
    requires
        forall|i: int| 0 <= i < secs.len() ==> writable_section(#[trigger] secs[i]),
        writable_section(sec),
    ensures
        forall|i: int| 0 <= i < secs.push(sec).len() ==> writable_section(#[trigger] secs.push(sec)[i]),
{
    assert forall|i: int| 0 <= i < secs.push(sec).len() implies writable_section(
        #[trigger] secs.push(sec)[i],
    ) by {
        if i < secs.len() {
            assert(secs.push(sec)[i] == secs[i]);
        }
    }
}

/// Writing a profile into `config.ini` settles the file: run again on the text it wrote, it
/// leaves the file alone. (The section it writes must read back as written.)
pub proof fn law_update_profile_settles(
    name: Seq<char>,
    c: ConfigView,
    extra_args: Seq<char>,
    models: Seq<Seq<char>>,
    ini: IniFileView,
)
    requires
        writable_section((name, profile_section_params(name, c, extra_args))),
    ensures
        match update_profile_result(name, c, extra_args, models, ini) {
            IniUpdateView::Write(t) => update_profile_result(
                name,
                c,
                extra_args,
                models,
                IniFileView::Text(t),
            ) == IniUpdateView::Unchanged,
            _ => true,
        },
{
    let secs = sections_on_disk(ini);
    let kvs = profile_section_params(name, c, extra_args);
    lemma_on_disk_writable(ini);
    assert(secs == match ini {
        IniFileView::Text(t) => ini_sections(t),
        _ => seq![],
    });
    if models.contains(name) && !secs.contains((name, kvs)) {
        let p = first_named(secs, name);
        lemma_first_named(secs, name);
        let secs2 = if p < secs.len() {
            secs.update(p as int, (name, kvs))
        } else {
            secs.push((name, kvs))
        };
        if p < secs.len() {
            lemma_all_writable_update(secs, p as int, (name, kvs));
            assert(secs2[p as int] == (name, kvs));
        } else {
            lemma_all_writable_push(secs, (name, kvs));
            assert(secs2[secs.len() as int] == (name, kvs));
        }
        law_ini_round_trip(secs2, false);
        assert(secs2.contains((name, kvs)));
    }
}

/// Adding a profile's section to `config.ini` settles the file: run again on the text it
/// wrote, it leaves the file alone. (The profile's name must be a non-empty name without line
/// breaks.)
pub proof fn law_add_section_settles(
    name: Seq<char>,
    c: ConfigView,
    extra_args: Seq<char>,
    models: Seq<Seq<char>>,
    ini: IniFileView,
)
    requires
        name.len() > 0,
        no_newline(name),
    ensures
        match add_section_result(name, c, extra_args, models, ini) {
            IniUpdateView::Write(t) => add_section_result(
                name,
                c,
                extra_args,
                models,
                IniFileView::Text(t),
            ) == IniUpdateView::Unchanged,
            _ => true,
        },
{
    match ini {
        IniFileView::Text(t) => {
            let secs = ini_sections(t);
            let kvs = profile_section_params(name, c, extra_args);
            law_read_sections_writable(t);
            if models.contains(name) && first_named(secs, name) >= secs.len() {
                law_added_section_found(secs, (name, kvs), false);
                let back = ini_sections(ini_text(secs.push((name, kvs)), false));
                lemma_first_named(back, name);
            }
        },
        _ => {},
    }
}

/// Creating the `[*]` section of `config.ini` settles the file: run again on the text it
/// wrote, it leaves the file alone.
pub proof fn law_auto_generate_settles(c: ConfigView, ini: IniFileView)
    ensures
        match auto_generate_result(c, ini) {
            IniUpdateView::Write(t) => auto_generate_result(c, IniFileView::Text(t))
                == IniUpdateView::Unchanged,
            _ => true,
        },
{
    reveal_strlit("*");
    let wild: SectionView = ("*"@, wildcard_params(c));
    let secs = match ini {
        IniFileView::Text(t) => ini_sections(t),
        _ => seq![],
    };
    let written = match ini {
        IniFileView::Text(_) => seq![wild] + secs,
        _ => seq![wild],
    };
    assert(written[0] == wild);
    assert(no_newline("*"@));
    law_first_section_survives(written);
    let back = ini_sections(ini_text(written, true));
    lemma_first_named(back, "*"@);
    assert(back[0].0 == "*"@);
}

/// The parameters that a sync gives the section of `model`: those of the model's profile when
/// it has one, else the current ones.
pub open spec fn sync_params(
    model: Seq<char>,
    c: ConfigView,
    extra_args: Seq<char>,
    profiles: Map<Seq<char>, ConfigView>,
) -> Map<Seq<char>, Seq<char>> {
    if profiles.dom().contains(model) {
        model_section_params(model, profiles[model], extra_args_of(profiles[model].command_text))
    } else {
        model_section_params(model, c, extra_args)
    }
}

/// Every model of `models` but `*` has a section in `secs`, and the first section of a model
/// that has a profile holds the profile's parameters.
pub open spec fn synced(
    secs: Seq<SectionView>,
    models: Seq<Seq<char>>,
    c: ConfigView,
    extra_args: Seq<char>,
    profiles: Map<Seq<char>, ConfigView>,
) -> bool {
    forall|j: int|
        0 <= j < models.len() && #[trigger] models[j] != "*"@ ==> first_named(secs, models[j])
            < secs.len() && (profiles.dom().contains(models[j]) ==> secs[first_named(
            secs,
            models[j],
        ) as int].1 == sync_params(models[j], c, extra_args, profiles))
}

proof fn lemma_first_named_other_update(
    secs: Seq<SectionView>,
    p: int,
    sec: SectionView,
    other: Seq<char>,
)
    requires
        0 <= p < secs.len(),
        secs[p].0 == sec.0,
        other != sec.0,
    ensures
        first_named(secs.update(p, sec), other) == first_named(secs, other),
{
    let s2 = secs.update(p, sec);
    lemma_first_named(secs, other);
    let f = first_named(secs, other) as int;
    assert forall|k: int| 0 <= k < f implies s2[k].0 != other by {
        assert(secs[k].0 != other);
    }
    if f < secs.len() {
        assert(s2[f].0 == other);
    }
    lemma_first_named_unique(s2, other, f);
}

proof fn lemma_first_named_push(secs: Seq<SectionView>, sec: SectionView, name: Seq<char>)
    requires
        first_named(secs, name) < secs.len(),
    ensures
        first_named(secs.push(sec), name) == first_named(secs, name),
{
    let s2 = secs.push(sec);
    lemma_first_named(secs, name);
    let f = first_named(secs, name) as int;
    assert forall|k: int| 0 <= k < f implies s2[k].0 != name by {
        assert(s2[k] == secs[k]);
    }
    assert(s2[f] == secs[f]);
    lemma_first_named_unique(s2, name, f);
}

/// A sync leaves every model synced, and writes only writable sections.
proof fn lemma_sync_scan_synced(
    secs: Seq<SectionView>,
    models: Seq<Seq<char>>,
    c: ConfigView,
    extra_args: Seq<char>,
    profiles: Map<Seq<char>, ConfigView>,
)
    requires
        forall|i: int| 0 <= i < secs.len() ==> writable_section(#[trigger] secs[i]),
        forall|j: int|
            0 <= j < models.len() && #[trigger] models[j] != "*"@ ==> writable_section(
                (models[j], sync_params(models[j], c, extra_args, profiles)),
            ),
    ensures
        synced(sync_scan(secs, models, c, extra_args, profiles).0, models, c, extra_args, profiles),
        forall|i: int|
            0 <= i < sync_scan(secs, models, c, extra_args, profiles).0.len() ==> writable_section(
                #[trigger] sync_scan(secs, models, c, extra_args, profiles).0[i],
            ),
    decreases models.len(),
{
    if models.len() > 0 {
        let ms = models.drop_last();
        assert forall|j: int| 0 <= j < ms.len() && #[trigger] ms[j] != "*"@ implies writable_section(
            (ms[j], sync_params(ms[j], c, extra_args, profiles)),
        ) by {
            assert(ms[j] == models[j]);
        }
        lemma_sync_scan_synced(secs, ms, c, extra_args, profiles);
        let st = sync_scan(secs, ms, c, extra_args, profiles);
        let m = models.last();
        let s1 = st.0;
        let s2 = sync_scan(secs, models, c, extra_args, profiles).0;
        assert(sync_scan(secs, models, c, extra_args, profiles) == sync_step(
            st,
            m,
            c,
            extra_args,
            profiles,
        ));
        if m != "*"@ {
            let kvs = sync_params(m, c, extra_args, profiles);
            assert(writable_section((models[models.len() - 1], kvs)));
            let p = first_named(s1, m);
            lemma_first_named(s1, m);
            if p < s1.len() {
                if profiles.dom().contains(m) && s1[p as int].1 != kvs {
                    assert(s2 == s1.update(p as int, (m, kvs)));
                    lemma_all_writable_update(s1, p as int, (m, kvs));
                    lemma_first_named_unique(s2, m, p as int);
                    assert forall|j: int|
                        0 <= j < models.len() && #[trigger] models[j] != "*"@ implies first_named(
                        s2,
                        models[j],
                    ) < s2.len() && (profiles.dom().contains(models[j]) ==> s2[first_named(
                        s2,
                        models[j],
                    ) as int].1 == sync_params(models[j], c, extra_args, profiles)) by {
                        if models[j] != m {
                            assert(ms[j] == models[j]);
                            lemma_first_named_other_update(s1, p as int, (m, kvs), models[j]);
                            lemma_first_named(s1, models[j]);
                        }
                    }
                } else {
                    assert(s2 == s1);
                    assert forall|j: int|
                        0 <= j < models.len() && #[trigger] models[j] != "*"@ implies first_named(
                        s2,
                        models[j],
                    ) < s2.len() && (profiles.dom().contains(models[j]) ==> s2[first_named(
                        s2,
                        models[j],
                    ) as int].1 == sync_params(models[j], c, extra_args, profiles)) by {
                        if models[j] != m {
                            assert(ms[j] == models[j]);
                        }
                    }
                }
            } else {
                assert(s2 == s1.push((m, kvs)));
                lemma_all_writable_push(s1, (m, kvs));
                lemma_first_named_unique(s2, m, s1.len() as int);
                assert forall|j: int|
                    0 <= j < models.len() && #[trigger] models[j] != "*"@ implies first_named(
                    s2,
                    models[j],
                ) < s2.len() && (profiles.dom().contains(models[j]) ==> s2[first_named(
                    s2,
                    models[j],
                ) as int].1 == sync_params(models[j], c, extra_args, profiles)) by {
                    if models[j] != m {
                        assert(ms[j] == models[j]);
                        lemma_first_named_push(s1, (m, kvs), models[j]);
                        lemma_first_named(s1, models[j]);
                        assert(s2[first_named(s1, models[j]) as int] == s1[first_named(
                            s1,
                            models[j],
                        ) as int]);
                    }
                }
            }
        } else {
            assert(s2 == s1);
            assert forall|j: int|
                0 <= j < models.len() && #[trigger] models[j] != "*"@ implies first_named(
                s2,
                models[j],
            ) < s2.len() && (profiles.dom().contains(models[j]) ==> s2[first_named(
                s2,
                models[j],
            ) as int].1 == sync_params(models[j], c, extra_args, profiles)) by {
                assert(j < ms.len());
                assert(ms[j] == models[j]);
            }
        }
    }
}

/// On synced sections a sync changes nothing.
proof fn lemma_sync_scan_of_synced(
    secs: Seq<SectionView>,
    models: Seq<Seq<char>>,
    c: ConfigView,
    extra_args: Seq<char>,
    profiles: Map<Seq<char>, ConfigView>,
)
    requires
        synced(secs, models, c, extra_args, profiles),
    ensures
        sync_scan(secs, models, c, extra_args, profiles) == (secs, false),
    decreases models.len(),
{
    if models.len() > 0 {
        let ms = models.drop_last();
        assert forall|j: int|
            0 <= j < ms.len() && #[trigger] ms[j] != "*"@ implies first_named(secs, ms[j])
            < secs.len() && (profiles.dom().contains(ms[j]) ==> secs[first_named(secs, ms[j]) as int].1
            == sync_params(ms[j], c, extra_args, profiles)) by {
            assert(ms[j] == models[j]);
        }
        lemma_sync_scan_of_synced(secs, ms, c, extra_args, profiles);
        let m = models.last();
        if m != "*"@ {
            assert(models[models.len() - 1] != "*"@);
        }
    }
}

/// A value that its `key = value` line gives back as written: one line, without whitespace at
/// either end.
pub open spec fn plain_value(v: Seq<char>) -> bool {
    no_newline(v) && trim(v) == v
}

/// The section that a sync writes for `model` reads back as written when the model's name is a
/// non-empty line and every value of the section is plain (its keys are the launcher's own).
proof fn lemma_model_section_writable(model: Seq<char>, c: ConfigView, extra_args: Seq<char>)
    requires
        model.len() > 0,
        no_newline(model),
        forall|k: Seq<char>|
            #[trigger] model_section_params(model, c, extra_args).dom().contains(k) ==> plain_value(
                model_section_params(model, c, extra_args)[k],
            ),
    ensures
        writable_section((model, model_section_params(model, c, extra_args))),
{
    reveal_strlit("model");
    reveal_strlit("mmproj");
    reveal_strlit("n-gpu-layers");
    reveal_strlit("ctx-size");
    reveal_strlit("flash-attn");
    reveal_strlit("spec-type");
    reveal_strlit("spec-draft-n-max");
    reveal_strlit("extra-args");
    let m = model_section_params(model, c, extra_args);
    assert forall|v: Seq<char>| plain_value(v) implies writable_param("model"@, v)
        && writable_param("mmproj"@, v) && writable_param("n-gpu-layers"@, v) && writable_param(
        "ctx-size"@,
        v,
    ) && writable_param("flash-attn"@, v) && writable_param("spec-type"@, v) && writable_param(
        "spec-draft-n-max"@,
        v,
    ) && writable_param("extra-args"@, v) by {}
    assert forall|k: Seq<char>| #[trigger] m.dom().contains(k) implies writable_param(k, m[k]) by {
        assert(plain_value(m[k]));
    }
    assert(m.dom().finite());
}

/// Syncing `config.ini` with the models settles the file: run again on the text it wrote, it
/// leaves the file alone. (Each model other than `*` must have a non-empty name without line
/// breaks, and each value of its section must be a plain value.)
pub proof fn law_sync_settles(
    models: Seq<Seq<char>>,
    c: ConfigView,
    extra_args: Seq<char>,
    profiles: Map<Seq<char>, ConfigView>,
    ini: IniFileView,
)
    requires
        forall|j: int|
            0 <= j < models.len() && #[trigger] models[j] != "*"@ ==> {
                &&& models[j].len() > 0
                &&& no_newline(models[j])
                &&& forall|k: Seq<char>|
                    #[trigger] sync_params(models[j], c, extra_args, profiles).dom().contains(k)
                        ==> plain_value(sync_params(models[j], c, extra_args, profiles)[k])
            },
    ensures
        match sync_result(models, c, extra_args, profiles, ini) {
            IniUpdateView::Write(t) => sync_result(
                models,
                c,
                extra_args,
                profiles,
                IniFileView::Text(t),
            ) == IniUpdateView::Unchanged,
            _ => true,
        },
{
    assert forall|j: int|
        0 <= j < models.len() && #[trigger] models[j] != "*"@ implies writable_section(
        (models[j], sync_params(models[j], c, extra_args, profiles)),
    ) by {
        let m = models[j];
        if profiles.dom().contains(m) {
            lemma_model_section_writable(m, profiles[m], extra_args_of(profiles[m].command_text));
        } else {
            lemma_model_section_writable(m, c, extra_args);
        }
    }
    match ini {
        IniFileView::Text(t) => {
            law_read_sections_writable(t);
            let r = sync_scan(ini_sections(t), models, c, extra_args, profiles);
            lemma_sync_scan_synced(ini_sections(t), models, c, extra_args, profiles);
            law_ini_round_trip(r.0, true);
            lemma_sync_scan_of_synced(r.0, models, c, extra_args, profiles);
        },
        _ => {},
    }
}

// ---------------------------------------------------------------------------
// A model's section and the `[*]` section agree
// ---------------------------------------------------------------------------

/// Text without line breaks or carriage returns.
pub open spec fn one_line(s: Seq<char>) -> bool {
    forall|i: int| 0 <= i < s.len() ==> s[i] != '\n' && s[i] != '\r'
}

/// Text without spaces.
pub open spec fn no_space(s: Seq<char>) -> bool {
    forall|i: int| 0 <= i < s.len() ==> s[i] != ' '
}

proof fn lemma_one_line_concat(a: Seq<char>, b: Seq<char>)
    requires
        one_line(a),
        one_line(b),
    ensures
        one_line(a + b),
{
    assert forall|i: int| 0 <= i < (a + b).len() implies (a + b)[i] != '\n' && (a + b)[i] != '\r' by {
        if i < a.len() {
            assert((a + b)[i] == a[i]);
        } else {
            assert((a + b)[i] == b[i - a.len()]);
        }
    }
}

proof fn lemma_trim_end_char_one_line(s: Seq<char>, c: char)
    requires
        one_line(s),
    ensures
        one_line(trim_end_char(s, c)),
    decreases s.len(),
{
    if s.len() > 0 && s.last() == c {
        assert(one_line(s.drop_last())) by {
            assert forall|i: int| 0 <= i < s.drop_last().len() implies s.drop_last()[i] != '\n'
                && s.drop_last()[i] != '\r' by {
                assert(s.drop_last()[i] == s[i]);
            }
        }
        lemma_trim_end_char_one_line(s.drop_last(), c);
    }
}

/// Two `key = value` lines whose keys hold no space are equal exactly when key and value are.
proof fn lemma_kv_line_eq(k1: Seq<char>, x: Seq<char>, k2: Seq<char>, y: Seq<char>)
    requires
        no_space(k1),
        no_space(k2),
    ensures
        (k1 + " = "@ + x == k2 + " = "@ + y) <==> (k1 == k2 && x == y),
{
    reveal_strlit(" = ");
    let a = k1 + " = "@ + x;
    let b = k2 + " = "@ + y;
    if a == b {
        assert(a[k1.len() as int] == ' ');
        assert(b[k2.len() as int] == ' ');
        if k1.len() < k2.len() {
            assert(b[k1.len() as int] == k2[k1.len() as int]);
        }
        if k2.len() < k1.len() {
            assert(a[k2.len() as int] == k1[k2.len() as int]);
        }
        assert(k1.len() == k2.len());
        assert(a.subrange(0, k1.len() as int) =~= k1);
        assert(b.subrange(0, k2.len() as int) =~= k2);
        assert(a.subrange(k1.len() as int + 3, a.len() as int) =~= x);
        assert(b.subrange(k2.len() as int + 3, b.len() as int) =~= y);
    }
}

proof fn lemma_push_contains(s: Seq<Seq<char>>, x: Seq<char>, t: Seq<char>)
    ensures
        s.push(x).contains(t) <==> (s.contains(t) || x == t),
{
    if s.push(x).contains(t) {
        let i = choose|i: int| 0 <= i < s.push(x).len() && s.push(x)[i] == t;
        if i < s.len() {
            assert(s[i] == t);
        }
    }
    if s.contains(t) {
        let i = choose|i: int| 0 <= i < s.len() && s[i] == t;
        assert(s.push(x)[i] == t);
    }
    if x == t {
        assert(s.push(x)[s.len() as int] == t);
    }
}

/// The keys that a model's section shares with the `[*]` section.
pub open spec fn shared_key(k: Seq<char>) -> bool {
    ||| k == "n-gpu-layers"@
    ||| k == "ctx-size"@
    ||| k == "flash-attn"@
    ||| k == "spec-type"@
    ||| k == "spec-draft-n-max"@
}

/// Which `key = value` lines of a shared key, or of `models-max`, the section of a model has.
proof fn lemma_section_key_lines(
    name: Seq<char>,
    c: ConfigView,
    extra_args: Seq<char>,
    k: Seq<char>,
    v: Seq<char>,
)
    requires
        one_line(name),
        one_line(c.model_dir),
        one_line(c.model_name),
        one_line(c.mmproj),
        one_line(c.flash_attn),
        one_line(extra_args),
        shared_key(k) || k == "models-max"@,
    ensures
        lines(ini_section_text(name, c, extra_args)).contains(k + " = "@ + v) <==> (shared_key(k)
            && wildcard_params(c).dom().contains(k) && wildcard_params(c)[k] == v),
{
    reveal_strlit("[");
    reveal_strlit("]");
    reveal_strlit(" = ");
    reveal_strlit("/");
    reveal_strlit(".gguf");
    reveal_strlit("model");
    reveal_strlit("mmproj");
    reveal_strlit("n-gpu-layers");
    reveal_strlit("ctx-size");
    reveal_strlit("flash-attn");
    reveal_strlit("spec-type");
    reveal_strlit("draft-mtp");
    reveal_strlit("spec-draft-n-max");
    reveal_strlit("extra-args");
    reveal_strlit("models-max");
    reveal_strlit("model = ");
    reveal_strlit("mmproj = ");
    reveal_strlit("n-gpu-layers = ");
    reveal_strlit("ctx-size = ");
    reveal_strlit("flash-attn = ");
    reveal_strlit("spec-type = draft-mtp");
    reveal_strlit("spec-draft-n-max = ");
    reveal_strlit("extra-args = ");
    reveal_strlit("auto");
    let path = path_in_dir(c.model_dir, gguf_file_name(c.model_name));
    let ngl = decimal(c.n_gpu_layers as nat);
    let ctx = decimal(c.ctx_size as nat);
    let nmax = decimal(c.spec_draft_n_max as nat);
    let h = "["@ + name + "]"@;
    let lm = "model"@ + " = "@ + path;
    let lp = "mmproj"@ + " = "@ + c.mmproj;
    let ln = "n-gpu-layers"@ + " = "@ + ngl;
    let lc = "ctx-size"@ + " = "@ + ctx;
    let lf = "flash-attn"@ + " = "@ + c.flash_attn;
    let ls = "spec-type"@ + " = "@ + "draft-mtp"@;
    let lx = "spec-draft-n-max"@ + " = "@ + nmax;
    let le = "extra-args"@ + " = "@ + extra_args;
    assert("model = "@ + path =~= lm);
    assert("mmproj = "@ + c.mmproj =~= lp);
    assert("n-gpu-layers = "@ + ngl =~= ln);
    assert("ctx-size = "@ + ctx =~= lc);
    assert("flash-attn = "@ + c.flash_attn =~= lf);
    assert("spec-type = draft-mtp"@ =~= ls);
    assert("spec-draft-n-max = "@ + nmax =~= lx);
    assert("extra-args = "@ + extra_args =~= le);
    let l0 = seq![h, lm];
    let l1 = if c.mmproj.len() > 0 {
        l0.push(lp)
    } else {
        l0
    };
    let l2 = l1.push(ln).push(lc);
    let l3 = if c.flash_attn != "auto"@ {
        l2.push(lf)
    } else {
        l2
    };
    let l4 = if c.mtp_enabled {
        l3.push(ls).push(lx)
    } else {
        l3
    };
    let l5 = if extra_args.len() > 0 {
        l4.push(le)
    } else {
        l4
    };
    let ll = l5.push(Seq::<char>::empty());
    assert(ini_section_lines(name, c, extra_args) == ll);

    // every line is a single line, so the text splits back into them
    lemma_decimal_reads_back(c.n_gpu_layers as nat);
    lemma_decimal_reads_back(c.ctx_size as nat);
    lemma_decimal_reads_back(c.spec_draft_n_max as nat);
    assert(one_line(ngl) && one_line(ctx) && one_line(nmax)) by {
        assert forall|i: int| 0 <= i < ngl.len() implies ngl[i] != '\n' && ngl[i] != '\r' by {
            assert(crate::text::is_digit(ngl[i]));
        }
        assert forall|i: int| 0 <= i < ctx.len() implies ctx[i] != '\n' && ctx[i] != '\r' by {
            assert(crate::text::is_digit(ctx[i]));
        }
        assert forall|i: int| 0 <= i < nmax.len() implies nmax[i] != '\n' && nmax[i] != '\r' by {
            assert(crate::text::is_digit(nmax[i]));
        }
    }
    assert(one_line(" = "@) && one_line("["@) && one_line("]"@) && one_line("/"@) && one_line(
        ".gguf"@,
    ));
    assert(one_line("model"@) && one_line("mmproj"@) && one_line("n-gpu-layers"@) && one_line(
        "ctx-size"@,
    ) && one_line("flash-attn"@) && one_line("spec-type"@) && one_line("draft-mtp"@) && one_line(
        "spec-draft-n-max"@,
    ) && one_line("extra-args"@));
    lemma_trim_end_char_one_line(c.model_dir, '/');
    lemma_one_line_concat(c.model_name, ".gguf"@);
    lemma_one_line_concat(crate::text::trim_end_char(c.model_dir, '/'), "/"@);
    lemma_one_line_concat(crate::text::trim_end_char(c.model_dir, '/') + "/"@, gguf_file_name(c.model_name));
    assert(one_line(path));
    lemma_one_line_concat("["@, name);
    lemma_one_line_concat("["@ + name, "]"@);
    lemma_one_line_concat("model"@, " = "@);
    lemma_one_line_concat("model"@ + " = "@, path);
    lemma_one_line_concat("mmproj"@, " = "@);
    lemma_one_line_concat("mmproj"@ + " = "@, c.mmproj);
    lemma_one_line_concat("n-gpu-layers"@, " = "@);
    lemma_one_line_concat("n-gpu-layers"@ + " = "@, ngl);
    lemma_one_line_concat("ctx-size"@, " = "@);
    lemma_one_line_concat("ctx-size"@ + " = "@, ctx);
    lemma_one_line_concat("flash-attn"@, " = "@);
    lemma_one_line_concat("flash-attn"@ + " = "@, c.flash_attn);
    lemma_one_line_concat("spec-type"@, " = "@);
    lemma_one_line_concat("spec-type"@ + " = "@, "draft-mtp"@);
    lemma_one_line_concat("spec-draft-n-max"@, " = "@);
    lemma_one_line_concat("spec-draft-n-max"@ + " = "@, nmax);
    lemma_one_line_concat("extra-args"@, " = "@);
    lemma_one_line_concat("extra-args"@ + " = "@, extra_args);
    assert forall|i: int| 0 <= i < ll.len() implies one_line(#[trigger] ll[i]) by {
        if i < l5.len() {
            assert(ll[i] == l5[i]);
            if i < l4.len() {
                assert(l5[i] == l4[i]);
                if i < l3.len() {
                    assert(l4[i] == l3[i]);
                    if i < l2.len() {
                        assert(l3[i] == l2[i]);
                        if i < l1.len() {
                            assert(l2[i] == l1[i]);
                            if i < l0.len() {
                                assert(l1[i] == l0[i]);
                            }
                        }
                    }
                }
            }
        }
    }
    assert forall|i: int| 0 <= i < ll.len() implies crate::ini_laws::no_newline(#[trigger] ll[i]) by {
        assert(one_line(ll[i]));
    }
    assert forall|i: int| 0 <= i < ll.len() && ll[i].len() > 0 implies #[trigger] ll[i].last() != '\r' by {
        assert(one_line(ll[i]));
        assert(ll[i][ll[i].len() - 1] != '\r');
    }
    lemma_lines_of_join(ll);
    let text_lines = lines(ini_section_text(name, c, extra_args));
    assert(text_lines == ll.drop_last());
    assert(ll.drop_last() == l5);

    // which line can be `k = v`
    let t = k + " = "@ + v;
    assert(no_space("model"@) && no_space("mmproj"@) && no_space("n-gpu-layers"@) && no_space(
        "ctx-size"@,
    ) && no_space("flash-attn"@) && no_space("spec-type"@) && no_space("spec-draft-n-max"@)
        && no_space("extra-args"@) && no_space("models-max"@));
    lemma_push_contains(l0.drop_last(), lm, t);
    assert(l0.drop_last() =~= seq![h]);
    lemma_push_contains(Seq::<Seq<char>>::empty(), h, t);
    assert(seq![h] =~= Seq::<Seq<char>>::empty().push(h));
    assert(l0 =~= seq![h].push(lm));
    lemma_push_contains(l0, lp, t);
    lemma_push_contains(l1, ln, t);
    lemma_push_contains(l1.push(ln), lc, t);
    lemma_push_contains(l2, lf, t);
    lemma_push_contains(l3, ls, t);
    lemma_push_contains(l3.push(ls), lx, t);
    lemma_push_contains(l4, le, t);
    assert(!Seq::<Seq<char>>::empty().contains(t));
    assert(l5.contains(t) <==> (h == t || lm == t || (c.mmproj.len() > 0 && lp == t) || ln == t
        || lc == t || (c.flash_attn != "auto"@ && lf == t) || (c.mtp_enabled && (ls == t || lx == t))
        || (extra_args.len() > 0 && le == t)));
    {
        assert(no_space(k));
        assert(k[0] != '[');
        if h == t {
            assert(h[0] == t[0]);
        }
        lemma_kv_line_eq("model"@, path, k, v);
        lemma_kv_line_eq("mmproj"@, c.mmproj, k, v);
        lemma_kv_line_eq("n-gpu-layers"@, ngl, k, v);
        lemma_kv_line_eq("ctx-size"@, ctx, k, v);
        lemma_kv_line_eq("flash-attn"@, c.flash_attn, k, v);
        lemma_kv_line_eq("spec-type"@, "draft-mtp"@, k, v);
        lemma_kv_line_eq("spec-draft-n-max"@, nmax, k, v);
        lemma_kv_line_eq("extra-args"@, extra_args, k, v);
        assert("model"@[1] != "mmproj"@[1]);
        assert("model"@[0] != "n-gpu-layers"@[0]);
        assert("model"@[0] != "ctx-size"@[0]);
        assert("model"@[0] != "flash-attn"@[0]);
        assert("model"@[0] != "spec-type"@[0]);
        assert("model"@[0] != "spec-draft-n-max"@[0]);
        assert("model"@[0] != "extra-args"@[0]);
        assert("model"@.len() != "models-max"@.len());
        assert("mmproj"@[0] != "n-gpu-layers"@[0]);
        assert("mmproj"@[0] != "ctx-size"@[0]);
        assert("mmproj"@[0] != "flash-attn"@[0]);
        assert("mmproj"@[0] != "spec-type"@[0]);
        assert("mmproj"@[0] != "spec-draft-n-max"@[0]);
        assert("mmproj"@[0] != "extra-args"@[0]);
        assert("mmproj"@[1] != "models-max"@[1]);
        assert("n-gpu-layers"@[0] != "ctx-size"@[0]);
        assert("n-gpu-layers"@[0] != "flash-attn"@[0]);
        assert("n-gpu-layers"@[0] != "spec-type"@[0]);
        assert("n-gpu-layers"@[0] != "spec-draft-n-max"@[0]);
        assert("n-gpu-layers"@[0] != "extra-args"@[0]);
        assert("n-gpu-layers"@[0] != "models-max"@[0]);
        assert("ctx-size"@[0] != "flash-attn"@[0]);
        assert("ctx-size"@[0] != "spec-type"@[0]);
        assert("ctx-size"@[0] != "spec-draft-n-max"@[0]);
        assert("ctx-size"@[0] != "extra-args"@[0]);
        assert("ctx-size"@[0] != "models-max"@[0]);
        assert("flash-attn"@[0] != "spec-type"@[0]);
        assert("flash-attn"@[0] != "spec-draft-n-max"@[0]);
        assert("flash-attn"@[0] != "extra-args"@[0]);
        assert("flash-attn"@[0] != "models-max"@[0]);
        assert("spec-type"@[5] != "spec-draft-n-max"@[5]);
        assert("spec-type"@[0] != "extra-args"@[0]);
        assert("spec-type"@[0] != "models-max"@[0]);
        assert("spec-draft-n-max"@[0] != "extra-args"@[0]);
        assert("spec-draft-n-max"@[0] != "models-max"@[0]);
        assert("extra-args"@[0] != "models-max"@[0]);
    }
}

/// The section that a profile writes for a model agrees with the `[*]` section written from the
/// same settings: for each key they share, the section has the line `key = value` exactly when
/// `[*]` gives that key that value; and the section has no `models-max` line. (The texts that go
/// into the section must be single lines.)
pub proof fn law_section_agrees_with_wildcard(
    name: Seq<char>,
    c: ConfigView,
    extra_args: Seq<char>,
    k: Seq<char>,
    v: Seq<char>,
)
    requires
        one_line(name),
        one_line(c.model_dir),
        one_line(c.model_name),
        one_line(c.mmproj),
        one_line(c.flash_attn),
        one_line(extra_args),
    ensures
        shared_key(k) ==> (lines(ini_section_text(name, c, extra_args)).contains(k + " = "@ + v)
            <==> (wildcard_params(c).dom().contains(k) && wildcard_params(c)[k] == v)),
        !lines(ini_section_text(name, c, extra_args)).contains("models-max"@ + " = "@ + v),
{
    if shared_key(k) {
        lemma_section_key_lines(name, c, extra_args, k, v);
    }
    lemma_section_key_lines(name, c, extra_args, "models-max"@, v);
    reveal_strlit("models-max");
    reveal_strlit("n-gpu-layers");
    reveal_strlit("ctx-size");
    reveal_strlit("flash-attn");
    reveal_strlit("spec-type");
    reveal_strlit("spec-draft-n-max");
    assert("models-max"@[1] != "n-gpu-layers"@[1]);
    assert("models-max"@[0] != "ctx-size"@[0]);
    assert("models-max"@[0] != "flash-attn"@[0]);
    assert("models-max"@[0] != "spec-type"@[0]);
    assert("models-max"@[0] != "spec-draft-n-max"@[0]);
    assert(!shared_key("models-max"@));
}


// ---------------------------------------------------------------------------
// What the sections built from settings hold, key by key
// ---------------------------------------------------------------------------

/// The keys of the sections are different texts.
proof fn lemma_section_keys_differ()
    ensures
        "model"@ != "mmproj"@ && "model"@ != "n-gpu-layers"@ && "model"@ != "ctx-size"@
            && "model"@ != "flash-attn"@ && "model"@ != "spec-type"@ && "model"@
            != "spec-draft-n-max"@ && "model"@ != "extra-args"@ && "model"@ != "models-max"@,
        "mmproj"@ != "n-gpu-layers"@ && "mmproj"@ != "ctx-size"@ && "mmproj"@ != "flash-attn"@
            && "mmproj"@ != "spec-type"@ && "mmproj"@ != "spec-draft-n-max"@ && "mmproj"@
            != "extra-args"@ && "mmproj"@ != "models-max"@,
        "n-gpu-layers"@ != "ctx-size"@ && "n-gpu-layers"@ != "flash-attn"@ && "n-gpu-layers"@
            != "spec-type"@ && "n-gpu-layers"@ != "spec-draft-n-max"@ && "n-gpu-layers"@
            != "extra-args"@ && "n-gpu-layers"@ != "models-max"@,
        "ctx-size"@ != "flash-attn"@ && "ctx-size"@ != "spec-type"@ && "ctx-size"@
            != "spec-draft-n-max"@ && "ctx-size"@ != "extra-args"@ && "ctx-size"@ != "models-max"@,
        "flash-attn"@ != "spec-type"@ && "flash-attn"@ != "spec-draft-n-max"@ && "flash-attn"@
            != "extra-args"@ && "flash-attn"@ != "models-max"@,
        "spec-type"@ != "spec-draft-n-max"@ && "spec-type"@ != "extra-args"@ && "spec-type"@
            != "models-max"@,
        "spec-draft-n-max"@ != "extra-args"@ && "spec-draft-n-max"@ != "models-max"@,
        "extra-args"@ != "models-max"@,
{
    reveal_strlit("model");
    reveal_strlit("mmproj");
    reveal_strlit("n-gpu-layers");
    reveal_strlit("ctx-size");
    reveal_strlit("flash-attn");
    reveal_strlit("spec-type");
    reveal_strlit("spec-draft-n-max");
    reveal_strlit("extra-args");
    reveal_strlit("models-max");
    reveal_strlit("draft-mtp");
    reveal_strlit("auto");
    assert("model"@[1] != "mmproj"@[1]);
    assert("model"@[0] != "n-gpu-layers"@[0]);
    assert("model"@[0] != "ctx-size"@[0]);
    assert("model"@[0] != "flash-attn"@[0]);
    assert("model"@[0] != "spec-type"@[0]);
    assert("model"@[0] != "spec-draft-n-max"@[0]);
    assert("model"@[0] != "extra-args"@[0]);
    assert("model"@.len() != "models-max"@.len());
    assert("mmproj"@[0] != "n-gpu-layers"@[0]);
    assert("mmproj"@[0] != "ctx-size"@[0]);
    assert("mmproj"@[0] != "flash-attn"@[0]);
    assert("mmproj"@[0] != "spec-type"@[0]);
    assert("mmproj"@[0] != "spec-draft-n-max"@[0]);
    assert("mmproj"@[0] != "extra-args"@[0]);
    assert("mmproj"@[1] != "models-max"@[1]);
    assert("n-gpu-layers"@[0] != "ctx-size"@[0]);
    assert("n-gpu-layers"@[0] != "flash-attn"@[0]);
    assert("n-gpu-layers"@[0] != "spec-type"@[0]);
    assert("n-gpu-layers"@[0] != "spec-draft-n-max"@[0]);
    assert("n-gpu-layers"@[0] != "extra-args"@[0]);
    assert("n-gpu-layers"@[0] != "models-max"@[0]);
    assert("ctx-size"@[0] != "flash-attn"@[0]);
    assert("ctx-size"@[0] != "spec-type"@[0]);
    assert("ctx-size"@[0] != "spec-draft-n-max"@[0]);
    assert("ctx-size"@[0] != "extra-args"@[0]);
    assert("ctx-size"@[0] != "models-max"@[0]);
    assert("flash-attn"@[0] != "spec-type"@[0]);
    assert("flash-attn"@[0] != "spec-draft-n-max"@[0]);
    assert("flash-attn"@[0] != "extra-args"@[0]);
    assert("flash-attn"@[0] != "models-max"@[0]);
    assert("spec-type"@[5] != "spec-draft-n-max"@[5]);
    assert("spec-type"@[0] != "extra-args"@[0]);
    assert("spec-type"@[0] != "models-max"@[0]);
    assert("spec-draft-n-max"@[0] != "extra-args"@[0]);
    assert("spec-draft-n-max"@[0] != "models-max"@[0]);
    assert("extra-args"@[0] != "models-max"@[0]);
}

/// The section that a sync writes for model `model` from settings `c`: the model file in the
/// model directory; the vision projector when one is set; the GPU layer count and the context
/// size; flash attention when it is not `auto`; with MTP on, the draft type and the settings'
/// draft count; the extra arguments when there are any; and nothing else.
pub proof fn law_model_section_values(model: Seq<char>, c: ConfigView, extra_args: Seq<char>)
    ensures
        ({
            let m = model_section_params(model, c, extra_args);
            &&& m.dom().contains("model"@) && m["model"@] == path_in_dir(
                c.model_dir,
                model + ".gguf"@,
            )
            &&& m.dom().contains("mmproj"@) == (c.mmproj.len() > 0)
            &&& c.mmproj.len() > 0 ==> m["mmproj"@] == c.mmproj
            &&& m.dom().contains("n-gpu-layers"@) && m["n-gpu-layers"@] == decimal(
                c.n_gpu_layers as nat,
            )
            &&& m.dom().contains("ctx-size"@) && m["ctx-size"@] == decimal(c.ctx_size as nat)
            &&& m.dom().contains("flash-attn"@) == (c.flash_attn != "auto"@)
            &&& c.flash_attn != "auto"@ ==> m["flash-attn"@] == c.flash_attn
            &&& m.dom().contains("spec-type"@) == c.mtp_enabled
            &&& m.dom().contains("spec-draft-n-max"@) == c.mtp_enabled
            &&& c.mtp_enabled ==> m["spec-type"@] == "draft-mtp"@ && m["spec-draft-n-max"@]
                == decimal(c.spec_draft_n_max as nat)
            &&& m.dom().contains("extra-args"@) == (extra_args.len() > 0)
            &&& extra_args.len() > 0 ==> m["extra-args"@] == extra_args
            &&& forall|k: Seq<char>|
                #[trigger] m.dom().contains(k) ==> k == "model"@ || k == "mmproj"@ || k
                    == "n-gpu-layers"@ || k == "ctx-size"@ || k == "flash-attn"@ || k
                    == "spec-type"@ || k == "spec-draft-n-max"@ || k == "extra-args"@
        }),
{
    lemma_section_keys_differ();
}

/// The `[*]` section written from settings `c`: the GPU layer count, the context size and the
/// most models; flash attention when it is not `auto`; with MTP on, the draft type and the
/// settings' draft count; and nothing else.
pub proof fn law_wildcard_values(c: ConfigView)
    ensures
        ({
            let m = wildcard_params(c);
            &&& m.dom().contains("n-gpu-layers"@) && m["n-gpu-layers"@] == decimal(
                c.n_gpu_layers as nat,
            )
            &&& m.dom().contains("ctx-size"@) && m["ctx-size"@] == decimal(c.ctx_size as nat)
            &&& m.dom().contains("models-max"@) && m["models-max"@] == decimal(c.models_max as nat)
            &&& m.dom().contains("flash-attn"@) == (c.flash_attn != "auto"@)
            &&& c.flash_attn != "auto"@ ==> m["flash-attn"@] == c.flash_attn
            &&& m.dom().contains("spec-type"@) == c.mtp_enabled
            &&& m.dom().contains("spec-draft-n-max"@) == c.mtp_enabled
            &&& c.mtp_enabled ==> m["spec-type"@] == "draft-mtp"@ && m["spec-draft-n-max"@]
                == decimal(c.spec_draft_n_max as nat)
            &&& forall|k: Seq<char>|
                #[trigger] m.dom().contains(k) ==> k == "n-gpu-layers"@ || k == "ctx-size"@ || k
                    == "models-max"@ || k == "flash-attn"@ || k == "spec-type"@ || k
                    == "spec-draft-n-max"@
        }),
{
    lemma_section_keys_differ();
}

} // verus!
