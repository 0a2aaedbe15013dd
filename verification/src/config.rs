use vstd::prelude::*;

use crate::ini::{
    find_section, first_named, ini_sections, ini_text, kv_lines, lemma_first_named,
    lemma_sections_view_push, params_of_text, parse_sections, sections_to_ini, sections_view,
    Params, Section, SectionView,
};
use crate::profiles::Profiles;
use crate::text::{
    chars_ends_with, chars_eq, chars_starts_with, chars_trim_end_char, decimal, decimal_string,
    ends_with, extend_str, from_chars, join, join_chars, slice_chars, span_text,
    spans_within, starts_with, str_eq, to_chars, trim_end_char, views, word_spans, words,
    contains_str, lines, string_views,
};

verus! {

/// The settings of one launcher profile.
pub struct Config {
    pub executable: String,
    pub model_dir: String,
    pub model_name: String,
    pub host: String,
    pub port: u16,
    pub n_gpu_layers: u32,
    pub ctx_size: u32,
    pub mtp_enabled: bool,
    pub spec_draft_n_max: u32,
    pub flash_attn: String,
    pub command_text: String,
    pub mmproj: String,
    pub route_mode: bool,
    pub models_max: u32,
}

/// The settings of a profile, with its strings as character sequences.
pub struct ConfigView {
    pub executable: Seq<char>,
    pub model_dir: Seq<char>,
    pub model_name: Seq<char>,
    pub host: Seq<char>,
    pub port: u16,
    pub n_gpu_layers: u32,
    pub ctx_size: u32,
    pub mtp_enabled: bool,
    pub spec_draft_n_max: u32,
    pub flash_attn: Seq<char>,
    pub command_text: Seq<char>,
    pub mmproj: Seq<char>,
    pub route_mode: bool,
    pub models_max: u32,
}

impl View for Config {
    type V = ConfigView;

    open spec fn view(&self) -> ConfigView {
        ConfigView {
            executable: self.executable@,
            model_dir: self.model_dir@,
            model_name: self.model_name@,
            host: self.host@,
            port: self.port,
            n_gpu_layers: self.n_gpu_layers,
            ctx_size: self.ctx_size,
            mtp_enabled: self.mtp_enabled,
            spec_draft_n_max: self.spec_draft_n_max,
            flash_attn: self.flash_attn@,
            command_text: self.command_text@,
            mmproj: self.mmproj@,
            route_mode: self.route_mode,
            models_max: self.models_max,
        }
    }
}

/// The settings of a profile that nobody has edited yet.
pub open spec fn default_config() -> ConfigView {
    ConfigView {
        executable: seq![],
        model_dir: seq![],
        model_name: seq![],
        host: "127.0.0.1"@,
        port: 11433,
        n_gpu_layers: 30,
        ctx_size: 4096,
        mtp_enabled: false,
        spec_draft_n_max: 2,
        flash_attn: "auto"@,
        command_text: seq![],
        mmproj: seq![],
        route_mode: false,
        models_max: 1,
    }
}

impl Default for Config {
    fn default() -> (r: Self)
        ensures
            r@ == default_config(),
    {
        Config {
            executable: String::new(),
            model_dir: String::new(),
            model_name: String::new(),
            host: String::from_str("127.0.0.1"),
            port: 11433,
            n_gpu_layers: 30,
            ctx_size: 4096,
            mtp_enabled: false,
            spec_draft_n_max: 2,
            flash_attn: String::from_str("auto"),
            command_text: String::new(),
            mmproj: String::new(),
            route_mode: false,
            models_max: 1,
        }
    }
}

impl Config {
    /// A field-by-field copy.
    pub fn duplicate(&self) -> (r: Config)
        ensures
            r@ == self@,
    {
        Config {
            executable: self.executable.clone(),
            model_dir: self.model_dir.clone(),
            model_name: self.model_name.clone(),
            host: self.host.clone(),
            port: self.port,
            n_gpu_layers: self.n_gpu_layers,
            ctx_size: self.ctx_size,
            mtp_enabled: self.mtp_enabled,
            spec_draft_n_max: self.spec_draft_n_max,
            flash_attn: self.flash_attn.clone(),
            command_text: self.command_text.clone(),
            mmproj: self.mmproj.clone(),
            route_mode: self.route_mode,
            models_max: self.models_max,
        }
    }
}

// ---------------------------------------------------------------------------
// Extra arguments of a command line
// ---------------------------------------------------------------------------

/// A flag whose value the launcher manages itself (the flag and its value are not "extra").
pub open spec fn is_known_flag(w: Seq<char>) -> bool {
    ||| w == "-m"@
    ||| w == "--host"@
    ||| w == "--port"@
    ||| w == "-c"@
    ||| w == "--n-gpu-layers"@
    ||| w == "--spec-type"@
    ||| w == "--spec-draft-n-max"@
    ||| w == "--flash-attn"@
    ||| w == "--mmproj"@
    ||| w == "--models-preset"@
    ||| w == "--models-max"@
    ||| starts_with(w, "--flash-attn="@)
}

/// A value that `--flash-attn` takes as its own.
pub open spec fn is_flash_attn_value(w: Seq<char>) -> bool {
    w == "on"@ || w == "off"@ || w == "auto"@
}

/// The extra words of `t[i..]`: every word but the first word of the whole command, the known
/// flags, and the value that follows a known flag (for `--flash-attn` only `on`, `off` or `auto`).
pub open spec fn extra_words_from(t: Seq<Seq<char>>, i: nat) -> Seq<Seq<char>>
    decreases t.len() - i,
{
    if i >= t.len() {
        seq![]
    } else if is_known_flag(t[i as int]) {
        let takes_value = if t[i as int] == "--flash-attn"@ {
            i + 1 < t.len() && is_flash_attn_value(t[i + 1int])
        } else {
            i + 1 < t.len()
        };
        if takes_value {
            extra_words_from(t, i + 2)
        } else {
            extra_words_from(t, i + 1)
        }
    } else if i > 0 {
        seq![t[i as int]] + extra_words_from(t, i + 1)
    } else {
        extra_words_from(t, i + 1)
    }
}

/// The extra arguments of a command line, joined by single spaces.
pub open spec fn extra_args_of(command_text: Seq<char>) -> Seq<char> {
    join(extra_words_from(words(command_text), 0), " "@)
}

/// Whether `v[a..b]` is `lit`.
fn span_is(v: &Vec<char>, a: usize, b: usize, lit: &str) -> (r: bool)
    requires
        a <= b <= v@.len(),
    ensures
        r == (v@.subrange(a as int, b as int) == lit@),
{
    let w = slice_chars(v, a, b);
    let l = to_chars(lit);
    chars_eq(&w, &l)
}

fn span_is_known_flag(v: &Vec<char>, a: usize, b: usize) -> (r: bool)
    requires
        a <= b <= v@.len(),
    ensures
        r == is_known_flag(v@.subrange(a as int, b as int)),
{
    let w = slice_chars(v, a, b);
    span_is(v, a, b, "-m") || span_is(v, a, b, "--host") || span_is(v, a, b, "--port") || span_is(
        v,
        a,
        b,
        "-c",
    ) || span_is(v, a, b, "--n-gpu-layers") || span_is(v, a, b, "--spec-type") || span_is(
        v,
        a,
        b,
        "--spec-draft-n-max",
    ) || span_is(v, a, b, "--flash-attn") || span_is(v, a, b, "--mmproj") || span_is(
        v,
        a,
        b,
        "--models-preset",
    ) || span_is(v, a, b, "--models-max") || chars_starts_with(&w, "--flash-attn=")
}

/// The words of a command line that are not the program, a known flag or a known flag's value,
/// joined by single spaces.
pub fn extract_extra_args(command_text: &str) -> (r: String)
    ensures
        r@ == extra_args_of(command_text@),
{
    let v = to_chars(command_text);
    let spans = word_spans(&v);
    let ghost t = span_text(v@, spans@);
    let n = spans.len();
    let mut extra: Vec<Vec<char>> = Vec::new();
    let mut i: usize = 0;
    while i < n
        invariant
            n == spans@.len(),
            t == span_text(v@, spans@),
            t.len() == n,
            spans_within(v@, spans@),
            i <= n + 1,
            views(extra@) + extra_words_from(t, i as nat) == extra_words_from(t, 0),
        decreases n + 1 - i,
    {
        let (a, b) = spans[i];
        assert(t[i as int] == v@.subrange(a as int, b as int));
        let ghost old_extra = extra@;
        if span_is_known_flag(&v, a, b) {
            if span_is(&v, a, b, "--flash-attn") {
                if i + 1 < n {
                    let (a2, b2) = spans[i + 1];
                    assert(t[i + 1] == v@.subrange(a2 as int, b2 as int));
                    if span_is(&v, a2, b2, "on") || span_is(&v, a2, b2, "off") || span_is(
                        &v,
                        a2,
                        b2,
                        "auto",
                    ) {
                        i = i + 1;
                    }
                }
            } else {
                if i + 1 < n {
                    i = i + 1;
                }
            }
        } else {
            if i > 0 {
                extra.push(slice_chars(&v, a, b));
                assert(views(extra@) =~= views(old_extra).push(t[i as int]));
                assert(views(extra@) + extra_words_from(t, (i + 1) as nat) =~= views(old_extra) + (
                seq![t[i as int]] + extra_words_from(t, (i + 1) as nat)));
            }
        }
        i = i + 1;
    }
    let joined = join_chars(&extra, " ");
    assert(views(extra@) + Seq::<Seq<char>>::empty() =~= views(extra@));
    assert(t == words(v@));
    from_chars(&joined)
}


// ---------------------------------------------------------------------------
// Model files and `config.ini` sections built from a profile
// ---------------------------------------------------------------------------

/// A model name with the `.gguf` extension (added unless the name already ends with it).
pub open spec fn gguf_file_name(name: Seq<char>) -> Seq<char> {
    if ends_with(name, ".gguf"@) {
        name
    } else {
        name + ".gguf"@
    }
}

/// `dir/file`, with the trailing slashes of `dir` removed first.
pub open spec fn path_in_dir(dir: Seq<char>, file: Seq<char>) -> Seq<char> {
    trim_end_char(dir, '/') + "/"@ + file
}

pub fn gguf_file_name_of(name: &str) -> (r: String)
    ensures
        r@ == gguf_file_name(name@),
{
    let mut v = to_chars(name);
    if !chars_ends_with(&v, ".gguf") {
        extend_str(&mut v, ".gguf");
    }
    from_chars(&v)
}

pub fn path_in_dir_of(dir: &str, file: &str) -> (r: String)
    ensures
        r@ == path_in_dir(dir@, file@),
{
    let d = to_chars(dir);
    let mut v = chars_trim_end_char(&d, '/');
    extend_str(&mut v, "/");
    extend_str(&mut v, file);
    from_chars(&v)
}

fn lit(s: &str) -> (r: String)
    ensures
        r@ == s@,
{
    String::from_str(s)
}

fn dec(n: u32) -> (r: String)
    ensures
        r@ == decimal(n as nat),
{
    decimal_string(n as u64)
}

/// The parameters of the `[*]` section that applies to every model.
pub open spec fn wildcard_params(c: ConfigView) -> Map<Seq<char>, Seq<char>> {
    let m = Map::<Seq<char>, Seq<char>>::empty().insert("n-gpu-layers"@, decimal(
        c.n_gpu_layers as nat,
    )).insert("ctx-size"@, decimal(c.ctx_size as nat)).insert(
        "models-max"@,
        decimal(c.models_max as nat),
    );
    let m = if c.flash_attn != "auto"@ {
        m.insert("flash-attn"@, c.flash_attn)
    } else {
        m
    };
    if c.mtp_enabled {
        m.insert("spec-type"@, "draft-mtp"@).insert(
            "spec-draft-n-max"@,
            decimal(c.spec_draft_n_max as nat),
        )
    } else {
        m
    }
}

pub fn build_wildcard_params(config: &Config) -> (r: Params)
    ensures
        r@ == wildcard_params(config@),
{
    let mut kvs = Params::new();
    kvs.insert(lit("n-gpu-layers"), dec(config.n_gpu_layers));
    kvs.insert(lit("ctx-size"), dec(config.ctx_size));
    kvs.insert(lit("models-max"), dec(config.models_max));
    if !str_eq(config.flash_attn.as_str(), "auto") {
        kvs.insert(lit("flash-attn"), config.flash_attn.clone());
    }
    if config.mtp_enabled {
        kvs.insert(lit("spec-type"), lit("draft-mtp"));
        kvs.insert(lit("spec-draft-n-max"), dec(config.spec_draft_n_max));
    }
    kvs
}

/// The lines of the `config.ini` section that a profile writes for model `name`.
pub open spec fn ini_section_lines(name: Seq<char>, c: ConfigView, extra_args: Seq<char>) -> Seq<
    Seq<char>,
> {
    let l = seq!["["@ + name + "]"@, "model = "@ + path_in_dir(c.model_dir, gguf_file_name(c.model_name))];
    let l = if c.mmproj.len() > 0 {
        l.push("mmproj = "@ + c.mmproj)
    } else {
        l
    };
    let l = l.push("n-gpu-layers = "@ + decimal(c.n_gpu_layers as nat)).push(
        "ctx-size = "@ + decimal(c.ctx_size as nat),
    );
    let l = if c.flash_attn != "auto"@ {
        l.push("flash-attn = "@ + c.flash_attn)
    } else {
        l
    };
    let l = if c.mtp_enabled {
        l.push("spec-type = draft-mtp"@).push(
            "spec-draft-n-max = "@ + decimal(c.spec_draft_n_max as nat),
        )
    } else {
        l
    };
    let l = if extra_args.len() > 0 {
        l.push("extra-args = "@ + extra_args)
    } else {
        l
    };
    l.push(Seq::<char>::empty())
}

pub open spec fn ini_section_text(name: Seq<char>, c: ConfigView, extra_args: Seq<char>) -> Seq<char> {
    join(ini_section_lines(name, c, extra_args), "\n"@)
}

fn push_line(lines: &mut Vec<Vec<char>>, parts: &Vec<&str>)
    ensures
        views(final(lines)@) == views(old(lines)@).push(concat_all(parts@)),
{
    let mut l: Vec<char> = Vec::new();
    let n = parts.len();
    for i in 0..n
        invariant
            n == parts@.len(),
            l@ == concat_all(parts@.take(i as int)),
    {
        extend_str(&mut l, parts[i]);
        assert(parts@.take(i + 1).drop_last() =~= parts@.take(i as int));
    }
    assert(parts@.take(n as int) =~= parts@);
    assert(views(lines@.push(l)) =~= views(lines@).push(l@));
    lines.push(l);
}

/// The characters of string slices, one after the other.
pub open spec fn concat_all(parts: Seq<&str>) -> Seq<char>
    decreases parts.len(),
{
    if parts.len() == 0 {
        seq![]
    } else {
        concat_all(parts.drop_last()) + parts.last()@
    }
}

/// The text of the `config.ini` section that a profile writes for model `name`.
pub fn build_ini_section(name: &str, config: &Config, extra_args: &str) -> (r: String)
    ensures
        r@ == ini_section_text(name@, config@, extra_args@),
{
    let model_path = path_in_dir_of(config.model_dir.as_str(), gguf_file_name_of(config.model_name.as_str()).as_str());
    let ngl = dec(config.n_gpu_layers);
    let ctx = dec(config.ctx_size);
    let nmax = dec(config.spec_draft_n_max);
    let mut lines: Vec<Vec<char>> = Vec::new();
    push_line(&mut lines, &vec!["[", name, "]"]);
    push_line(&mut lines, &vec!["model = ", model_path.as_str()]);
    if !config.mmproj.as_str().is_empty() {
        push_line(&mut lines, &vec!["mmproj = ", config.mmproj.as_str()]);
    }
    push_line(&mut lines, &vec!["n-gpu-layers = ", ngl.as_str()]);
    push_line(&mut lines, &vec!["ctx-size = ", ctx.as_str()]);
    if !str_eq(config.flash_attn.as_str(), "auto") {
        push_line(&mut lines, &vec!["flash-attn = ", config.flash_attn.as_str()]);
    }
    if config.mtp_enabled {
        push_line(&mut lines, &vec!["spec-type = draft-mtp"]);
        push_line(&mut lines, &vec!["spec-draft-n-max = ", nmax.as_str()]);
    }
    if !extra_args.is_empty() {
        push_line(&mut lines, &vec!["extra-args = ", extra_args]);
    }
    push_line(&mut lines, &vec![]);
    proof {
        reveal_with_fuel(concat_all, 4);
    }
    assert(views(lines@) =~= ini_section_lines(name@, config@, extra_args@));
    let text = join_chars(&lines, "\n");
    from_chars(&text)
}


// ---------------------------------------------------------------------------
// Keeping `config.ini` in step with the profiles
// ---------------------------------------------------------------------------

/// What is on disk where `config.ini` belongs.
pub enum IniFile {
    Missing,
    Unreadable,
    Text(String),
}

pub enum IniFileView {
    Missing,
    Unreadable,
    Text(Seq<char>),
}

impl View for IniFile {
    type V = IniFileView;

    open spec fn view(&self) -> IniFileView {
        match self {
            IniFile::Missing => IniFileView::Missing,
            IniFile::Unreadable => IniFileView::Unreadable,
            IniFile::Text(t) => IniFileView::Text(t@),
        }
    }
}

/// What to do with `config.ini`: nothing, because the request does not apply (the operation
/// reports failure); nothing, because the file is as it should be (the operation reports
/// success); or write the given text (the operation reports whether the write succeeded).
pub enum IniUpdate {
    Refused,
    Unchanged,
    Write(String),
}

pub enum IniUpdateView {
    Refused,
    Unchanged,
    Write(Seq<char>),
}

impl View for IniUpdate {
    type V = IniUpdateView;

    open spec fn view(&self) -> IniUpdateView {
        match self {
            IniUpdate::Refused => IniUpdateView::Refused,
            IniUpdate::Unchanged => IniUpdateView::Unchanged,
            IniUpdate::Write(t) => IniUpdateView::Write(t@),
        }
    }
}

/// A `config.ini` must have a `[*]` section: when the file is missing it is created with that
/// section alone; when it has none, the section is put first; either way with the version
/// header. An unreadable file is left alone.
pub open spec fn auto_generate_result(c: ConfigView, ini: IniFileView) -> IniUpdateView {
    let wild: SectionView = ("*"@, wildcard_params(c));
    match ini {
        IniFileView::Missing => IniUpdateView::Write(ini_text(seq![wild], true)),
        IniFileView::Unreadable => IniUpdateView::Unchanged,
        IniFileView::Text(t) => {
            let secs = ini_sections(t);
            if first_named(secs, "*"@) < secs.len() {
                IniUpdateView::Unchanged
            } else {
                IniUpdateView::Write(ini_text(seq![wild] + secs, true))
            }
        },
    }
}

pub fn auto_generate_config_ini(config: &Config, ini: &IniFile) -> (r: IniUpdate)
    ensures
        r@ == auto_generate_result(config@, ini@),
{
    let wild = Section { name: lit("*"), params: build_wildcard_params(config) };
    match ini {
        IniFile::Missing => {
            let mut all: Vec<Section> = Vec::new();
            proof {
                lemma_sections_view_push(all@, wild);
            }
            all.push(wild);
            assert(sections_view(all@) =~= seq![("*"@, wildcard_params(config@))]);
            IniUpdate::Write(sections_to_ini(&all, true))
        },
        IniFile::Unreadable => IniUpdate::Unchanged,
        IniFile::Text(t) => {
            let mut sections = parse_sections(t.as_str());
            if find_section(&sections, "*") < sections.len() {
                IniUpdate::Unchanged
            } else {
                let ghost before = sections_view(sections@);
                sections.insert(0, wild);
                assert(sections_view(sections@) =~= seq![("*"@, wildcard_params(config@))] + before);
                IniUpdate::Write(sections_to_ini(&sections, true))
            }
        },
    }
}

/// The parameters that the section a profile writes for `name` holds, as `config.ini` reads
/// them back.
pub open spec fn profile_section_params(name: Seq<char>, c: ConfigView, extra_args: Seq<char>) -> Map<
    Seq<char>,
    Seq<char>,
> {
    kv_lines(lines(ini_section_text(name, c, extra_args)))
}

/// Writing profile `name` to `config.ini` applies only to a model of the model directory. The
/// section of that name (the first, if several) gets the profile's parameters, or a new section
/// is added at the end; the file is rewritten without the version header. A file that already
/// has such a section with exactly those parameters is left alone. A missing or unreadable file
/// counts as empty.
pub open spec fn update_profile_result(
    name: Seq<char>,
    c: ConfigView,
    extra_args: Seq<char>,
    models: Seq<Seq<char>>,
    ini: IniFileView,
) -> IniUpdateView {
    if !models.contains(name) {
        IniUpdateView::Refused
    } else {
        let secs = match ini {
            IniFileView::Text(t) => ini_sections(t),
            _ => seq![],
        };
        let kvs = profile_section_params(name, c, extra_args);
        if secs.contains((name, kvs)) {
            IniUpdateView::Unchanged
        } else {
            let p = first_named(secs, name);
            let secs2 = if p < secs.len() {
                secs.update(p as int, (name, kvs))
            } else {
                secs.push((name, kvs))
            };
            IniUpdateView::Write(ini_text(secs2, false))
        }
    }
}

/// `models` are the models of `config.model_dir` (see `list_models`); `ini` is what is on disk.
pub fn update_config_ini_profile(
    profile_name: &str,
    config: &Config,
    extra_args: &str,
    models: &Vec<String>,
    ini: &IniFile,
) -> (r: IniUpdate)
    ensures
        r@ == update_profile_result(
            profile_name@,
            config@,
            extra_args@,
            string_views(models@),
            ini@,
        ),
{
    if !contains_str(models, profile_name) {
        return IniUpdate::Refused;
    }
    let new_section = build_ini_section(profile_name, config, extra_args);
    let mut all_sections: Vec<Section> = match ini {
        IniFile::Text(t) => parse_sections(t.as_str()),
        _ => Vec::new(),
    };
    let ghost secs = sections_view(all_sections@);
    assert(secs =~= match ini@ {
        IniFileView::Text(t) => ini_sections(t),
        _ => seq![],
    });
    let new_kvs = params_of_text(new_section.as_str());
    let ghost kvs = new_kvs@;
    let n = all_sections.len();
    for i in 0..n
        invariant
            n == all_sections@.len(),
            secs == sections_view(all_sections@),
            kvs == new_kvs@,
            kvs == profile_section_params(profile_name@, config@, extra_args@),
            string_views(models@).contains(profile_name@),
            secs == match ini@ {
                IniFileView::Text(t) => ini_sections(t),
                _ => seq![],
            },
            forall|k: int| 0 <= k < i ==> secs[k] != (profile_name@, kvs),
    {
        let s = &all_sections[i];
        assert(secs[i as int] == (s.name@, s.params@));
        if str_eq(s.name.as_str(), profile_name) && s.params.same_as(&new_kvs) {
            assert(secs[i as int] == (profile_name@, kvs));
            assert(secs.contains((profile_name@, kvs)));
            return IniUpdate::Unchanged;
        }
    }
    let p = find_section(&all_sections, profile_name);
    proof {
        lemma_first_named(secs, profile_name@);
    }
    let sec = Section { name: String::from_str(profile_name), params: new_kvs };
    if p < all_sections.len() {
        all_sections.set(p, sec);
        assert(sections_view(all_sections@) =~= secs.update(p as int, (profile_name@, kvs)));
    } else {
        proof {
            lemma_sections_view_push(all_sections@, sec);
        }
        all_sections.push(sec);
    }
    IniUpdate::Write(sections_to_ini(&all_sections, false))
}

/// Adding the section of profile `name` applies only to a model of the model directory and to
/// an existing, readable `config.ini`; a file that already has a section of that name is left
/// alone; otherwise the section is added at the end and the file is rewritten without the
/// version header.
pub open spec fn add_section_result(
    name: Seq<char>,
    c: ConfigView,
    extra_args: Seq<char>,
    models: Seq<Seq<char>>,
    ini: IniFileView,
) -> IniUpdateView {
    if !models.contains(name) {
        IniUpdateView::Refused
    } else {
        match ini {
            IniFileView::Text(t) => {
                let secs = ini_sections(t);
                if first_named(secs, name) < secs.len() {
                    IniUpdateView::Unchanged
                } else {
                    IniUpdateView::Write(
                        ini_text(secs.push((name, profile_section_params(name, c, extra_args))), false),
                    )
                }
            },
            _ => IniUpdateView::Refused,
        }
    }
}

pub fn add_config_ini_section_if_missing(
    profile_name: &str,
    config: &Config,
    extra_args: &str,
    models: &Vec<String>,
    ini: &IniFile,
) -> (r: IniUpdate)
    ensures
        r@ == add_section_result(profile_name@, config@, extra_args@, string_views(models@), ini@),
{
    if !contains_str(models, profile_name) {
        return IniUpdate::Refused;
    }
    match ini {
        IniFile::Text(t) => {
            let mut sections = parse_sections(t.as_str());
            if find_section(&sections, profile_name) < sections.len() {
                return IniUpdate::Unchanged;
            }
            let new_section = build_ini_section(profile_name, config, extra_args);
            let new_kvs = params_of_text(new_section.as_str());
            let sec = Section { name: String::from_str(profile_name), params: new_kvs };
            proof {
                lemma_sections_view_push(sections@, sec);
            }
            sections.push(sec);
            IniUpdate::Write(sections_to_ini(&sections, false))
        },
        _ => IniUpdate::Refused,
    }
}

/// The parameters of the section of model `model` (whose file is `model.gguf`).
pub open spec fn model_section_params(model: Seq<char>, c: ConfigView, extra_args: Seq<char>) -> Map<
    Seq<char>,
    Seq<char>,
> {
    let m = Map::<Seq<char>, Seq<char>>::empty().insert(
        "model"@,
        path_in_dir(c.model_dir, model + ".gguf"@),
    );
    let m = if c.mmproj.len() > 0 {
        m.insert("mmproj"@, c.mmproj)
    } else {
        m
    };
    let m = m.insert("n-gpu-layers"@, decimal(c.n_gpu_layers as nat)).insert(
        "ctx-size"@,
        decimal(c.ctx_size as nat),
    );
    let m = if c.flash_attn != "auto"@ {
        m.insert("flash-attn"@, c.flash_attn)
    } else {
        m
    };
    let m = if c.mtp_enabled {
        m.insert("spec-type"@, "draft-mtp"@).insert(
            "spec-draft-n-max"@,
            decimal(c.spec_draft_n_max as nat),
        )
    } else {
        m
    };
    if extra_args.len() > 0 {
        m.insert("extra-args"@, extra_args)
    } else {
        m
    }
}

pub fn build_model_params(model: &str, config: &Config, extra_args: &str) -> (r: Params)
    ensures
        r@ == model_section_params(model@, config@, extra_args@),
{
    let mut kvs = Params::new();
    let mut file = to_chars(model);
    extend_str(&mut file, ".gguf");
    kvs.insert(lit("model"), path_in_dir_of(config.model_dir.as_str(), from_chars(&file).as_str()));
    if !config.mmproj.as_str().is_empty() {
        kvs.insert(lit("mmproj"), config.mmproj.clone());
    }
    kvs.insert(lit("n-gpu-layers"), dec(config.n_gpu_layers));
    kvs.insert(lit("ctx-size"), dec(config.ctx_size));
    if !str_eq(config.flash_attn.as_str(), "auto") {
        kvs.insert(lit("flash-attn"), config.flash_attn.clone());
    }
    if config.mtp_enabled {
        kvs.insert(lit("spec-type"), lit("draft-mtp"));
        kvs.insert(lit("spec-draft-n-max"), dec(config.spec_draft_n_max));
    }
    if !extra_args.is_empty() {
        kvs.insert(lit("extra-args"), String::from_str(extra_args));
    }
    kvs
}

/// One model of a sync: a model that has a profile takes the profile's settings and extra
/// arguments, any other model the current ones. A model without a section gets one at the end;
/// the section of a model with a profile is overwritten when it differs; `*` is skipped.
pub open spec fn sync_step(
    st: (Seq<SectionView>, bool),
    model: Seq<char>,
    c: ConfigView,
    extra_args: Seq<char>,
    profiles: Map<Seq<char>, ConfigView>,
) -> (Seq<SectionView>, bool) {
    if model == "*"@ {
        st
    } else {
        let from_profile = profiles.dom().contains(model);
        let kvs = if from_profile {
            model_section_params(model, profiles[model], extra_args_of(profiles[model].command_text))
        } else {
            model_section_params(model, c, extra_args)
        };
        let p = first_named(st.0, model);
        if p < st.0.len() {
            if from_profile && st.0[p as int].1 != kvs {
                (st.0.update(p as int, (model, kvs)), true)
            } else {
                st
            }
        } else {
            (st.0.push((model, kvs)), true)
        }
    }
}

pub open spec fn sync_scan(
    secs: Seq<SectionView>,
    models: Seq<Seq<char>>,
    c: ConfigView,
    extra_args: Seq<char>,
    profiles: Map<Seq<char>, ConfigView>,
) -> (Seq<SectionView>, bool)
    decreases models.len(),
{
    if models.len() == 0 {
        (secs, false)
    } else {
        sync_step(
            sync_scan(secs, models.drop_last(), c, extra_args, profiles),
            models.last(),
            c,
            extra_args,
            profiles,
        )
    }
}

/// A sync applies only to an existing, readable `config.ini`; when a section changed or was
/// added, the file is rewritten with the version header.
pub open spec fn sync_result(
    models: Seq<Seq<char>>,
    c: ConfigView,
    extra_args: Seq<char>,
    profiles: Map<Seq<char>, ConfigView>,
    ini: IniFileView,
) -> IniUpdateView {
    match ini {
        IniFileView::Text(t) => {
            let r = sync_scan(ini_sections(t), models, c, extra_args, profiles);
            if r.1 {
                IniUpdateView::Write(ini_text(r.0, true))
            } else {
                IniUpdateView::Unchanged
            }
        },
        _ => IniUpdateView::Refused,
    }
}

pub fn sync_ini_model_sections(
    models: &Vec<String>,
    config: &Config,
    extra_args: &str,
    profiles: &Profiles,
    ini: &IniFile,
) -> (r: IniUpdate)
    ensures
        r@ == sync_result(string_views(models@), config@, extra_args@, profiles@, ini@),
{
    let t = match ini {
        IniFile::Text(t) => t,
        _ => {
            return IniUpdate::Refused;
        },
    };
    let mut sections = parse_sections(t.as_str());
    let ghost init = sections_view(sections@);
    let ghost ms = string_views(models@);
    let mut changed = false;
    let n = models.len();
    for i in 0..n
        invariant
            n == models@.len(),
            ms == string_views(models@),
            sync_scan(init, ms.take(i as int), config@, extra_args@, profiles@) == (
            sections_view(sections@),
            changed,
            ),
    {
        let model_name = &models[i];
        assert(ms.take(i + 1).drop_last() =~= ms.take(i as int));
        assert(ms[i as int] == model_name@);
        let ghost st = (sections_view(sections@), changed);
        if !str_eq(model_name.as_str(), "*") {
            let (kvs, from_profile) = match profiles.get(model_name.as_str()) {
                Some(profile_cfg) => {
                    let extra = extract_extra_args(profile_cfg.command_text.as_str());
                    (build_model_params(model_name.as_str(), profile_cfg, extra.as_str()), true)
                },
                None => (build_model_params(model_name.as_str(), config, extra_args), false),
            };
            let pos = find_section(&sections, model_name.as_str());
            proof {
                lemma_first_named(st.0, model_name@);
            }
            if pos < sections.len() {
                if from_profile && !sections[pos].params.same_as(&kvs) {
                    let sec = Section { name: model_name.clone(), params: kvs };
                    sections.set(pos, sec);
                    assert(sections_view(sections@) =~= st.0.update(pos as int, (model_name@, sec.params@)));
                    changed = true;
                }
            } else {
                let sec = Section { name: model_name.clone(), params: kvs };
                proof {
                    lemma_sections_view_push(sections@, sec);
                }
                sections.push(sec);
                changed = true;
            }
        }
    }
    assert(ms.take(n as int) =~= ms);
    if changed {
        IniUpdate::Write(sections_to_ini(&sections, true))
    } else {
        IniUpdate::Unchanged
    }
}


// ---------------------------------------------------------------------------
// Where the files live
// ---------------------------------------------------------------------------

/// A file name that joins onto a directory as one component: not empty, not `.` or `..`, and
/// without separators or a drive colon.
pub open spec fn plain_file_name(file: Seq<char>) -> bool {
    &&& file.len() > 0
    &&& file != "."@
    &&& file != ".."@
    &&& forall|i: int| 0 <= i < file.len() ==> file[i] != '/' && file[i] != '\\' && file[i] != ':'
}

/// A character that separates path components (on Unix only `/`, on Windows both).
pub open spec fn is_separator(c: char) -> bool {
    c == '/' || c == '\\'
}

/// A drive letter and a colon, and nothing else: `C:`.
pub open spec fn bare_drive(d: Seq<char>) -> bool {
    &&& d.len() == 2
    &&& (65 <= d[0] as int <= 90 || 97 <= d[0] as int <= 122)
    &&& d[1] == ':'
}

/// A directory that starts with the Windows verbatim prefix `\\?\`.
pub open spec fn verbatim(d: Seq<char>) -> bool {
    d.len() >= 4 && d[0] == '\\' && d[1] == '\\' && d[2] == '?' && d[3] == '\\'
}

/// What `Path::join` of a directory and a one-component file name gives, as text, on Unix or
/// on Windows. No separator is added after an empty directory or one that ends with `/`; after
/// one that ends with `\\`, or a bare drive `C:`, only Unix adds `/`; after any other directory
/// the platform's separator is added. A directory with a verbatim prefix is rebuilt from its
/// components on Windows, so of it only this is said: the result ends with a separator and the
/// file name.
pub open spec fn joined(dir: Seq<char>, file: Seq<char>, r: Seq<char>) -> bool {
    if verbatim(dir) {
        &&& r.len() > file.len()
        &&& r.subrange(r.len() - file.len(), r.len() as int) == file
        &&& is_separator(r[r.len() - file.len() - 1])
    } else if dir.len() == 0 || dir.last() == '/' {
        r == dir + file
    } else if dir.last() == '\\' || bare_drive(dir) {
        r == dir + file || r == dir + "/"@ + file
    } else {
        r == dir + "/"@ + file || r == dir + "\\"@ + file
    }
}

/// `std::path::Path::join` of a directory and a one-component file name, as text (the strings
/// are valid UTF-8, so `to_string_lossy` changes nothing). What `PathBuf::push` documents is
/// stated in `joined`; which separator the platform uses is not.
#[verifier::external_body]
fn join_path(dir: &str, file: &str) -> (r: String)
    requires
        plain_file_name(file@),
    ensures
        joined(dir@, file@, r@),
{
    std::path::Path::new(dir).join(file).to_string_lossy().into_owned()
}

/// The path of `config.ini` in `exe_dir`, the directory of the launcher's executable.
pub fn config_ini_path_str(exe_dir: &str) -> (r: String)
    ensures
        joined(exe_dir@, "config.ini"@, r@),
{
    proof {
        reveal_strlit("config.ini");
        reveal_strlit(".");
        reveal_strlit("..");
        assert("config.ini"@.len() != "."@.len());
        assert("config.ini"@.len() != ".."@.len());
    }
    join_path(exe_dir, "config.ini")
}

/// The path of the settings file `llamacpp_config.json` in `exe_dir`.
pub fn config_file_path_str(exe_dir: &str) -> (r: String)
    ensures
        joined(exe_dir@, "llamacpp_config.json"@, r@),
{
    proof {
        reveal_strlit("llamacpp_config.json");
        reveal_strlit(".");
        reveal_strlit("..");
        assert("llamacpp_config.json"@.len() != "."@.len());
        assert("llamacpp_config.json"@.len() != ".."@.len());
    }
    join_path(exe_dir, "llamacpp_config.json")
}

} // verus!
