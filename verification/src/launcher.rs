use vstd::prelude::*;

use crate::config::{
    default_config, extra_args_of, extract_extra_args, gguf_file_name, gguf_file_name_of,
    path_in_dir, path_in_dir_of, Config, ConfigView,
};
use crate::i18n::{pick, L10n};
use crate::profiles::Profiles;
use crate::text::{
    chars_eq, chars_starts_with, decimal, decimal_string, extend_str, find_char_from, from_chars,
    index_of_char, join, join_chars, parse_unsigned, parse_unsigned_chars,
    slice_chars, span_text, spans_within, starts_with, str_eq, string_views, to_chars, views,
    word_spans, words, lemma_string_views_push,
};

verus! {

/// What the launcher window edits: the settings, the numeric fields as typed, the command line,
/// the profile in use, and the log.
pub struct Launcher {
    pub config: Config,
    pub port_text: String,
    pub gpu_layers_text: String,
    pub ctx_size_text: String,
    pub spec_nmax_text: String,
    pub models_max_text: String,
    pub command_text: String,
    pub current_profile: String,
    pub loaded_profile: String,
    pub logs: Vec<String>,
    pub status: String,
    pub running: bool,
    pub waiting: bool,
}

pub struct LauncherView {
    pub config: ConfigView,
    pub port_text: Seq<char>,
    pub gpu_layers_text: Seq<char>,
    pub ctx_size_text: Seq<char>,
    pub spec_nmax_text: Seq<char>,
    pub models_max_text: Seq<char>,
    pub command_text: Seq<char>,
    pub current_profile: Seq<char>,
    pub loaded_profile: Seq<char>,
    pub logs: Seq<Seq<char>>,
    pub status: Seq<char>,
    pub running: bool,
    pub waiting: bool,
}

impl View for Launcher {
    type V = LauncherView;

    open spec fn view(&self) -> LauncherView {
        LauncherView {
            config: self.config@,
            port_text: self.port_text@,
            gpu_layers_text: self.gpu_layers_text@,
            ctx_size_text: self.ctx_size_text@,
            spec_nmax_text: self.spec_nmax_text@,
            models_max_text: self.models_max_text@,
            command_text: self.command_text@,
            current_profile: self.current_profile@,
            loaded_profile: self.loaded_profile@,
            logs: string_views(self.logs@),
            status: self.status@,
            running: self.running,
            waiting: self.waiting,
        }
    }
}

/// The numeric fields as the window shows a configuration's numbers.
pub open spec fn shows_numbers_of(l: LauncherView, c: ConfigView) -> bool {
    &&& l.port_text == decimal(c.port as nat)
    &&& l.gpu_layers_text == decimal(c.n_gpu_layers as nat)
    &&& l.ctx_size_text == decimal(c.ctx_size as nat)
    &&& l.spec_nmax_text == decimal(c.spec_draft_n_max as nat)
    &&& l.models_max_text == decimal(c.models_max as nat)
}

/// The settings the window opens with: those of the last profile, when there is one.
pub open spec fn initial_config(profiles: Map<Seq<char>, ConfigView>, last_profile: Seq<char>) -> ConfigView {
    if last_profile.len() > 0 && profiles.dom().contains(last_profile) {
        profiles[last_profile]
    } else {
        default_config()
    }
}

impl Launcher {
    /// The window as it opens, with the profiles read at start-up and the last profile used; no
    /// server runs.
    pub fn new(profiles: &Profiles, last_profile: &str, l10n: &L10n) -> (r: Launcher)
        ensures
            r@.status == pick(l10n.spec_lang(), "未运行"@, "Not Running"@),
            !r@.running,
            !r@.waiting,
            r@.config == initial_config(profiles@, last_profile@),
            shows_numbers_of(r@, r@.config),
            r@.command_text == (if last_profile@.len() > 0 && profiles@.dom().contains(
                last_profile@,
            ) {
                profiles@[last_profile@].command_text
            } else {
                Seq::<char>::empty()
            }),
            r@.current_profile == last_profile@,
            r@.loaded_profile == last_profile@,
            r@.logs.len() == 0,
    {
        let (config, command_text) = if !last_profile.is_empty() {
            match profiles.get(last_profile) {
                Some(cfg) => (cfg.duplicate(), cfg.command_text.clone()),
                None => (Config::default(), String::new()),
            }
        } else {
            (Config::default(), String::new())
        };
        let port_text = decimal_string(config.port as u64);
        let gpu_layers_text = decimal_string(config.n_gpu_layers as u64);
        let ctx_size_text = decimal_string(config.ctx_size as u64);
        let spec_nmax_text = decimal_string(config.spec_draft_n_max as u64);
        let models_max_text = decimal_string(config.models_max as u64);
        let r = Launcher {
            config,
            port_text,
            gpu_layers_text,
            ctx_size_text,
            spec_nmax_text,
            models_max_text,
            command_text,
            current_profile: String::from_str(last_profile),
            loaded_profile: String::from_str(last_profile),
            logs: Vec::new(),
            status: String::from_str(l10n.not_running()),
            running: false,
            waiting: false,
        };
        assert(r@.logs =~= Seq::<Seq<char>>::empty());
        r
    }
}

// ---------------------------------------------------------------------------
// The log
// ---------------------------------------------------------------------------

/// The log keeps its last 200 lines.
pub open spec fn log_after(logs: Seq<Seq<char>>, msg: Seq<char>) -> Seq<Seq<char>> {
    let l = logs.push(msg);
    if l.len() > 200 {
        l.subrange(l.len() - 200, l.len() as int)
    } else {
        l
    }
}

impl Launcher {
    pub fn add_log(&mut self, msg: &str)
        ensures
            final(self)@ == (LauncherView { logs: log_after(old(self)@.logs, msg@), ..old(self)@ }),
    {
        let m = String::from_str(msg);
        proof {
            lemma_string_views_push(self.logs@, m);
        }
        self.logs.push(m);
        if self.logs.len() > 200 {
            let n = self.logs.len();
            let mut kept: Vec<String> = Vec::new();
            let mut i = n - 200;
            while i < n
                invariant
                    n == self.logs@.len(),
                    n > 200,
                    n - 200 <= i <= n,
                    string_views(kept@) == string_views(self.logs@).subrange(n - 200, i as int),
                decreases n - i,
            {
                let s = self.logs[i].clone();
                proof {
                    lemma_string_views_push(kept@, s);
                    assert(string_views(self.logs@)[i as int] == s@);
                }
                kept.push(s);
                assert(string_views(kept@) =~= string_views(self.logs@).subrange(n - 200, i + 1));
                i = i + 1;
            }
            self.logs = kept;
        }
    }
}

/// The log after adding `msgs` one after the other.
pub open spec fn logs_after(logs: Seq<Seq<char>>, msgs: Seq<Seq<char>>) -> Seq<Seq<char>>
    decreases msgs.len(),
{
    if msgs.len() == 0 {
        logs
    } else {
        log_after(logs_after(logs, msgs.drop_last()), msgs.last())
    }
}

/// What the server start, running in the background, reports to the window: a log line, the
/// process id of a server that answers, or why the start failed.
pub enum ServerEvent {
    Log(String),
    Started(u32),
    Failed(String),
}

impl Launcher {
    /// The start button was clicked: the log starts afresh with the starting message, and the
    /// window waits for the server. Answers whether `config.ini` must first get its `[*]`
    /// section, which route mode reads.
    pub fn begin_start(&mut self, l10n: &L10n) -> (r: bool)
        ensures
            r == old(self)@.config.route_mode,
            final(self)@ == (LauncherView {
                logs: seq![pick(l10n.spec_lang(), "正在启动 llama-server..."@, "Starting llama-server..."@)],
                status: pick(l10n.spec_lang(), "启动中..."@, "Starting..."@),
                waiting: true,
                ..old(self)@
            }),
    {
        self.logs = Vec::new();
        proof {
            assert(string_views(self.logs@) =~= Seq::<Seq<char>>::empty());
        }
        self.add_log(l10n.starting_server());
        self.status = String::from_str(l10n.starting());
        self.waiting = true;
        assert(log_after(Seq::<Seq<char>>::empty(), self.logs@[0]@) =~= seq![self.logs@[0]@]);
        self.config.route_mode
    }

    /// Takes an event of the server start; answers the page to open in the browser once the
    /// server answers.
    pub fn on_event(&mut self, l10n: &L10n, event: ServerEvent) -> (r: Option<String>)
        ensures
            match event {
                ServerEvent::Log(m) => final(self)@ == (LauncherView {
                    logs: log_after(old(self)@.logs, m@),
                    ..old(self)@
                }) && r is None,
                ServerEvent::Started(pid) => final(self)@ == (LauncherView {
                    status: pick(l10n.spec_lang(), "运行中 (PID: "@, "Running (PID: "@) + decimal(
                        pid as nat,
                    ) + ")"@,
                    running: true,
                    waiting: false,
                    ..old(self)@
                }) && (r matches Some(u) && u@ == browser_url_spec(old(self)@.config)),
                ServerEvent::Failed(m) => final(self)@ == (LauncherView {
                    logs: log_after(
                        old(self)@.logs,
                        pick(l10n.spec_lang(), "失败: "@, "Failed: "@) + m@,
                    ),
                    status: pick(l10n.spec_lang(), "启动失败"@, "Start Failed"@),
                    waiting: false,
                    ..old(self)@
                }) && r is None,
            },
    {
        match event {
            ServerEvent::Log(m) => {
                self.add_log(m.as_str());
                None
            },
            ServerEvent::Started(pid) => {
                self.status = l10n.running_with_pid(pid);
                self.running = true;
                self.waiting = false;
                Some(browser_url(&self.config))
            },
            ServerEvent::Failed(m) => {
                let msg = l10n.failed(m.as_str());
                self.add_log(msg.as_str());
                self.status = String::from_str(l10n.start_failed());
                self.waiting = false;
                None
            },
        }
    }

    /// The stop button was clicked: the stopping message goes to the log.
    pub fn begin_stop(&mut self, l10n: &L10n)
        ensures
            final(self)@ == (LauncherView {
                logs: log_after(
                    old(self)@.logs,
                    pick(l10n.spec_lang(), "正在停止 llama-server..."@, "Stopping llama-server..."@),
                ),
                ..old(self)@
            }),
    {
        self.add_log(l10n.stopping_server());
    }

    /// The server was stopped with the log lines `stop_logs`: they go to the log, and no server
    /// runs.
    pub fn finish_stop(&mut self, l10n: &L10n, stop_logs: &Vec<String>)
        ensures
            final(self)@ == (LauncherView {
                logs: logs_after(old(self)@.logs, string_views(stop_logs@)),
                status: pick(l10n.spec_lang(), "未运行"@, "Not Running"@),
                running: false,
                ..old(self)@
            }),
    {
        let ghost start = self@;
        let n = stop_logs.len();
        for i in 0..n
            invariant
                n == stop_logs@.len(),
                self@ == (LauncherView {
                    logs: logs_after(start.logs, string_views(stop_logs@).take(i as int)),
                    ..start
                }),
        {
            assert(string_views(stop_logs@).take(i + 1).drop_last() =~= string_views(stop_logs@).take(
                i as int,
            ));
            self.add_log(stop_logs[i].as_str());
        }
        assert(string_views(stop_logs@).take(n as int) =~= string_views(stop_logs@));
        self.status = String::from_str(l10n.not_running());
        self.running = false;
    }
}

// ---------------------------------------------------------------------------
// The command line shown in the window
// ---------------------------------------------------------------------------

/// The words of the command line for a single model.
pub open spec fn command_parts(l: LauncherView) -> Seq<Seq<char>> {
    let c = l.config;
    let a = seq![c.executable];
    let a = if c.model_name.len() > 0 {
        a + seq!["-m"@, path_in_dir(c.model_dir, gguf_file_name(c.model_name))]
    } else {
        a
    };
    let a = a + seq![
        "--host"@,
        c.host,
        "--port"@,
        l.port_text,
        "-c"@,
        l.ctx_size_text,
        "--n-gpu-layers"@,
        l.gpu_layers_text,
    ];
    let a = if c.mtp_enabled {
        a + seq!["--spec-type"@, "draft-mtp"@, "--spec-draft-n-max"@, l.spec_nmax_text]
    } else {
        a
    };
    let a = if c.flash_attn != "auto"@ {
        a + seq!["--flash-attn"@, c.flash_attn]
    } else {
        a
    };
    if c.mmproj.len() > 0 {
        a + seq!["--mmproj"@, path_in_dir(c.model_dir, gguf_file_name(c.mmproj))]
    } else {
        a
    }
}

/// The command line: in route mode the executable with the `config.ini` presets, else the
/// words of `command_parts` joined by single spaces.
pub open spec fn generated_command(l: LauncherView, config_ini_path: Seq<char>) -> Seq<char> {
    if l.config.route_mode {
        l.config.executable + " --models-preset "@ + config_ini_path
    } else {
        join(command_parts(l), " "@)
    }
}

fn push_part(parts: &mut Vec<Vec<char>>, s: &str)
    ensures
        views(final(parts)@) == views(old(parts)@).push(s@),
{
    let v = to_chars(s);
    assert(views(parts@.push(v)) =~= views(parts@).push(v@));
    parts.push(v);
}

impl Launcher {
    /// `config_ini_path` is `config_ini_path_str` of the directory of the executable.
    pub fn generate_command(&self, config_ini_path: &str) -> (r: String)
        ensures
            r@ == generated_command(self@, config_ini_path@),
    {
        let c = &self.config;
        if c.route_mode {
            let mut v = to_chars(c.executable.as_str());
            extend_str(&mut v, " --models-preset ");
            extend_str(&mut v, config_ini_path);
            return from_chars(&v);
        }
        let mut parts: Vec<Vec<char>> = Vec::new();
        push_part(&mut parts, c.executable.as_str());
        if !c.model_name.as_str().is_empty() {
            let p = path_in_dir_of(c.model_dir.as_str(), gguf_file_name_of(c.model_name.as_str()).as_str());
            push_part(&mut parts, "-m");
            push_part(&mut parts, p.as_str());
        }
        push_part(&mut parts, "--host");
        push_part(&mut parts, c.host.as_str());
        push_part(&mut parts, "--port");
        push_part(&mut parts, self.port_text.as_str());
        push_part(&mut parts, "-c");
        push_part(&mut parts, self.ctx_size_text.as_str());
        push_part(&mut parts, "--n-gpu-layers");
        push_part(&mut parts, self.gpu_layers_text.as_str());
        if c.mtp_enabled {
            push_part(&mut parts, "--spec-type");
            push_part(&mut parts, "draft-mtp");
            push_part(&mut parts, "--spec-draft-n-max");
            push_part(&mut parts, self.spec_nmax_text.as_str());
        }
        if !str_eq(c.flash_attn.as_str(), "auto") {
            push_part(&mut parts, "--flash-attn");
            push_part(&mut parts, c.flash_attn.as_str());
        }
        if !c.mmproj.as_str().is_empty() {
            let p = path_in_dir_of(c.model_dir.as_str(), gguf_file_name_of(c.mmproj.as_str()).as_str());
            push_part(&mut parts, "--mmproj");
            push_part(&mut parts, p.as_str());
        }
        assert(views(parts@) =~= command_parts(self@));
        let text = join_chars(&parts, " ");
        from_chars(&text)
    }
}


// ---------------------------------------------------------------------------
// Reading a command line typed into the window
// ---------------------------------------------------------------------------

/// The value of a `--flash-attn=VALUE` word: what follows the `=`, up to a further `=`.
pub open spec fn flash_attn_eq_value(w: Seq<char>) -> Seq<char> {
    let rest = w.subrange("--flash-attn="@.len() as int, w.len() as int);
    rest.subrange(0, index_of_char(rest, '=') as int)
}

pub open spec fn with_config(l: LauncherView, c: ConfigView) -> LauncherView {
    LauncherView { config: c, ..l }
}

/// The window after reading the words `t[i..]` of a command line: the value after `--host`,
/// `--flash-attn`/`-fa` (unless it starts with `-`), `--mmproj` goes into the settings; the value
/// after `--port`, `-c`, `--n-gpu-layers`, `--spec-draft-n-max`, `--models-max` into the numeric
/// field; `--spec-type` turns MTP on exactly when followed by `draft-mtp`; `--models-preset`
/// turns route mode on; `--flash-attn=VALUE` sets flash attention; the value after `-m` and every
/// other word are skipped. A flag as the last word changes nothing.
pub open spec fn parse_words_from(t: Seq<Seq<char>>, i: nat, l: LauncherView) -> LauncherView
    decreases t.len() + 1 - i,
{
    if i >= t.len() {
        l
    } else {
        let w = t[i as int];
        let has_next = i + 1 < t.len();
        let next = if has_next {
            t[i + 1int]
        } else {
            Seq::<char>::empty()
        };
        let c = l.config;
        if w == "-m"@ {
            parse_words_from(t, i + 2, l)
        } else if w == "--host"@ {
            if has_next {
                parse_words_from(t, i + 2, with_config(l, ConfigView { host: next, ..c }))
            } else {
                parse_words_from(t, i + 1, l)
            }
        } else if w == "--port"@ {
            if has_next {
                parse_words_from(t, i + 2, LauncherView { port_text: next, ..l })
            } else {
                parse_words_from(t, i + 1, l)
            }
        } else if w == "-c"@ {
            if has_next {
                parse_words_from(t, i + 2, LauncherView { ctx_size_text: next, ..l })
            } else {
                parse_words_from(t, i + 1, l)
            }
        } else if w == "--n-gpu-layers"@ {
            if has_next {
                parse_words_from(t, i + 2, LauncherView { gpu_layers_text: next, ..l })
            } else {
                parse_words_from(t, i + 1, l)
            }
        } else if w == "--spec-type"@ {
            parse_words_from(
                t,
                i + 2,
                with_config(l, ConfigView { mtp_enabled: has_next && next == "draft-mtp"@, ..c }),
            )
        } else if w == "--spec-draft-n-max"@ {
            if has_next {
                parse_words_from(t, i + 2, LauncherView { spec_nmax_text: next, ..l })
            } else {
                parse_words_from(t, i + 1, l)
            }
        } else if w == "--flash-attn"@ || w == "-fa"@ {
            if has_next && !starts_with(next, "-"@) {
                parse_words_from(t, i + 2, with_config(l, ConfigView { flash_attn: next, ..c }))
            } else {
                parse_words_from(t, i + 1, l)
            }
        } else if starts_with(w, "--flash-attn="@) {
            parse_words_from(
                t,
                i + 1,
                with_config(l, ConfigView { flash_attn: flash_attn_eq_value(w), ..c }),
            )
        } else if w == "--mmproj"@ {
            if has_next {
                parse_words_from(t, i + 2, with_config(l, ConfigView { mmproj: next, ..c }))
            } else {
                parse_words_from(t, i + 1, l)
            }
        } else if w == "--models-preset"@ {
            parse_words_from(t, i + 2, with_config(l, ConfigView { route_mode: true, ..c }))
        } else if w == "--models-max"@ {
            if has_next {
                parse_words_from(t, i + 2, LauncherView { models_max_text: next, ..l })
            } else {
                parse_words_from(t, i + 1, l)
            }
        } else {
            parse_words_from(t, i + 1, l)
        }
    }
}

pub proof fn lemma_parse_words_end(t: Seq<Seq<char>>, j: nat, l: LauncherView)
    requires
        j >= t.len(),
    ensures
        parse_words_from(t, j, l) == l,
{
}

pub open spec fn parsed_command(l: LauncherView, cmd: Seq<char>) -> LauncherView {
    parse_words_from(words(cmd), 0, l)
}

/// Whether `v[a..b]` is `lit`.
fn span_is(v: &Vec<char>, a: usize, b: usize, lit: &str) -> (r: bool)
    requires
        a <= b <= v@.len(),
    ensures
        r == (v@.subrange(a as int, b as int) == lit@),
{
    let w = slice_chars(v, a, b);
    let l = to_chars(lit);
    chars_eq(&w, &l)
}

impl Launcher {
    /// Takes the settings that a command line typed into the window names.
    pub fn parse_command(&mut self, cmd: &str)
        ensures
            final(self)@ == parsed_command(old(self)@, cmd@),
    {
        let v = to_chars(cmd);
        let spans = word_spans(&v);
        let ghost t = span_text(v@, spans@);
        let n = spans.len();
        let mut i: usize = 0;
        while i < n
            invariant
                n == spans@.len(),
                t == span_text(v@, spans@),
                t.len() == n,
                spans_within(v@, spans@),
                t == words(cmd@),
                parse_words_from(t, i as nat, self@) == parse_words_from(t, 0, old(self)@),
            decreases n - i,
        {
            let (a, b) = spans[i];
            assert(t[i as int] == v@.subrange(a as int, b as int));
            let has_next = i + 1 < n;
            let next: String = if has_next {
                let (a2, b2) = spans[i + 1];
                assert(t[i + 1] == v@.subrange(a2 as int, b2 as int));
                from_chars(&slice_chars(&v, a2, b2))
            } else {
                String::new()
            };
            assert(next@ == (if has_next {
                t[i + 1]
            } else {
                Seq::<char>::empty()
            }));
            if span_is(&v, a, b, "-m") {
                proof {
                    if !has_next {
                        lemma_parse_words_end(t, (i + 2) as nat, self@);
                        lemma_parse_words_end(t, n as nat, self@);
                    }
                }
                i = if has_next {
                    i + 2
                } else {
                    n
                };
            } else if span_is(&v, a, b, "--host") {
                if has_next {
                    self.config.host = next;
                    i = i + 2;
                } else {
                    i = i + 1;
                }
            } else if span_is(&v, a, b, "--port") {
                if has_next {
                    self.port_text = next;
                    i = i + 2;
                } else {
                    i = i + 1;
                }
            } else if span_is(&v, a, b, "-c") {
                if has_next {
                    self.ctx_size_text = next;
                    i = i + 2;
                } else {
                    i = i + 1;
                }
            } else if span_is(&v, a, b, "--n-gpu-layers") {
                if has_next {
                    self.gpu_layers_text = next;
                    i = i + 2;
                } else {
                    i = i + 1;
                }
            } else if span_is(&v, a, b, "--spec-type") {
                self.config.mtp_enabled = has_next && str_eq(next.as_str(), "draft-mtp");
                proof {
                    if !has_next {
                        lemma_parse_words_end(t, (i + 2) as nat, self@);
                        lemma_parse_words_end(t, n as nat, self@);
                    }
                }
                i = if has_next {
                    i + 2
                } else {
                    n
                };
            } else if span_is(&v, a, b, "--spec-draft-n-max") {
                if has_next {
                    self.spec_nmax_text = next;
                    i = i + 2;
                } else {
                    i = i + 1;
                }
            } else if span_is(&v, a, b, "--flash-attn") || span_is(&v, a, b, "-fa") {
                let nv = to_chars(next.as_str());
                if has_next && !chars_starts_with(&nv, "-") {
                    self.config.flash_attn = next;
                    i = i + 2;
                } else {
                    i = i + 1;
                }
            } else if chars_starts_with(&slice_chars(&v, a, b), "--flash-attn=") {
                let w = slice_chars(&v, a, b);
                let pre = to_chars("--flash-attn=");
                let rest = slice_chars(&w, pre.len(), w.len());
                let e = find_char_from(&rest, 0, '=');
                assert(rest@.subrange(0, rest@.len() as int) =~= rest@);
                self.config.flash_attn = from_chars(&slice_chars(&rest, 0, e));
                i = i + 1;
            } else if span_is(&v, a, b, "--mmproj") {
                if has_next {
                    self.config.mmproj = next;
                    i = i + 2;
                } else {
                    i = i + 1;
                }
            } else if span_is(&v, a, b, "--models-preset") {
                self.config.route_mode = true;
                proof {
                    if !has_next {
                        lemma_parse_words_end(t, (i + 2) as nat, self@);
                        lemma_parse_words_end(t, n as nat, self@);
                    }
                }
                i = if has_next {
                    i + 2
                } else {
                    n
                };
            } else if span_is(&v, a, b, "--models-max") {
                if has_next {
                    self.models_max_text = next;
                    i = i + 2;
                } else {
                    i = i + 1;
                }
            } else {
                i = i + 1;
            }
        }
    }
}


// ---------------------------------------------------------------------------
// Loading a profile, numbers typed into fields, buttons, links
// ---------------------------------------------------------------------------

/// The window after taking the numbers typed into the numeric fields: a field that holds a
/// number of the setting's type sets it; any other leaves the setting as it is.
pub open spec fn numbers_taken(l: LauncherView) -> LauncherView {
    with_config(
        l,
        ConfigView {
            port: match parse_unsigned(l.port_text, 0xFFFF) {
                Some(v) => v as u16,
                None => l.config.port,
            },
            n_gpu_layers: match parse_unsigned(l.gpu_layers_text, 0xFFFF_FFFF) {
                Some(v) => v as u32,
                None => l.config.n_gpu_layers,
            },
            ctx_size: match parse_unsigned(l.ctx_size_text, 0xFFFF_FFFF) {
                Some(v) => v as u32,
                None => l.config.ctx_size,
            },
            spec_draft_n_max: match parse_unsigned(l.spec_nmax_text, 0xFFFF_FFFF) {
                Some(v) => v as u32,
                None => l.config.spec_draft_n_max,
            },
            models_max: match parse_unsigned(l.models_max_text, 0xFFFF_FFFF) {
                Some(v) => v as u32,
                None => l.config.models_max,
            },
            ..l.config
        },
    )
}

impl Launcher {
    /// Shows the settings of profile `profile_name`; answers whether the model directory changed
    /// to a non-empty one (then the model lists and `config.ini` are to be refreshed).
    pub fn apply_config(&mut self, profile_name: &str, cfg: &Config) -> (r: bool)
        ensures
            final(self)@ == (LauncherView {
                config: cfg@,
                port_text: decimal(cfg.port as nat),
                gpu_layers_text: decimal(cfg.n_gpu_layers as nat),
                ctx_size_text: decimal(cfg.ctx_size as nat),
                spec_nmax_text: decimal(cfg.spec_draft_n_max as nat),
                models_max_text: decimal(cfg.models_max as nat),
                command_text: cfg.command_text@,
                current_profile: profile_name@,
                ..old(self)@
            }),
            r == (cfg.model_dir@ != old(self)@.config.model_dir && cfg.model_dir@.len() > 0),
    {
        let changed = !str_eq(cfg.model_dir.as_str(), self.config.model_dir.as_str());
        self.config = cfg.duplicate();
        self.port_text = decimal_string(cfg.port as u64);
        self.gpu_layers_text = decimal_string(cfg.n_gpu_layers as u64);
        self.ctx_size_text = decimal_string(cfg.ctx_size as u64);
        self.spec_nmax_text = decimal_string(cfg.spec_draft_n_max as u64);
        self.models_max_text = decimal_string(cfg.models_max as u64);
        self.command_text = cfg.command_text.clone();
        self.current_profile = String::from_str(profile_name);
        changed && !cfg.model_dir.as_str().is_empty()
    }

    /// Takes the numbers typed into the numeric fields.
    pub fn sync_numbers(&mut self)
        ensures
            final(self)@ == numbers_taken(old(self)@),
    {
        if let Some(v) = parse_unsigned_chars(&to_chars(self.port_text.as_str()), 0xFFFF) {
            self.config.port = v as u16;
        }
        if let Some(v) = parse_unsigned_chars(&to_chars(self.gpu_layers_text.as_str()), 0xFFFF_FFFF) {
            self.config.n_gpu_layers = v as u32;
        }
        if let Some(v) = parse_unsigned_chars(&to_chars(self.ctx_size_text.as_str()), 0xFFFF_FFFF) {
            self.config.ctx_size = v as u32;
        }
        if let Some(v) = parse_unsigned_chars(&to_chars(self.spec_nmax_text.as_str()), 0xFFFF_FFFF) {
            self.config.spec_draft_n_max = v as u32;
        }
        if let Some(v) = parse_unsigned_chars(&to_chars(self.models_max_text.as_str()), 0xFFFF_FFFF) {
            self.config.models_max = v as u32;
        }
    }

    /// The extra arguments of the command line in the window.
    pub fn extract_extra_args(&self) -> (r: String)
        ensures
            r@ == extra_args_of(self@.command_text),
    {
        extract_extra_args(self.command_text.as_str())
    }

    /// After profile `name` was deleted: it is no longer the current or the loaded profile.
    pub fn forget_profile(&mut self, name: &str)
        ensures
            final(self)@ == (LauncherView {
                current_profile: if old(self)@.current_profile == name@ {
                    Seq::<char>::empty()
                } else {
                    old(self)@.current_profile
                },
                loaded_profile: if old(self)@.loaded_profile == name@ {
                    Seq::<char>::empty()
                } else {
                    old(self)@.loaded_profile
                },
                ..old(self)@
            }),
    {
        if str_eq(self.current_profile.as_str(), name) {
            self.current_profile = String::new();
        }
        if str_eq(self.loaded_profile.as_str(), name) {
            self.loaded_profile = String::new();
        }
    }
}

/// The start button works when no server runs or starts, an executable is chosen, and (unless
/// in route mode) a model.
pub fn start_enabled(running: bool, waiting: bool, config: &Config) -> (r: bool)
    ensures
        r == (!running && !waiting && config@.executable.len() > 0 && (config@.route_mode
            || config@.model_name.len() > 0)),
{
    !running && !waiting && !config.executable.as_str().is_empty() && (config.route_mode
        || !config.model_name.as_str().is_empty())
}

/// The stop button works when a server runs and none is starting.
pub fn stop_enabled(running: bool, waiting: bool) -> (r: bool)
    ensures
        r == (running && !waiting),
{
    running && !waiting
}

/// The page opened once the server is ready: the router's address in route mode, else the
/// server's own.
pub open spec fn browser_url_spec(c: ConfigView) -> Seq<char> {
    if c.route_mode {
        "http://127.0.0.1:8080"@
    } else {
        "http://"@ + c.host + ":"@ + decimal(c.port as nat)
    }
}

pub fn browser_url(config: &Config) -> (r: String)
    ensures
        r@ == browser_url_spec(config@),
{
    if config.route_mode {
        String::from_str("http://127.0.0.1:8080")
    } else {
        let mut v = to_chars("http://");
        extend_str(&mut v, config.host.as_str());
        extend_str(&mut v, ":");
        let p = decimal_string(config.port as u64);
        extend_str(&mut v, p.as_str());
        from_chars(&v)
    }
}

/// The first position at or after `i` where `p` occurs in `s`.
pub open spec fn find_from(s: Seq<char>, p: Seq<char>, i: nat) -> Option<nat>
    decreases s.len() + 1 - i,
{
    if i + p.len() > s.len() {
        None
    } else if s.subrange(i as int, (i + p.len()) as int) == p {
        Some(i)
    } else {
        find_from(s, p, i + 1)
    }
}

/// The first whitespace position at or after `i`, or `s.len()`.
pub open spec fn ws_from(s: Seq<char>, i: nat) -> nat
    decreases s.len() - i,
{
    if i >= s.len() {
        s.len()
    } else if crate::text::is_ws(s[i as int]) {
        i
    } else {
        ws_from(s, i + 1)
    }
}

/// A log line with a link: the text before the first `http://`, the link (up to the next
/// whitespace), and the rest.
pub open spec fn log_link_spec(line: Seq<char>) -> Option<(Seq<char>, Seq<char>, Seq<char>)> {
    match find_from(line, "http://"@, 0) {
        Some(start) => {
            let end = ws_from(line, start);
            Some(
                (
                    line.subrange(0, start as int),
                    line.subrange(start as int, end as int),
                    line.subrange(end as int, line.len() as int),
                ),
            )
        },
        None => None,
    }
}

proof fn lemma_find_from_bound(s: Seq<char>, p: Seq<char>, i: nat)
    ensures
        find_from(s, p, i) matches Some(k) ==> i <= k && k + p.len() <= s.len(),
    decreases s.len() + 1 - i,
{
    if i + p.len() <= s.len() && s.subrange(i as int, (i + p.len()) as int) != p {
        lemma_find_from_bound(s, p, i + 1);
    }
}

proof fn lemma_ws_from_bound(s: Seq<char>, i: nat)
    requires
        i <= s.len(),
    ensures
        i <= ws_from(s, i) <= s.len(),
    decreases s.len() - i,
{
    if i < s.len() && !crate::text::is_ws(s[i as int]) {
        lemma_ws_from_bound(s, i + 1);
    }
}

/// Splits a log line at its link, for showing the link as a link.
pub fn log_link(line: &str) -> (r: Option<(String, String, String)>)
    ensures
        match r {
            Some((a, b, c)) => log_link_spec(line@) == Some((a@, b@, c@)),
            None => log_link_spec(line@) is None,
        },
{
    let v = to_chars(line);
    let p = to_chars("http://");
    let n = v.len();
    let m = p.len();
    let mut i: usize = 0;
    let mut found = false;
    proof {
        reveal_strlit("http://");
    }
    while !found && i <= n && m <= n - i
        invariant
            n == v@.len(),
            m > 0,
            i <= n + 1,
            found ==> i <= n,
            m == p@.len(),
            p@ == "http://"@,
            found ==> i + m <= n && v@.subrange(i as int, (i + m) as int) == p@,
            found ==> find_from(v@, p@, i as nat) == Some(i as nat),
            !found ==> find_from(v@, p@, i as nat) == find_from(v@, p@, 0),
            found ==> find_from(v@, p@, 0) == Some(i as nat),
        decreases n + 1 - i, if found { 0int } else { 1int },
    {
        let w = slice_chars(&v, i, i + m);
        if chars_eq(&w, &p) {
            found = true;
        } else {
            i = i + 1;
        }
    }
    if !found {
        return None;
    }
    proof {
        lemma_find_from_bound(v@, p@, 0);
    }
    let mut e = i;
    while e < n && !crate::text::char_is_ws(v[e])
        invariant
            n == v@.len(),
            i <= e <= n,
            ws_from(v@, i as nat) == ws_from(v@, e as nat),
        decreases n - e,
    {
        e = e + 1;
    }
    let a = from_chars(&slice_chars(&v, 0, i));
    let b = from_chars(&slice_chars(&v, i, e));
    let c = from_chars(&slice_chars(&v, e, n));
    Some((a, b, c))
}

} // verus!
