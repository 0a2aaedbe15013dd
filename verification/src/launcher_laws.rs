use vstd::prelude::*;

use crate::config::{
    extra_args_of, extra_words_from, gguf_file_name, is_flash_attn_value, is_known_flag,
    path_in_dir,
};
use crate::ini_laws::lemma_join_front;
use crate::config::ConfigView;
use crate::launcher::{
    with_config, command_parts, generated_command, log_after, numbers_taken, parse_words_from, parsed_command,
    shows_numbers_of, LauncherView,
};
use crate::text::{
    all_digits, decimal, digit_of, digit_value, digits_value, is_digit, is_ws, join,
    lemma_word_len_exact, lemma_word_len_props, parse_unsigned, starts_with, word_len, words,
};

verus! {

/// A non-empty run of non-whitespace characters: one word of a command line.
pub open spec fn plain_word(s: Seq<char>) -> bool {
    s.len() > 0 && forall|i: int| 0 <= i < s.len() ==> !is_ws(#[trigger] s[i])
}

/// Words joined by single spaces split back into the same words.
pub proof fn lemma_words_of_join(ps: Seq<Seq<char>>)
    requires
        forall|i: int| 0 <= i < ps.len() ==> plain_word(#[trigger] ps[i]),
    ensures
        words(join(ps, " "@)) == ps,
    decreases ps.len(),
{
    reveal_strlit(" ");
    if ps.len() == 0 {
    } else {
        let p = ps[0];
        assert(plain_word(p));
        let t = ps.drop_first();
        assert forall|i: int| 0 <= i < t.len() implies plain_word(#[trigger] t[i]) by {
            assert(t[i] == ps[i + 1]);
        }
        let rest: Seq<char> = if ps.len() == 1 {
            Seq::<char>::empty()
        } else {
            " "@ + join(t, " "@)
        };
        let s = p + rest;
        if ps.len() == 1 {
            assert(s =~= p);
            assert(join(ps, " "@) == p);
        } else {
            lemma_join_front(ps, " "@);
            assert(join(ps, " "@) =~= s);
        }
        assert forall|k: int| 0 <= k < p.len() implies !is_ws(s[k]) by {
            assert(s[k] == p[k]);
        }
        if ps.len() > 1 {
            assert(s[p.len() as int] == ' ');
        }
        lemma_word_len_exact(s, p.len() as int);
        assert(s[0] == p[0]);
        assert(s.subrange(0, p.len() as int) =~= p);
        assert(s.subrange(p.len() as int, s.len() as int) =~= rest);
        if ps.len() > 1 {
            lemma_words_of_join(t);
            assert(rest.drop_first() =~= join(t, " "@));
            assert(words(rest) == words(join(t, " "@)));
        }
        assert(words(s) == seq![p] + words(rest));
        assert(seq![p] + t =~= ps);
    }
}

/// Every value that the command line shows is a single word, and the program is not one of the
/// launcher's own flags (not in route mode; an empty flash-attention value shows as no word).
pub open spec fn shown_words_plain(l: LauncherView) -> bool {
    let c = l.config;
    &&& !c.route_mode
    &&& plain_word(c.executable) && !is_known_flag(c.executable)
    &&& c.model_name.len() > 0 ==> plain_word(path_in_dir(c.model_dir, gguf_file_name(c.model_name)))
    &&& plain_word(c.host)
    &&& plain_word(l.port_text)
    &&& plain_word(l.ctx_size_text)
    &&& plain_word(l.gpu_layers_text)
    &&& c.mtp_enabled ==> plain_word(l.spec_nmax_text)
    &&& c.flash_attn != "auto"@ && c.flash_attn.len() > 0 ==> plain_word(c.flash_attn)
    &&& c.mmproj.len() > 0 ==> plain_word(path_in_dir(c.model_dir, gguf_file_name(c.mmproj)))
}

/// The settings that the command line shows can be read back from it: its words are plain,
/// no vision model is set (its path would be read back in place of its name), the program is
/// not `-fa`, and a flash-attention value does not start with `-`.
pub open spec fn command_reads_back(l: LauncherView) -> bool {
    let c = l.config;
    &&& shown_words_plain(l)
    &&& c.mmproj.len() == 0
    &&& c.executable != "-fa"@
    &&& c.flash_attn != "auto"@ && c.flash_attn.len() > 0 ==> c.flash_attn[0] != '-'
}

/// What the launcher's own flags are, and that they differ from each other.
proof fn lemma_flag_facts()
    ensures
        is_known_flag("-m"@),
        is_known_flag("--host"@),
        is_known_flag("--port"@),
        is_known_flag("-c"@),
        is_known_flag("--n-gpu-layers"@),
        is_known_flag("--spec-type"@),
        is_known_flag("--spec-draft-n-max"@),
        is_known_flag("--flash-attn"@),
        is_known_flag("--mmproj"@),
        "-m"@ != "--flash-attn"@,
        "--host"@ != "--flash-attn"@,
        "--port"@ != "--flash-attn"@,
        "-c"@ != "--flash-attn"@,
        "--n-gpu-layers"@ != "--flash-attn"@,
        "--spec-type"@ != "--flash-attn"@,
        "--spec-draft-n-max"@ != "--flash-attn"@,
        "--mmproj"@ != "--flash-attn"@,
        "--host"@ != "-m"@,
        "--port"@ != "-m"@ && "--port"@ != "--host"@,
        "-c"@ != "-m"@ && "-c"@ != "--host"@ && "-c"@ != "--port"@,
        "--n-gpu-layers"@ != "-m"@ && "--n-gpu-layers"@ != "--host"@ && "--n-gpu-layers"@
            != "--port"@ && "--n-gpu-layers"@ != "-c"@,
        "--spec-type"@ != "-m"@ && "--spec-type"@ != "--host"@ && "--spec-type"@ != "--port"@
            && "--spec-type"@ != "-c"@ && "--spec-type"@ != "--n-gpu-layers"@,
        "--spec-draft-n-max"@ != "-m"@ && "--spec-draft-n-max"@ != "--host"@
            && "--spec-draft-n-max"@ != "--port"@ && "--spec-draft-n-max"@ != "-c"@
            && "--spec-draft-n-max"@ != "--n-gpu-layers"@ && "--spec-draft-n-max"@
            != "--spec-type"@,
        "--flash-attn"@ != "-m"@ && "--flash-attn"@ != "--host"@ && "--flash-attn"@ != "--port"@
            && "--flash-attn"@ != "-c"@ && "--flash-attn"@ != "--n-gpu-layers"@ && "--flash-attn"@
            != "--spec-type"@ && "--flash-attn"@ != "--spec-draft-n-max"@,
{
    reveal_strlit("-m");
    reveal_strlit("--host");
    reveal_strlit("--port");
    reveal_strlit("-c");
    reveal_strlit("--n-gpu-layers");
    reveal_strlit("--spec-type");
    reveal_strlit("--spec-draft-n-max");
    reveal_strlit("--flash-attn");
    reveal_strlit("--mmproj");
    assert("-m"@[1] != "--host"@[1]);
    assert("-m"@[1] != "--port"@[1]);
    assert("-m"@[1] != "-c"@[1]);
    assert("-m"@[1] != "--n-gpu-layers"@[1]);
    assert("-m"@[1] != "--spec-type"@[1]);
    assert("-m"@[1] != "--spec-draft-n-max"@[1]);
    assert("-m"@[1] != "--flash-attn"@[1]);
    assert("-m"@[1] != "--mmproj"@[1]);
    assert("--host"@[2] != "--port"@[2]);
    assert("--host"@[1] != "-c"@[1]);
    assert("--host"@[2] != "--n-gpu-layers"@[2]);
    assert("--host"@[2] != "--spec-type"@[2]);
    assert("--host"@[2] != "--spec-draft-n-max"@[2]);
    assert("--host"@[2] != "--flash-attn"@[2]);
    assert("--host"@[2] != "--mmproj"@[2]);
    assert("--port"@[1] != "-c"@[1]);
    assert("--port"@[2] != "--n-gpu-layers"@[2]);
    assert("--port"@[2] != "--spec-type"@[2]);
    assert("--port"@[2] != "--spec-draft-n-max"@[2]);
    assert("--port"@[2] != "--flash-attn"@[2]);
    assert("--port"@[2] != "--mmproj"@[2]);
    assert("-c"@[1] != "--n-gpu-layers"@[1]);
    assert("-c"@[1] != "--spec-type"@[1]);
    assert("-c"@[1] != "--spec-draft-n-max"@[1]);
    assert("-c"@[1] != "--flash-attn"@[1]);
    assert("-c"@[1] != "--mmproj"@[1]);
    assert("--n-gpu-layers"@[2] != "--spec-type"@[2]);
    assert("--n-gpu-layers"@[2] != "--spec-draft-n-max"@[2]);
    assert("--n-gpu-layers"@[2] != "--flash-attn"@[2]);
    assert("--n-gpu-layers"@[2] != "--mmproj"@[2]);
    assert("--spec-type"@[7] != "--spec-draft-n-max"@[7]);
    assert("--spec-type"@[2] != "--flash-attn"@[2]);
    assert("--spec-type"@[2] != "--mmproj"@[2]);
    assert("--spec-draft-n-max"@[2] != "--flash-attn"@[2]);
    assert("--spec-draft-n-max"@[2] != "--mmproj"@[2]);
    assert("--flash-attn"@[2] != "--mmproj"@[2]);
}

/// The positions of the words of `command_parts(l)`.
proof fn lemma_command_parts_shape(l: LauncherView)
    requires
        !l.config.route_mode,
    ensures
        ({
            let c = l.config;
            let t = command_parts(l);
        let b: int = if c.model_name.len() > 0 {
            3
        } else {
            1
        };
        let e: int = if c.mtp_enabled {
            b + 12
        } else {
            b + 8
        };
        let f: int = if c.flash_attn != "auto"@ {
            e + 2
        } else {
            e
        };
            let g: int = if c.mmproj.len() > 0 {
                f + 2
            } else {
                f
            };
            &&& t.len() == g
            &&& t[0] == c.executable
            &&& c.model_name.len() > 0 ==> t[1] == "-m"@ && t[2] == path_in_dir(
                c.model_dir,
                gguf_file_name(c.model_name),
            )
            &&& t[b] == "--host"@ && t[b + 1] == c.host
            &&& t[b + 2] == "--port"@ && t[b + 3] == l.port_text
            &&& t[b + 4] == "-c"@ && t[b + 5] == l.ctx_size_text
            &&& t[b + 6] == "--n-gpu-layers"@ && t[b + 7] == l.gpu_layers_text
            &&& c.mtp_enabled ==> t[b + 8] == "--spec-type"@ && t[b + 9] == "draft-mtp"@ && t[b
                + 10] == "--spec-draft-n-max"@ && t[b + 11] == l.spec_nmax_text
            &&& c.flash_attn != "auto"@ ==> t[e] == "--flash-attn"@ && t[e + 1] == c.flash_attn
            &&& c.mmproj.len() > 0 ==> t[f] == "--mmproj"@ && t[f + 1] == path_in_dir(
                c.model_dir,
                gguf_file_name(c.mmproj),
            )
        }),
{
    let c = l.config;
    let t = command_parts(l);
    let a0 = seq![c.executable];
    let a1 = if c.model_name.len() > 0 {
        a0 + seq!["-m"@, path_in_dir(c.model_dir, gguf_file_name(c.model_name))]
    } else {
        a0
    };
    let a2 = a1 + seq![
        "--host"@,
        c.host,
        "--port"@,
        l.port_text,
        "-c"@,
        l.ctx_size_text,
        "--n-gpu-layers"@,
        l.gpu_layers_text,
    ];
    let a3 = if c.mtp_enabled {
        a2 + seq!["--spec-type"@, "draft-mtp"@, "--spec-draft-n-max"@, l.spec_nmax_text]
    } else {
        a2
    };
    let a4 = if c.flash_attn != "auto"@ {
        a3 + seq!["--flash-attn"@, c.flash_attn]
    } else {
        a3
    };
    let a5 = if c.mmproj.len() > 0 {
        a4 + seq!["--mmproj"@, path_in_dir(c.model_dir, gguf_file_name(c.mmproj))]
    } else {
        a4
    };
    assert(t == a5);
    let b: int = if c.model_name.len() > 0 {
        3
    } else {
        1
    };
    let e: int = if c.mtp_enabled {
        b + 12
    } else {
        b + 8
    };
    let f: int = if c.flash_attn != "auto"@ {
        e + 2
    } else {
        e
    };
    if c.mmproj.len() > 0 {
        assert(a5[f] == "--mmproj"@);
    }
    assert(a5[e - 1] == a3[e - 1]);
}

/// The words of the command line are plain words, but for an empty flash-attention value.
proof fn lemma_command_parts_plain(l: LauncherView)
    requires
        shown_words_plain(l),
    ensures
        forall|i: int|
            0 <= i < command_parts(l).len() && !(l.config.flash_attn != "auto"@
                && l.config.flash_attn.len() == 0 && i == command_parts(l).len() - 1 - (if l.config.mmproj.len() > 0 {
                2int
            } else {
                0int
            })) ==> plain_word(#[trigger] command_parts(l)[i]),
{
    reveal_strlit("-m");
    reveal_strlit("--host");
    reveal_strlit("--port");
    reveal_strlit("-c");
    reveal_strlit("--n-gpu-layers");
    reveal_strlit("--spec-type");
    reveal_strlit("draft-mtp");
    reveal_strlit("--spec-draft-n-max");
    reveal_strlit("--flash-attn");
    reveal_strlit("-fa");
    reveal_strlit("--flash-attn=");
    reveal_strlit("--mmproj");
    reveal_strlit("--models-preset");
    reveal_strlit("--models-max");
    reveal_strlit("-");
    let c = l.config;
    let t = command_parts(l);
    lemma_command_parts_shape(l);
    let b: int = if c.model_name.len() > 0 {
        3
    } else {
        1
    };
    let e: int = if c.mtp_enabled {
        b + 12
    } else {
        b + 8
    };
    let f: int = if c.flash_attn != "auto"@ {
        e + 2
    } else {
        e
    };
    assert(plain_word("-m"@));
    assert(plain_word("--host"@));
    assert(plain_word("--port"@));
    assert(plain_word("-c"@));
    assert(plain_word("--n-gpu-layers"@));
    assert(plain_word("--spec-type"@));
    assert(plain_word("draft-mtp"@));
    assert(plain_word("--spec-draft-n-max"@));
    assert(plain_word("--flash-attn"@));
    assert(plain_word("--mmproj"@));
    assert forall|i: int|
        0 <= i < t.len() && !(c.flash_attn != "auto"@ && c.flash_attn.len() == 0 && i == t.len() - 1
            - (if c.mmproj.len() > 0 {
            2int
        } else {
            0int
        })) implies plain_word(#[trigger] t[i]) by {
        if c.model_name.len() > 0 && i < 3 {
        } else if i == 0 {
        } else if i < b + 8 {
            let d = i - b;
            assert(0 <= d < 8);
            if d == 0 || d == 2 || d == 4 || d == 6 {
            }
        } else if c.mtp_enabled && i < b + 12 {
        } else if c.flash_attn != "auto"@ && i < f {
        } else {
        }
    }
}

/// Two texts joined by a space split into the words of the first and then those of the second.
pub proof fn lemma_words_concat_space(a: Seq<char>, b: Seq<char>)
    ensures
        words(a + " "@ + b) == words(a) + words(b),
    decreases a.len(),
{
    reveal_strlit(" ");
    let t = a + " "@ + b;
    if a.len() == 0 {
        assert(t[0] == ' ');
        assert(t.drop_first() =~= b);
        assert(words(t) == words(t.drop_first()));
        assert(words(a) + words(b) =~= words(b));
    } else if is_ws(a[0]) {
        assert(t[0] == a[0]);
        assert(t.drop_first() =~= a.drop_first() + " "@ + b);
        lemma_words_concat_space(a.drop_first(), b);
        assert(words(t) == words(t.drop_first()));
        assert(words(a) == words(a.drop_first()));
    } else {
        lemma_word_len_props(a);
        crate::text::lemma_word_len(a);
        let n = word_len(a) as int;
        assert(n > 0);
        assert(t[0] == a[0]);
        assert forall|k: int| 0 <= k < n implies !is_ws(t[k]) by {
            assert(t[k] == a[k]);
        }
        if n < a.len() {
            assert(t[n] == a[n]);
        } else {
            assert(t[n] == ' ');
        }
        lemma_word_len_exact(t, n);
        assert(word_len(t) == n);
        let ra = a.subrange(n, a.len() as int);
        assert(t.subrange(0, n) =~= a.subrange(0, n));
        assert(t.subrange(n, t.len() as int) =~= ra + " "@ + b);
        lemma_words_concat_space(ra, b);
        assert(words(t) == seq![t.subrange(0, n)] + words(t.subrange(n, t.len() as int)));
        assert(words(a) == seq![a.subrange(0, n)] + words(ra));
        assert(words(t) =~= words(a) + words(b));
    }
}

/// A text that ends with a space splits into the same words as without it.
proof fn lemma_words_trailing_space(s: Seq<char>)
    ensures
        words(s + " "@) == words(s),
    decreases s.len(),
{
    reveal_strlit(" ");
    let t = s + " "@;
    if s.len() == 0 {
        assert(t.drop_first() =~= Seq::<char>::empty());
        assert(t.len() == 1 && is_ws(t[0]));
        assert(words(t) == words(t.drop_first()));
        assert(words(t) == words(s));
    } else if is_ws(s[0]) {
        assert(t[0] == s[0]);
        assert(t.drop_first() =~= s.drop_first() + " "@);
        lemma_words_trailing_space(s.drop_first());
        assert(words(t) == words(t.drop_first()));
        assert(words(s) == words(s.drop_first()));
        assert(words(t) == words(s));
    } else {
        lemma_word_len_props(s);
        crate::text::lemma_word_len(s);
        let n = word_len(s) as int;
        assert(n > 0);
        assert(t[0] == s[0]);
        assert forall|k: int| 0 <= k < n implies !is_ws(t[k]) by {
            assert(t[k] == s[k]);
        }
        if n < s.len() {
            assert(t[n] == s[n]);
        } else {
            assert(t[n] == ' ');
        }
        lemma_word_len_exact(t, n);
        assert(word_len(t) == n);
        assert(t.subrange(0, n) =~= s.subrange(0, n));
        assert(t.subrange(n, t.len() as int) =~= s.subrange(n, s.len() as int) + " "@);
        lemma_words_trailing_space(s.subrange(n, s.len() as int));
        assert(words(t) == seq![t.subrange(0, n)] + words(t.subrange(n, t.len() as int)));
        assert(words(s) == seq![s.subrange(0, n)] + words(s.subrange(n, s.len() as int)));
        assert(words(t) == words(s));
    }
}

/// The command line that the window shows reads back as the settings it shows.
pub proof fn law_command_reads_back(l: LauncherView, config_ini_path: Seq<char>)
    requires
        command_reads_back(l),
    ensures
        parsed_command(l, generated_command(l, config_ini_path)) == l,
{
    lemma_flag_facts();
    reveal_strlit("-");
    reveal_strlit(" ");
    let c = l.config;
    let t = command_parts(l);
    lemma_command_parts_shape(l);
    lemma_command_parts_plain(l);
    let b: int = if c.model_name.len() > 0 {
        3
    } else {
        1
    };
    let e: int = if c.mtp_enabled {
        b + 12
    } else {
        b + 8
    };
    let f: int = if c.flash_attn != "auto"@ {
        e + 2
    } else {
        e
    };
    let empty_flash = c.flash_attn != "auto"@ && c.flash_attn.len() == 0;
    let w = if empty_flash {
        t.drop_last()
    } else {
        t
    };
    if empty_flash {
        assert forall|i: int| 0 <= i < w.len() implies plain_word(#[trigger] w[i]) by {
            assert(w[i] == t[i]);
        }
        lemma_words_of_join(w);
        assert(t.len() >= 2);
        assert(t.last() == Seq::<char>::empty());
        assert(join(t, " "@) =~= join(w, " "@) + " "@);
        lemma_words_trailing_space(join(w, " "@));
    } else {
        lemma_words_of_join(t);
    }
    assert(words(generated_command(l, config_ini_path)) == w);
    assert forall|k: int| 0 <= k < w.len() implies #[trigger] w[k] == t[k] by {}
    assert(w[0] == c.executable);
    assert(parse_words_from(w, 0, l) == parse_words_from(w, 1, l));
    if c.model_name.len() > 0 {
        assert(w[1] == t[1]);
        assert(parse_words_from(w, 1, l) == parse_words_from(w, 3, l));
    }
    assert(w[b] == t[b] && w[b + 1] == t[b + 1] && w[b + 2] == t[b + 2] && w[b + 3] == t[b + 3]);
    assert(w[b + 4] == t[b + 4] && w[b + 5] == t[b + 5] && w[b + 6] == t[b + 6] && w[b + 7] == t[b + 7]);
    assert(parse_words_from(w, b as nat, l) == parse_words_from(w, (b + 2) as nat, l));
    assert(parse_words_from(w, (b + 2) as nat, l) == parse_words_from(w, (b + 4) as nat, l));
    assert(parse_words_from(w, (b + 4) as nat, l) == parse_words_from(w, (b + 6) as nat, l));
    assert(parse_words_from(w, (b + 6) as nat, l) == parse_words_from(w, (b + 8) as nat, l));
    if c.mtp_enabled {
        assert(w[b + 8] == t[b + 8] && w[b + 9] == t[b + 9] && w[b + 10] == t[b + 10] && w[b + 11] == t[b + 11]);
        assert(parse_words_from(w, (b + 8) as nat, l) == parse_words_from(w, (b + 10) as nat, l));
        assert(parse_words_from(w, (b + 10) as nat, l) == parse_words_from(w, (b + 12) as nat, l));
    }
    if c.flash_attn != "auto"@ {
        assert(w[e] == t[e]);
        if empty_flash {
            assert(w.len() == e + 1);
            assert(parse_words_from(w, e as nat, l) == parse_words_from(w, (e + 1) as nat, l));
        } else {
            assert(w[e + 1] == t[e + 1]);
            assert(!starts_with(c.flash_attn, "-"@)) by {
                if starts_with(c.flash_attn, "-"@) {
                    assert(c.flash_attn.subrange(0, 1)[0] == c.flash_attn[0]);
                }
            }
            assert(parse_words_from(w, e as nat, l) == parse_words_from(w, (e + 2) as nat, l));
        }
    }
    assert(parse_words_from(w, w.len(), l) == l);
}

/// The words of the shown command line, at the front of a longer line, give no extra arguments
/// (when the flash-attention value is `auto`, `on` or `off`).
proof fn lemma_extra_words_skip_parts(l: LauncherView, t: Seq<Seq<char>>)
    requires
        shown_words_plain(l),
        is_flash_attn_value(l.config.flash_attn),
        command_parts(l).len() <= t.len(),
        forall|k: int| 0 <= k < command_parts(l).len() ==> #[trigger] t[k] == command_parts(l)[k],
    ensures
        extra_words_from(t, 0) == extra_words_from(t, command_parts(l).len()),
{
    lemma_flag_facts();
    reveal_strlit("-");
    let c = l.config;
    let p = command_parts(l);
    lemma_command_parts_shape(l);
    assert(p.len() >= 9);
    let b: int = if c.model_name.len() > 0 {
        3
    } else {
        1
    };
    let e: int = if c.mtp_enabled {
        b + 12
    } else {
        b + 8
    };
    let f: int = if c.flash_attn != "auto"@ {
        e + 2
    } else {
        e
    };
    assert(t[0] == p[0]);
    assert(extra_words_from(t, 0) == extra_words_from(t, 1));
    if c.model_name.len() > 0 {
        assert(t[1] == p[1]);
        assert(is_known_flag(t[1]));
        assert(t[1] != "--flash-attn"@);
        assert(extra_words_from(t, 1) == extra_words_from(t, 3));
    }
    assert(t[b] == p[b] && t[b + 2] == p[b + 2] && t[b + 4] == p[b + 4] && t[b + 6] == p[b + 6]);
    assert(is_known_flag(t[b]));
    assert(t[b] != "--flash-attn"@);
    assert(extra_words_from(t, b as nat) == extra_words_from(t, (b + 2) as nat));
    assert(is_known_flag(t[b + 2]));
    assert(extra_words_from(t, (b + 2) as nat) == extra_words_from(t, (b + 4) as nat));
    assert(is_known_flag(t[b + 4]));
    assert(extra_words_from(t, (b + 4) as nat) == extra_words_from(t, (b + 6) as nat));
    assert(is_known_flag(t[b + 6]));
    assert(extra_words_from(t, (b + 6) as nat) == extra_words_from(t, (b + 8) as nat));
    if c.mtp_enabled {
        assert(t[b + 8] == p[b + 8] && t[b + 10] == p[b + 10]);
        assert(is_known_flag(t[b + 8]));
        assert(extra_words_from(t, (b + 8) as nat) == extra_words_from(t, (b + 10) as nat));
        assert(is_known_flag(t[b + 10]));
        assert(extra_words_from(t, (b + 10) as nat) == extra_words_from(t, (b + 12) as nat));
    }
    if c.flash_attn != "auto"@ {
        assert(t[e] == p[e] && t[e + 1] == p[e + 1]);
        assert(is_known_flag(t[e]));
        assert(extra_words_from(t, e as nat) == extra_words_from(t, (e + 2) as nat));
    }
    if c.mmproj.len() > 0 {
        assert(t[f] == p[f]);
        assert(is_known_flag(t[f]));
        assert(t[f] != "--flash-attn"@);
        assert(extra_words_from(t, f as nat) == extra_words_from(t, (f + 2) as nat));
    }
}

/// Past the first word, words that are no known flags are all extra.
proof fn lemma_extra_words_tail(t: Seq<Seq<char>>, f: nat)
    requires
        0 < f <= t.len(),
        forall|j: int| f <= j < t.len() ==> !is_known_flag(#[trigger] t[j]),
    ensures
        extra_words_from(t, f) == t.subrange(f as int, t.len() as int),
    decreases t.len() - f,
{
    if f < t.len() {
        lemma_extra_words_tail(t, f + 1);
        assert(seq![t[f as int]] + t.subrange(f as int + 1, t.len() as int) =~= t.subrange(
            f as int,
            t.len() as int,
        ));
    } else {
        assert(t.subrange(f as int, t.len() as int) =~= Seq::<Seq<char>>::empty());
    }
}

/// The command line that the window shows has no extra arguments, when its flash-attention
/// value is `auto`, `on` or `off`.
pub proof fn law_command_has_no_extras(l: LauncherView, config_ini_path: Seq<char>)
    requires
        shown_words_plain(l),
        is_flash_attn_value(l.config.flash_attn),
    ensures
        extra_args_of(generated_command(l, config_ini_path)).len() == 0,
{
    reveal_strlit("on");
    reveal_strlit("off");
    reveal_strlit("auto");
    let t = command_parts(l);
    lemma_command_parts_plain(l);
    lemma_words_of_join(t);
    assert forall|k: int| 0 <= k < t.len() implies #[trigger] t[k] == t[k] by {}
    lemma_extra_words_skip_parts(l, t);
    assert(extra_words_from(t, t.len()) == Seq::<Seq<char>>::empty());
}

/// Whatever is typed after the shown command line gives exactly its own words, single-spaced,
/// as the extra arguments, when none of its words is a flag of the launcher's own (and the
/// flash-attention value is `auto`, `on` or `off`).
pub proof fn law_typed_extras_are_extracted(
    l: LauncherView,
    config_ini_path: Seq<char>,
    typed: Seq<char>,
)
    requires
        shown_words_plain(l),
        is_flash_attn_value(l.config.flash_attn),
        forall|i: int| 0 <= i < words(typed).len() ==> !is_known_flag(#[trigger] words(typed)[i]),
    ensures
        extra_args_of(generated_command(l, config_ini_path) + " "@ + typed) == join(
            words(typed),
            " "@,
        ),
{
    reveal_strlit("on");
    reveal_strlit("off");
    reveal_strlit("auto");
    let p = command_parts(l);
    lemma_command_parts_plain(l);
    lemma_words_of_join(p);
    let es = words(typed);
    lemma_words_concat_space(join(p, " "@), typed);
    let t = p + es;
    assert(words(generated_command(l, config_ini_path) + " "@ + typed) == t);
    assert forall|k: int| 0 <= k < p.len() implies #[trigger] t[k] == p[k] by {}
    lemma_extra_words_skip_parts(l, t);
    assert forall|j: int| p.len() <= j < t.len() implies !is_known_flag(#[trigger] t[j]) by {
        assert(t[j] == es[j - p.len()]);
    }
    lemma_command_parts_shape(l);
    lemma_extra_words_tail(t, p.len());
    assert(t.subrange(p.len() as int, t.len() as int) =~= es);
}

/// The words of a text are plain words.
proof fn lemma_words_plain(s: Seq<char>)
    ensures
        forall|i: int| 0 <= i < words(s).len() ==> plain_word(#[trigger] words(s)[i]),
    decreases s.len(),
{
    if s.len() > 0 {
        if is_ws(s[0]) {
            lemma_words_plain(s.drop_first());
            assert(words(s) == words(s.drop_first()));
        } else {
            lemma_word_len_props(s);
            crate::text::lemma_word_len(s);
            let n = word_len(s) as int;
            let rest = s.subrange(n, s.len() as int);
            lemma_words_plain(rest);
            let w = s.subrange(0, n);
            assert forall|k: int| 0 <= k < w.len() implies !is_ws(#[trigger] w[k]) by {
                assert(w[k] == s[k]);
            }
            assert(plain_word(w));
            assert(words(s) == seq![w] + words(rest));
            assert forall|i: int| 0 <= i < words(s).len() implies plain_word(#[trigger] words(s)[i]) by {
                if i > 0 {
                    assert(words(s)[i] == words(rest)[i - 1]);
                }
            }
        }
    }
}

/// The extra words of a list of words are among its plain words and are no known flags.
proof fn lemma_extra_words_plain(t: Seq<Seq<char>>, i: nat)
    requires
        forall|j: int| 0 <= j < t.len() ==> plain_word(#[trigger] t[j]),
    ensures
        forall|k: int|
            0 <= k < extra_words_from(t, i).len() ==> plain_word(#[trigger] extra_words_from(t, i)[k])
                && !is_known_flag(extra_words_from(t, i)[k]),
    decreases t.len() - i,
{
    if i < t.len() {
        if is_known_flag(t[i as int]) {
            let takes_value = if t[i as int] == "--flash-attn"@ {
                i + 1 < t.len() && is_flash_attn_value(t[i + 1int])
            } else {
                i + 1 < t.len()
            };
            if takes_value {
                lemma_extra_words_plain(t, i + 2);
                assert(extra_words_from(t, i) == extra_words_from(t, i + 2));
            } else {
                lemma_extra_words_plain(t, i + 1);
                assert(extra_words_from(t, i) == extra_words_from(t, i + 1));
            }
        } else {
            lemma_extra_words_plain(t, i + 1);
            if i == 0 {
                assert(extra_words_from(t, i) == extra_words_from(t, i + 1));
            }
            if i > 0 {
                let r = extra_words_from(t, i + 1);
                assert(extra_words_from(t, i) == seq![t[i as int]] + r);
                assert forall|k: int| 0 <= k < extra_words_from(t, i).len() implies plain_word(
                    #[trigger] extra_words_from(t, i)[k],
                ) && !is_known_flag(extra_words_from(t, i)[k]) by {
                    if k > 0 {
                        assert(extra_words_from(t, i)[k] == r[k - 1]);
                    }
                }
            }
        }
    }
}

/// The extra arguments of a command line, put after a program word that is not one of the
/// launcher's own flags, are again exactly the extra arguments.
pub proof fn law_extras_extract_again(command_text: Seq<char>, program: Seq<char>)
    requires
        plain_word(program),
        !is_known_flag(program),
    ensures
        extra_args_of(program + " "@ + extra_args_of(command_text)) == extra_args_of(command_text),
{
    reveal_strlit(" ");
    let ws = words(command_text);
    let es = extra_words_from(ws, 0);
    lemma_words_plain(command_text);
    lemma_extra_words_plain(ws, 0);
    let t = seq![program] + es;
    assert forall|i: int| 0 <= i < t.len() implies plain_word(#[trigger] t[i]) by {
        if i > 0 {
            assert(t[i] == es[i - 1]);
        }
    }
    if es.len() == 0 {
        assert(join(es, " "@) == Seq::<char>::empty());
        assert(program + " "@ + join(es, " "@) =~= program + " "@);
        lemma_words_trailing_space(program);
        assert(t =~= seq![program]);
        lemma_words_of_join(t);
        assert(join(t, " "@) == program);
        assert(extra_words_from(t, 0) == extra_words_from(t, 1));
        assert(extra_words_from(t, 1) == Seq::<Seq<char>>::empty());
    } else {
        lemma_join_front(t, " "@);
        assert(t.drop_first() =~= es);
        assert(t[0] == program);
        lemma_words_of_join(t);
        assert(program + " "@ + join(es, " "@) == join(t, " "@));
        assert(extra_words_from(t, 0) == extra_words_from(t, 1));
        assert forall|j: int| 1 <= j < t.len() implies !is_known_flag(#[trigger] t[j]) by {
            assert(t[j] == es[j - 1]);
        }
        lemma_extra_words_tail(t, 1);
        assert(t.subrange(1, t.len() as int) =~= es);
    }
}

proof fn lemma_digit_round_trip(d: nat)
    requires
        d < 10,
    ensures
        is_digit(digit_of(d)),
        digit_value(digit_of(d)) == d,
{
    assert((d + 48) as char as int == d + 48);
}

/// A number written in decimal reads back as itself.
pub proof fn lemma_decimal_reads_back(n: nat)
    ensures
        decimal(n).len() > 0,
        all_digits(decimal(n)),
        digits_value(decimal(n)) == n,
        decimal(n)[0] != '+',
    decreases n,
{
    if n < 10 {
        lemma_digit_round_trip(n);
        let s = decimal(n);
        assert(s == seq![digit_of(n)]);
        assert(s.drop_last() =~= Seq::<char>::empty());
        assert(digits_value(s.drop_last()) == 0);
        assert(digits_value(s) == digit_value(digit_of(n)));
    } else {
        lemma_decimal_reads_back(n / 10);
        lemma_digit_round_trip(n % 10);
        let d = decimal(n / 10);
        let s = decimal(n);
        assert(s == d.push(digit_of(n % 10)));
        assert(s.drop_last() =~= d);
        assert forall|i: int| 0 <= i < s.len() implies is_digit(#[trigger] s[i]) by {
            if i < d.len() {
                assert(s[i] == d[i]);
            }
        }
        assert(s[0] == d[0]);
        assert(s.last() == digit_of(n % 10));
        assert(digits_value(s) == digits_value(d) * 10 + digit_value(digit_of(n % 10)));
        assert((n / 10) * 10 + n % 10 == n);
    }
}

/// `parse` of what `to_string` wrote gives the number back, when it fits the type.
pub proof fn law_decimal_parses_back(n: nat, max: nat)
    requires
        n <= max,
    ensures
        parse_unsigned(decimal(n), max) == Some(n),
{
    lemma_decimal_reads_back(n);
}

/// Numeric fields that show the settings' numbers give the same settings back when taken.
pub proof fn law_shown_numbers_read_back(l: LauncherView)
    requires
        shows_numbers_of(l, l.config),
    ensures
        numbers_taken(l) == l,
{
    let c = l.config;
    law_decimal_parses_back(c.port as nat, 0xFFFF);
    law_decimal_parses_back(c.n_gpu_layers as nat, 0xFFFF_FFFF);
    law_decimal_parses_back(c.ctx_size as nat, 0xFFFF_FFFF);
    law_decimal_parses_back(c.spec_draft_n_max as nat, 0xFFFF_FFFF);
    law_decimal_parses_back(c.models_max as nat, 0xFFFF_FFFF);
    assert(numbers_taken(l).config == c);
}

/// The log never holds more than 200 lines, and its last line is the one just added.
pub proof fn law_log_bounded(logs: Seq<Seq<char>>, msg: Seq<char>)
    requires
        logs.len() <= 200,
    ensures
        log_after(logs, msg).len() <= 200,
        log_after(logs, msg).last() == msg,
        logs.len() < 200 ==> log_after(logs, msg) == logs.push(msg),
{
}


// ---------------------------------------------------------------------------
// Reading `--spec-type`; the value of `--flash-attn` is no extra argument
// ---------------------------------------------------------------------------

/// A word that reading a command line takes as one of its flags.
pub open spec fn is_read_flag(w: Seq<char>) -> bool {
    is_known_flag(w) || w == "-fa"@
}

/// A single word splits into itself.
proof fn lemma_words_one(w: Seq<char>)
    requires
        plain_word(w),
    ensures
        words(w) == seq![w],
{
    lemma_words_of_join(seq![w]);
    assert(join(seq![w], " "@) == w);
}

/// Words joined by spaces, three of them.
proof fn lemma_words_three(a: Seq<char>, b: Seq<char>, c: Seq<char>)
    requires
        plain_word(a),
        plain_word(b),
        plain_word(c),
    ensures
        words(a + " "@ + b + " "@ + c) == seq![a, b, c],
{
    lemma_words_one(a);
    lemma_words_one(b);
    lemma_words_one(c);
    lemma_words_concat_space(b, c);
    lemma_words_concat_space(a, b + " "@ + c);
    assert(a + " "@ + b + " "@ + c =~= a + " "@ + (b + " "@ + c));
    assert(seq![a] + (seq![b] + seq![c]) =~= seq![a, b, c]);
}

/// After a program word, `--spec-type` and a value turn MTP on exactly when the value is
/// `draft-mtp` (whatever it was before), and `--spec-type` as the last word turns it off;
/// nothing else changes.
pub proof fn law_spec_type_decides(l: LauncherView, program: Seq<char>, value: Seq<char>)
    requires
        plain_word(program),
        !is_read_flag(program),
        plain_word(value),
    ensures
        parsed_command(l, program + " --spec-type "@ + value) == with_config(
            l,
            ConfigView { mtp_enabled: value == "draft-mtp"@, ..l.config },
        ),
        parsed_command(l, program + " --spec-type"@) == with_config(
            l,
            ConfigView { mtp_enabled: false, ..l.config },
        ),
{
    reveal_strlit(" --spec-type ");
    reveal_strlit(" --spec-type");
    reveal_strlit("--spec-type");
    reveal_strlit(" ");
    lemma_flag_facts();
    let f = "--spec-type"@;
    assert(plain_word(f));
    lemma_words_three(program, f, value);
    assert(program + " --spec-type "@ + value =~= program + " "@ + f + " "@ + value);
    let t = seq![program, f, value];
    assert(t[0] == program && t[1] == f && t[2] == value);
    assert(parse_words_from(t, 0, l) == parse_words_from(t, 1, l));
    let l2 = with_config(l, ConfigView { mtp_enabled: value == "draft-mtp"@, ..l.config });
    assert(parse_words_from(t, 1, l) == parse_words_from(t, 3, l2));
    assert(parse_words_from(t, 3, l2) == l2);
    lemma_words_one(program);
    lemma_words_one(f);
    lemma_words_concat_space(program, f);
    assert(program + " --spec-type"@ =~= program + " "@ + f);
    let u = seq![program, f];
    assert(seq![program] + seq![f] =~= u);
    assert(parse_words_from(u, 0, l) == parse_words_from(u, 1, l));
    let l3 = with_config(l, ConfigView { mtp_enabled: false, ..l.config });
    assert(parse_words_from(u, 1, l) == parse_words_from(u, 3, l3));
    assert(parse_words_from(u, 3, l3) == l3);
}

/// Scanning for extra words from a position past the first word depends only on the words from
/// that position on.
proof fn lemma_extra_words_shift(t: Seq<Seq<char>>, i: nat, u: Seq<Seq<char>>, j: nat)
    requires
        0 < i <= t.len(),
        0 < j <= u.len(),
        t.subrange(i as int, t.len() as int) == u.subrange(j as int, u.len() as int),
    ensures
        extra_words_from(t, i) == extra_words_from(u, j),
    decreases t.len() - i,
{
    let n = t.len() - i;
    assert(t.subrange(i as int, t.len() as int).len() == n);
    assert(u.subrange(j as int, u.len() as int).len() == u.len() - j);
    assert(u.len() - j == n);
    if i < t.len() {
        assert(t[i as int] == t.subrange(i as int, t.len() as int)[0]);
        assert(u[j as int] == u.subrange(j as int, u.len() as int)[0]);
        if i + 1 < t.len() {
            assert(t[i as int + 1] == t.subrange(i as int, t.len() as int)[1]);
            assert(u[j as int + 1] == u.subrange(j as int, u.len() as int)[1]);
        }
        assert(t.subrange(i as int + 1, t.len() as int) =~= t.subrange(i as int, t.len() as int).drop_first());
        assert(u.subrange(j as int + 1, u.len() as int) =~= u.subrange(j as int, u.len() as int).drop_first());
        lemma_extra_words_shift(t, i + 1, u, j + 1);
        if i + 2 <= t.len() {
            assert(t.subrange(i as int + 2, t.len() as int) =~= t.subrange(i as int, t.len() as int).subrange(2, n as int));
            assert(u.subrange(j as int + 2, u.len() as int) =~= u.subrange(j as int, u.len() as int).subrange(2, n as int));
            lemma_extra_words_shift(t, i + 2, u, j + 2);
        }
    }
}

/// The value `on`, `off` or `auto` right after `--flash-attn` is no extra argument: after a
/// program word, `--flash-attn` with such a value, put before any further text, changes the
/// extra arguments in nothing.
pub proof fn law_flash_attn_value_not_extra(program: Seq<char>, value: Seq<char>, rest: Seq<char>)
    requires
        plain_word(program),
        !is_known_flag(program),
        value == "on"@ || value == "off"@ || value == "auto"@,
    ensures
        extra_args_of(program + " --flash-attn "@ + value + " "@ + rest) == extra_args_of(
            program + " "@ + rest,
        ),
{
    reveal_strlit(" --flash-attn ");
    reveal_strlit("--flash-attn");
    reveal_strlit(" ");
    reveal_strlit("on");
    reveal_strlit("off");
    reveal_strlit("auto");
    lemma_flag_facts();
    let f = "--flash-attn"@;
    assert(plain_word(f));
    assert(plain_word(value));
    lemma_words_one(program);
    lemma_words_one(f);
    lemma_words_one(value);
    lemma_words_concat_space(value, rest);
    lemma_words_concat_space(f, value + " "@ + rest);
    lemma_words_concat_space(program, f + " "@ + (value + " "@ + rest));
    lemma_words_concat_space(program, rest);
    let text = program + " --flash-attn "@ + value + " "@ + rest;
    assert(text =~= program + " "@ + (f + " "@ + (value + " "@ + rest)));
    let wr = words(rest);
    let t = seq![program] + (seq![f] + (seq![value] + wr));
    let u = seq![program] + wr;
    assert(words(text) == t);
    assert(t[0] == program && t[1] == f && t[2] == value);
    assert(is_known_flag(f));
    assert(extra_words_from(t, 0) == extra_words_from(t, 1));
    assert(extra_words_from(t, 1) == extra_words_from(t, 3));
    assert(u[0] == program);
    assert(extra_words_from(u, 0) == extra_words_from(u, 1));
    assert(t.subrange(3, t.len() as int) =~= wr);
    assert(u.subrange(1, u.len() as int) =~= wr);
    lemma_extra_words_shift(t, 3, u, 1);
}

} // verus!
