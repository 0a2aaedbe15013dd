use llamacpp_launcher::config::{
    add_config_ini_section_if_missing, auto_generate_config_ini, build_ini_section,
    build_model_params, build_wildcard_params, config_file_path_str, config_ini_path_str,
    extract_extra_args, gguf_file_name_of, path_in_dir_of, sync_ini_model_sections,
    update_config_ini_profile, Config, IniFile, IniUpdate,
};
use llamacpp_launcher::ini::{parse_sections, Params};
use llamacpp_launcher::profiles::Profiles;

fn entries(p: &Params) -> Vec<(String, String)> {
    let mut out = Vec::new();
    for i in 0..p.len() {
        let (k, v) = p.entry(i);
        out.push((k.clone(), v.clone()));
    }
    out
}

fn pairs(v: &[(&str, &str)]) -> Vec<(String, String)> {
    v.iter().map(|(a, b)| (a.to_string(), b.to_string())).collect()
}

fn cfg(dir: &str, name: &str) -> Config {
    let mut c = Config::default();
    c.model_dir = dir.to_string();
    c.model_name = name.to_string();
    c
}

fn written(u: IniUpdate) -> String {
    match u {
        IniUpdate::Write(t) => t,
        IniUpdate::Unchanged => panic!("expected a write, got unchanged"),
        IniUpdate::Refused => panic!("expected a write, got refused"),
    }
}

fn is_unchanged(u: &IniUpdate) -> bool {
    matches!(u, IniUpdate::Unchanged)
}

fn is_refused(u: &IniUpdate) -> bool {
    matches!(u, IniUpdate::Refused)
}

#[test]
fn default_config_values() {
    let c = Config::default();
    assert_eq!(c.host, "127.0.0.1");
    assert_eq!(c.port, 11433);
    assert_eq!(c.n_gpu_layers, 30);
    assert_eq!(c.ctx_size, 4096);
    assert!(!c.mtp_enabled);
    assert_eq!(c.spec_draft_n_max, 2);
    assert_eq!(c.flash_attn, "auto");
    assert!(!c.route_mode);
    assert_eq!(c.models_max, 1);
    assert!(c.executable.is_empty() && c.model_dir.is_empty() && c.model_name.is_empty());
    assert!(c.mmproj.is_empty() && c.command_text.is_empty());
}

#[test]
fn duplicate_copies_every_field() {
    let mut c = cfg("/m", "x");
    c.route_mode = true;
    c.command_text = "a b".to_string();
    let d = c.duplicate();
    assert_eq!(d.model_dir, "/m");
    assert_eq!(d.model_name, "x");
    assert!(d.route_mode);
    assert_eq!(d.command_text, "a b");
}

#[test]
fn extract_extra_args_keeps_unknown_words() {
    let cmd = "llama-server -m /a/b.gguf --host 0.0.0.0 --port 8080 --temp 0.7 --flash-attn on -fa auto --jinja";
    assert_eq!(extract_extra_args(cmd), "--temp 0.7 -fa auto --jinja");
}

#[test]
fn extract_extra_args_flash_attn_value_rules() {
    assert_eq!(extract_extra_args("srv --flash-attn 1 --x"), "1 --x");
    assert_eq!(extract_extra_args("srv --flash-attn=on --x --y"), "--y");
    assert_eq!(extract_extra_args("srv --port"), "");
    assert_eq!(extract_extra_args(""), "");
    assert_eq!(extract_extra_args("   --only-program   "), "");
    assert_eq!(extract_extra_args("srv\t--a\n b"), "--a b");
}

#[test]
fn gguf_names_and_paths() {
    assert_eq!(gguf_file_name_of("m"), "m.gguf");
    assert_eq!(gguf_file_name_of("m.gguf"), "m.gguf");
    assert_eq!(path_in_dir_of("/models//", "m.gguf"), "/models/m.gguf");
    assert_eq!(path_in_dir_of("", "m.gguf"), "/m.gguf");
}

#[test]
fn wildcard_params_follow_settings() {
    let c = Config::default();
    assert_eq!(
        entries(&build_wildcard_params(&c)),
        pairs(&[("ctx-size", "4096"), ("models-max", "1"), ("n-gpu-layers", "30")])
    );
    let mut c2 = Config::default();
    c2.flash_attn = "on".to_string();
    c2.mtp_enabled = true;
    c2.spec_draft_n_max = 5;
    assert_eq!(
        entries(&build_wildcard_params(&c2)),
        pairs(&[
            ("ctx-size", "4096"),
            ("flash-attn", "on"),
            ("models-max", "1"),
            ("n-gpu-layers", "30"),
            ("spec-draft-n-max", "5"),
            ("spec-type", "draft-mtp")
        ])
    );
}

#[test]
fn build_ini_section_plain() {
    let c = cfg("/models/", "m1");
    assert_eq!(
        build_ini_section("m1", &c, ""),
        "[m1]\nmodel = /models/m1.gguf\nn-gpu-layers = 30\nctx-size = 4096\n"
    );
}

#[test]
fn build_ini_section_full() {
    let mut c = cfg("/models", "m1.gguf");
    c.flash_attn = "on".to_string();
    c.mtp_enabled = true;
    c.mmproj = "mmproj-x".to_string();
    assert_eq!(
        build_ini_section("m1", &c, "--temp 0.5"),
        "[m1]\nmodel = /models/m1.gguf\nmmproj = mmproj-x\nn-gpu-layers = 30\nctx-size = 4096\nflash-attn = on\nspec-type = draft-mtp\nspec-draft-n-max = 2\nextra-args = --temp 0.5\n"
    );
}

#[test]
fn model_params_use_name_with_extension() {
    let mut c = cfg("/d/", "ignored");
    c.mmproj = "mmproj-a".to_string();
    assert_eq!(
        entries(&build_model_params("m2", &c, "--x")),
        pairs(&[
            ("ctx-size", "4096"),
            ("extra-args", "--x"),
            ("mmproj", "mmproj-a"),
            ("model", "/d/m2.gguf"),
            ("n-gpu-layers", "30")
        ])
    );
}

#[test]
fn auto_generate_creates_missing_file() {
    let c = Config::default();
    let t = written(auto_generate_config_ini(&c, &IniFile::Missing));
    assert_eq!(t, "# version = 1\n\n[*]\nctx-size = 4096\nmodels-max = 1\nn-gpu-layers = 30\n");
    // a second run on what was written leaves it alone
    assert!(is_unchanged(&auto_generate_config_ini(&c, &IniFile::Text(t))));
}

#[test]
fn auto_generate_puts_wildcard_first() {
    let c = Config::default();
    let t = written(auto_generate_config_ini(&c, &IniFile::Text("[m]\nk = v\n".to_string())));
    assert_eq!(
        t,
        "# version = 1\n\n[*]\nctx-size = 4096\nmodels-max = 1\nn-gpu-layers = 30\n\n[m]\nk = v\n"
    );
    assert!(is_unchanged(&auto_generate_config_ini(&c, &IniFile::Text("[*]\n".to_string()))));
    assert!(is_unchanged(&auto_generate_config_ini(&c, &IniFile::Unreadable)));
}

#[test]
fn update_profile_refuses_unknown_model() {
    let c = cfg("/d", "m1");
    let models = vec!["m2".to_string()];
    assert!(is_refused(&update_config_ini_profile("m1", &c, "", &models, &IniFile::Missing)));
}

#[test]
fn update_profile_adds_then_settles() {
    let c = cfg("/d", "m1");
    let models = vec!["m1".to_string()];
    let t = written(update_config_ini_profile("m1", &c, "", &models, &IniFile::Missing));
    assert_eq!(t, "[m1]\nctx-size = 4096\nmodel = /d/m1.gguf\nn-gpu-layers = 30\n");
    assert!(is_unchanged(&update_config_ini_profile("m1", &c, "", &models, &IniFile::Text(t))));
}

#[test]
fn update_profile_replaces_first_section_of_that_name() {
    let c = cfg("/d", "m1");
    let models = vec!["m1".to_string()];
    let ini = IniFile::Text("# version = 1\n\n[*]\na = 1\n\n[m1]\nold = x\n\n[m1]\nsecond = y\n".to_string());
    let t = written(update_config_ini_profile("m1", &c, "--x", &models, &ini));
    assert_eq!(
        t,
        "[*]\na = 1\n\n[m1]\nctx-size = 4096\nextra-args = --x\nmodel = /d/m1.gguf\nn-gpu-layers = 30\n\n[m1]\nsecond = y\n"
    );
}

#[test]
fn add_section_only_when_missing() {
    let c = cfg("/d", "m1");
    let models = vec!["m1".to_string()];
    assert!(is_refused(&add_config_ini_section_if_missing("m1", &c, "", &models, &IniFile::Missing)));
    assert!(is_refused(&add_config_ini_section_if_missing("m1", &c, "", &models, &IniFile::Unreadable)));
    assert!(is_refused(&add_config_ini_section_if_missing("zz", &c, "", &models, &IniFile::Text(String::new()))));
    let ini = IniFile::Text("[*]\na = 1\n".to_string());
    let t = written(add_config_ini_section_if_missing("m1", &c, "", &models, &ini));
    assert_eq!(t, "[*]\na = 1\n\n[m1]\nctx-size = 4096\nmodel = /d/m1.gguf\nn-gpu-layers = 30\n");
    assert!(is_unchanged(&add_config_ini_section_if_missing("m1", &c, "", &models, &IniFile::Text(t))));
}

#[test]
fn sync_adds_missing_models_and_updates_profiles() {
    let current = cfg("/cur", "a");
    let mut p = cfg("/prof", "b");
    p.command_text = "srv -m x --ctx 1".to_string();
    let mut profiles = Profiles::new();
    profiles.insert("b".to_string(), p);
    let models = vec!["*".to_string(), "a".to_string(), "b".to_string()];
    let ini = IniFile::Text("[*]\nk = v\n\n[a]\nkeep = me\n\n[b]\nold = 1\n".to_string());
    let t = written(sync_ini_model_sections(&models, &current, "--e", &profiles, &ini));
    assert_eq!(
        t,
        "# version = 1\n\n[*]\nk = v\n\n[a]\nkeep = me\n\n[b]\nctx-size = 4096\nextra-args = --ctx 1\nmodel = /prof/b.gguf\nn-gpu-layers = 30\n"
    );
    assert!(is_unchanged(&sync_ini_model_sections(&models, &current, "--e", &profiles, &IniFile::Text(t))));
    let t2 = written(sync_ini_model_sections(
        &vec!["c".to_string()],
        &current,
        "--e",
        &profiles,
        &IniFile::Text(String::new()),
    ));
    assert_eq!(t2, "# version = 1\n\n[c]\nctx-size = 4096\nextra-args = --e\nmodel = /cur/c.gguf\nn-gpu-layers = 30\n");
    assert!(is_refused(&sync_ini_model_sections(&models, &current, "", &profiles, &IniFile::Missing)));
    assert!(is_unchanged(&sync_ini_model_sections(&Vec::new(), &current, "", &profiles, &IniFile::Text("[x]\n".to_string()))));
}

#[test]
fn file_paths_join_the_directory() {
    let p = config_ini_path_str("/opt/launcher");
    assert!(p == "/opt/launcher/config.ini" || p == "/opt/launcher\\config.ini");
    let q = config_file_path_str("/opt/launcher/");
    assert_eq!(q, "/opt/launcher/llamacpp_config.json");
    assert_eq!(config_ini_path_str(""), "config.ini");
    let parsed = parse_sections("");
    assert!(parsed.is_empty());
}

#[test]
fn paths_get_a_separator_after_a_plain_directory() {
    let p = config_ini_path_str("/opt/llama");
    assert_ne!(p, "/opt/llamaconfig.ini");
    assert!(p == "/opt/llama/config.ini" || p == "/opt/llama\\config.ini");
}

#[test]
fn extras_extracted_again_after_a_program_word() {
    let r = extract_extra_args("srv --port 1 --temp 0.5 -fa on --x");
    assert_eq!(r, "--temp 0.5 -fa on --x");
    assert_eq!(extract_extra_args(&format!("prog {}", r)), r);
}

#[test]
fn skipped_lines_change_nothing() {
    let d1 = "[a]\nk = v\n[b]\nx = 1\n";
    let d2 = "[a]\n# note\nk = v\n\n  plain words \n[b]\n; c\nx = 1\n";
    let s1 = parse_sections(d1);
    let s2 = parse_sections(d2);
    assert_eq!(s1.len(), s2.len());
    for i in 0..s1.len() {
        assert_eq!(s1[i].name, s2[i].name);
        assert!(s1[i].params.same_as(&s2[i].params));
    }
}

#[test]
fn model_section_agrees_with_wildcard() {
    let mut c = cfg("/d", "m");
    c.flash_attn = "off".to_string();
    c.mtp_enabled = true;
    let text = build_ini_section("m", &c, "");
    let w = build_wildcard_params(&c);
    for k in ["n-gpu-layers", "ctx-size", "flash-attn", "spec-type", "spec-draft-n-max"] {
        let v = w.get(k).unwrap();
        assert!(text.lines().any(|l| l == format!("{} = {}", k, v)));
    }
    assert!(!text.lines().any(|l| l.starts_with("models-max")));
}
