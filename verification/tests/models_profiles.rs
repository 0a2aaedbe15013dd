use llamacpp_launcher::basic_config;
use llamacpp_launcher::config::Config;
use llamacpp_launcher::models::{list_mmproj_models, list_models, sort_names};
use llamacpp_launcher::profiles::{
    delete_profile, load_profiles, save_profile, JsonLeaf, JsonNode, NamedMap, ProfileFile,
    Profiles, StoredEntry,
};

fn strings(v: &[&str]) -> Vec<String> {
    v.iter().map(|s| s.to_string()).collect()
}

#[test]
fn sort_names_orders_by_characters() {
    assert_eq!(
        sort_names(strings(&["b", "a", "B", "ab", "a", ""])),
        strings(&["", "B", "a", "a", "ab", "b"])
    );
}

#[test]
fn list_models_skips_projectors_and_other_files() {
    let files = strings(&["z.gguf", "a.gguf", "mmproj-a.gguf", "notes.txt", "b.gguf.gguf", "x.GGUF"]);
    assert_eq!(list_models(&files), strings(&["a", "b", "z"]));
    assert_eq!(list_mmproj_models(&files), strings(&["mmproj-a"]));
    assert!(list_models(&Vec::new()).is_empty());
}

#[test]
fn single_profile_list_models_keeps_projectors() {
    let files = strings(&["z.gguf", "mmproj-a.gguf", "readme"]);
    assert_eq!(basic_config::list_models(&files), strings(&["mmproj-a", "z"]));
}

#[test]
fn single_profile_load_config_fills_defaults() {
    let d = basic_config::load_config(None);
    assert_eq!(d.host, "127.0.0.1");
    assert_eq!(d.port, 11433);
    assert_eq!(d.ctx_size, 4096);
    assert!(!d.flash_attn);
    let parsed = basic_config::Config {
        executable: "srv".to_string(),
        model_dir: "/m".to_string(),
        model_name: "x".to_string(),
        host: String::new(),
        port: 0,
        n_gpu_layers: 7,
        ctx_size: 0,
        mtp_enabled: true,
        flash_attn: true,
    };
    let c = basic_config::load_config(Some(parsed));
    assert_eq!(c.host, "127.0.0.1");
    assert_eq!(c.port, 11433);
    assert_eq!(c.ctx_size, 4096);
    assert_eq!(c.n_gpu_layers, 7);
    assert_eq!(c.executable, "srv");
    assert!(c.mtp_enabled && c.flash_attn);
}

#[test]
fn named_map_insert_get_remove() {
    let mut m: Profiles = NamedMap::new();
    let mut a = Config::default();
    a.port = 1;
    m.insert("a".to_string(), a);
    let mut b = Config::default();
    b.port = 2;
    m.insert("b".to_string(), b);
    let mut a2 = Config::default();
    a2.port = 3;
    m.insert("a".to_string(), a2);
    assert_eq!(m.len(), 2);
    assert_eq!(m.get("a").map(|c| c.port), Some(3));
    assert_eq!(m.get("b").map(|c| c.port), Some(2));
    assert!(m.contains("b") && !m.contains("c"));
    m.remove("a");
    assert!(!m.contains("a"));
    assert_eq!(m.len(), 1);
    let (name, cfg) = m.entry(0);
    assert_eq!(name, "b");
    assert_eq!(cfg.port, 2);
    assert_eq!(m.take("b").map(|c| c.port), Some(2));
    assert_eq!(m.len(), 0);
}

fn entry(key: &str, port: Option<u16>, last: Option<&str>) -> StoredEntry {
    StoredEntry {
        key: key.to_string(),
        config: port.map(|p| {
            let mut c = Config::default();
            c.port = p;
            c
        }),
        last_profile: last.map(|s| s.to_string()),
    }
}

#[test]
fn load_profiles_reads_meta_and_settings() {
    let (profiles, last) = load_profiles(vec![
        entry("__meta__", None, Some("Local Dev")),
        entry("Local Dev", Some(8080), None),
        entry("broken", None, None),
        entry("Other", Some(9000), None),
    ]);
    assert_eq!(last, "Local Dev");
    assert_eq!(profiles.len(), 2);
    assert_eq!(profiles.get("Local Dev").map(|c| c.port), Some(8080));
    assert!(!profiles.contains("broken"));
}

#[test]
fn load_profiles_forgets_unknown_last_profile() {
    let (profiles, last) = load_profiles(vec![
        entry("a", Some(1), None),
        entry("__meta__", None, Some("gone")),
    ]);
    assert_eq!(last, "");
    assert_eq!(profiles.len(), 1);
    let (none, last2) = load_profiles(Vec::new());
    assert_eq!(none.len(), 0);
    assert_eq!(last2, "");
}

fn leaf_str(s: &str) -> JsonLeaf {
    JsonLeaf::Str(s.to_string())
}

fn settings(port: &str) -> JsonNode {
    let mut f: NamedMap<JsonLeaf> = NamedMap::new();
    f.insert("port".to_string(), JsonLeaf::Raw(port.to_string()));
    JsonNode::Object(f)
}

fn meta_last(doc: &ProfileFile) -> Option<String> {
    match doc {
        ProfileFile::Object(m) => match m.get("__meta__") {
            Some(JsonNode::Object(f)) => match f.get("last_profile") {
                Some(JsonLeaf::Str(s)) => Some(s.clone()),
                _ => None,
            },
            _ => None,
        },
        ProfileFile::Other(_) => None,
    }
}

fn has_key(doc: &ProfileFile, k: &str) -> bool {
    match doc {
        ProfileFile::Object(m) => m.contains(k),
        ProfileFile::Other(_) => false,
    }
}

#[test]
fn save_profile_stores_settings_and_last_profile() {
    let mut meta: NamedMap<JsonLeaf> = NamedMap::new();
    meta.insert("other".to_string(), leaf_str("kept"));
    let mut m: NamedMap<JsonNode> = NamedMap::new();
    m.insert("__meta__".to_string(), JsonNode::Object(meta));
    m.insert("old".to_string(), settings("1"));
    let doc = save_profile(ProfileFile::Object(m), "new", Some(settings("2")), "new");
    assert!(has_key(&doc, "new") && has_key(&doc, "old"));
    assert_eq!(meta_last(&doc), Some("new".to_string()));
    match &doc {
        ProfileFile::Object(m) => match m.get("__meta__") {
            Some(JsonNode::Object(f)) => assert!(matches!(f.get("other"), Some(JsonLeaf::Str(s)) if s == "kept")),
            _ => panic!("meta missing"),
        },
        _ => panic!("not an object"),
    }
    let kept = save_profile(ProfileFile::Other(leaf_str("x")), "p", Some(settings("1")), "p");
    assert!(matches!(kept, ProfileFile::Other(JsonLeaf::Str(ref s)) if s == "x"));
}

#[test]
fn save_profile_without_settings_only_records_last() {
    let doc = save_profile(ProfileFile::Object(NamedMap::new()), "p", None, "q");
    assert!(!has_key(&doc, "p"));
    assert_eq!(meta_last(&doc), Some("q".to_string()));
}

#[test]
fn delete_profile_clears_last_profile_of_it() {
    let doc = save_profile(ProfileFile::Object(NamedMap::new()), "p", Some(settings("1")), "p");
    let doc = save_profile(doc, "q", Some(settings("2")), "p");
    let after = delete_profile(doc, "p");
    assert!(!has_key(&after, "p") && has_key(&after, "q"));
    assert_eq!(meta_last(&after), Some(String::new()));
    let doc2 = save_profile(ProfileFile::Object(NamedMap::new()), "p", Some(settings("1")), "q");
    let after2 = delete_profile(doc2, "p");
    assert_eq!(meta_last(&after2), Some("q".to_string()));
}
