use vstd::prelude::*;

use crate::models::{model_name_of, names_sorted, sort_names};
use crate::text::{chars_ends_with, chars_trim_end_matches, ends_with, from_chars, string_views, to_chars};

verus! {

/// The settings of the single-profile launcher.
pub struct Config {
    pub executable: String,
    pub model_dir: String,
    pub model_name: String,
    pub host: String,
    pub port: u16,
    pub n_gpu_layers: u32,
    pub ctx_size: u32,
    pub mtp_enabled: bool,
    pub flash_attn: bool,
}

pub struct ConfigView {
    pub executable: Seq<char>,
    pub model_dir: Seq<char>,
    pub model_name: Seq<char>,
    pub host: Seq<char>,
    pub port: u16,
    pub n_gpu_layers: u32,
    pub ctx_size: u32,
    pub mtp_enabled: bool,
    pub flash_attn: bool,
}

impl View for Config {
    type V = ConfigView;

    open spec fn view(&self) -> ConfigView {
        ConfigView {
            executable: self.executable@,
            model_dir: self.model_dir@,
            model_name: self.model_name@,
            host: self.host@,
            port: self.port,
            n_gpu_layers: self.n_gpu_layers,
            ctx_size: self.ctx_size,
            mtp_enabled: self.mtp_enabled,
            flash_attn: self.flash_attn,
        }
    }
}

pub open spec fn default_config() -> ConfigView {
    ConfigView {
        executable: seq![],
        model_dir: seq![],
        model_name: seq![],
        host: "127.0.0.1"@,
        port: 11433,
        n_gpu_layers: 30,
        ctx_size: 4096,
        mtp_enabled: false,
        flash_attn: false,
    }
}

impl Default for Config {
    fn default() -> (r: Self)
        ensures
            r@ == default_config(),
    {
        Config {
            executable: String::new(),
            model_dir: String::new(),
            model_name: String::new(),
            host: String::from_str("127.0.0.1"),
            port: 11433,
            n_gpu_layers: 30,
            ctx_size: 4096,
            mtp_enabled: false,
            flash_attn: false,
        }
    }
}

/// The settings a launch starts with: those read from the settings file with an empty host, a
/// zero port and a zero context size replaced by the defaults; the defaults when nothing could
/// be read.
pub open spec fn loaded_config(parsed: Option<ConfigView>) -> ConfigView {
    match parsed {
        Some(c) => ConfigView {
            host: if c.host.len() == 0 {
                default_config().host
            } else {
                c.host
            },
            port: if c.port == 0 {
                default_config().port
            } else {
                c.port
            },
            ctx_size: if c.ctx_size == 0 {
                default_config().ctx_size
            } else {
                c.ctx_size
            },
            ..c
        },
        None => default_config(),
    }
}

/// `parsed` is the content of the settings file, when it exists and could be read and parsed.
pub fn load_config(parsed: Option<Config>) -> (r: Config)
    ensures
        r@ == loaded_config(
            match parsed {
                Some(c) => Some(c@),
                None => None,
            },
        ),
{
    match parsed {
        Some(mut cfg) => {
            let defaults = Config::default();
            if cfg.host.as_str().is_empty() {
                cfg.host = defaults.host;
            }
            if cfg.port == 0 {
                cfg.port = defaults.port;
            }
            if cfg.ctx_size == 0 {
                cfg.ctx_size = defaults.ctx_size;
            }
            cfg
        },
        None => Config::default(),
    }
}

/// The model names of the `.gguf` files among `files`, in the order of `files`.
pub open spec fn gguf_models(files: Seq<Seq<char>>) -> Seq<Seq<char>> {
    files.filter(|f: Seq<char>| ends_with(f, ".gguf"@)).map_values(|f: Seq<char>| model_name_of(f))
}

/// The models of a model directory whose entries are `file_names`: every `.gguf` file, without
/// the extension, sorted.
pub fn list_models(file_names: &Vec<String>) -> (r: Vec<String>)
    ensures
        names_sorted(string_views(r@)),
        string_views(r@).to_multiset() == gguf_models(string_views(file_names@)).to_multiset(),
{
    let ghost keep = |f: Seq<char>| ends_with(f, ".gguf"@);
    let ghost files = string_views(file_names@);
    let mut models: Vec<String> = Vec::new();
    let n = file_names.len();
    for i in 0..n
        invariant
            n == file_names@.len(),
            files == string_views(file_names@),
            keep == (|f: Seq<char>| ends_with(f, ".gguf"@)),
            string_views(models@) == files.take(i as int).filter(keep).map_values(
                |f: Seq<char>| model_name_of(f),
            ),
    {
        let v = to_chars(file_names[i].as_str());
        assert(files[i as int] == v@);
        proof {
            let tk = files.take(i as int);
            assert(files.take(i + 1) =~= tk.push(files[i as int]));
            tk.lemma_filter_push(files[i as int], keep);
        }
        if chars_ends_with(&v, ".gguf") {
            proof {
                reveal_strlit(".gguf");
            }
            let name = from_chars(&chars_trim_end_matches(&v, ".gguf"));
            assert(string_views(models@.push(name)) =~= string_views(models@).push(name@));
            models.push(name);
            assert(files.take(i + 1).filter(keep).map_values(|f: Seq<char>| model_name_of(f))
                =~= files.take(i as int).filter(keep).map_values(|f: Seq<char>| model_name_of(f)).push(
                model_name_of(files[i as int]),
            ));
        } else {
            assert(files.take(i + 1).filter(keep).map_values(|f: Seq<char>| model_name_of(f))
                =~= files.take(i as int).filter(keep).map_values(|f: Seq<char>| model_name_of(f)));
        }
    }
    assert(files.take(n as int) =~= files);
    sort_names(models)
}

} // verus!
