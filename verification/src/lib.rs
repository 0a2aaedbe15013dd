use vstd::prelude::*;

pub mod basic_config;
pub mod config;
pub mod config_laws;
pub mod i18n;
pub mod ini;
pub mod ini_laws;
pub mod launcher;
pub mod launcher_laws;
pub mod models;
pub mod profile_laws;
pub mod profiles;
pub mod server;
pub mod server_laws;
pub mod text;

verus! {
}
