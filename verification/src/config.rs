//! The application's settings: optional values, where a setting given by a
//! newer source replaces the one held.
use vstd::prelude::*;
use crate::esp::parser::opt_text;
use crate::text::{chars_of, string_from_chars};

verus! {

/// The application's settings; every one may be unset.
#[derive(Clone, Debug)]
pub struct AppConfig {
    pub openai_api_key: Option<String>,
    pub deepl_api_key: Option<String>,
    pub current_provider: Option<String>,
    pub theme: Option<String>,
    pub language: Option<String>,
    pub proxy_server: Option<String>,
    pub proxy_port: Option<u16>,
    pub proxy_username: Option<String>,
    pub proxy_password: Option<String>,
    /// Whether saving writes back into the plugin itself.
    pub esp_mode: Option<bool>,
}

/// The settings as plain values.
pub struct AppConfigV {
    pub openai_api_key: Option<Seq<char>>,
    pub deepl_api_key: Option<Seq<char>>,
    pub current_provider: Option<Seq<char>>,
    pub theme: Option<Seq<char>>,
    pub language: Option<Seq<char>>,
    pub proxy_server: Option<Seq<char>>,
    pub proxy_port: Option<u16>,
    pub proxy_username: Option<Seq<char>>,
    pub proxy_password: Option<Seq<char>>,
    pub esp_mode: Option<bool>,
}

impl View for AppConfig {
    type V = AppConfigV;

    open spec fn view(&self) -> AppConfigV {
        AppConfigV {
            openai_api_key: opt_text(self.openai_api_key),
            deepl_api_key: opt_text(self.deepl_api_key),
            current_provider: opt_text(self.current_provider),
            theme: opt_text(self.theme),
            language: opt_text(self.language),
            proxy_server: opt_text(self.proxy_server),
            proxy_port: self.proxy_port,
            proxy_username: opt_text(self.proxy_username),
            proxy_password: opt_text(self.proxy_password),
            esp_mode: self.esp_mode,
        }
    }
}

/// No setting set.
pub open spec fn empty_config() -> AppConfigV {
    AppConfigV {
        openai_api_key: None,
        deepl_api_key: None,
        current_provider: None,
        theme: None,
        language: None,
        proxy_server: None,
        proxy_port: None,
        proxy_username: None,
        proxy_password: None,
        esp_mode: None,
    }
}

/// A newer value when it is set, else the held one.
pub open spec fn newer<T>(held: Option<T>, given: Option<T>) -> Option<T> {
    if given is Some { given } else { held }
}

/// The settings `a` with every setting that `b` sets taken from `b`.
pub open spec fn applied(a: AppConfigV, b: AppConfigV) -> AppConfigV {
    AppConfigV {
        openai_api_key: newer(a.openai_api_key, b.openai_api_key),
        deepl_api_key: newer(a.deepl_api_key, b.deepl_api_key),
        current_provider: newer(a.current_provider, b.current_provider),
        theme: newer(a.theme, b.theme),
        language: newer(a.language, b.language),
        proxy_server: newer(a.proxy_server, b.proxy_server),
        proxy_port: newer(a.proxy_port, b.proxy_port),
        proxy_username: newer(a.proxy_username, b.proxy_username),
        proxy_password: newer(a.proxy_password, b.proxy_password),
        esp_mode: newer(a.esp_mode, b.esp_mode),
    }
}

impl Default for AppConfig {
    fn default() -> (r: Self)
        ensures
            r@ == empty_config(),
    {
        AppConfig {
            openai_api_key: None,
            deepl_api_key: None,
            current_provider: None,
            theme: None,
            language: None,
            proxy_server: None,
            proxy_port: None,
            proxy_username: None,
            proxy_password: None,
            esp_mode: None,
        }
    }
}

/// A copy of an optional text.
fn copy_text(o: &Option<String>) -> (r: Option<String>)
    ensures
        opt_text(r) == opt_text(*o),
{
    match o {
        Some(s) => Some(string_from_chars(chars_of(s.as_str()).as_slice())),
        None => None,
    }
}

/// Takes a newer optional text when it is set.
fn take_newer(held: &mut Option<String>, given: &Option<String>)
    ensures
        opt_text(*final(held)) == newer(opt_text(*old(held)), opt_text(*given)),
{
    if given.is_some() {
        *held = copy_text(given);
    }
}

impl AppConfig {
    /// Takes every setting that `other` sets (see [`applied`]).
    pub fn apply(&mut self, other: &Self)
        ensures
            final(self)@ == applied(old(self)@, other@),
    {
        take_newer(&mut self.openai_api_key, &other.openai_api_key);
        take_newer(&mut self.deepl_api_key, &other.deepl_api_key);
        take_newer(&mut self.current_provider, &other.current_provider);
        take_newer(&mut self.theme, &other.theme);
        take_newer(&mut self.language, &other.language);
        take_newer(&mut self.proxy_server, &other.proxy_server);
        if other.proxy_port.is_some() {
            self.proxy_port = other.proxy_port;
        }
        take_newer(&mut self.proxy_username, &other.proxy_username);
        take_newer(&mut self.proxy_password, &other.proxy_password);
        if other.esp_mode.is_some() {
            self.esp_mode = other.esp_mode;
        }
    }
}

/// Applying settings and then applying them again changes nothing more:
/// the second application gives the same settings as the first.
pub proof fn law_apply_idempotent(a: AppConfigV, b: AppConfigV)
    ensures
        applied(applied(a, b), b) == applied(a, b),
{
}

/// Applying empty settings keeps every setting.
pub proof fn law_apply_empty_keeps(a: AppConfigV)
    ensures
        applied(a, empty_config()) == a,
{
}

} // verus!
