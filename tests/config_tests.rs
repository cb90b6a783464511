use hot_reload::config::{ConnectionProfile, ServerConfig, WatcherConfig};
use hot_reload::keygen::{encode_api_key, generate_api_key};
use hot_reload::translate::{Language, LanguageError, Translator};

#[test]
fn default_watcher_urls() {
    let c = WatcherConfig::default();
    assert_eq!(c.ws_url(), "ws://localhost:3091");
    assert_eq!(c.runtime_url(), "ws://localhost:3090");
    let c2 = WatcherConfig { ws_host: "0.0.0.0".to_string(), ws_port: 0, ..WatcherConfig::default() };
    assert_eq!(c2.ws_url(), "ws://0.0.0.0:0");
    let c3 = WatcherConfig { ws_port: 65535, ..WatcherConfig::default() };
    assert_eq!(c3.ws_url(), "ws://localhost:65535");
}

#[test]
fn profile_locality() {
    assert!(ConnectionProfile::new("a".into(), "ws://localhost:1".into(), String::new()).is_local);
    assert!(ConnectionProfile::new("b".into(), "ws://127.0.0.1:1".into(), String::new()).is_local);
    assert!(!ConnectionProfile::new("c".into(), "ws://10.0.0.2:1".into(), "k".into()).is_local);
}

#[test]
fn profiles_add_remove_and_select() {
    let mut c = ServerConfig::default();
    assert_eq!(c.profiles.len(), 1);
    assert!(c.get_current_profile().is_none());
    c.add_profile("remote".into(), "ws://10.0.0.2:3091".into(), "key".into());
    c.add_profile("remote".into(), "ws://10.0.0.3:3091".into(), "key".into());
    c.current_profile = Some("remote".to_string());
    assert_eq!(c.get_current_profile().unwrap().ws_url, "ws://10.0.0.2:3091");
    c.remove_profile(&"localhost".to_string());
    assert_eq!(c.profiles.len(), 3);
    c.remove_profile(&"remote".to_string());
    assert_eq!(c.profiles.len(), 1);
    assert_eq!(c.profiles[0].name, "localhost");
    assert!(c.get_current_profile().is_none());
    assert_eq!(c.theme, "dark");
    assert_eq!(c.language, Language::English);
}

fn table(pairs: &[(&str, &str)]) -> Vec<(String, String)> {
    pairs.iter().map(|(k, v)| (k.to_string(), v.to_string())).collect()
}

#[test]
fn translation_falls_back() {
    let mut t = Translator::new();
    assert_eq!(t.translate("missing"), "missing");
    t.install_table(Language::English, table(&[("hello", "Hello"), ("bye", "Bye")]));
    assert_eq!(t.t("hello"), "Hello");
    assert!(t.needs_table(Language::French));
    assert_eq!(t.set_language(Language::French, None), Err(LanguageError::TableUnavailable));
    assert_eq!(t.get_language(), Language::English);
    assert_eq!(t.set_language(Language::French, Some(table(&[("hello", "Bonjour")]))), Ok(()));
    assert_eq!(t.get_language(), Language::French);
    assert_eq!(t.translate("hello"), "Bonjour");
    assert_eq!(t.translate("bye"), "Bye");
    assert_eq!(t.translate("other"), "other");
    assert_eq!(t.set_language(Language::English, None), Ok(()));
    assert_eq!(t.translate("hello"), "Hello");
}

#[test]
fn languages() {
    assert_eq!(Translator::available_languages(), vec![Language::English, Language::French]);
    assert_eq!(Language::English.as_file_name(), "en");
    assert_eq!(Language::French.as_file_name(), "fr");
    assert_eq!(Language::default(), Language::English);
}

#[test]
fn api_keys() {
    assert_eq!(encode_api_key(&vec![0, 0, 0]), "AAAA");
    assert_eq!(encode_api_key(&b"hello".to_vec()), "aGVsbG8=");
    let k = generate_api_key();
    assert_eq!(k.len(), 44);
    assert_ne!(k, generate_api_key());
}
