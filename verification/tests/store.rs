use codex_gateway_core::account::ImportError;
use codex_gateway_core::config::{
    config_path, default_data_dir, default_host, default_port, default_upstream_base_url,
    ensure_data_dir, key_path, load_config, load_or_create_gateway_key, path_join,
    rotate_gateway_key, save_config, ConfigFile,
};
use codex_gateway_core::store::is_account_file;
use codex_gateway_core::{Account, Config, GatewayOptions, Store};

fn account(id: &str, email: &str, name: &str) -> Account {
    Account {
        id: id.to_string(),
        name: name.to_string(),
        email: email.to_string(),
        account_id: None,
        organization_id: None,
        user_id: None,
        id_token: None,
        access_token: "opaque".to_string(),
        refresh_token: None,
        imported_at: 0,
        updated_at: 0,
    }
}

fn store() -> Store {
    Store::new("/srv/cockpit-codex".to_string())
}

fn ids(accounts: &[Account]) -> Vec<String> {
    accounts.iter().map(|account| account.id.clone()).collect()
}

#[test]
fn paths_stand_under_the_data_directory() {
    assert_eq!(store().data_dir(), "/srv/cockpit-codex");
    assert_eq!(path_join("a", "b"), "a/b");
    assert_eq!(path_join("a/", "b"), "a/b");
    assert_eq!(path_join("", "b"), "b");
    assert_eq!(path_join("a", "/b"), "/b");
    assert_eq!(ensure_data_dir("/d"), "/d/accounts");
    assert_eq!(config_path("/d"), "/d/config.toml");
    assert_eq!(key_path("/d"), "/d/gateway.key");
    assert_eq!(
        default_data_dir(Some("/home/me")).as_deref(),
        Some("/home/me/.cockpit-codex")
    );
    assert_eq!(default_data_dir(None), None);
    assert_eq!(
        store().account_path("id-1"),
        "/srv/cockpit-codex/accounts/id-1.json"
    );
    assert_eq!(
        store().save_account(&account("id-2", "e", "n")),
        "/srv/cockpit-codex/accounts/id-2.json"
    );
}

#[test]
fn configuration_has_defaults() {
    let config = Config::default();
    assert_eq!(config.host, "127.0.0.1");
    assert_eq!(config.port, 8080);
    assert_eq!(
        config.upstream_base_url,
        "https://chatgpt.com/backend-api/codex"
    );
    assert_eq!(default_host(), "127.0.0.1");
    assert_eq!(default_port(), 8080);
    assert_eq!(
        default_upstream_base_url(),
        "https://chatgpt.com/backend-api/codex"
    );
}

#[test]
fn missing_configuration_is_to_be_saved() {
    let loaded = load_config("/d", None);
    assert_eq!(loaded.config.port, 8080);
    assert_eq!(loaded.save_to.as_deref(), Some("/d/config.toml"));
    let again = store().config(Some(ConfigFile {
        host: Some("0.0.0.0".to_string()),
        port: None,
        upstream_base_url: None,
    }));
    assert_eq!(again.config.host, "0.0.0.0");
    assert_eq!(again.config.port, 8080);
    assert!(again.save_to.is_none());
}

#[test]
fn new_key_is_random_and_to_be_written() {
    let first = rotate_gateway_key("/d");
    let second = store().rotate_gateway_key();
    assert_eq!(first.key.0.len(), 48);
    assert!(first.key.0.chars().all(|c| c.is_ascii_alphanumeric()));
    assert_ne!(first.key.0, second.key.0);
    let write = first.write.unwrap();
    assert_eq!(write.path, "/d/gateway.key");
    assert_eq!(write.content, format!("{}\n", first.key.0));
}

#[test]
fn written_key_is_read_again() {
    let made = store().rotate_gateway_key();
    let content = made.write.unwrap().content;
    let read = store().gateway_key(Some(&content));
    assert_eq!(read.key.0, made.key.0);
    assert!(read.write.is_none());
}

#[test]
fn empty_key_file_gives_a_new_key() {
    let loaded = load_or_create_gateway_key("/d", Some(" \n"));
    assert_eq!(loaded.key.0.len(), 48);
    assert!(loaded.write.is_some());
    assert!(load_or_create_gateway_key("/d", None).write.is_some());
    assert_eq!(
        load_or_create_gateway_key("/d", Some(" key \n")).key.0,
        "key"
    );
}

#[test]
fn start_loads_configuration_and_key() {
    let (config, key) = store().init(None, Some("secret\n"));
    assert_eq!(
        config.save_to.as_deref(),
        Some("/srv/cockpit-codex/config.toml")
    );
    assert_eq!(key.key.0, "secret");
    assert!(key.write.is_none());
}

#[test]
fn account_files_have_their_extension() {
    assert!(is_account_file("a.json"));
    assert!(!is_account_file(".json"));
    assert!(!is_account_file("a.txt"));
    assert!(!is_account_file("json"));
    assert!(is_account_file("a.b.json"));
}

#[test]
fn accounts_are_listed_by_email_then_name() {
    let files = vec![
        account("1", "b@x", "z"),
        account("2", "a@x", "z"),
        account("3", "b@x", "a"),
        account("4", "a@x", "z"),
    ];
    let listed = store().list_accounts(files);
    assert_eq!(ids(&listed), vec!["2", "4", "3", "1"]);
    let summaries = store().list_account_summaries(listed);
    assert_eq!(summaries.len(), 4);
    assert_eq!(summaries[0].id, "2");
    assert!(!summaries[0].has_refresh_token);
}

#[test]
fn account_is_found_by_id_email_or_name() {
    let files = || {
        vec![
            account("1", "b@x", "second"),
            account("2", "a@x", "first"),
        ]
    };
    assert_eq!(store().find_account(files(), " 1 ").unwrap().id, "1");
    assert_eq!(store().find_account(files(), "A@X").unwrap().id, "2");
    assert_eq!(store().find_account(files(), "SECOND").unwrap().id, "1");
    assert!(store().find_account(files(), "third").is_none());
}

#[test]
fn removed_account_names_its_file() {
    let (removed, path) = store()
        .remove_account(vec![account("1", "b@x", "n")], "b@x")
        .unwrap();
    assert_eq!(removed.id, "1");
    assert_eq!(path, "/srv/cockpit-codex/accounts/1.json");
    assert!(store().remove_account(vec![], "b@x").is_none());
}

#[test]
fn import_says_where_the_account_goes() {
    let (imported, path) = store()
        .import_auth(
            "auth.json",
            "{\"access_token\":\"opaque\"}",
            "main",
            Some("me@x"),
        )
        .unwrap();
    assert_eq!(
        path,
        format!("/srv/cockpit-codex/accounts/{}.json", imported.account.id)
    );
    assert_eq!(imported.account.email, "me@x");
    assert!(matches!(
        store().import_auth("auth.json", "[]", "main", None),
        Err(ImportError::NoAccessToken)
    ));
}

#[test]
fn command_line_comes_before_configuration() {
    let options = GatewayOptions::resolve(Config::default(), None, Some(9), None);
    assert_eq!(options.host, "127.0.0.1");
    assert_eq!(options.port, 9);
    assert_eq!(options.listen_address(), "127.0.0.1:9");
    assert!(!options.is_public());
    let public = GatewayOptions::resolve(
        Config::default(),
        Some("0.0.0.0".to_string()),
        None,
        Some("http://u".to_string()),
    );
    assert_eq!(public.listen_address(), "0.0.0.0:8080");
    assert!(public.is_public());
    assert_eq!(public.upstream_base_url, "http://u");
}

#[test]
fn saved_configuration_is_loaded_again() {
    let mut config = Config::default();
    config.host = "0.0.0.0".to_string();
    config.port = 9;
    let (path, file) = save_config("/d", &config);
    assert_eq!(path, "/d/config.toml");
    let loaded = load_config("/d", Some(file));
    assert_eq!(loaded.config.host, "0.0.0.0");
    assert_eq!(loaded.config.port, 9);
    assert_eq!(loaded.config.upstream_base_url, config.upstream_base_url);
    assert!(loaded.save_to.is_none());
}

#[test]
fn second_start_writes_nothing() {
    let (config, key) = store().init(None, None);
    let written = key.write.unwrap().content;
    let (_, file) = save_config(store().data_dir(), &config.config);
    let (again, same) = store().init(Some(file), Some(&written));
    assert!(again.save_to.is_none());
    assert!(same.write.is_none());
    assert_eq!(again.config.host, config.config.host);
    assert_eq!(same.key.0, key.key.0);
}

#[test]
fn import_twice_gives_two_accounts() {
    let import = || {
        store()
            .import_auth("auth.json", "{\"access_token\":\"a\"}", "main", Some("me@x"))
            .unwrap()
    };
    let (first, first_path) = import();
    let (second, second_path) = import();
    assert_ne!(first.account.id, second.account.id);
    assert_ne!(first_path, second_path);
    let listed = store().list_accounts(vec![second.account.clone(), first.account.clone()]);
    assert_eq!(ids(&listed), vec![second.account.id, first.account.id]);
}

#[test]
fn removal_takes_one_account() {
    let files = vec![account("1", "b@x", "n"), account("2", "a@x", "n"), account("3", "a@x", "n")];
    let (removed, path) = store().remove_account(files.clone(), "a@x").unwrap();
    assert_eq!(path, store().account_path(&removed.id));
    let left: Vec<Account> = files
        .into_iter()
        .filter(|kept| store().account_path(&kept.id) != path)
        .collect();
    assert_eq!(ids(&store().list_accounts(left)), vec!["3", "1"]);
}
