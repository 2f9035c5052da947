//! The configuration of the gateway and its key, and where they are kept.
use crate::outside;
use crate::text;
use vstd::prelude::*;

verus! {

/// The upstream that requests go to, unless another is configured.
pub const DEFAULT_UPSTREAM_BASE_URL: &'static str = "https://chatgpt.com/backend-api/codex";

/// The address that the gateway listens on, unless another is configured.
pub const DEFAULT_HOST: &'static str = "127.0.0.1";

/// The port that the gateway listens on, unless another is configured.
pub const DEFAULT_PORT: u16 = 8080;

/// How many characters a gateway key has.
pub const GATEWAY_KEY_LEN: usize = 48;

/// The configuration of the gateway.
#[derive(Debug)]
pub struct Config {
    pub host: String,
    pub port: u16,
    pub upstream_base_url: String,
}

impl Clone for Config {
    fn clone(&self) -> (r: Config)
        ensures
            r == *self,
    {
        Config {
            host: self.host.clone(),
            port: self.port,
            upstream_base_url: self.upstream_base_url.clone(),
        }
    }
}

/// What a configuration is.
pub struct ConfigView {
    pub host: Seq<char>,
    pub port: u16,
    pub upstream_base_url: Seq<char>,
}

impl View for Config {
    type V = ConfigView;

    open spec fn view(&self) -> ConfigView {
        ConfigView {
            host: self.host@,
            port: self.port,
            upstream_base_url: self.upstream_base_url@,
        }
    }
}

/// The configuration where nothing is configured.
pub open spec fn default_config() -> ConfigView {
    ConfigView {
        host: DEFAULT_HOST@,
        port: DEFAULT_PORT,
        upstream_base_url: DEFAULT_UPSTREAM_BASE_URL@,
    }
}

impl Default for Config {
    fn default() -> (r: Config)
        ensures
            r@ == default_config(),
    {
        Config {
            host: default_host(),
            port: default_port(),
            upstream_base_url: default_upstream_base_url(),
        }
    }
}

/// The address that the gateway listens on, unless another is configured.
pub fn default_host() -> (r: String)
    ensures
        r@ == DEFAULT_HOST@,
{
    DEFAULT_HOST.to_owned()
}

/// The port that the gateway listens on, unless another is configured.
pub fn default_port() -> (r: u16)
    ensures
        r == DEFAULT_PORT,
{
    DEFAULT_PORT
}

/// The upstream that requests go to, unless another is configured.
pub fn default_upstream_base_url() -> (r: String)
    ensures
        r@ == DEFAULT_UPSTREAM_BASE_URL@,
{
    DEFAULT_UPSTREAM_BASE_URL.to_owned()
}

/// The key that clients show to the gateway.
#[derive(Debug)]
pub struct GatewayKey(pub String);

impl Clone for GatewayKey {
    fn clone(&self) -> (r: GatewayKey)
        ensures
            r == *self,
    {
        GatewayKey(self.0.clone())
    }
}

/// A file to be written.
#[derive(Debug, Clone)]
pub struct FileWrite {
    pub path: String,
    pub content: String,
}

/// What a configuration file says.
#[derive(Debug, Clone)]
pub struct ConfigFile {
    pub host: Option<String>,
    pub port: Option<u16>,
    pub upstream_base_url: Option<String>,
}

/// The configuration in force.
#[derive(Debug)]
pub struct LoadedConfig {
    pub config: Config,
    /// Where the configuration is to be saved, where there is no file yet.
    pub save_to: Option<String>,
}

/// The gateway key in force.
#[derive(Debug)]
pub struct LoadedKey {
    pub key: GatewayKey,
    /// The file that is to be written, where the key is new.
    pub write: Option<FileWrite>,
}

/// The path of `name` under the directory `base`: `name` itself where it starts at the root.
pub open spec fn path_under(base: Seq<char>, name: Seq<char>) -> Seq<char> {
    if base.len() == 0 || (name.len() > 0 && name[0] == '/') {
        name
    } else if base.last() == '/' {
        base + name
    } else {
        base + seq!['/'] + name
    }
}

/// The path of `name` under the directory `base`.
pub fn path_join(base: &str, name: &str) -> (r: String)
    ensures
        r@ == path_under(base@, name@),
{
    let b: Vec<char> = text::chars_of(base);
    let n: Vec<char> = text::chars_of(name);
    if b.len() == 0 || (n.len() > 0 && n[0] == '/') {
        name.to_owned()
    } else if b[b.len() - 1] == '/' {
        text::joined(base, name)
    } else {
        let mut r: String = base.to_owned();
        r.push('/');
        r.append(name);
        assert(r@ == base@ + seq!['/'] + name@);
        r
    }
}

/// Where the data are kept, unless another directory is named: under the home directory, where
/// there is one.
pub fn default_data_dir(home: Option<&str>) -> (r: Option<String>)
    ensures
        match home {
            Some(home) => text::opt_text(r) == Some(path_under(home@, ".cockpit-codex"@)),
            None => r is None,
        },
{
    match home {
        Some(home) => Some(path_join(home, ".cockpit-codex")),
        None => None,
    }
}

/// The directory that must be there before anything is read or written: the one for accounts.
pub fn ensure_data_dir(data_dir: &str) -> (r: String)
    ensures
        r@ == path_under(data_dir@, "accounts"@),
{
    path_join(data_dir, "accounts")
}

/// The path of the configuration file.
pub fn config_path(data_dir: &str) -> (r: String)
    ensures
        r@ == path_under(data_dir@, "config.toml"@),
{
    path_join(data_dir, "config.toml")
}

/// The path of the key file.
pub fn key_path(data_dir: &str) -> (r: String)
    ensures
        r@ == path_under(data_dir@, "gateway.key"@),
{
    path_join(data_dir, "gateway.key")
}

/// The configuration that a file describes: the default where it says nothing.
pub open spec fn file_config(file: ConfigFile) -> ConfigView {
    ConfigView {
        host: match file.host {
            Some(host) => host@,
            None => DEFAULT_HOST@,
        },
        port: match file.port {
            Some(port) => port,
            None => DEFAULT_PORT,
        },
        upstream_base_url: match file.upstream_base_url {
            Some(url) => url@,
            None => DEFAULT_UPSTREAM_BASE_URL@,
        },
    }
}

/// Whether `loaded` is the configuration in force: what the configuration file says, where there is
/// one, which then stays as it is; and else the default, which is to be saved.
pub open spec fn is_loaded_config(
    loaded: LoadedConfig,
    data_dir: Seq<char>,
    file: Option<ConfigFile>,
) -> bool {
    match file {
        Some(file) => loaded.config@ == file_config(file) && loaded.save_to is None,
        None => {
            &&& loaded.config@ == default_config()
            &&& text::opt_text(loaded.save_to) == Some(path_under(data_dir, "config.toml"@))
        },
    }
}

/// The configuration, from what the configuration file says. Where there is no file, the default
/// is in force and is to be saved.
pub fn load_config(data_dir: &str, file: Option<ConfigFile>) -> (r: LoadedConfig)
    ensures
        is_loaded_config(r, data_dir@, file),
{
    match file {
        Some(file) => {
            let config = Config {
                host: match file.host {
                    Some(host) => host,
                    None => default_host(),
                },
                port: match file.port {
                    Some(port) => port,
                    None => default_port(),
                },
                upstream_base_url: match file.upstream_base_url {
                    Some(url) => url,
                    None => default_upstream_base_url(),
                },
            };
            LoadedConfig { config, save_to: None }
        },
        None => LoadedConfig { config: Config::default(), save_to: Some(config_path(data_dir)) },
    }
}

/// Whether a configuration file says all that `config` says.
pub open spec fn holds_config(file: ConfigFile, config: ConfigView) -> bool {
    &&& text::opt_text(file.host) == Some(config.host)
    &&& file.port == Some(config.port)
    &&& text::opt_text(file.upstream_base_url) == Some(config.upstream_base_url)
}

/// Where a configuration is to be saved, and what the file is to say.
pub fn save_config(data_dir: &str, config: &Config) -> (r: (String, ConfigFile))
    ensures
        r.0@ == path_under(data_dir@, "config.toml"@),
        holds_config(r.1, config@),
{
    let file: ConfigFile = ConfigFile {
        host: Some(config.host.clone()),
        port: Some(config.port),
        upstream_base_url: Some(config.upstream_base_url.clone()),
    };
    (config_path(data_dir), file)
}

/// A configuration that was saved is loaded as it was, and the file stays as it is.
pub proof fn saved_config_is_loaded_back(
    file: ConfigFile,
    config: ConfigView,
    loaded: LoadedConfig,
    data_dir: Seq<char>,
)
    requires
        holds_config(file, config),
        is_loaded_config(loaded, data_dir, Some(file)),
    ensures
        loaded.config@ == config,
        loaded.save_to is None,
{
}

/// The key in a key file, where it holds one.
pub open spec fn stored_key(content: Option<Seq<char>>) -> Option<Seq<char>> {
    match content {
        Some(content) => if text::trimmed(content).len() > 0 {
            Some(text::trimmed(content))
        } else {
            None
        },
        None => None,
    }
}

/// Whether `loaded` is a new key that is to be written to the key file.
pub open spec fn is_new_key(loaded: LoadedKey, data_dir: Seq<char>) -> bool {
    &&& loaded.key.0@.len() == GATEWAY_KEY_LEN
    &&& outside::all_alphanumeric(loaded.key.0@)
    &&& loaded.write matches Some(write)
    &&& write.path@ == path_under(data_dir, "gateway.key"@)
    &&& write.content@ == loaded.key.0@ + seq!['\n']
}

/// A new gateway key, which is to be written to the key file. Which key is left to chance.
pub fn rotate_gateway_key(data_dir: &str) -> (r: LoadedKey)
    ensures
        is_new_key(r, data_dir@),
{
    let key: String = outside::random_text(GATEWAY_KEY_LEN);
    let mut content: String = key.clone();
    content.push('\n');
    assert(content@ == key@ + seq!['\n']);
    LoadedKey { key: GatewayKey(key), write: Some(FileWrite { path: key_path(data_dir), content }) }
}

/// Whether `loaded` is the key in force: the one that the key file holds, where it holds one, and
/// the file then stays as it is; and else a new one.
pub open spec fn is_loaded_key(
    loaded: LoadedKey,
    data_dir: Seq<char>,
    content: Option<Seq<char>>,
) -> bool {
    match stored_key(content) {
        Some(key) => loaded.key.0@ == key && loaded.write is None,
        None => is_new_key(loaded, data_dir),
    }
}

/// The gateway key, from the content of the key file; a new one where the file is not there or
/// holds none.
pub fn load_or_create_gateway_key(data_dir: &str, content: Option<&str>) -> (r: LoadedKey)
    ensures
        is_loaded_key(r, data_dir@, text::opt_str(content)),
{
    if let Some(content) = content {
        let key: String = text::trim(content);
        if !key.as_str().is_empty() {
            return LoadedKey { key: GatewayKey(key), write: None };
        }
    }
    rotate_gateway_key(data_dir)
}

/// A key that was written to the key file is read back as it was.
pub proof fn written_key_is_read_back(loaded: LoadedKey, data_dir: Seq<char>)
    requires
        is_new_key(loaded, data_dir),
    ensures
        stored_key(Some(loaded.write.unwrap().content@)) == Some(loaded.key.0@),
{
    let key = loaded.key.0@;
    let content = key + seq!['\n'];
    assert(content[0] == key[0]);
    assert(text::trim_start(content) == content);
    assert(content.drop_last() == key);
    assert(text::trim_end(key) == key);
}

} // verus!
