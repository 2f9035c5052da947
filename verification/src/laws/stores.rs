//! What the data directory holds and how it is read.
use crate::account::Account;
use crate::config;
use crate::config::{ConfigFile, ConfigView, LoadedConfig, LoadedKey};
use crate::gateway::options;
use crate::gateway::state;
use crate::laws::texts;
use crate::store;
use crate::text;
use vstd::prelude::*;

verus! {

/// An account is found by its identifier, and by its e-mail address and its name in whatever case:
/// it, or one that comes before it in the listing and goes by the same.
pub proof fn account_is_found_by_what_it_is_called(
    found: Option<Account>,
    listed: Seq<Account>,
    needle: Seq<char>,
    i: int,
)
    requires
        store::is_first_named(found, listed, needle),
        0 <= i < listed.len(),
        listed[i].id@ == needle || text::lowercase(listed[i].email@) == text::lowercase(needle)
            || text::lowercase(listed[i].name@) == text::lowercase(needle),
    ensures
        exists|k: int| 0 <= k <= i && found == Some(#[trigger] listed[k]),
{
    assert(store::names_account(needle, listed[i]));
    if let Some(account) = found {
        let k = choose|k: int|
            {
                &&& 0 <= k < listed.len()
                &&& #[trigger] listed[k] == account
                &&& store::names_account(needle, account)
                &&& forall|l: int| 0 <= l < k ==> !store::names_account(needle, #[trigger] listed[l])
            };
        assert(found == Some(listed[k]));
    }
}

/// What is found goes by what was looked for.
pub proof fn nothing_else_is_found(found: Option<Account>, listed: Seq<Account>, needle: Seq<char>)
    requires
        store::is_first_named(found, listed, needle),
    ensures
        found matches Some(account) ==> listed.contains(account) && (account.id@ == needle
            || text::lowercase(account.email@) == text::lowercase(needle) || text::lowercase(
            account.name@,
        ) == text::lowercase(needle)),
{
}

/// Accounts are listed by their e-mail addresses, and by their names where these are the same, in
/// the order of code points.
pub proof fn accounts_are_listed_by_address_and_name(
    listed: Seq<Account>,
    files: Seq<Account>,
    i: int,
    j: int,
)
    requires
        store::is_listing(listed, files),
        0 <= i < j < listed.len(),
    ensures
        listed[i].email@ == listed[j].email@ || text::text_less(listed[i].email@, listed[j].email@),
        listed[i].email@ == listed[j].email@ ==> listed[i].name@ == listed[j].name@
            || text::text_less(listed[i].name@, listed[j].name@),
{
    assert(!store::listed_before(listed[j], listed[i]));
    text::text_less_total(listed[i].email@, listed[j].email@);
    text::text_less_total(listed[i].name@, listed[j].name@);
}

/// The file of an account stands in the directory for accounts, under the identifier of the account.
pub proof fn account_file_is_named_after_the_account(data_dir: Seq<char>, id: Seq<char>)
    requires
        data_dir.len() > 0,
        id.len() > 0,
        id[0] != '/',
    ensures
        data_dir.last() != '/' ==> store::account_file(data_dir, id) == data_dir + "/accounts/"@
            + id + ".json"@,
        data_dir.last() == '/' ==> store::account_file(data_dir, id) == data_dir + "accounts/"@
            + id + ".json"@,
{
    reveal_strlit("accounts");
    reveal_strlit("accounts/");
    reveal_strlit("/accounts/");
    reveal_strlit(".json");
    let name = id + ".json"@;
    assert(name[0] == id[0]);
    let dir = config::path_under(data_dir, "accounts"@);
    assert(dir.last() == "accounts"@[7]);
    assert("accounts/"@ =~= "accounts"@ + seq!['/']);
    assert("/accounts/"@ =~= seq!['/'] + "accounts"@ + seq!['/']);
    if data_dir.last() == '/' {
        assert(store::account_file(data_dir, id) =~= data_dir + "accounts/"@ + id + ".json"@);
    } else {
        assert(store::account_file(data_dir, id) =~= data_dir + "/accounts/"@ + id + ".json"@);
    }
}

/// The files of accounts are those whose names end as JSON files do, behind a name.
pub proof fn account_files_are_told_by_their_names(name: Seq<char>)
    ensures
        store::names_account_file(name) == (exists|stem: Seq<char>|
            stem.len() > 0 && name == #[trigger] (stem + ".json"@)),
{
    reveal_strlit(".json");
    let end = ".json"@;
    if store::names_account_file(name) {
        let stem = name.take(name.len() - 5);
        assert(name =~= stem + end);
    }
    if exists|stem: Seq<char>| stem.len() > 0 && name == #[trigger] (stem + end) {
        let stem = choose|stem: Seq<char>| stem.len() > 0 && name == #[trigger] (stem + end);
        assert(name.skip(stem.len() as int) =~= end);
    }
}

/// Each setting is the one that the configuration file gives, and the usual one where it gives none.
/// Only where there is no file is one to be written: with the usual settings, in the data directory.
pub proof fn settings_of_the_file_count(
    loaded: LoadedConfig,
    data_dir: Seq<char>,
    file: Option<ConfigFile>,
)
    requires
        config::is_loaded_config(loaded, data_dir, file),
    ensures
        ({
            let host = match file {
                Some(file) => text::opt_text(file.host),
                None => None,
            };
            let port = match file {
                Some(file) => file.port,
                None => None,
            };
            let url = match file {
                Some(file) => text::opt_text(file.upstream_base_url),
                None => None,
            };
            &&& loaded.config@.host == match host {
                Some(host) => host,
                None => "127.0.0.1"@,
            }
            &&& loaded.config@.port == match port {
                Some(port) => port,
                None => 8080,
            }
            &&& loaded.config@.upstream_base_url == match url {
                Some(url) => url,
                None => "https://chatgpt.com/backend-api/codex"@,
            }
            &&& loaded.save_to is Some == file is None
            &&& (loaded.save_to matches Some(path) ==> path@ == config::path_under(
                data_dir,
                "config.toml"@,
            ))
        }),
{
}

/// The key is the text in the key file, without the white space round it; only where there is none
/// is a key made, of 48 letters and digits, and it is to be written to the key file, as a line.
pub proof fn key_of_the_file_counts(loaded: LoadedKey, data_dir: Seq<char>, content: Option<Seq<char>>)
    requires
        config::is_loaded_key(loaded, data_dir, content),
    ensures
        (content matches Some(s) ==> (text::trimmed(s).len() > 0 ==> loaded.key.0@ == text::trimmed(s)
            && loaded.write is None)),
        content is None || text::trimmed(content.unwrap()).len() == 0 ==> ({
            &&& loaded.key.0@.len() == 48
            &&& forall|i: int|
                0 <= i < 48 ==> {
                    ||| 'a' <= #[trigger] loaded.key.0@[i] <= 'z'
                    ||| 'A' <= loaded.key.0@[i] <= 'Z'
                    ||| '0' <= loaded.key.0@[i] <= '9'
                }
            &&& loaded.write matches Some(write)
            &&& write.path@ == config::path_under(data_dir, "gateway.key"@)
            &&& write.content@ == loaded.key.0@.push('\n')
        }),
{
    assert(loaded.key.0@ + seq!['\n'] =~= loaded.key.0@.push('\n'));
}

/// A path under a directory is the directory, a slash, and the name.
pub proof fn path_under_a_directory(base: Seq<char>, name: Seq<char>)
    requires
        base.len() > 0,
        name.len() > 0,
        name[0] != '/',
    ensures
        base.last() != '/' ==> config::path_under(base, name) == base + seq!['/'] + name,
        base.last() == '/' ==> config::path_under(base, name) == base + name,
{
}

/// What is given on the command line counts before what is configured, each by itself.
pub proof fn command_line_counts_first(
    config: ConfigView,
    host: Option<Seq<char>>,
    port: Option<u16>,
    url: Option<Seq<char>>,
)
    ensures
        ({
            let used = options::resolved(config, host, port, url);
            &&& host is Some ==> Some(used.host) == host
            &&& host is None ==> used.host == config.host
            &&& port is Some ==> Some(used.port) == port
            &&& port is None ==> used.port == config.port
            &&& url is Some ==> Some(used.upstream_base_url) == url
            &&& url is None ==> used.upstream_base_url == config.upstream_base_url
        }),
{
}

/// The gateway listens at the host, behind a colon at the port in decimal digits.
pub proof fn address_names_host_and_port(host: Seq<char>, port: u16)
    ensures
        ({
            let address = options::address(host, port);
            let n = host.len() as int;
            &&& address.len() > n
            &&& address.take(n) == host
            &&& address[n] == ':'
            &&& texts::number(address.skip(n + 1)) == port
        }),
{
    let address = options::address(host, port);
    let n = host.len() as int;
    texts::number_is_written_in_its_digits(port as nat);
    assert(address.take(n) =~= host);
    assert(address.skip(n + 1) =~= text::decimal(port as nat));
}

/// A gateway starts with its key, with no turn taken and nothing remembered, and asks the upstream
/// that it is given, but for slashes at the end of the address.
pub proof fn gateway_starts_afresh(key: Seq<char>, url: Seq<char>)
    ensures
        ({
            let g = state::started(key, url);
            &&& g.key == key
            &&& g.cursor == 0
            &&& forall|id: Seq<char>| !#[trigger] g.affinity.contains_key(id)
            &&& g.base.len() <= url.len()
            &&& g.base == url.take(g.base.len() as int)
            &&& forall|i: int| g.base.len() <= i < url.len() ==> #[trigger] url[i] == '/'
            &&& g.base.len() > 0 ==> g.base.last() != '/'
        }),
{
    texts::only_the_character_is_taken_from_the_end(url, '/');
}

} // verus!
