//! The store of accounts, configuration and key: which files it keeps, and what it makes of what
//! they hold.
use crate::account;
use crate::account::{Account, AccountSummary, ImportError, ImportedAccount};
use crate::config;
use crate::config::{ConfigFile, LoadedConfig, LoadedKey};
use crate::laws::accounts;
use crate::outside;
use crate::text;
use vstd::prelude::*;

verus! {

/// The store under a data directory.
#[derive(Debug)]
pub struct Store {
    data_dir: String,
}

impl Clone for Store {
    fn clone(&self) -> (r: Store)
        ensures
            r@ == self@,
    {
        Store { data_dir: self.data_dir.clone() }
    }
}

impl View for Store {
    type V = Seq<char>;

    /// The data directory.
    closed spec fn view(&self) -> Seq<char> {
        self.data_dir@
    }
}

/// Whether `a` is listed before `b`: by e-mail address, then by name.
pub open spec fn listed_before(a: Account, b: Account) -> bool {
    ||| text::text_less(a.email@, b.email@)
    ||| a.email@ == b.email@ && text::text_less(a.name@, b.name@)
}

/// Whether the accounts are in the order of listing.
pub open spec fn in_order(accounts: Seq<Account>) -> bool {
    forall|i: int, j: int|
        0 <= i < j < accounts.len() ==> !listed_before(#[trigger] accounts[j], #[trigger] accounts[i])
}

/// The accounts with the given e-mail address and name, in their order.
pub open spec fn namesakes(
    accounts: Seq<Account>,
    email: Seq<char>,
    name: Seq<char>,
) -> Seq<Account> {
    accounts.filter(|a: Account| a.email@ == email && a.name@ == name)
}

/// Whether `listed` are the accounts of `files` in the order of listing, those with the same
/// e-mail address and name in the order in which they were.
pub open spec fn is_listing(listed: Seq<Account>, files: Seq<Account>) -> bool {
    &&& in_order(listed)
    &&& forall|email: Seq<char>, name: Seq<char>| #[trigger]
        namesakes(listed, email, name) == namesakes(files, email, name)
}

/// Whether `needle` names `account`: its identifier, or its e-mail address or name in any case.
pub open spec fn names_account(needle: Seq<char>, account: Account) -> bool {
    ||| account.id@ == needle
    ||| text::same_ignoring_case(account.email@, needle)
    ||| text::same_ignoring_case(account.name@, needle)
}

/// The order of listing is transitive, also where accounts are equal in it.
proof fn lemma_order(a: Account, b: Account, c: Account)
    requires
        !listed_before(b, a),
        !listed_before(c, b),
    ensures
        !listed_before(c, a),
{
    if listed_before(c, a) {
        text::text_less_total(a.email@, b.email@);
        text::text_less_total(b.email@, c.email@);
        text::text_less_total(a.name@, b.name@);
        text::text_less_total(b.name@, c.name@);
        text::text_less_irreflexive(a.email@);
        text::text_less_irreflexive(c.email@);
        text::text_less_irreflexive(a.name@);
        text::text_less_irreflexive(c.name@);
        if text::text_less(a.email@, b.email@) && text::text_less(b.email@, c.email@) {
            text::text_less_transitive(a.email@, b.email@, c.email@);
        }
        if text::text_less(a.name@, b.name@) && text::text_less(b.name@, c.name@) {
            text::text_less_transitive(a.name@, b.name@, c.name@);
        }
        if text::text_less(a.email@, c.email@) && text::text_less(c.email@, a.email@) {
            text::text_less_transitive(a.email@, c.email@, a.email@);
        }
        if text::text_less(a.name@, c.name@) && text::text_less(c.name@, a.name@) {
            text::text_less_transitive(a.name@, c.name@, a.name@);
        }
    }
}

/// Whether `a` is listed before `b`.
fn is_listed_before(a: &Account, b: &Account) -> (r: bool)
    ensures
        r == listed_before(*a, *b),
{
    if text::is_before(a.email.as_str(), b.email.as_str()) {
        true
    } else {
        a.email == b.email && text::is_before(a.name.as_str(), b.name.as_str())
    }
}

/// Putting `x` behind the accounts that are not listed after it, and before the others, keeps the
/// order, and puts it behind its namesakes.
proof fn lemma_insert(listed: Seq<Account>, x: Account, p: int)
    requires
        in_order(listed),
        0 <= p <= listed.len(),
        p > 0 ==> !listed_before(x, listed[p - 1]),
        forall|k: int| p <= k < listed.len() ==> listed_before(x, #[trigger] listed[k]),
    ensures
        in_order(listed.insert(p, x)),
        forall|email: Seq<char>, name: Seq<char>| #[trigger]
            namesakes(listed.insert(p, x), email, name) == namesakes(listed.push(x), email, name),
{
    let next = listed.insert(p, x);
    assert forall|i: int, j: int| 0 <= i < j < next.len() implies !listed_before(
        #[trigger] next[j],
        #[trigger] next[i],
    ) by {
        if j == p {
            if i < p - 1 {
                assert(!listed_before(listed[p - 1], listed[i]));
                lemma_order(listed[i], listed[p - 1], x);
            }
        } else if i == p {
            let y = listed[j - 1];
            assert(listed_before(x, y));
            if listed_before(y, x) {
                text::text_less_irreflexive(x.email@);
                text::text_less_irreflexive(x.name@);
                if text::text_less(x.email@, y.email@) && text::text_less(y.email@, x.email@) {
                    text::text_less_transitive(x.email@, y.email@, x.email@);
                }
                if text::text_less(x.name@, y.name@) && text::text_less(y.name@, x.name@) {
                    text::text_less_transitive(x.name@, y.name@, x.name@);
                }
            }
        } else {
            let a = if i < p { i } else { i - 1 };
            let b = if j < p { j } else { j - 1 };
            assert(next[i] == listed[a]);
            assert(next[j] == listed[b]);
        }
    }
    assert forall|email: Seq<char>, name: Seq<char>| #[trigger]
        namesakes(next, email, name) == namesakes(listed.push(x), email, name) by {
        let pred = |a: Account| a.email@ == email && a.name@ == name;
        let front = listed.take(p);
        let back = listed.skip(p);
        let one = seq![x];
        assert(next == front + one + back);
        assert(listed.push(x) == front + back + one);
        Seq::filter_distributes_over_add(front + one, back, pred);
        Seq::filter_distributes_over_add(front, one, pred);
        Seq::filter_distributes_over_add(front + back, one, pred);
        Seq::filter_distributes_over_add(front, back, pred);
        if pred(x) {
            assert forall|k: int| 0 <= k < back.len() implies !pred(#[trigger] back[k]) by {
                assert(back[k] == listed[p + k]);
                text::text_less_irreflexive(x.email@);
                text::text_less_irreflexive(x.name@);
            }
            lemma_filter_none(back, pred);
        } else {
            assert(one.len() == 1 && one[0] == x);
            lemma_filter_none(one, pred);
        }
    }
}

/// Where none of the accounts meets `pred`, none is left.
proof fn lemma_filter_none(accounts: Seq<Account>, pred: spec_fn(Account) -> bool)
    requires
        forall|k: int| 0 <= k < accounts.len() ==> !pred(#[trigger] accounts[k]),
    ensures
        accounts.filter(pred) == Seq::<Account>::empty(),
    decreases accounts.len(),
{
    reveal(Seq::filter);
    if accounts.len() > 0 {
        lemma_filter_none(accounts.drop_last(), pred);
    }
}

/// The accounts of `files` in the order of listing.
fn sorted_accounts(files: Vec<Account>) -> (r: Vec<Account>)
    ensures
        is_listing(r@, files@),
{
    let ghost all = files@;
    let mut listed: Vec<Account> = Vec::new();
    assert(all.take(0) == listed@);
    for x in it: files
        invariant
            it.seq() == all,
            is_listing(listed@, all.take(it.index() as int)),
    {
        let mut p: usize = listed.len();
        while p > 0 && is_listed_before(&x, &listed[p - 1])
            invariant
                p <= listed@.len(),
                forall|k: int| p <= k < listed@.len() ==> listed_before(x, #[trigger] listed@[k]),
            decreases p,
        {
            p -= 1;
        }
        let ghost before = listed@;
        proof {
            lemma_insert(before, x, p as int);
        }
        listed.insert(p, x);
        proof {
            let n = it.index() as int;
            assert(all.take(n + 1) == all.take(n).push(x));
            assert forall|email: Seq<char>, name: Seq<char>| #[trigger]
                namesakes(listed@, email, name) == namesakes(all.take(n + 1), email, name) by {
                let pred = |a: Account| a.email@ == email && a.name@ == name;
                let one = seq![x];
                assert(namesakes(before, email, name) == namesakes(all.take(n), email, name));
                assert(before.push(x) == before + one);
                assert(all.take(n).push(x) == all.take(n) + one);
                Seq::filter_distributes_over_add(before, one, pred);
                Seq::filter_distributes_over_add(all.take(n), one, pred);
            }
        }
    }
    assert(all.take(all.len() as int) == all);
    listed
}

/// An account occurs among those that meet `pred` as often as among all, where it meets `pred`.
proof fn lemma_count(accounts: Seq<Account>, pred: spec_fn(Account) -> bool, x: Account)
    requires
        pred(x),
    ensures
        accounts.filter(pred).to_multiset().count(x) == accounts.to_multiset().count(x),
    decreases accounts.len(),
{
    broadcast use vstd::seq_lib::group_to_multiset_ensures;

    reveal(Seq::filter);
    if accounts.len() > 0 {
        lemma_count(accounts.drop_last(), pred, x);
        assert(accounts == accounts.drop_last().push(accounts.last()));
    }
}

/// A listing holds each account as often as the files do: none is lost, none is made up.
pub proof fn listing_loses_nothing(listed: Seq<Account>, files: Seq<Account>)
    requires
        is_listing(listed, files),
    ensures
        listed.to_multiset() == files.to_multiset(),
{
    assert forall|x: Account| #[trigger]
        listed.to_multiset().count(x) == files.to_multiset().count(x) by {
        let pred = |a: Account| a.email@ == x.email@ && a.name@ == x.name@;
        lemma_count(listed, pred, x);
        lemma_count(files, pred, x);
        assert(namesakes(listed, x.email@, x.name@) == namesakes(files, x.email@, x.name@));
    }
    assert(listed.to_multiset() =~= files.to_multiset());
}

/// There is one listing of the accounts that the files hold, and no other.
pub proof fn listing_is_unique(a: Seq<Account>, b: Seq<Account>, files: Seq<Account>)
    requires
        is_listing(a, files),
        is_listing(b, files),
    ensures
        a == b,
{
    assert forall|email: Seq<char>, name: Seq<char>| #[trigger]
        namesakes(a, email, name) == namesakes(b, email, name) by {
        assert(namesakes(a, email, name) == namesakes(files, email, name));
    }
    lemma_same_listing(a, b);
}

/// Lists in the order of listing with the same namesakes in the same order are the same.
proof fn lemma_same_listing(a: Seq<Account>, b: Seq<Account>)
    requires
        in_order(a),
        is_listing(b, a),
    ensures
        a == b,
    decreases a.len(),
{
    broadcast use vstd::seq_lib::group_to_multiset_ensures;

    listing_loses_nothing(b, a);
    assert(a.len() == a.to_multiset().len());
    assert(b.len() == b.to_multiset().len());
    if a.len() == 0 {
        assert(a == b);
    } else {
        let x = a.last();
        let y = b.last();
        assert(a.contains(x));
        assert(b.contains(y));
        assert(b.to_multiset().count(x) > 0);
        assert(a.to_multiset().count(y) > 0);
        assert(b.contains(x));
        assert(a.contains(y));
        let i = choose|i: int| 0 <= i < b.len() && b[i] == x;
        let j = choose|j: int| 0 <= j < a.len() && a[j] == y;
        text::text_less_irreflexive(x.email@);
        text::text_less_irreflexive(x.name@);
        assert(!listed_before(y, x)) by {
            if i < b.len() - 1 {
                assert(!listed_before(b[b.len() - 1], b[i]));
            }
        }
        assert(!listed_before(x, y)) by {
            if j < a.len() - 1 {
                assert(!listed_before(a[a.len() - 1], a[j]));
            }
        }
        text::text_less_total(x.email@, y.email@);
        text::text_less_total(x.name@, y.name@);
        assert(x.email@ == y.email@ && x.name@ == y.name@);
        reveal(Seq::filter);
        assert(namesakes(b, x.email@, x.name@) == namesakes(a, x.email@, x.name@));
        let pred = |c: Account| c.email@ == x.email@ && c.name@ == x.name@;
        assert(a.filter(pred) == a.drop_last().filter(pred).push(x));
        assert(b.filter(pred) == b.drop_last().filter(pred).push(y));
        assert(a.filter(pred).last() == x);
        assert(b.filter(pred).last() == y);
        let shorter_a = a.drop_last();
        let shorter_b = b.drop_last();
        assert forall|email: Seq<char>, name: Seq<char>| #[trigger]
            namesakes(shorter_b, email, name) == namesakes(shorter_a, email, name) by {
            let pred = |c: Account| c.email@ == email && c.name@ == name;
            assert(namesakes(b, email, name) == namesakes(a, email, name));
            if pred(x) {
                assert(a.filter(pred).drop_last() == shorter_a.filter(pred));
                assert(b.filter(pred).drop_last() == shorter_b.filter(pred));
            } else {
                assert(a.filter(pred) == shorter_a.filter(pred));
                assert(b.filter(pred) == shorter_b.filter(pred));
            }
        }
        assert(in_order(shorter_a)) by {
            assert(forall|k: int| 0 <= k < shorter_a.len() ==> #[trigger] shorter_a[k] == a[k]);
        }
        assert(in_order(shorter_b)) by {
            assert(forall|k: int| 0 <= k < shorter_b.len() ==> #[trigger] shorter_b[k] == b[k]);
        }
        lemma_same_listing(shorter_a, shorter_b);
        assert(a == shorter_a.push(x));
        assert(b == shorter_b.push(y));
    }
}

/// Whether a file of this name in the directory for accounts holds an account: its name has the
/// extension `json`.
pub open spec fn names_account_file(name: Seq<char>) -> bool {
    name.len() > 5 && ".json"@.is_suffix_of(name)
}

/// Whether a file of this name in the directory for accounts holds an account.
pub fn is_account_file(name: &str) -> (r: bool)
    ensures
        r == names_account_file(name@),
{
    let v: Vec<char> = text::chars_of(name);
    if v.len() <= 5 {
        return false;
    }
    let end: String = text::string_of(&v, v.len() - 5, v.len());
    proof {
        reveal_strlit(".json");
        assert(".json"@.len() == 5);
    }
    text::same_text(end.as_str(), ".json")
}

/// The path of the file of the account `id`.
pub open spec fn account_file(data_dir: Seq<char>, id: Seq<char>) -> Seq<char> {
    config::path_under(config::path_under(data_dir, "accounts"@), id + ".json"@)
}

/// A saved account is found again: the name of its file is that of an account file.
pub proof fn saved_account_is_listed(id: Seq<char>)
    requires
        id.len() > 0,
    ensures
        names_account_file(id + ".json"@),
{
    reveal_strlit(".json");
    let name = id + ".json"@;
    assert(name.subrange(id.len() as int, name.len() as int) == ".json"@);
}

/// The identifiers of accounts are those of their files: different accounts have different ones,
/// where no identifier starts at the root.
pub proof fn different_accounts_have_different_files(
    data_dir: Seq<char>,
    a: Seq<char>,
    b: Seq<char>,
)
    requires
        a != b,
        a.len() > 0 ==> a[0] != '/',
        b.len() > 0 ==> b[0] != '/',
    ensures
        account_file(data_dir, a) != account_file(data_dir, b),
{
    reveal_strlit(".json");
    reveal_strlit("accounts");
    let dir = config::path_under(data_dir, "accounts"@);
    assert(dir.last() == 's' && dir.len() > 0);
    let start = dir + seq!['/'];
    assert((a + ".json"@)[0] != '/');
    assert((b + ".json"@)[0] != '/');
    assert(account_file(data_dir, a) == start + (a + ".json"@));
    assert(account_file(data_dir, b) == start + (b + ".json"@));
    if account_file(data_dir, a) == account_file(data_dir, b) {
        let n = start.len() as int;
        assert((start + (a + ".json"@)).skip(n) == a + ".json"@);
        assert((start + (b + ".json"@)).skip(n) == b + ".json"@);
        assert((a + ".json"@).take((a + ".json"@).len() - 5) == a);
        assert((b + ".json"@).take((b + ".json"@).len() - 5) == b);
    }
}

/// The accounts in the files of `paths`.
pub open spec fn accounts_at(paths: Seq<Seq<char>>, dir: Map<Seq<char>, Account>) -> Seq<Account> {
    Seq::new(paths.len(), |i: int| dir[paths[i]])
}

/// Whether `files` are the accounts in a directory, each file once, in some order.
pub open spec fn is_reading(files: Seq<Account>, dir: Map<Seq<char>, Account>) -> bool {
    exists|paths: Seq<Seq<char>>|
        {
            &&& paths.no_duplicates()
            &&& forall|path: Seq<char>| #[trigger] paths.contains(path) <==> dir.contains_key(path)
            &&& files == #[trigger] accounts_at(paths, dir)
        }
}

/// The directory for accounts after an import: with the file of the imported account, or as it was
/// where the import is refused.
pub open spec fn after_import(
    dir: Map<Seq<char>, Account>,
    outcome: Result<(ImportedAccount, String), ImportError>,
) -> Map<Seq<char>, Account> {
    match outcome {
        Ok((imported, path)) => dir.insert(path@, imported.account),
        Err(_) => dir,
    }
}

/// The order in which files are read does not change which accounts they hold.
proof fn lemma_same_accounts(
    a: Seq<Seq<char>>,
    b: Seq<Seq<char>>,
    dir: Map<Seq<char>, Account>,
)
    requires
        a.no_duplicates(),
        b.no_duplicates(),
        forall|path: Seq<char>| #[trigger] a.contains(path) <==> b.contains(path),
    ensures
        accounts_at(a, dir).to_multiset() == accounts_at(b, dir).to_multiset(),
    decreases a.len(),
{
    broadcast use vstd::seq_lib::group_to_multiset_ensures;

    if a.len() == 0 {
        if b.len() > 0 {
            assert(b.contains(b[0]));
            assert(a.contains(b[0]));
        }
        assert(accounts_at(a, dir) == accounts_at(b, dir));
    } else {
        let last = a.last();
        assert(a[a.len() - 1] == last);
        assert(a.contains(last));
        assert(b.contains(last));
        let k = choose|k: int| 0 <= k < b.len() && b[k] == last;
        let fewer_a = a.drop_last();
        let fewer_b = b.remove(k);
        assert forall|path: Seq<char>| #[trigger] fewer_a.contains(path) <==> fewer_b.contains(
            path,
        ) by {
            if fewer_a.contains(path) {
                let i = choose|i: int| 0 <= i < fewer_a.len() && fewer_a[i] == path;
                assert(a[i] == path);
                assert(a.contains(path));
                assert(path != last);
                let n = choose|n: int| 0 <= n < b.len() && b[n] == path;
                assert(fewer_b[if n < k { n } else { n - 1 }] == path);
            }
            if fewer_b.contains(path) {
                let i = choose|i: int| 0 <= i < fewer_b.len() && fewer_b[i] == path;
                let n = if i < k { i } else { i + 1 };
                assert(b[n] == path);
                assert(b.contains(path));
                assert(path != last);
                assert(a.contains(path));
                let m = choose|m: int| 0 <= m < a.len() && a[m] == path;
                assert(fewer_a[m] == path);
            }
        }
        assert(fewer_b.no_duplicates()) by {
            assert forall|i: int, m: int|
                0 <= i < fewer_b.len() && 0 <= m < fewer_b.len() && i != m implies fewer_b[i]
                != fewer_b[m] by {
                assert(fewer_b[i] == b[if i < k { i } else { i + 1 }]);
                assert(fewer_b[m] == b[if m < k { m } else { m + 1 }]);
            }
        }
        lemma_same_accounts(fewer_a, fewer_b, dir);
        assert(accounts_at(a, dir) == accounts_at(fewer_a, dir).push(dir[last]));
        assert(accounts_at(fewer_b, dir) == accounts_at(b, dir).remove(k));
        assert(accounts_at(b, dir)[k] == dir[last]);
        assert(accounts_at(b, dir).contains(dir[last]));
        assert(accounts_at(b, dir).to_multiset() == accounts_at(fewer_b, dir).to_multiset().insert(
            dir[last],
        ));
    }
}

/// An import adds the imported account to the list, and nothing else, where no file has its name
/// yet, as chance has it; a refused import leaves the list as it was.
pub proof fn import_adds_one_account(
    dir: Map<Seq<char>, Account>,
    outcome: Result<(ImportedAccount, String), ImportError>,
    files: Seq<Account>,
    listed: Seq<Account>,
    later_files: Seq<Account>,
    later: Seq<Account>,
)
    requires
        outcome matches Ok((_, path)) ==> !dir.contains_key(path@),
        is_reading(files, dir),
        is_listing(listed, files),
        is_reading(later_files, after_import(dir, outcome)),
        is_listing(later, later_files),
    ensures
        match outcome {
            Ok((imported, _)) => later.to_multiset() == listed.to_multiset().insert(
                imported.account,
            ),
            Err(_) => later.to_multiset() == listed.to_multiset(),
        },
{
    broadcast use vstd::seq_lib::group_to_multiset_ensures;

    listing_loses_nothing(listed, files);
    listing_loses_nothing(later, later_files);
    let after = after_import(dir, outcome);
    let a = choose|a: Seq<Seq<char>>|
        {
            &&& a.no_duplicates()
            &&& forall|path: Seq<char>| #[trigger] a.contains(path) <==> dir.contains_key(path)
            &&& files == #[trigger] accounts_at(a, dir)
        };
    let b = choose|b: Seq<Seq<char>>|
        {
            &&& b.no_duplicates()
            &&& forall|path: Seq<char>| #[trigger] b.contains(path) <==> after.contains_key(path)
            &&& later_files == #[trigger] accounts_at(b, after)
        };
    match outcome {
        Ok((imported, path)) => {
            let more = a.push(path@);
            assert(!a.contains(path@));
            assert forall|p: Seq<char>| #[trigger] more.contains(p) <==> b.contains(p) by {
                assert(more[a.len() as int] == path@);
                if a.contains(p) {
                    let i = choose|i: int| 0 <= i < a.len() && a[i] == p;
                    assert(more[i] == p);
                }
                if more.contains(p) {
                    let i = choose|i: int| 0 <= i < more.len() && more[i] == p;
                    if i < a.len() {
                        assert(a[i] == p);
                    }
                }
            }
            assert(more.no_duplicates()) by {
                assert forall|i: int, m: int|
                    0 <= i < more.len() && 0 <= m < more.len() && i != m implies more[i]
                    != more[m] by {
                    if i == a.len() && more[m] == path@ {
                        assert(a[m] == path@);
                    }
                    if m == a.len() && more[i] == path@ {
                        assert(a[i] == path@);
                    }
                }
            }
            lemma_same_accounts(more, b, after);
            assert forall|i: int| 0 <= i < a.len() implies dir[#[trigger] a[i]] == after[a[i]] by {
                assert(a.contains(a[i]));
            }
            assert(accounts_at(more, after) == files.push(imported.account));
        },
        Err(_) => {
            assert forall|p: Seq<char>| #[trigger] a.contains(p) <==> b.contains(p) by {
                assert(a.contains(p) <==> dir.contains_key(p));
            }
            lemma_same_accounts(a, b, dir);
        },
    }
}

/// The directory for accounts after an account was to be removed: without its file, or as it was
/// where there is none to remove.
pub open spec fn after_removal(
    dir: Map<Seq<char>, Account>,
    outcome: Option<(Account, String)>,
) -> Map<Seq<char>, Account> {
    match outcome {
        Some((_, path)) => dir.remove(path@),
        None => dir,
    }
}

/// A removal takes the removed account from the list, and nothing else, where the file that is named
/// after it holds it; the list stays as it was where there is none to remove.
pub proof fn removal_takes_one_account(
    dir: Map<Seq<char>, Account>,
    outcome: Option<(Account, String)>,
    files: Seq<Account>,
    listed: Seq<Account>,
    later_files: Seq<Account>,
    later: Seq<Account>,
)
    requires
        outcome matches Some((account, path)) ==> dir.contains_key(path@) && dir[path@] == account,
        is_reading(files, dir),
        is_listing(listed, files),
        is_reading(later_files, after_removal(dir, outcome)),
        is_listing(later, later_files),
    ensures
        match outcome {
            Some((account, _)) => {
                &&& listed.contains(account)
                &&& later.to_multiset() == listed.to_multiset().remove(account)
            },
            None => later.to_multiset() == listed.to_multiset(),
        },
{
    broadcast use vstd::seq_lib::group_to_multiset_ensures;

    let less = after_removal(dir, outcome);
    match outcome {
        Some((account, path)) => {
            let back = Ok::<(ImportedAccount, String), ImportError>(
                (ImportedAccount { account, source: path }, path),
            );
            assert(after_import(less, back) == dir);
            import_adds_one_account(less, back, later_files, later, files, listed);
            assert(listed.to_multiset() == later.to_multiset().insert(account));
            assert(listed.to_multiset().count(account) > 0);
            assert(listed.to_multiset().remove(account) =~= later.to_multiset());
        },
        None => {
            let refused = Err::<(ImportedAccount, String), ImportError>(
                ImportError::NoAccessToken,
            );
            import_adds_one_account(less, refused, later_files, later, files, listed);
        },
    }
}

/// A random identifier names a file in the directory for accounts that is an account file.
pub proof fn imported_account_has_its_file(data_dir: Seq<char>, id: Seq<char>)
    requires
        outside::is_random_id(id),
    ensures
        id[0] != '/',
        names_account_file(id + ".json"@),
        account_file(data_dir, id) == config::path_under(data_dir, "accounts"@) + seq!['/'] + id
            + ".json"@,
{
    saved_account_is_listed(id);
    reveal_strlit("accounts");
    let dir = config::path_under(data_dir, "accounts"@);
    assert(dir.last() == 's' && dir.len() > 0);
    assert(outside::is_hex(id[0]));
    assert((id + ".json"@)[0] == id[0]);
    assert(account_file(data_dir, id) == dir + seq!['/'] + (id + ".json"@));
}

/// What the configuration file says after a start: what it said, or the configuration that was
/// saved.
pub open spec fn is_config_file_after(
    later: ConfigFile,
    file: Option<ConfigFile>,
    first: LoadedConfig,
) -> bool {
    match file {
        Some(file) => later == file,
        None => config::holds_config(later, first.config@),
    }
}

/// What the key file holds after a start: the key that was written, or what it held.
pub open spec fn key_file_after(content: Option<Seq<char>>, first: LoadedKey) -> Option<Seq<char>> {
    match first.write {
        Some(write) => Some(write.content@),
        None => content,
    }
}

/// A second start writes nothing, and finds the configuration and the key of the first. A start
/// leaves a configuration and a key that are there as they are.
pub proof fn second_start_changes_nothing(
    data_dir: Seq<char>,
    file: Option<ConfigFile>,
    content: Option<Seq<char>>,
    first: (LoadedConfig, LoadedKey),
    later_file: ConfigFile,
    second: (LoadedConfig, LoadedKey),
)
    requires
        config::is_loaded_config(first.0, data_dir, file),
        config::is_loaded_key(first.1, data_dir, content),
        is_config_file_after(later_file, file, first.0),
        config::is_loaded_config(second.0, data_dir, Some(later_file)),
        config::is_loaded_key(second.1, data_dir, key_file_after(content, first.1)),
    ensures
        file is Some ==> first.0.save_to is None,
        config::stored_key(content) is Some ==> first.1.write is None,
        config::stored_key(key_file_after(content, first.1)) is Some,
        second.0.save_to is None,
        second.1.write is None,
        second.0.config@ == first.0.config@,
        second.1.key.0@ == first.1.key.0@,
{
    if config::stored_key(content) is None {
        config::written_key_is_read_back(first.1, data_dir);
    }
}

/// Whether `found` is the first of the listed accounts that `needle` names.
pub open spec fn is_first_named(
    found: Option<Account>,
    listed: Seq<Account>,
    needle: Seq<char>,
) -> bool {
    match found {
        Some(account) => exists|i: int|
            {
                &&& 0 <= i < listed.len()
                &&& #[trigger] listed[i] == account
                &&& names_account(needle, account)
                &&& forall|k: int| 0 <= k < i ==> !names_account(needle, #[trigger] listed[k])
            },
        None => forall|k: int|
            0 <= k < listed.len() ==> !names_account(needle, #[trigger] listed[k]),
    }
}

impl Store {
    /// The store under `data_dir`.
    pub fn new(data_dir: String) -> (r: Store)
        ensures
            r@ == data_dir@,
    {
        Store { data_dir }
    }

    /// The data directory.
    pub fn data_dir(&self) -> (r: &str)
        ensures
            r@ == self@,
    {
        self.data_dir.as_str()
    }

    /// The configuration, from what the configuration file says.
    pub fn config(&self, file: Option<ConfigFile>) -> (r: LoadedConfig)
        ensures
            config::is_loaded_config(r, self@, file),
    {
        config::load_config(self.data_dir.as_str(), file)
    }

    /// The gateway key, from the content of the key file.
    pub fn gateway_key(&self, content: Option<&str>) -> (r: LoadedKey)
        ensures
            config::is_loaded_key(r, self@, text::opt_str(content)),
    {
        config::load_or_create_gateway_key(self.data_dir.as_str(), content)
    }

    /// A new gateway key, which is to be written to the key file.
    pub fn rotate_gateway_key(&self) -> (r: LoadedKey)
        ensures
            config::is_new_key(r, self@),
    {
        config::rotate_gateway_key(self.data_dir.as_str())
    }

    /// What a start of the store loads, and has written: the configuration and the key.
    pub fn init(&self, file: Option<ConfigFile>, content: Option<&str>) -> (r: (
        LoadedConfig,
        LoadedKey,
    ))
        ensures
            config::is_loaded_config(r.0, self@, file),
            config::is_loaded_key(r.1, self@, text::opt_str(content)),
    {
        (self.config(file), self.gateway_key(content))
    }

    /// The path of the file of the account `id`.
    pub fn account_path(&self, id: &str) -> (r: String)
        ensures
            r@ == account_file(self@, id@),
    {
        let dir: String = config::ensure_data_dir(self.data_dir.as_str());
        let name: String = text::joined(id, ".json");
        config::path_join(dir.as_str(), name.as_str())
    }

    /// Where `account` is to be saved.
    pub fn save_account(&self, account: &Account) -> (r: String)
        ensures
            r@ == account_file(self@, account.id@),
    {
        self.account_path(account.id.as_str())
    }

    /// Imports the auth file with the content `content`, which was read from `source`: the account,
    /// and where it is to be saved.
    pub fn import_auth(
        &self,
        source: &str,
        content: &str,
        name: &str,
        email: Option<&str>,
    ) -> (r: Result<(ImportedAccount, String), ImportError>)
        ensures
            match r {
                Ok((imported, path)) => {
                    &&& path@ == account_file(self@, imported.account.id@)
                    &&& crate::json::parsed(text::utf8(content@)) is Some
                    &&& imported.source@ == source@
                    &&& exists|id: Seq<char>, spare_id: Seq<char>, now: int|
                        {
                            &&& outside::is_random_id(id)
                            &&& outside::is_random_id(spare_id)
                            &&& 0 <= now <= outside::LAST_SECOND * 1000 + 999
                            &&& #[trigger] account::described_account(
                                crate::json::parsed(text::utf8(content@)).unwrap(),
                                name@,
                                text::opt_str(email),
                                id,
                                spare_id,
                                now,
                            ) == Some(imported.account@)
                            &&& accounts::has_due_email(
                                crate::json::parsed(text::utf8(content@)).unwrap(),
                                text::opt_str(email),
                                spare_id,
                                imported.account@,
                            )
                        }
                },
                Err(ImportError::NotJson(error)) => crate::json::json_parsed(
                    text::utf8(content@),
                ) matches Err(e) && e == error@,
                Err(ImportError::NoAccessToken) => crate::json::parsed(
                    text::utf8(content@),
                ) matches Some(tree) && account::tokens_in(tree) is None,
            },
    {
        match account::import_auth_file(source, content, name, email) {
            Ok(imported) => {
                let path: String = self.save_account(&imported.account);
                Ok((imported, path))
            },
            Err(error) => Err(error),
        }
    }

    /// The accounts that the account files hold, in the order of listing.
    pub fn list_accounts(&self, files: Vec<Account>) -> (r: Vec<Account>)
        ensures
            is_listing(r@, files@),
    {
        sorted_accounts(files)
    }

    /// What is shown of the accounts that the account files hold, in the order of listing.
    pub fn list_account_summaries(&self, files: Vec<Account>) -> (r: Vec<AccountSummary>)
        ensures
            exists|listed: Seq<Account>|
                {
                    &&& #[trigger] is_listing(listed, files@)
                    &&& r@.len() == listed.len()
                    &&& forall|i: int|
                        0 <= i < listed.len() ==> (#[trigger] listed[i]).is_shown_as(r@[i]@)
                },
    {
        let listed: Vec<Account> = sorted_accounts(files);
        let mut r: Vec<AccountSummary> = Vec::new();
        let mut i: usize = 0;
        while i < listed.len()
            invariant
                i <= listed@.len(),
                r@.len() == i,
                forall|k: int| 0 <= k < i ==> (#[trigger] listed@[k]).is_shown_as(r@[k]@),
            decreases listed@.len() - i,
        {
            let summary: AccountSummary = listed[i].summary();
            r.push(summary);
            i += 1;
        }
        assert(is_listing(listed@, files@));
        r
    }

    /// The first account, in the order of listing, that `id_or_email` names.
    pub fn find_account(&self, files: Vec<Account>, id_or_email: &str) -> (r: Option<Account>)
        ensures
            exists|listed: Seq<Account>|
                {
                    &&& #[trigger] is_listing(listed, files@)
                    &&& is_first_named(r, listed, text::trimmed(id_or_email@))
                },
    {
        let needle: String = text::trim(id_or_email);
        let listed: Vec<Account> = sorted_accounts(files);
        let mut i: usize = 0;
        assert(is_listing(listed@, files@));
        while i < listed.len()
            invariant
                i <= listed@.len(),
                needle@ == text::trimmed(id_or_email@),
                is_listing(listed@, files@),
                forall|k: int| 0 <= k < i ==> !names_account(needle@, #[trigger] listed@[k]),
            decreases listed@.len() - i,
        {
            if listed[i].id == needle || text::equal_ignoring_case(
                listed[i].email.as_str(),
                needle.as_str(),
            ) || text::equal_ignoring_case(listed[i].name.as_str(), needle.as_str()) {
                let account: Account = listed[i].clone();
                assert(listed@[i as int] == account);
                assert(is_first_named(Some(account), listed@, needle@));
                return Some(account);
            }
            i += 1;
        }
        assert(is_first_named(None, listed@, needle@));
        None
    }

    /// The account that `id_or_email` names, which is to be removed, and the path of its file.
    pub fn remove_account(&self, files: Vec<Account>, id_or_email: &str) -> (r: Option<
        (Account, String),
    >)
        ensures
            exists|listed: Seq<Account>|
                {
                    &&& #[trigger] is_listing(listed, files@)
                    &&& match r {
                        Some((account, path)) => {
                            &&& is_first_named(
                                Some(account),
                                listed,
                                text::trimmed(id_or_email@),
                            )
                            &&& path@ == account_file(self@, account.id@)
                        },
                        None => is_first_named(None, listed, text::trimmed(id_or_email@)),
                    }
                },
    {
        match self.find_account(files, id_or_email) {
            Some(account) => {
                let path: String = self.account_path(account.id.as_str());
                Some((account, path))
            },
            None => None,
        }
    }
}

} // verus!
