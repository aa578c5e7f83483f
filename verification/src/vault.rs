//! The application data vault: the installed-apps cache with paged search,
//! and a key-value store whose namespaces are guarded per plugin.
use vstd::prelude::*;

use crate::apps::{app_views, apps_json, apps_to_json, AppInfo, AppInfoView};
use crate::text::{
    ascii_lower, chars_eq, chars_of, contains, decimal, decimal_string, is_ascii_text,
    lemma_ascii_lower_concat, lemma_trim_padded, lowercase, seq_contains, starts_with,
    to_lowercase, trim, trim_spec, white_space,
};

verus! {

/// One page of an app query.
pub struct AppQueryResult {
    pub apps: Vec<AppInfo>,
    pub total_count: usize,
    pub page: usize,
    pub total_pages: usize,
}

/// Parameters of an app query: optional search text, page index and page size.
pub struct QueryAppsParams {
    pub search: Option<String>,
    pub page: Option<usize>,
    pub limit: Option<usize>,
}

impl Default for QueryAppsParams {
    fn default() -> (p: Self)
        ensures
            p.search is None,
            p.page is None,
            p.limit is None,
    {
        QueryAppsParams { search: None, page: None, limit: None }
    }
}

/// The page size used when a query gives none.
pub const DEFAULT_PAGE_SIZE: usize = 28;

/// The search term of a query: the lowercased, trimmed search text, when not empty.
pub open spec fn search_term(search: Option<Seq<char>>) -> Option<Seq<char>> {
    match search {
        Some(s) => {
            let t = trim_spec(lowercase(s));
            if t.len() > 0 {
                Some(t)
            } else {
                None
            }
        },
        None => None,
    }
}

/// An app matches a term when its lowercased name or package name contains it.
pub open spec fn app_matches(app: AppInfoView, term: Seq<char>) -> bool {
    seq_contains(lowercase(app.name), term) || seq_contains(lowercase(app.package_name), term)
}

/// The apps, in order, that match `term`.
pub open spec fn apps_matching(apps: Seq<AppInfoView>, term: Seq<char>) -> Seq<AppInfoView>
    decreases apps.len(),
{
    if apps.len() == 0 {
        Seq::empty()
    } else {
        let rest = apps_matching(apps.drop_last(), term);
        if app_matches(apps.last(), term) {
            rest.push(apps.last())
        } else {
            rest
        }
    }
}

/// The apps a query selects before paging.
pub open spec fn filtered_apps(apps: Seq<AppInfoView>, search: Option<Seq<char>>) -> Seq<
    AppInfoView,
> {
    match search_term(search) {
        Some(t) => apps_matching(apps, t),
        None => apps,
    }
}

/// The page size of a query: the given limit (28 when absent), at least 1.
pub open spec fn effective_limit(limit: Option<usize>) -> nat {
    let l = match limit {
        Some(l) => l as nat,
        None => DEFAULT_PAGE_SIZE as nat,
    };
    if l >= 1 {
        l
    } else {
        1
    }
}

/// The number of pages: ceil(total / limit), and 1 for an empty result.
pub open spec fn page_count(total: nat, limit: nat) -> nat {
    if total == 0 {
        1
    } else {
        ((total as int + limit as int - 1) / (limit as int)) as nat
    }
}

/// The requested page (0 when absent), clamped to the last page.
pub open spec fn clamped_page(page: Option<usize>, pages: nat) -> nat {
    let p = match page {
        Some(p) => p as nat,
        None => 0,
    };
    if p <= pages - 1 {
        p
    } else {
        (pages - 1) as nat
    }
}

/// The views of an optional string.
pub open spec fn opt_view(s: Option<String>) -> Option<Seq<char>> {
    match s {
        Some(s) => Some(s@),
        None => None,
    }
}

proof fn lemma_ceil_div(total: int, limit: int)
    requires
        limit >= 1,
        total >= 1,
    ensures
        (total + limit - 1) / limit == total / limit + (if total % limit == 0 {
            0int
        } else {
            1int
        }),
        (total + limit - 1) / limit >= 1,
        ((total + limit - 1) / limit - 1) * limit < total,
        total % limit != 0 ==> total / limit < total,
{
    let q = total / limit;
    let r = total % limit;
    vstd::arithmetic::div_mod::lemma_fundamental_div_mod(total, limit);
    vstd::arithmetic::div_mod::lemma_mod_bound(total, limit);
    if r == 0 {
        assert(total + limit - 1 == q * limit + (limit - 1)) by (nonlinear_arith)
            requires
                total == limit * q,
        ;
        vstd::arithmetic::div_mod::lemma_fundamental_div_mod_converse(
            total + limit - 1,
            limit,
            q,
            limit - 1,
        );
        assert(q >= 1) by (nonlinear_arith)
            requires
                total == limit * q,
                total >= 1,
                limit >= 1,
        ;
        assert((q - 1) * limit < total) by (nonlinear_arith)
            requires
                total == limit * q,
                limit >= 1,
        ;
    } else {
        assert(total + limit - 1 == (q + 1) * limit + (r - 1)) by (nonlinear_arith)
            requires
                total == limit * q + r,
        ;
        vstd::arithmetic::div_mod::lemma_fundamental_div_mod_converse(
            total + limit - 1,
            limit,
            q + 1,
            r - 1,
        );
        assert(q >= 0) by (nonlinear_arith)
            requires
                total == limit * q + r,
                0 <= r < limit,
                total >= 1,
                limit >= 1,
        ;
        assert(q * limit < total) by (nonlinear_arith)
            requires
                total == limit * q + r,
                r > 0,
        ;
        assert(q < total) by (nonlinear_arith)
            requires
                total == limit * q + r,
                0 < r < limit,
                q >= 0,
        ;
    }
}

/// Keys under this prefix are owned by the host and read-only for plugins.
pub open spec fn system_ns() -> Seq<char> {
    "system."@
}

/// Keys under this prefix are private to one plugin.
pub open spec fn plugin_ns() -> Seq<char> {
    "plugin."@
}

/// The private namespace of the plugin `plugin_id`: `plugin.<plugin_id>.`.
pub open spec fn own_ns(plugin_id: Seq<char>) -> Seq<char> {
    "plugin."@ + plugin_id + "."@
}

/// A key in the read-only `system.*` namespace.
pub open spec fn is_system_key(key: Seq<char>) -> bool {
    system_ns().is_prefix_of(key)
}

/// A key in the private namespace of some plugin other than `plugin_id`.
pub open spec fn is_foreign_key(key: Seq<char>, plugin_id: Seq<char>) -> bool {
    plugin_ns().is_prefix_of(key) && !own_ns(plugin_id).is_prefix_of(key)
}

/// Whether the plugin `plugin_id` may write or delete `key`.
pub open spec fn may_write(key: Seq<char>, plugin_id: Seq<char>) -> bool {
    !is_system_key(key) && !is_foreign_key(key, plugin_id)
}

/// Whether the plugin `plugin_id` sees `key` when listing keys with an optional prefix.
pub open spec fn key_listed(key: Seq<char>, prefix: Option<Seq<char>>, plugin_id: Seq<char>) -> bool {
    !is_foreign_key(key, plugin_id) && match prefix {
        Some(p) => p.is_prefix_of(key),
        None => true,
    }
}

/// The error of a refused write.
pub open spec fn set_error(key: Seq<char>) -> Seq<char> {
    if is_system_key(key) {
        "'system.*' namespace is read-only for plugins"@
    } else {
        "Plugin is not authorized to write to private namespace '"@ + key + "'"@
    }
}

/// The error of a refused delete.
pub open spec fn delete_error(key: Seq<char>) -> Seq<char> {
    if is_system_key(key) {
        "Cannot delete from 'system.*' namespace"@
    } else {
        "Cannot delete from another plugin's namespace"@
    }
}

/// `m` with the entries of `es` inserted in order (later entries win).
pub open spec fn insert_all(m: Map<Seq<char>, Seq<char>>, es: Seq<(Seq<char>, Seq<char>)>) -> Map<
    Seq<char>,
    Seq<char>,
>
    decreases es.len(),
{
    if es.len() == 0 {
        m
    } else {
        insert_all(m, es.drop_last()).insert(es.last().0, es.last().1)
    }
}

/// The key that reads the installed apps.
pub open spec fn apps_key() -> Seq<char> {
    "system.apps"@
}

/// The key that reads the number of installed apps.
pub open spec fn app_count_key() -> Seq<char> {
    "system.app_count"@
}

/// A snapshot of one plugin's private entries: the JSON text `contents`, to be
/// written to `file_name` inside the vault's cache directory.
pub struct PersistRequest {
    pub file_name: String,
    pub contents: String,
}

/// The string entries of the JSON object that `text` writes, if it writes one
/// (what `serde_json::from_str::<HashMap<String, String>>` accepts and returns).
pub uninterp spec fn json_string_object(text: Seq<char>) -> Option<Map<Seq<char>, Seq<char>>>;

/// `serde_json::from_str::<HashMap<String, String>>`: reads a JSON object whose
/// values are all strings. Claims that the entries handed back are those of
/// the map the parser built (a `HashMap` holds each key once); their order,
/// which is the map's iteration order, is left unsaid.
#[verifier::external_body]
pub(crate) fn parse_snapshot(text: &str) -> (r: Option<Vec<(String, String)>>)
    ensures
        match r {
            Some(es) => distinct_keys(entry_views(es@)) && json_string_object(text@) == Some(
                entries_map(entry_views(es@)),
            ),
            None => json_string_object(text@) is None,
        },
{
    serde_json::from_str::<std::collections::HashMap<String, String>>(text).ok().map(
        |m| m.into_iter().collect(),
    )
}

/// `serde_json::to_string` of the entries gathered in a `HashMap<String, String>`.
/// Claims that it succeeds (serde_json writes string keys and values into a
/// byte buffer, which cannot fail) and that reading the text back gives the
/// entries' map. The order of the object's members, which follows the map's
/// randomly seeded iteration, is left unsaid.
#[verifier::external_body]
pub(crate) fn snapshot_json(entries: &Vec<(String, String)>) -> (r: Option<String>)
    requires
        distinct_keys(entry_views(entries@)),
    ensures
        r is Some,
        r matches Some(t) ==> json_string_object(t@) == Some(entries_map(entry_views(entries@))),
{
    let map: std::collections::HashMap<&str, &str> = entries.iter().map(
        |e| (e.0.as_str(), e.1.as_str()),
    ).collect();
    serde_json::to_string(&map).ok()
}

/// Inserting entries one after another, later ones winning, is taking the
/// union with their map, preferring them.
proof fn lemma_insert_all_union(m: Map<Seq<char>, Seq<char>>, es: Seq<(Seq<char>, Seq<char>)>)
    ensures
        insert_all(m, es) == m.union_prefer_right(entries_map(es)),
    decreases es.len(),
{
    if es.len() == 0 {
        assert(m.union_prefer_right(entries_map(es)) =~= m);
    } else {
        lemma_insert_all_union(m, es.drop_last());
        assert(insert_all(m, es) =~= m.union_prefer_right(entries_map(es)));
    }
}

/// The file that holds the snapshot of `plugin_id`: `vault_<plugin_id>.json`.
pub open spec fn vault_file_name(plugin_id: Seq<char>) -> Seq<char> {
    "vault_"@ + plugin_id + ".json"@
}

/// Whether a file name is a vault snapshot: it starts with `vault_` and ends with `.json`.
pub open spec fn is_vault_file_spec(name: Seq<char>) -> bool {
    "vault_"@.is_prefix_of(name) && ".json"@.is_suffix_of(name)
}

/// The installed-apps cache and the plugin key-value store.
pub struct DataVault {
    system_apps: Vec<AppInfo>,
    kv_store: Vec<(String, String)>,
    cache_dir: Option<String>,
}

/// The views of the store's entries, in storage order.
pub open spec fn entry_views(kv: Seq<(String, String)>) -> Seq<(Seq<char>, Seq<char>)> {
    kv.map_values(|e: (String, String)| (e.0@, e.1@))
}

/// The map described by a sequence of entries whose keys are distinct.
pub open spec fn entries_map(es: Seq<(Seq<char>, Seq<char>)>) -> Map<Seq<char>, Seq<char>>
    decreases es.len(),
{
    if es.len() == 0 {
        Map::empty()
    } else {
        entries_map(es.drop_last()).insert(es.last().0, es.last().1)
    }
}

/// No key occurs twice.
pub open spec fn distinct_keys(es: Seq<(Seq<char>, Seq<char>)>) -> bool {
    forall|i: int, j: int| 0 <= i < j < es.len() ==> es[i].0 != es[j].0
}

proof fn lemma_entries_map(es: Seq<(Seq<char>, Seq<char>)>)
    requires
        distinct_keys(es),
    ensures
        forall|k: Seq<char>|
            #![trigger entries_map(es).contains_key(k)]
            entries_map(es).contains_key(k) <==> exists|i: int| 0 <= i < es.len() && es[i].0 == k,
        forall|i: int| 0 <= i < es.len() ==> #[trigger] entries_map(es)[es[i].0] == es[i].1,
        entries_map(es).dom().finite(),
        entries_map(es).dom().len() == es.len(),
    decreases es.len(),
{
    if es.len() > 0 {
        let rest = es.drop_last();
        assert(distinct_keys(rest));
        lemma_entries_map(rest);
        let m = entries_map(es);
        assert forall|k: Seq<char>| m.contains_key(k) implies exists|i: int|
            0 <= i < es.len() && es[i].0 == k by {
            if k != es.last().0 {
                let i = choose|i: int| 0 <= i < rest.len() && rest[i].0 == k;
                assert(es[i].0 == k);
            }
        }
        assert forall|k: Seq<char>| (exists|i: int| 0 <= i < es.len() && es[i].0 == k) implies m.contains_key(k) by {
            let i = choose|i: int| 0 <= i < es.len() && es[i].0 == k;
            if i < es.len() - 1 {
                assert(rest[i].0 == k);
            }
        }
        assert forall|i: int| 0 <= i < es.len() implies #[trigger] m[es[i].0] == es[i].1 by {
            if i < es.len() - 1 {
                assert(rest[i] == es[i]);
                assert(es[i].0 != es.last().0);
            }
        }
        assert(!entries_map(rest).contains_key(es.last().0)) by {
            if entries_map(rest).contains_key(es.last().0) {
                let i = choose|i: int| 0 <= i < rest.len() && rest[i].0 == es.last().0;
                assert(es[i].0 == es[es.len() - 1].0);
            }
        }
    }
}

impl Default for DataVault {
    /// A vault without a cache directory.
    fn default() -> (vault: Self)
        ensures
            vault.apps() == Seq::<AppInfoView>::empty(),
            vault.store() == Map::<Seq<char>, Seq<char>>::empty(),
            vault.cache_dir() is None,
    {
        Self::new(None)
    }
}

impl DataVault {
    /// The installed apps.
    pub closed spec fn apps(&self) -> Seq<AppInfoView> {
        app_views(self.system_apps@)
    }

    /// The key-value store.
    pub closed spec fn store(&self) -> Map<Seq<char>, Seq<char>> {
        entries_map(entry_views(self.kv_store@))
    }

    /// The cache directory used for persistence, if any.
    pub closed spec fn cache_dir(&self) -> Option<Seq<char>> {
        opt_view(self.cache_dir)
    }

    /// The internal representation is consistent: no key is stored twice.
    #[verifier::type_invariant]
    spec fn wf(&self) -> bool {
        distinct_keys(entry_views(self.kv_store@))
    }

    /// Creates an empty vault that persists plugin data under `cache_dir`, if given.
    /// The caller reads earlier snapshot files and hands their text to
    /// `load_snapshot_text`.
    pub fn new(cache_dir: Option<String>) -> (vault: Self)
        ensures
            vault.apps() == Seq::<AppInfoView>::empty(),
            vault.store() == Map::<Seq<char>, Seq<char>>::empty(),
            vault.cache_dir() == opt_view(cache_dir),
    {
        let vault = Self { system_apps: Vec::new(), kv_store: Vec::new(), cache_dir };
        proof {
            assert(entry_views(vault.kv_store@) =~= Seq::empty());
            assert(vault.apps() =~= Seq::empty());
        }
        vault
    }

    /// Replaces the installed applications list.
    pub fn update_system_apps(&mut self, apps: Vec<AppInfo>)
        ensures
            final(self).apps() == app_views(apps@),
            final(self).store() == old(self).store(),
            final(self).cache_dir() == old(self).cache_dir(),
    {
        proof {
            use_type_invariant(&*self);
        }
        self.system_apps = apps;
    }

    /// All installed applications.
    pub fn get_system_apps(&self) -> (apps: Vec<AppInfo>)
        ensures
            app_views(apps@) == self.apps(),
    {
        let mut out: Vec<AppInfo> = Vec::new();
        let mut i: usize = 0;
        while i < self.system_apps.len()
            invariant
                i <= self.system_apps.len(),
                app_views(out@) == app_views(self.system_apps@).subrange(0, i as int),
            decreases self.system_apps.len() - i,
        {
            let ghost before = out@;
            let dup = self.system_apps[i].duplicate();
            out.push(dup);
            proof {
                assert(out@ == before.push(dup));
                assert(app_views(out@) =~= app_views(before).push(dup@));
                assert(app_views(self.system_apps@).subrange(0, i as int + 1) =~= app_views(
                    self.system_apps@,
                ).subrange(0, i as int).push(self.system_apps@[i as int]@));
            }
            i += 1;
        }
        proof {
            assert(app_views(self.system_apps@).subrange(0, i as int) =~= app_views(
                self.system_apps@,
            ));
        }
        out
    }

    /// Searches the installed apps and returns one page of the result.
    ///
    /// The search text is lowercased and trimmed; when something remains, the
    /// apps whose lowercased name or package name contains it are selected,
    /// otherwise all apps. Pages hold `limit` apps (28 by default, at least 1);
    /// the requested page (0 by default) is clamped to the last page.
    pub fn query_apps(&self, params: QueryAppsParams) -> (r: AppQueryResult)
        ensures
            ({
                let filtered = filtered_apps(self.apps(), opt_view(params.search));
                let limit = effective_limit(params.limit);
                let pages = page_count(filtered.len(), limit);
                let page = clamped_page(params.page, pages);
                let start = page * limit;
                let end = if start + limit <= filtered.len() {
                    (start + limit) as int
                } else {
                    filtered.len() as int
                };
                &&& r.total_count == filtered.len()
                &&& r.total_pages == pages
                &&& r.page == page
                &&& start <= end
                &&& app_views(r.apps@) == filtered.subrange(start as int, end)
            }),
    {
        let term: Option<Vec<char>> = match &params.search {
            Some(text) => {
                let lowered = to_lowercase(text.as_str());
                search_term_of(lowered.as_str())
            },
            None => None,
        };
        let apps = self.system_apps.as_slice();
        let filtered: Vec<&AppInfo> = match &term {
            Some(t) => {
                let mut names: Vec<String> = Vec::new();
                let mut packages: Vec<String> = Vec::new();
                let mut i: usize = 0;
                while i < apps.len()
                    invariant
                        i <= apps.len(),
                        names@.len() == i,
                        packages@.len() == i,
                        forall|k: int|
                            0 <= k < i ==> (#[trigger] names@[k])@ == lowercase(apps@[k].name@),
                        forall|k: int|
                            0 <= k < i ==> (#[trigger] packages@[k])@ == lowercase(
                                apps@[k].package_name@,
                            ),
                    decreases apps.len() - i,
                {
                    names.push(to_lowercase(apps[i].name.as_str()));
                    packages.push(to_lowercase(apps[i].package_name.as_str()));
                    i += 1;
                }
                let selected = select_matching(apps, names.as_slice(), packages.as_slice(), t.as_slice());
                proof {
                    let nv = names@.map_values(|n: String| n@);
                    let pv = packages@.map_values(|n: String| n@);
                    assert forall|k: int| 0 <= k < nv.len() implies #[trigger] nv[k] == lowercase(
                        app_views(apps@)[k].name,
                    ) && pv[k] == lowercase(app_views(apps@)[k].package_name) by {
                        assert(nv[k] == names@[k]@);
                        assert(pv[k] == packages@[k]@);
                    }
                    lemma_select_term(app_views(apps@), nv, pv, t@);
                }
                selected
            },
            None => {
                let mut all: Vec<&AppInfo> = Vec::new();
                let mut i: usize = 0;
                while i < apps.len()
                    invariant
                        i <= apps.len(),
                        all@.map_values(|a: &AppInfo| a@) == app_views(apps@).subrange(0, i as int),
                    decreases apps.len() - i,
                {
                    let ghost before = all@;
                    all.push(&apps[i]);
                    proof {
                        assert(all@.map_values(|a: &AppInfo| a@) =~= before.map_values(
                            |a: &AppInfo| a@,
                        ).push(apps@[i as int]@));
                        assert(app_views(apps@).subrange(0, i as int + 1) =~= app_views(
                            apps@,
                        ).subrange(0, i as int).push(apps@[i as int]@));
                    }
                    i += 1;
                }
                proof {
                    assert(app_views(apps@).subrange(0, apps@.len() as int) =~= app_views(apps@));
                }
                all
            },
        };
        let ghost fview = filtered@.map_values(|a: &AppInfo| a@);
        assert(fview == filtered_apps(self.apps(), opt_view(params.search)));
        let requested_limit = match params.limit {
            Some(l) => l,
            None => DEFAULT_PAGE_SIZE,
        };
        let limit = if requested_limit < 1 {
            1
        } else {
            requested_limit
        };
        let requested_page = match params.page {
            Some(p) => p,
            None => 0,
        };
        page_of(&filtered, requested_page, limit)
    }

    /// Index of the entry stored under `key`, if any.
    fn find_key(&self, key: &[char]) -> (r: Option<usize>)
        ensures
            match r {
                Some(i) => i < self.kv_store@.len() && self.kv_store@[i as int].0@ == key@,
                None => forall|i: int|
                    0 <= i < self.kv_store@.len() ==> #[trigger] self.kv_store@[i].0@ != key@,
            },
    {
        let mut i: usize = 0;
        while i < self.kv_store.len()
            invariant
                i <= self.kv_store.len(),
                forall|j: int| 0 <= j < i ==> #[trigger] self.kv_store@[j].0@ != key@,
            decreases self.kv_store.len() - i,
        {
            let k = chars_of(self.kv_store[i].0.as_str());
            if chars_eq(k.as_slice(), key) {
                return Some(i);
            }
            i += 1;
        }
        None
    }

    /// Stores `value` under `key`, replacing an earlier value.
    fn insert_entry(&mut self, key: String, value: String)
        ensures
            final(self).store() == old(self).store().insert(key@, value@),
            final(self).apps() == old(self).apps(),
            final(self).cache_dir() == old(self).cache_dir(),
    {
        proof {
            use_type_invariant(&*self);
        }
        let ghost old_es = entry_views(self.kv_store@);
        let key_chars = chars_of(key.as_str());
        let ghost kv = key@;
        let ghost vv = value@;
        let found = self.find_key(key_chars.as_slice());
        let mut store: Vec<(String, String)> = Vec::new();
        std::mem::swap(&mut store, &mut self.kv_store);
        match found {
            Some(i) => {
                store.set(i, (key, value));
                proof {
                    let es = entry_views(store@);
                    assert(es =~= old_es.update(i as int, (kv, vv)));
                    assert(distinct_keys(es)) by {
                        assert forall|a: int, b: int| 0 <= a < b < es.len() implies es[a].0
                            != es[b].0 by {
                            assert(old_es[a].0 == es[a].0);
                            assert(old_es[b].0 == es[b].0);
                        }
                    }
                    lemma_entries_map(old_es);
                    lemma_entries_map(es);
                    lemma_map_update(old_es, es, i as int);
                }
            },
            None => {
                let ghost before = store@;
                store.push((key, value));
                proof {
                    let es = entry_views(store@);
                    assert(es =~= old_es.push((kv, vv)));
                    assert(es.drop_last() =~= old_es);
                    assert(distinct_keys(es)) by {
                        assert forall|a: int, b: int| 0 <= a < b < es.len() implies es[a].0
                            != es[b].0 by {
                            if b == es.len() - 1 {
                                assert(before[a].0@ != kv);
                            } else {
                                assert(old_es[a].0 == es[a].0);
                                assert(old_es[b].0 == es[b].0);
                            }
                        }
                    }
                }
            },
        }
        self.kv_store = store;
    }

    /// Removes the entry under `key`; tells whether there was one.
    fn remove_entry(&mut self, key: &[char]) -> (removed: bool)
        ensures
            removed == old(self).store().contains_key(key@),
            final(self).store() == old(self).store().remove(key@),
            final(self).apps() == old(self).apps(),
            final(self).cache_dir() == old(self).cache_dir(),
    {
        proof {
            use_type_invariant(&*self);
        }
        let ghost old_es = entry_views(self.kv_store@);
        proof {
            lemma_entries_map(old_es);
        }
        match self.find_key(key) {
            Some(i) => {
                let mut store: Vec<(String, String)> = Vec::new();
                std::mem::swap(&mut store, &mut self.kv_store);
                store.remove(i);
                proof {
                    let es = entry_views(store@);
                    assert(es =~= old_es.remove(i as int));
                    assert(distinct_keys(es)) by {
                        assert forall|a: int, b: int| 0 <= a < b < es.len() implies es[a].0
                            != es[b].0 by {
                            let a0 = if a < i { a } else { a + 1 };
                            let b0 = if b < i { b } else { b + 1 };
                            assert(es[a] == old_es[a0]);
                            assert(es[b] == old_es[b0]);
                        }
                    }
                    lemma_entries_map(es);
                    lemma_map_remove(old_es, es, i as int);
                    assert(old_es[i as int].0 == key@);
                }
                self.kv_store = store;
                true
            },
            None => {
                proof {
                    assert(!entries_map(old_es).contains_key(key@)) by {
                        if entries_map(old_es).contains_key(key@) {
                            let j = choose|j: int| 0 <= j < old_es.len() && old_es[j].0 == key@;
                            assert(self.kv_store@[j].0@ == key@);
                        }
                    }
                    assert(entries_map(old_es).remove(key@) =~= entries_map(old_es));
                }
                false
            },
        }
    }

    /// Reads a value. `system.apps` gives the installed apps as a JSON array,
    /// `system.app_count` their number in decimal; any other key gives the
    /// stored value, if any.
    pub fn get(&self, key: &str) -> (r: Option<String>)
        ensures
            key@ == apps_key() ==> (r matches Some(t) && t@ == apps_json(self.apps())),
            key@ != apps_key() && key@ == app_count_key() ==> (r matches Some(t) && t@ == decimal(
                self.apps().len(),
            )),
            key@ != apps_key() && key@ != app_count_key() ==> match r {
                Some(t) => self.store().contains_key(key@) && t@ == self.store()[key@],
                None => !self.store().contains_key(key@),
            },
    {
        proof {
            use_type_invariant(self);
        }
        let k = chars_of(key);
        let apps_k = chars_of("system.apps");
        if chars_eq(k.as_slice(), apps_k.as_slice()) {
            return Some(apps_to_json(self.system_apps.as_slice()));
        }
        let count_k = chars_of("system.app_count");
        if chars_eq(k.as_slice(), count_k.as_slice()) {
            return Some(decimal_string(self.system_apps.len()));
        }
        proof {
            lemma_entries_map(entry_views(self.kv_store@));
        }
        match self.find_key(k.as_slice()) {
            Some(i) => {
                proof {
                    assert(entry_views(self.kv_store@)[i as int].0 == key@);
                }
                Some(self.kv_store[i].1.clone())
            },
            None => {
                proof {
                    let es = entry_views(self.kv_store@);
                    if entries_map(es).contains_key(key@) {
                        let j = choose|j: int| 0 <= j < es.len() && es[j].0 == key@;
                        assert(self.kv_store@[j].0@ == key@);
                    }
                }
                None
            },
        }
    }

    /// Whether the plugin `plugin_id` may write `key`: not under `system.`, and
    /// not under `plugin.` unless under the plugin's own `plugin.<plugin_id>.`.
    fn check_namespace(key: &[char], plugin_id: &str) -> (r: (bool, bool))
        ensures
            r.0 == is_system_key(key@),
            r.1 == is_foreign_key(key@, plugin_id@),
    {
        let system = chars_of("system.");
        let plugin = chars_of("plugin.");
        let own = own_namespace(plugin_id);
        let is_system = starts_with(key, system.as_slice());
        let is_foreign = starts_with(key, plugin.as_slice()) && !starts_with(key, own.as_slice());
        (is_system, is_foreign)
    }

    /// Writes `value` under `key` on behalf of the plugin `plugin_id`.
    ///
    /// # Errors
    /// Refuses keys in the read-only `system.*` namespace and keys in another
    /// plugin's private `plugin.<other_id>.*` namespace.
    pub fn set(&mut self, key: &str, value: String, plugin_id: &str) -> (r: Result<(), String>)
        ensures
            final(self).apps() == old(self).apps(),
            final(self).cache_dir() == old(self).cache_dir(),
            r is Ok <==> may_write(key@, plugin_id@),
            match r {
                Ok(()) => final(self).store() == old(self).store().insert(key@, value@),
                Err(e) => e@ == set_error(key@) && final(self).store() == old(self).store(),
            },
    {
        let k = chars_of(key);
        let (is_system, is_foreign) = Self::check_namespace(k.as_slice(), plugin_id);
        if is_system {
            return Err(String::from_str("'system.*' namespace is read-only for plugins"));
        }
        if is_foreign {
            let mut msg = String::from_str(
                "Plugin is not authorized to write to private namespace '",
            );
            msg.append(key);
            msg.append("'");
            return Err(msg);
        }
        let owned_key = String::from_str(key);
        self.insert_entry(owned_key, value);
        Ok(())
    }

    /// Deletes `key` on behalf of the plugin `plugin_id`; tells whether it was present.
    ///
    /// # Errors
    /// Refuses keys in the `system.*` namespace and in another plugin's namespace.
    pub fn delete(&mut self, key: &str, plugin_id: &str) -> (r: Result<bool, String>)
        ensures
            final(self).apps() == old(self).apps(),
            final(self).cache_dir() == old(self).cache_dir(),
            r is Ok <==> may_write(key@, plugin_id@),
            match r {
                Ok(removed) => removed == old(self).store().contains_key(key@) && final(self).store() == old(self).store().remove(key@),
                Err(e) => e@ == delete_error(key@) && final(self).store() == old(self).store(),
            },
    {
        let k = chars_of(key);
        let (is_system, is_foreign) = Self::check_namespace(k.as_slice(), plugin_id);
        if is_system {
            return Err(String::from_str("Cannot delete from 'system.*' namespace"));
        }
        if is_foreign {
            return Err(String::from_str("Cannot delete from another plugin's namespace"));
        }
        Ok(self.remove_entry(k.as_slice()))
    }

    /// Lists the stored keys that the plugin `plugin_id` may see (every key but
    /// those of other plugins' private namespaces) and that start with `prefix`, if given.
    pub fn keys(&self, prefix: Option<&str>, plugin_id: &str) -> (r: Vec<String>)
        ensures
            forall|i: int|
                0 <= i < r@.len() ==> self.store().contains_key(#[trigger] r@[i]@) && key_listed(
                    r@[i]@,
                    match prefix {
                        Some(p) => Some(p@),
                        None => None,
                    },
                    plugin_id@,
                ),
            forall|k: Seq<char>|
                #![trigger self.store().contains_key(k)]
                self.store().contains_key(k) && key_listed(
                    k,
                    match prefix {
                        Some(p) => Some(p@),
                        None => None,
                    },
                    plugin_id@,
                ) ==> exists|i: int| 0 <= i < r@.len() && r@[i]@ == k,
            forall|i: int, j: int| 0 <= i < j < r@.len() ==> r@[i]@ != r@[j]@,
    {
        proof {
            use_type_invariant(self);
        }
        let ghost pv: Option<Seq<char>> = match prefix {
            Some(p) => Some(p@),
            None => None,
        };
        let ghost es = entry_views(self.kv_store@);
        proof {
            lemma_entries_map(es);
        }
        let prefix_chars: Option<Vec<char>> = match prefix {
            Some(p) => Some(chars_of(p)),
            None => None,
        };
        let mut out: Vec<String> = Vec::new();
        // `taken[m]` is the index in the store of `out[m]`.
        let ghost mut taken: Seq<int> = Seq::empty();
        let mut i: usize = 0;
        while i < self.kv_store.len()
            invariant
                i <= self.kv_store.len(),
                es == entry_views(self.kv_store@),
                distinct_keys(es),
                pv == match prefix {
                    Some(p) => Some(p@),
                    None => None,
                },
                match prefix_chars {
                    Some(ref p) => pv == Some(p@),
                    None => pv is None,
                },
                taken.len() == out@.len(),
                forall|m: int|
                    0 <= m < out@.len() ==> 0 <= #[trigger] taken[m] < i && out@[m]@
                        == es[taken[m]].0,
                forall|m: int, n: int| 0 <= m < n < out@.len() ==> taken[m] < taken[n],
                forall|m: int| 0 <= m < out@.len() ==> key_listed(#[trigger] out@[m]@, pv, plugin_id@),
                forall|j: int|
                    0 <= j < i && key_listed(#[trigger] es[j].0, pv, plugin_id@) ==> exists|m: int|
                        0 <= m < out@.len() && taken[m] == j,
            decreases self.kv_store.len() - i,
        {
            let k = chars_of(self.kv_store[i].0.as_str());
            let (_, is_foreign) = Self::check_namespace(k.as_slice(), plugin_id);
            let listed = !is_foreign && match &prefix_chars {
                Some(p) => starts_with(k.as_slice(), p.as_slice()),
                None => true,
            };
            let ghost old_taken = taken;
            if listed {
                out.push(self.kv_store[i].0.clone());
                proof {
                    taken = taken.push(i as int);
                }
            }
            proof {
                assert forall|j: int|
                    0 <= j < i + 1 && key_listed(#[trigger] es[j].0, pv, plugin_id@) implies exists|m: int|
                    0 <= m < out@.len() && taken[m] == j by {
                    if j == i {
                        assert(taken[out@.len() - 1] == j);
                    } else {
                        let m = choose|m: int| 0 <= m < old_taken.len() && old_taken[m] == j;
                        assert(taken[m] == j);
                    }
                }
            }
            i += 1;
        }
        proof {
            assert forall|k: Seq<char>|
                #![trigger self.store().contains_key(k)]
                self.store().contains_key(k) && key_listed(k, pv, plugin_id@) implies exists|i: int|
                0 <= i < out@.len() && out@[i]@ == k by {
                let j = choose|j: int| 0 <= j < es.len() && es[j].0 == k;
                let m = choose|m: int| 0 <= m < out@.len() && taken[m] == j;
                assert(out@[m]@ == k);
            }
            assert forall|a: int, b: int| 0 <= a < b < out@.len() implies out@[a]@ != out@[b]@ by {
                assert(taken[a] < taken[b]);
            }
            assert forall|a: int| 0 <= a < out@.len() implies self.store().contains_key(
                #[trigger] out@[a]@,
            ) by {
                assert(es[taken[a]].0 == out@[a]@);
            }
        }
        out
    }

    /// Merges entries read back from persisted snapshots into the store, in order.
    pub fn load_persisted_data(&mut self, entries: Vec<(String, String)>)
        ensures
            final(self).store() == insert_all(old(self).store(), entry_views(entries@)),
            final(self).apps() == old(self).apps(),
            final(self).cache_dir() == old(self).cache_dir(),
    {
        let ghost start = self.store();
        let ghost ev = entry_views(entries@);
        let mut rest = entries;
        let mut pending: Vec<(String, String)> = Vec::new();
        // Reverse so that entries can be taken from the front in order.
        while rest.len() > 0
            invariant
                entry_views(pending@).len() + entry_views(rest@).len() == ev.len(),
                ev == entry_views(rest@) + rev_entries(entry_views(pending@)),
            decreases rest.len(),
        {
            let ghost before_rest = entry_views(rest@);
            let ghost before_pending = entry_views(pending@);
            let e = rest.pop().unwrap();
            pending.push(e);
            proof {
                assert(entry_views(rest@) =~= before_rest.drop_last());
                assert(entry_views(pending@) =~= before_pending.push((e.0@, e.1@)));
                lemma_rev_entries_push(before_pending, (e.0@, e.1@));
                assert(before_rest =~= before_rest.drop_last().push((e.0@, e.1@)));
                assert(ev =~= entry_views(rest@) + rev_entries(entry_views(pending@)));
            }
        }
        proof {
            assert(entry_views(rest@) =~= Seq::<(Seq<char>, Seq<char>)>::empty());
            assert(ev =~= rev_entries(entry_views(pending@)));
        }
        let mut done: Ghost<nat> = Ghost(0);
        while pending.len() > 0
            invariant
                done@ + entry_views(pending@).len() == ev.len(),
                ev == rev_entries(entry_views(pending@)).subrange(0, 0) + ev,
                ev.subrange(done@ as int, ev.len() as int) == rev_entries(entry_views(pending@)),
                self.store() == insert_all(start, ev.subrange(0, done@ as int)),
                self.apps() == old(self).apps(),
                self.cache_dir() == old(self).cache_dir(),
            decreases pending.len(),
        {
            let ghost before_pending = entry_views(pending@);
            let e = pending.pop().unwrap();
            proof {
                assert(entry_views(pending@) =~= before_pending.drop_last());
                assert(before_pending =~= entry_views(pending@).push((e.0@, e.1@)));
                lemma_rev_entries_push(entry_views(pending@), (e.0@, e.1@));
                assert(ev[done@ as int] == (e.0@, e.1@)) by {
                    assert(rev_entries(before_pending)[0] == (e.0@, e.1@));
                }
                assert(ev.subrange(0, done@ as int + 1).drop_last() =~= ev.subrange(0, done@ as int));
                assert(ev.subrange(done@ as int + 1, ev.len() as int) =~= ev.subrange(done@ as int, ev.len() as int).drop_first());
            }
            self.insert_entry(e.0, e.1);
            done = Ghost(done@ + 1);
        }
        proof {
            assert(ev.subrange(0, ev.len() as int) =~= ev);
        }
    }

    /// `req` is the snapshot of the private entries of `plugin_id`: exactly the
    /// stored `plugin.<plugin_id>.*` entries, each key once, bound for
    /// `vault_<plugin_id>.json`.
    pub open spec fn is_snapshot(&self, plugin_id: Seq<char>, req: PersistRequest) -> bool {
        &&& req.file_name@ == vault_file_name(plugin_id)
        &&& json_string_object(req.contents@) == Some(self.own_entries(plugin_id))
    }

    /// The stored entries of the private namespace of `plugin_id`.
    pub open spec fn own_entries(&self, plugin_id: Seq<char>) -> Map<Seq<char>, Seq<char>> {
        self.store().restrict(
            self.store().dom().filter(|k: Seq<char>| own_ns(plugin_id).is_prefix_of(k)),
        )
    }

    /// Merges the snapshot written in the JSON text `text` into the store, its
    /// entries winning; tells whether `text` is such a snapshot (a JSON object
    /// of strings). The store is unchanged otherwise.
    pub fn load_snapshot_text(&mut self, text: &str) -> (loaded: bool)
        ensures
            loaded == json_string_object(text@) is Some,
            loaded ==> final(self).store() == old(self).store().union_prefer_right(
                json_string_object(text@).unwrap(),
            ),
            !loaded ==> final(self).store() == old(self).store(),
            final(self).apps() == old(self).apps(),
            final(self).cache_dir() == old(self).cache_dir(),
    {
        match parse_snapshot(text) {
            Some(entries) => {
                let ghost es = entry_views(entries@);
                self.load_persisted_data(entries);
                proof {
                    lemma_insert_all_union(old(self).store(), es);
                }
                true
            },
            None => false,
        }
    }

    /// What to write to disk after `key` changed on behalf of `plugin_id`: the
    /// plugin's snapshot when `key` is a plugin key (`plugin.*`) and the vault
    /// has a cache directory, else nothing.
    pub fn write_back(&self, key: &str, plugin_id: &str) -> (r: Option<PersistRequest>)
        ensures
            r is Some <==> (plugin_ns().is_prefix_of(key@) && self.cache_dir() is Some),
            r matches Some(req) ==> self.is_snapshot(plugin_id@, req),
    {
        let k = chars_of(key);
        let plugin = chars_of("plugin.");
        if starts_with(k.as_slice(), plugin.as_slice()) {
            self.persist_plugin_data(plugin_id)
        } else {
            None
        }
    }

    /// The snapshot to persist for `plugin_id` after one of its private keys
    /// changed: the plugin's own `plugin.<plugin_id>.*` entries and the file to
    /// write them to. `None` when the vault has no cache directory.
    pub fn persist_plugin_data(&self, plugin_id: &str) -> (r: Option<PersistRequest>)
        ensures
            r is Some <==> self.cache_dir() is Some,
            r matches Some(req) ==> self.is_snapshot(plugin_id@, req),
    {
        proof {
            use_type_invariant(self);
        }
        if self.cache_dir.is_none() {
            return None;
        }
        let own = own_namespace(plugin_id);
        let ghost es = entry_views(self.kv_store@);
        let ghost pred = |k: Seq<char>| own_ns(plugin_id@).is_prefix_of(k);
        let mut entries: Vec<(String, String)> = Vec::new();
        let mut j: usize = 0;
        while j < self.kv_store.len()
            invariant
                j <= self.kv_store.len(),
                es == entry_views(self.kv_store@),
                distinct_keys(es),
                own@ == own_ns(plugin_id@),
                entry_views(entries@) == own_entries(es.subrange(0, j as int), own@),
            decreases self.kv_store.len() - j,
        {
            let k = chars_of(self.kv_store[j].0.as_str());
            let ghost before = entry_views(entries@);
            if starts_with(k.as_slice(), own.as_slice()) {
                entries.push((self.kv_store[j].0.clone(), self.kv_store[j].1.clone()));
                proof {
                    assert(entry_views(entries@) =~= before.push(es[j as int]));
                }
            }
            proof {
                assert(es.subrange(0, j as int + 1).drop_last() =~= es.subrange(0, j as int));
            }
            j += 1;
        }
        proof {
            assert(es.subrange(0, es.len() as int) =~= es);
            lemma_own_entries(es, own@);
            lemma_entries_map(es);
            let sel = entry_views(entries@);
            lemma_entries_map(sel);
            let m = self.store().restrict(self.store().dom().filter(pred));
            assert(entries_map(sel) =~= m) by {
                assert forall|k: Seq<char>| #[trigger] entries_map(sel).contains_key(k) <==> m.contains_key(k) by {
                    if entries_map(sel).contains_key(k) {
                        let a = choose|a: int| 0 <= a < sel.len() && sel[a].0 == k;
                        assert(sel.contains(sel[a]));
                        assert(es.contains(sel[a]));
                        let b = choose|b: int| 0 <= b < es.len() && es[b] == sel[a];
                        assert(entries_map(es).contains_key(es[b].0));
                        assert(pred(k));
                        assert(self.store().dom().filter(pred).contains(k));
                    }
                    if m.contains_key(k) {
                        assert(self.store().dom().filter(pred).contains(k));
                        assert(pred(k));
                        let b = choose|b: int| 0 <= b < es.len() && es[b].0 == k;
                        assert(es.contains(es[b]));
                        assert(sel.contains(es[b]));
                        let a = choose|a: int| 0 <= a < sel.len() && sel[a] == es[b];
                        assert(sel[a].0 == k);
                    }
                }
                assert forall|k: Seq<char>| #[trigger] entries_map(sel).contains_key(k) implies entries_map(sel)[k] == m[k] by {
                    let a = choose|a: int| 0 <= a < sel.len() && sel[a].0 == k;
                    assert(sel.contains(sel[a]));
                    assert(es.contains(sel[a]));
                    let b = choose|b: int| 0 <= b < es.len() && es[b] == sel[a];
                    assert(entries_map(es)[es[b].0] == es[b].1);
                    assert(entries_map(sel)[sel[a].0] == sel[a].1);
                }
            }
        }
        let mut file_name = String::from_str("vault_");
        file_name.append(plugin_id);
        file_name.append(".json");
        match snapshot_json(&entries) {
            Some(contents) => Some(PersistRequest { file_name, contents }),
            None => None,
        }
    }
}

/// One page of `filtered` with pages of `limit` apps; `requested_page` is clamped to the last page.
pub fn page_of(filtered: &Vec<&AppInfo>, requested_page: usize, limit: usize) -> (r: AppQueryResult)
    requires
        limit >= 1,
    ensures
        ({
            let fview = filtered@.map_values(|a: &AppInfo| a@);
            let pages = page_count(fview.len(), limit as nat);
            let page = if requested_page <= pages - 1 {
                requested_page as nat
            } else {
                (pages - 1) as nat
            };
            let start = page * limit;
            let end = if start + limit <= fview.len() {
                (start + limit) as int
            } else {
                fview.len() as int
            };
            &&& r.total_count == fview.len()
            &&& r.total_pages == pages
            &&& r.page == page
            &&& start <= end
            &&& app_views(r.apps@) == fview.subrange(start as int, end)
        }),
{
    let ghost fview = filtered@.map_values(|a: &AppInfo| a@);
    let total_count = filtered.len();
    proof {
        if total_count > 0 {
            lemma_ceil_div(total_count as int, limit as int);
        }
    }
    let total_pages = if total_count == 0 {
        1
    } else {
        total_count / limit + if total_count % limit == 0 {
            0
        } else {
            1
        }
    };
    let page = if requested_page <= total_pages - 1 {
        requested_page
    } else {
        total_pages - 1
    };
    proof {
        if total_count > 0 {
            assert(page * limit <= (total_pages - 1) * limit) by (nonlinear_arith)
                requires
                    page <= total_pages - 1,
            ;
        } else {
            assert(page == 0);
        }
    }
    let start = page * limit;
    let end = if total_count - start < limit {
        total_count
    } else {
        start + limit
    };
    let mut apps: Vec<AppInfo> = Vec::new();
    let mut k: usize = start;
    while k < end
        invariant
            start <= k <= end <= total_count,
            total_count == filtered@.len(),
            fview == filtered@.map_values(|a: &AppInfo| a@),
            app_views(apps@) == fview.subrange(start as int, k as int),
        decreases end - k,
    {
        let ghost before = apps@;
        let dup = filtered[k].duplicate();
        apps.push(dup);
        proof {
            assert(apps@ == before.push(dup));
            assert(app_views(apps@) =~= app_views(before).push(dup@));
            assert(fview.subrange(start as int, k as int + 1) =~= fview.subrange(
                start as int,
                k as int,
            ).push(fview[k as int]));
        }
        k += 1;
    }
    AppQueryResult { apps, total_count, page, total_pages }
}

/// The entries of `es`, in order, whose key starts with `prefix`.
pub open spec fn own_entries(es: Seq<(Seq<char>, Seq<char>)>, prefix: Seq<char>) -> Seq<
    (Seq<char>, Seq<char>),
>
    decreases es.len(),
{
    if es.len() == 0 {
        Seq::empty()
    } else {
        let rest = own_entries(es.drop_last(), prefix);
        if prefix.is_prefix_of(es.last().0) {
            rest.push(es.last())
        } else {
            rest
        }
    }
}

proof fn lemma_own_entries(es: Seq<(Seq<char>, Seq<char>)>, prefix: Seq<char>)
    requires
        distinct_keys(es),
    ensures
        distinct_keys(own_entries(es, prefix)),
        forall|e| #[trigger] own_entries(es, prefix).contains(e) <==> es.contains(e) && prefix.is_prefix_of(e.0),
    decreases es.len(),
{
    if es.len() > 0 {
        let rest = es.drop_last();
        assert(distinct_keys(rest));
        lemma_own_entries(rest, prefix);
        let o = own_entries(es, prefix);
        let ro = own_entries(rest, prefix);
        assert forall|e| #[trigger] o.contains(e) <==> es.contains(e) && prefix.is_prefix_of(e.0) by {
            if o.contains(e) {
                let a = choose|a: int| 0 <= a < o.len() && o[a] == e;
                if a < ro.len() {
                    assert(ro.contains(e));
                    let b = choose|b: int| 0 <= b < rest.len() && rest[b] == e;
                    assert(es[b] == e);
                } else {
                    assert(es[es.len() - 1] == e);
                }
            }
            if es.contains(e) && prefix.is_prefix_of(e.0) {
                let b = choose|b: int| 0 <= b < es.len() && es[b] == e;
                if b < es.len() - 1 {
                    assert(rest[b] == e);
                    assert(ro.contains(e));
                    let a = choose|a: int| 0 <= a < ro.len() && ro[a] == e;
                    assert(o[a] == e);
                } else {
                    assert(o[o.len() - 1] == e);
                }
            }
        }
        if prefix.is_prefix_of(es.last().0) {
            assert forall|a: int, b: int| 0 <= a < b < o.len() implies o[a].0 != o[b].0 by {
                if b == o.len() - 1 {
                    assert(ro.contains(o[a]));
                    let c = choose|c: int| 0 <= c < rest.len() && rest[c] == o[a];
                    assert(es[c].0 != es[es.len() - 1].0);
                } else {
                    assert(o[a] == ro[a] && o[b] == ro[b]);
                }
            }
        }
    }
}

/// The reverse of a sequence of entries.
pub open spec fn rev_entries(es: Seq<(Seq<char>, Seq<char>)>) -> Seq<(Seq<char>, Seq<char>)>
    decreases es.len(),
{
    if es.len() == 0 {
        es
    } else {
        seq![es.last()] + rev_entries(es.drop_last())
    }
}

proof fn lemma_rev_entries_push(es: Seq<(Seq<char>, Seq<char>)>, e: (Seq<char>, Seq<char>))
    ensures
        rev_entries(es.push(e)) == seq![e] + rev_entries(es),
        rev_entries(es).len() == es.len(),
    decreases es.len(),
{
    assert(es.push(e).drop_last() =~= es);
    if es.len() > 0 {
        lemma_rev_entries_push(es.drop_last(), es.last());
        assert(es.drop_last().push(es.last()) =~= es);
    }
}

/// Replacing the value at an index with the same key updates the described map.
proof fn lemma_map_update(old_es: Seq<(Seq<char>, Seq<char>)>, es: Seq<(Seq<char>, Seq<char>)>, i: int)
    requires
        distinct_keys(old_es),
        distinct_keys(es),
        0 <= i < old_es.len(),
        es.len() == old_es.len(),
        es[i].0 == old_es[i].0,
        forall|j: int| 0 <= j < es.len() && j != i ==> es[j] == old_es[j],
    ensures
        entries_map(es) == entries_map(old_es).insert(es[i].0, es[i].1),
{
    lemma_entries_map(old_es);
    lemma_entries_map(es);
    let m = entries_map(old_es).insert(es[i].0, es[i].1);
    assert forall|k: Seq<char>| #[trigger] entries_map(es).contains_key(k) <==> m.contains_key(k) by {
        if m.contains_key(k) && k != es[i].0 {
            let j = choose|j: int| 0 <= j < old_es.len() && old_es[j].0 == k;
            assert(es[j].0 == k);
        }
        if entries_map(es).contains_key(k) {
            let j = choose|j: int| 0 <= j < es.len() && es[j].0 == k;
            if j != i {
                assert(old_es[j].0 == k);
            }
        }
    }
    assert forall|k: Seq<char>| #[trigger] entries_map(es).contains_key(k) implies entries_map(es)[k] == m[k] by {
        let j = choose|j: int| 0 <= j < es.len() && es[j].0 == k;
        if j != i {
            assert(old_es[j] == es[j]);
        }
    }
    assert(entries_map(es) =~= m);
}

/// Removing the entry at an index removes its key from the described map.
proof fn lemma_map_remove(old_es: Seq<(Seq<char>, Seq<char>)>, es: Seq<(Seq<char>, Seq<char>)>, i: int)
    requires
        distinct_keys(old_es),
        distinct_keys(es),
        0 <= i < old_es.len(),
        es == old_es.remove(i),
    ensures
        entries_map(es) == entries_map(old_es).remove(old_es[i].0),
{
    lemma_entries_map(old_es);
    lemma_entries_map(es);
    let m = entries_map(old_es).remove(old_es[i].0);
    assert forall|k: Seq<char>| #[trigger] entries_map(es).contains_key(k) <==> m.contains_key(k) by {
        if m.contains_key(k) {
            let j = choose|j: int| 0 <= j < old_es.len() && old_es[j].0 == k;
            assert(j != i);
            if j < i {
                assert(es[j].0 == k);
            } else {
                assert(es[j - 1].0 == k);
            }
        }
        if entries_map(es).contains_key(k) {
            let j = choose|j: int| 0 <= j < es.len() && es[j].0 == k;
            let j0 = if j < i { j } else { j + 1 };
            assert(old_es[j0].0 == k);
            assert(j0 != i);
        }
    }
    assert forall|k: Seq<char>| #[trigger] entries_map(es).contains_key(k) implies entries_map(es)[k] == m[k] by {
        let j = choose|j: int| 0 <= j < es.len() && es[j].0 == k;
        let j0 = if j < i { j } else { j + 1 };
        assert(es[j] == old_es[j0]);
    }
    assert(entries_map(es) =~= m);
}

/// The characters of `plugin.<plugin_id>.`.
fn own_namespace(plugin_id: &str) -> (own: Vec<char>)
    ensures
        own@ == own_ns(plugin_id@),
{
    let mut own = chars_of("plugin.");
    let id = chars_of(plugin_id);
    let mut i: usize = 0;
    while i < id.len()
        invariant
            i <= id.len(),
            own@ == "plugin."@ + id@.subrange(0, i as int),
        decreases id.len() - i,
    {
        own.push(id[i]);
        i += 1;
        proof {
            assert(own@ =~= "plugin."@ + id@.subrange(0, i as int));
        }
    }
    proof {
        reveal_strlit(".");
        assert(id@.subrange(0, id@.len() as int) =~= id@);
    }
    own.push('.');
    proof {
        assert(own@ =~= own_ns(plugin_id@));
    }
    own
}

/// Whether a file name is a vault snapshot: `vault_<...>.json`.
pub fn is_vault_file_name(name: &str) -> (r: bool)
    ensures
        r == is_vault_file_spec(name@),
{
    let n = chars_of(name);
    let p = chars_of("vault_");
    let s = chars_of(".json");
    if !starts_with(n.as_slice(), p.as_slice()) || n.len() < s.len() {
        return false;
    }
    let off = n.len() - s.len();
    let mut i: usize = 0;
    while i < s.len()
        invariant
            off + s@.len() == n@.len(),
            n@ == name@,
            s@ == ".json"@,
            i <= s.len(),
            forall|k: int| 0 <= k < i ==> n@[off + k] == s@[k],
        decreases s.len() - i,
    {
        assert(off + i < n.len());
        if n[off + i] != s[i] {
            proof {
                assert(n@.subrange(off as int, n@.len() as int)[i as int] == n@[off + i]);
                assert(s@ != n@.subrange(off as int, n@.len() as int));
            }
            return false;
        }
        i += 1;
    }
    assert(s@ =~= n@.subrange(off as int, n@.len() as int));
    true
}

/// A value written by an accepted `set` reads back unchanged through `get`: the
/// key is an ordinary stored key (the computed `system.*` keys cannot be
/// written) and holds the value written.
pub proof fn read_after_write(
    before: DataVault,
    after: DataVault,
    key: Seq<char>,
    value: Seq<char>,
    plugin_id: Seq<char>,
)
    requires
        may_write(key, plugin_id),
        after.store() == before.store().insert(key, value),
    ensures
        key != apps_key(),
        key != app_count_key(),
        after.store().contains_key(key),
        after.store()[key] == value,
{
    reveal_strlit("system.");
    reveal_strlit("system.apps");
    reveal_strlit("system.app_count");
    if key == apps_key() {
        assert(system_ns() =~= key.subrange(0, system_ns().len() as int));
    }
    if key == app_count_key() {
        assert(system_ns() =~= key.subrange(0, system_ns().len() as int));
    }
}

/// Deleting a key that a write has just added gives the store back as it was
/// before the write.
pub proof fn delete_undoes_write(
    before: DataVault,
    written: DataVault,
    after: DataVault,
    key: Seq<char>,
    value: Seq<char>,
)
    requires
        !before.store().contains_key(key),
        written.store() == before.store().insert(key, value),
        after.store() == written.store().remove(key),
    ensures
        after.store() == before.store(),
{
    assert(after.store() =~= before.store());
}

/// No plugin may write or delete a key under `system.`, and the refusals say
/// that the namespace is read-only.
pub proof fn system_namespace_is_read_only(key: Seq<char>, plugin_id: Seq<char>)
    requires
        system_ns().is_prefix_of(key),
    ensures
        !may_write(key, plugin_id),
        set_error(key) == "'system.*' namespace is read-only for plugins"@,
        delete_error(key) == "Cannot delete from 'system.*' namespace"@,
{
}

/// Every page a query returns lies within the result: there is at least one
/// page, and the page returned is one of them.
pub proof fn query_page_in_range(page: Option<usize>, total: nat, limit: nat)
    requires
        limit >= 1,
    ensures
        page_count(total, limit) >= 1,
        clamped_page(page, page_count(total, limit)) < page_count(total, limit),
{
    if total > 0 {
        lemma_ceil_div(total as int, limit as int);
    }
}

/// The pages of a query split the selected apps: app number `i` lies on page
/// `i / limit` and on no other, and asking for that page gives it.
pub proof fn each_match_on_one_page(total: nat, limit: nat, i: nat, p: nat)
    requires
        limit >= 1,
        i < total,
        total <= usize::MAX,
    ensures
        (p * limit <= i < p * limit + limit) <==> p == i / limit,
        i / limit < page_count(total, limit),
        clamped_page(Some((i / limit) as usize), page_count(total, limit)) == i / limit,
{
    let q = i / limit;
    assert(q * limit <= i < q * limit + limit) by (nonlinear_arith)
        requires
            q == i / limit,
            limit >= 1,
    ;
    if p < q {
        assert(p * limit + limit <= q * limit) by (nonlinear_arith)
            requires
                p < q,
                limit >= 1,
        ;
    }
    if p > q {
        assert(p * limit >= q * limit + limit) by (nonlinear_arith)
            requires
                p > q,
                limit >= 1,
        ;
    }
    let c = (total + limit - 1) / (limit as int);
    vstd::arithmetic::div_mod::lemma_fundamental_div_mod(total + limit - 1, limit as int);
    vstd::arithmetic::div_mod::lemma_mod_bound(total + limit - 1, limit as int);
    let r = (total + limit - 1) % (limit as int);
    assert(q < c) by (nonlinear_arith)
        requires
            total + limit - 1 == limit * c + r,
            0 <= r < limit,
            q * limit <= i,
            i < total,
            limit >= 1,
    ;
    assert(q <= i);
}

/// The search term made from an already lowercased search text: the text
/// trimmed, when something remains.
pub fn search_term_of(lowered: &str) -> (term: Option<Vec<char>>)
    ensures
        match term {
            Some(t) => trim_spec(lowered@).len() > 0 && t@ == trim_spec(lowered@),
            None => trim_spec(lowered@).len() == 0,
        },
{
    let chars = chars_of(lowered);
    let t = trim(chars.as_slice());
    if t.len() > 0 {
        Some(t)
    } else {
        None
    }
}

/// The apps, in order, whose entry of `names` or of `packages` (one per app)
/// contains `term`.
pub open spec fn select_term(
    apps: Seq<AppInfoView>,
    names: Seq<Seq<char>>,
    packages: Seq<Seq<char>>,
    term: Seq<char>,
) -> Seq<AppInfoView>
    decreases apps.len(),
{
    if apps.len() == 0 {
        Seq::empty()
    } else {
        let rest = select_term(apps.drop_last(), names.drop_last(), packages.drop_last(), term);
        if seq_contains(names.last(), term) || seq_contains(packages.last(), term) {
            rest.push(apps.last())
        } else {
            rest
        }
    }
}

/// Selecting by the lowercased names and package names is selecting the apps
/// that match the term.
proof fn lemma_select_term(
    apps: Seq<AppInfoView>,
    names: Seq<Seq<char>>,
    packages: Seq<Seq<char>>,
    term: Seq<char>,
)
    requires
        names.len() == apps.len(),
        packages.len() == apps.len(),
        forall|k: int|
            0 <= k < names.len() ==> #[trigger] names[k] == lowercase(apps[k].name) && packages[k]
                == lowercase(apps[k].package_name),
    ensures
        select_term(apps, names, packages, term) == apps_matching(apps, term),
    decreases apps.len(),
{
    if apps.len() > 0 {
        let (a, n, p) = (apps.drop_last(), names.drop_last(), packages.drop_last());
        assert forall|k: int| 0 <= k < n.len() implies #[trigger] n[k] == lowercase(a[k].name)
            && p[k] == lowercase(a[k].package_name) by {
            assert(n[k] == names[k]);
            assert(p[k] == packages[k]);
        }
        lemma_select_term(a, n, p, term);
        assert(names.last() == names[names.len() - 1]);
    }
}

/// The apps, in order, whose lowercased name (`lower_names`) or lowercased
/// package name (`lower_packages`), one of each per app, contains `term`.
pub fn select_matching<'a>(
    apps: &'a [AppInfo],
    lower_names: &[String],
    lower_packages: &[String],
    term: &[char],
) -> (selected: Vec<&'a AppInfo>)
    requires
        lower_names@.len() == apps@.len(),
        lower_packages@.len() == apps@.len(),
    ensures
        selected@.map_values(|a: &AppInfo| a@) == select_term(
            app_views(apps@),
            lower_names@.map_values(|n: String| n@),
            lower_packages@.map_values(|n: String| n@),
            term@,
        ),
{
    let ghost views = app_views(apps@);
    let ghost names = lower_names@.map_values(|n: String| n@);
    let ghost packages = lower_packages@.map_values(|n: String| n@);
    let mut selected: Vec<&'a AppInfo> = Vec::new();
    let mut i: usize = 0;
    while i < apps.len()
        invariant
            i <= apps.len(),
            lower_names@.len() == apps@.len(),
            lower_packages@.len() == apps@.len(),
            views == app_views(apps@),
            names == lower_names@.map_values(|n: String| n@),
            packages == lower_packages@.map_values(|n: String| n@),
            selected@.map_values(|a: &AppInfo| a@) == select_term(
                views.subrange(0, i as int),
                names.subrange(0, i as int),
                packages.subrange(0, i as int),
                term@,
            ),
        decreases apps.len() - i,
    {
        let ghost before = selected@;
        let name_chars = chars_of(lower_names[i].as_str());
        let keep = if contains(name_chars.as_slice(), term) {
            true
        } else {
            let pkg_chars = chars_of(lower_packages[i].as_str());
            contains(pkg_chars.as_slice(), term)
        };
        if keep {
            selected.push(&apps[i]);
        }
        proof {
            assert(views.subrange(0, i as int + 1).drop_last() =~= views.subrange(0, i as int));
            assert(views.subrange(0, i as int + 1).last() == apps@[i as int]@);
            assert(names.subrange(0, i as int + 1).drop_last() =~= names.subrange(0, i as int));
            assert(names.subrange(0, i as int + 1).last() == lower_names@[i as int]@);
            assert(packages.subrange(0, i as int + 1).drop_last() =~= packages.subrange(0, i as int));
            assert(packages.subrange(0, i as int + 1).last() == lower_packages@[i as int]@);
            assert(selected@.map_values(|a: &AppInfo| a@) =~= if keep {
                before.map_values(|a: &AppInfo| a@).push(apps@[i as int]@)
            } else {
                before.map_values(|a: &AppInfo| a@)
            });
        }
        i += 1;
    }
    proof {
        assert(views.subrange(0, apps@.len() as int) =~= views);
        assert(names.subrange(0, apps@.len() as int) =~= names);
        assert(packages.subrange(0, apps@.len() as int) =~= packages);
    }
    selected
}

/// A plugin's entries survive the disk: loading the snapshot that
/// `persist_plugin_data` or `write_back` made for a plugin into any vault puts
/// every private entry of that plugin back, with its value, over what the
/// vault held.
pub proof fn snapshot_round_trip(
    before: DataVault,
    req: PersistRequest,
    plugin_id: Seq<char>,
    base: DataVault,
    after: DataVault,
    key: Seq<char>,
)
    requires
        before.is_snapshot(plugin_id, req),
        after.store() == base.store().union_prefer_right(json_string_object(req.contents@).unwrap()),
    ensures
        after.store() == base.store().union_prefer_right(before.own_entries(plugin_id)),
        own_ns(plugin_id).is_prefix_of(key) && before.store().contains_key(key) ==> after.store().contains_key(key)
            && after.store()[key] == before.store()[key],
{
    let own = before.own_entries(plugin_id);
    if own_ns(plugin_id).is_prefix_of(key) && before.store().contains_key(key) {
        assert(before.store().dom().filter(|k: Seq<char>| own_ns(plugin_id).is_prefix_of(k)).contains(key));
        assert(own.contains_key(key));
    }
}

/// Loading another snapshot that does not hold `key` keeps the value loaded
/// for it before.
pub proof fn later_snapshot_keeps_other_keys(
    before: DataVault,
    after: DataVault,
    text: Seq<char>,
    key: Seq<char>,
)
    requires
        json_string_object(text) is Some,
        !json_string_object(text).unwrap().contains_key(key),
        before.store().contains_key(key),
        after.store() == before.store().union_prefer_right(json_string_object(text).unwrap()),
    ensures
        after.store().contains_key(key),
        after.store()[key] == before.store()[key],
{
}

/// ASCII whitespace stays as it is under ASCII lowercasing.
proof fn lemma_blank_ascii_lower(p: Seq<char>)
    requires
        forall|k: int| 0 <= k < p.len() ==> white_space(#[trigger] p[k]),
    ensures
        ascii_lower(p) == p,
{
    assert forall|k: int| 0 <= k < p.len() implies #[trigger] ascii_lower(p)[k] == p[k] by {
        assert(white_space(p[k]));
    }
    assert(ascii_lower(p) =~= p);
}

/// App search ignores ASCII case and surrounding whitespace: an ASCII search
/// text selects the same apps as any ASCII text with the same letters up to
/// case, padded with whitespace on either side; a search text of whitespace
/// alone selects every app, as no search text does.
pub proof fn search_ignores_case_and_padding(
    apps: Seq<AppInfoView>,
    s: Seq<char>,
    t: Seq<char>,
    p1: Seq<char>,
    p2: Seq<char>,
)
    requires
        is_ascii_text(s),
        is_ascii_text(t),
        ascii_lower(s) == ascii_lower(t),
        is_ascii_text(p1),
        is_ascii_text(p2),
        forall|k: int| 0 <= k < p1.len() ==> white_space(#[trigger] p1[k]),
        forall|k: int| 0 <= k < p2.len() ==> white_space(#[trigger] p2[k]),
    ensures
        filtered_apps(apps, Some(p1 + t + p2)) == filtered_apps(apps, Some(s)),
        filtered_apps(apps, Some(p1 + p2)) == filtered_apps(apps, None),
{
    lemma_ascii_lower_concat(p1, t);
    lemma_ascii_lower_concat(p1 + t, p2);
    lemma_blank_ascii_lower(p1);
    lemma_blank_ascii_lower(p2);
    let x = ascii_lower(s);
    assert(lowercase(p1 + t + p2) == p1 + x + p2);
    assert(lowercase(s) == x);
    lemma_trim_padded(p1, x, p2);
    lemma_ascii_lower_concat(p1, p2);
    let e = Seq::<char>::empty();
    assert(p1 + e + p2 =~= p1 + p2);
    lemma_trim_padded(p1, e, p2);
    assert(lowercase(p1 + p2) == p1 + p2);
    assert(trim_spec(e).len() == 0);
}


/// A plugin's own namespace is the keys that begin with `plugin.`, the
/// plugin's id and a dot: its snapshot holds exactly the stored entries under
/// that prefix, with their stored values, and among `plugin.*` keys the plugin
/// may write exactly those.
pub proof fn own_namespace_is_the_dotted_prefix(v: DataVault, plugin_id: Seq<char>, key: Seq<char>)
    ensures
        v.own_entries(plugin_id).contains_key(key) <==> v.store().contains_key(key) && (
        "plugin."@ + plugin_id + "."@).is_prefix_of(key),
        v.own_entries(plugin_id).contains_key(key) ==> v.own_entries(plugin_id)[key]
            == v.store()[key],
        "plugin."@.is_prefix_of(key) ==> (may_write(key, plugin_id) <==> ("plugin."@ + plugin_id
            + "."@).is_prefix_of(key)),
{
    reveal_strlit("plugin.");
    reveal_strlit("system.");
    if "plugin."@.is_prefix_of(key) {
        assert("plugin."@ =~= key.subrange(0, 7));
        assert("plugin."@[1] == 'l');
        assert(key.subrange(0, 7)[1] == key[1]);
        assert(key[1] == 'l');
        assert(!system_ns().is_prefix_of(key)) by {
            if system_ns().is_prefix_of(key) {
                assert(system_ns() =~= key.subrange(0, 7));
                assert(system_ns()[1] == 'y');
                assert(key.subrange(0, 7)[1] == key[1]);
            }
        }
    }
}

/// Plugins with different ids (ids without dots) never share keys: a key in
/// the namespace of plugin `other` is not in the snapshot of `plugin_id` and
/// `plugin_id` may not write it.
pub proof fn plugins_do_not_share_namespaces(
    v: DataVault,
    plugin_id: Seq<char>,
    other: Seq<char>,
    key: Seq<char>,
)
    requires
        plugin_id != other,
        forall|i: int| 0 <= i < plugin_id.len() ==> plugin_id[i] != '.',
        forall|i: int| 0 <= i < other.len() ==> other[i] != '.',
        ("plugin."@ + other + "."@).is_prefix_of(key),
    ensures
        !v.own_entries(plugin_id).contains_key(key),
        !may_write(key, plugin_id),
{
    reveal_strlit("plugin.");
    reveal_strlit(".");
    own_namespace_is_the_dotted_prefix(v, plugin_id, key);
    let a = "plugin."@ + plugin_id + "."@;
    let b = "plugin."@ + other + "."@;
    assert("plugin."@.is_prefix_of(key)) by {
        assert forall|i: int| 0 <= i < 7 implies "plugin."@[i] == key[i] by {
            assert(b[i] == key[i]);
        }
    }
    if a.is_prefix_of(key) {
        let n = plugin_id.len() as int;
        let m = other.len() as int;
        if n < m {
            assert(a[7 + n] == key[7 + n] && b[7 + n] == key[7 + n]);
            assert(other[n] == '.');
        } else if m < n {
            assert(a[7 + m] == key[7 + m] && b[7 + m] == key[7 + m]);
            assert(plugin_id[m] == '.');
        } else {
            assert forall|i: int| 0 <= i < n implies plugin_id[i] == other[i] by {
                assert(a[7 + i] == key[7 + i] && b[7 + i] == key[7 + i]);
            }
            assert(plugin_id =~= other);
        }
    }
}

} // verus!
