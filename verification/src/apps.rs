use vstd::prelude::*;

use crate::text::{
    chars_of, contains, decimal, decimal_string, lowercase, seq_contains, to_lowercase,
};
use vstd::string::StringExecFns;

verus! {

/// Metadata about an installed application.
pub struct AppInfo {
    pub name: String,
    pub package_name: String,
    pub icon_bytes: Vec<u8>,
}

/// The plain contents of an `AppInfo`.
pub struct AppInfoView {
    pub name: Seq<char>,
    pub package_name: Seq<char>,
    pub icon_bytes: Seq<u8>,
}

impl View for AppInfo {
    type V = AppInfoView;

    open spec fn view(&self) -> AppInfoView {
        AppInfoView {
            name: self.name@,
            package_name: self.package_name@,
            icon_bytes: self.icon_bytes@,
        }
    }
}

/// The views of a sequence of apps.
pub open spec fn app_views(apps: Seq<AppInfo>) -> Seq<AppInfoView> {
    apps.map_values(|a: AppInfo| a@)
}

/// The JSON string literal that `serde_json` writes for `s`: the characters
/// of `s` between double quotes, with quotes, backslashes and control
/// characters escaped.
pub uninterp spec fn json_quoted(s: Seq<char>) -> Seq<char>;

/// `serde_json::to_string` of a string slice. Claims that it succeeds (the
/// text is written into an in-memory buffer, which cannot fail) and names the
/// text it writes; how each character is escaped is left to the name.
#[verifier::external_body]
pub(crate) fn quote_json(s: &str) -> (r: Option<String>)
    ensures
        r is Some,
        r matches Some(t) ==> t@ == json_quoted(s@),
{
    serde_json::to_string(s).ok()
}

/// The bytes as JSON numbers, separated by commas.
pub open spec fn json_numbers(b: Seq<u8>) -> Seq<char>
    decreases b.len(),
{
    if b.len() == 0 {
        Seq::empty()
    } else if b.len() == 1 {
        decimal(b[0] as nat)
    } else {
        json_numbers(b.drop_last()) + ","@ + decimal(b.last() as nat)
    }
}

/// An app as a compact JSON object with its fields in declaration order.
pub open spec fn app_json(a: AppInfoView) -> Seq<char> {
    "{\"name\":"@ + json_quoted(a.name) + ",\"package_name\":"@ + json_quoted(a.package_name)
        + ",\"icon_bytes\":["@ + json_numbers(a.icon_bytes) + "]}"@
}

/// The apps as JSON objects, separated by commas.
pub open spec fn json_objects(apps: Seq<AppInfoView>) -> Seq<char>
    decreases apps.len(),
{
    if apps.len() == 0 {
        Seq::empty()
    } else if apps.len() == 1 {
        app_json(apps[0])
    } else {
        json_objects(apps.drop_last()) + ","@ + app_json(apps.last())
    }
}

/// The apps as a compact JSON array of objects (what `serde_json::to_string`
/// writes for a list of apps).
pub open spec fn apps_json(apps: Seq<AppInfoView>) -> Seq<char> {
    "["@ + json_objects(apps) + "]"@
}

/// Appends the bytes as JSON numbers separated by commas.
fn append_numbers(out: &mut String, b: &[u8])
    ensures
        final(out)@ == old(out)@ + json_numbers(b@),
{
    let ghost start = out@;
    let mut i: usize = 0;
    proof {
        assert(b@.take(0) =~= Seq::<u8>::empty());
        assert(out@ =~= start + json_numbers(b@.take(0)));
    }
    while i < b.len()
        invariant
            i <= b.len(),
            out@ == start + json_numbers(b@.take(i as int)),
        decreases b.len() - i,
    {
        if i > 0 {
            out.append(",");
        }
        let d = decimal_string(b[i] as usize);
        out.append(d.as_str());
        proof {
            let t = b@.take(i + 1);
            assert(t.drop_last() =~= b@.take(i as int));
            assert(t.last() == b@[i as int]);
            assert(out@ =~= start + json_numbers(t));
        }
        i += 1;
    }
    proof {
        assert(b@.take(i as int) =~= b@);
    }
}

/// Appends an app as a compact JSON object.
fn append_app(out: &mut String, a: &AppInfo)
    ensures
        final(out)@ == old(out)@ + app_json(a@),
{
    let ghost start = out@;
    out.append("{\"name\":");
    if let Some(t) = quote_json(a.name.as_str()) {
        out.append(t.as_str());
    }
    out.append(",\"package_name\":");
    if let Some(t) = quote_json(a.package_name.as_str()) {
        out.append(t.as_str());
    }
    out.append(",\"icon_bytes\":[");
    append_numbers(out, a.icon_bytes.as_slice());
    out.append("]}");
    proof {
        assert(out@ =~= start + app_json(a@));
    }
}

/// The apps as a compact JSON array of objects, each with its fields in
/// declaration order: what `serde_json::to_string` writes for the list.
pub fn apps_to_json(apps: &[AppInfo]) -> (s: String)
    ensures
        s@ == apps_json(app_views(apps@)),
{
    let ghost all = app_views(apps@);
    let mut out = String::new();
    out.append("[");
    let ghost start = out@;
    let mut i: usize = 0;
    proof {
        assert(all.take(0) =~= Seq::<AppInfoView>::empty());
        assert(out@ =~= start + json_objects(all.take(0)));
    }
    while i < apps.len()
        invariant
            all == app_views(apps@),
            i <= apps.len(),
            out@ == start + json_objects(all.take(i as int)),
        decreases apps.len() - i,
    {
        if i > 0 {
            out.append(",");
        }
        append_app(&mut out, &apps[i]);
        proof {
            let t = all.take(i + 1);
            assert(t.drop_last() =~= all.take(i as int));
            assert(t.last() == apps@[i as int]@);
            assert(out@ =~= start + json_objects(t));
        }
        i += 1;
    }
    out.append("]");
    proof {
        assert(all.take(i as int) =~= all);
        assert(out@ =~= apps_json(all));
    }
    out
}

/// An app matches a (lowercased) search query when its lowercased name contains it.
pub open spec fn name_matches(app: AppInfoView, query: Seq<char>) -> bool {
    seq_contains(lowercase(app.name), query)
}

/// The apps, in order, whose lowercased name contains `query`.
pub open spec fn apps_named(apps: Seq<AppInfoView>, query: Seq<char>) -> Seq<AppInfoView>
    decreases apps.len(),
{
    if apps.len() == 0 {
        Seq::empty()
    } else {
        let rest = apps_named(apps.drop_last(), query);
        if name_matches(apps.last(), query) {
            rest.push(apps.last())
        } else {
            rest
        }
    }
}

/// What `search_by_name` returns: every app for an empty query, else the matching apps in order.
pub open spec fn search_spec(apps: Seq<AppInfoView>, query: Seq<char>) -> Seq<AppInfoView> {
    let q = lowercase(query);
    if q.len() == 0 {
        apps
    } else {
        apps_named(apps, q)
    }
}

impl AppInfo {
    pub fn new(name: String, package_name: String, icon_bytes: Vec<u8>) -> (app: Self)
        ensures
            app.name@ == name@,
            app.package_name@ == package_name@,
            app.icon_bytes@ == icon_bytes@,
    {
        Self { name, package_name, icon_bytes }
    }

    /// Creates an `AppInfo` with only basic information and no icon.
    /// Icon data can be added later using `with_icon`.
    pub fn from_package_info(name: String, package_name: String) -> (app: Self)
        ensures
            app.name@ == name@,
            app.package_name@ == package_name@,
            app.icon_bytes@ == Seq::<u8>::empty(),
    {
        Self { name, package_name, icon_bytes: Vec::new() }
    }

    /// Adds or replaces the icon bytes, builder style.
    pub fn with_icon(self, icon_bytes: Vec<u8>) -> (app: Self)
        ensures
            app.name@ == self.name@,
            app.package_name@ == self.package_name@,
            app.icon_bytes@ == icon_bytes@,
    {
        let mut app = self;
        app.icon_bytes = icon_bytes;
        app
    }

    /// A copy of this app with the same contents.
    pub fn duplicate(&self) -> (app: Self)
        ensures
            app@ == self@,
    {
        let icon = self.icon_bytes.clone();
        proof {
            assert(icon@ =~= self.icon_bytes@);
        }
        Self { name: self.name.clone(), package_name: self.package_name.clone(), icon_bytes: icon }
    }

    /// Filters apps by name for the launcher search bar: the apps, in order,
    /// whose lowercased name contains the lowercased query; all apps when the
    /// lowercased query is empty.
    pub fn search_by_name<'a>(apps: &'a [AppInfo], query: &str) -> (found: Vec<&'a AppInfo>)
        ensures
            found@.map_values(|a: &AppInfo| a@) == search_spec(app_views(apps@), query@),
    {
        let q = to_lowercase(query);
        let mut names: Vec<String> = Vec::new();
        let mut i: usize = 0;
        while i < apps.len()
            invariant
                i <= apps.len(),
                names@.len() == i,
                forall|k: int| 0 <= k < i ==> (#[trigger] names@[k])@ == lowercase(apps@[k].name@),
            decreases apps.len() - i,
        {
            names.push(to_lowercase(apps[i].name.as_str()));
            i += 1;
        }
        let found = Self::select_by_lowercase(apps, names.as_slice(), q.as_str());
        proof {
            let nv = names@.map_values(|n: String| n@);
            assert forall|k: int| 0 <= k < nv.len() implies #[trigger] nv[k] == lowercase(
                app_views(apps@)[k].name,
            ) by {
                assert(nv[k] == names@[k]@);
            }
            lemma_select_named(app_views(apps@), nv, q@);
        }
        found
    }

    /// The apps, in order, whose lowercased name (`lower_names`, one per app)
    /// contains `lower_query`; all apps when `lower_query` is empty.
    pub fn select_by_lowercase<'a>(apps: &'a [AppInfo], lower_names: &[String], lower_query: &str) -> (found: Vec<&'a AppInfo>)
        requires
            lower_names@.len() == apps@.len(),
        ensures
            found@.map_values(|a: &AppInfo| a@) == (if lower_query@.len() == 0 {
                app_views(apps@)
            } else {
                select_named(
                    app_views(apps@),
                    lower_names@.map_values(|n: String| n@),
                    lower_query@,
                )
            }),
    {
        let q = chars_of(lower_query);
        let ghost views = app_views(apps@);
        let ghost names = lower_names@.map_values(|n: String| n@);
        let mut found: Vec<&'a AppInfo> = Vec::new();
        let mut i: usize = 0;
        while i < apps.len()
            invariant
                i <= apps.len(),
                lower_names@.len() == apps@.len(),
                views == app_views(apps@),
                names == lower_names@.map_values(|n: String| n@),
                q@ == lower_query@,
                q@.len() == 0 ==> found@.map_values(|a: &AppInfo| a@) == views.subrange(0, i as int),
                q@.len() > 0 ==> found@.map_values(|a: &AppInfo| a@) == select_named(
                    views.subrange(0, i as int),
                    names.subrange(0, i as int),
                    q@,
                ),
            decreases apps.len() - i,
        {
            let ghost prefix = views.subrange(0, i as int);
            let ghost before = found@;
            let keep = if q.len() == 0 {
                true
            } else {
                let name_chars = chars_of(lower_names[i].as_str());
                contains(name_chars.as_slice(), q.as_slice())
            };
            if keep {
                found.push(&apps[i]);
            }
            proof {
                let next = views.subrange(0, i as int + 1);
                assert(next.drop_last() =~= prefix);
                assert(next.last() == apps@[i as int]@);
                assert(names.subrange(0, i as int + 1).drop_last() =~= names.subrange(0, i as int));
                assert(names.subrange(0, i as int + 1).last() == lower_names@[i as int]@);
                assert(found@.map_values(|a: &AppInfo| a@) =~= if keep {
                    before.map_values(|a: &AppInfo| a@).push(apps@[i as int]@)
                } else {
                    before.map_values(|a: &AppInfo| a@)
                });
                if q@.len() == 0 {
                    assert(prefix.push(apps@[i as int]@) =~= next);
                }
            }
            i += 1;
        }
        proof {
            assert(views.subrange(0, apps@.len() as int) =~= views);
            assert(names.subrange(0, apps@.len() as int) =~= names);
        }
        found
    }
}

/// The apps, in order, whose entry of `names` (one per app) contains `query`.
pub open spec fn select_named(
    apps: Seq<AppInfoView>,
    names: Seq<Seq<char>>,
    query: Seq<char>,
) -> Seq<AppInfoView>
    decreases apps.len(),
{
    if apps.len() == 0 {
        Seq::empty()
    } else {
        let rest = select_named(apps.drop_last(), names.drop_last(), query);
        if seq_contains(names.last(), query) {
            rest.push(apps.last())
        } else {
            rest
        }
    }
}

/// Selecting by the lowercased names is selecting by name.
proof fn lemma_select_named(apps: Seq<AppInfoView>, names: Seq<Seq<char>>, query: Seq<char>)
    requires
        names.len() == apps.len(),
        forall|k: int| 0 <= k < names.len() ==> #[trigger] names[k] == lowercase(apps[k].name),
    ensures
        select_named(apps, names, query) == apps_named(apps, query),
    decreases apps.len(),
{
    if apps.len() > 0 {
        let (a, n) = (apps.drop_last(), names.drop_last());
        assert forall|k: int| 0 <= k < n.len() implies #[trigger] n[k] == lowercase(a[k].name) by {
            assert(n[k] == names[k]);
        }
        lemma_select_named(a, n, query);
        assert(names.last() == names[names.len() - 1]);
    }
}

} // verus!
