//! The data a fresh database is seeded with, and which of it a database
//! still lacks.
use vstd::prelude::*;

verus! {

/// A category created on first start.
#[derive(Debug)]
pub struct SeedCategory {
    pub name: String,
    pub icon: String,
    pub sort_order: i64,
}

/// An example application created on first start, in a category named by `category`.
#[derive(Debug)]
pub struct SampleApp {
    pub name: String,
    pub url: String,
    pub description: String,
    pub category: String,
    pub icon: String,
    pub sort_order: i64,
}

pub open spec fn category_view(c: SeedCategory) -> (Seq<char>, Seq<char>, i64) {
    (c.name@, c.icon@, c.sort_order)
}

pub open spec fn sample_view(a: SampleApp) -> (Seq<char>, Seq<char>, Seq<char>, Seq<char>, Seq<char>, i64) {
    (a.name@, a.url@, a.description@, a.category@, a.icon@, a.sort_order)
}

/// The default categories: name, icon, sort order.
pub open spec fn default_categories_spec() -> Seq<(Seq<char>, Seq<char>, i64)> {
    seq![
        ("常用工具"@, "tool"@, 0i64),
        ("开发运维"@, "code"@, 1i64),
        ("影音娱乐"@, "media"@, 2i64),
        ("网盘存储"@, "cloud"@, 3i64),
        ("系统设备"@, "server"@, 4i64),
    ]
}

/// The example applications: name, URL, description, category, icon, sort order.
pub open spec fn sample_apps_spec() -> Seq<(Seq<char>, Seq<char>, Seq<char>, Seq<char>, Seq<char>, i64)> {
    seq![
        ("本导航系统"@, "http://localhost:8100/"@, "编辑我或删除我"@, "常用工具"@, "compass"@, 0i64),
        ("路由器管理"@, "http://192.168.1.1"@, "家庭路由器后台"@, "系统设备"@, "router"@, 0i64),
        ("Nginx 示例站"@, "https://nginx.org"@, "示例条目，可在后台删除"@, "开发运维"@, "server"@, 1i64),
    ]
}

fn category(name: &str, icon: &str, sort_order: i64) -> (r: SeedCategory)
    ensures
        category_view(r) == (name@, icon@, sort_order),
{
    SeedCategory { name: String::from_str(name), icon: String::from_str(icon), sort_order }
}

/// The default categories, in order.
pub fn default_categories() -> (r: Vec<SeedCategory>)
    ensures
        r@.map_values(|c: SeedCategory| category_view(c)) == default_categories_spec(),
{
    let r = vec![
        category("常用工具", "tool", 0),
        category("开发运维", "code", 1),
        category("影音娱乐", "media", 2),
        category("网盘存储", "cloud", 3),
        category("系统设备", "server", 4),
    ];
    assert(r@.map_values(|c: SeedCategory| category_view(c)) =~= default_categories_spec());
    r
}

fn sample(name: &str, url: &str, description: &str, cat: &str, icon: &str, sort_order: i64) -> (r: SampleApp)
    ensures
        sample_view(r) == (name@, url@, description@, cat@, icon@, sort_order),
{
    SampleApp {
        name: String::from_str(name),
        url: String::from_str(url),
        description: String::from_str(description),
        category: String::from_str(cat),
        icon: String::from_str(icon),
        sort_order,
    }
}

/// The example applications, in order.
pub fn sample_apps() -> (r: Vec<SampleApp>)
    ensures
        r@.map_values(|a: SampleApp| sample_view(a)) == sample_apps_spec(),
{
    let r = vec![
        sample("本导航系统", "http://localhost:8100/", "编辑我或删除我", "常用工具", "compass", 0),
        sample("路由器管理", "http://192.168.1.1", "家庭路由器后台", "系统设备", "router", 0),
        sample("Nginx 示例站", "https://nginx.org", "示例条目，可在后台删除", "开发运维", "server", 1),
    ];
    assert(r@.map_values(|a: SampleApp| sample_view(a)) =~= sample_apps_spec());
    r
}

/// What a database holds of the seed: the number of users named like the
/// administrator, the number of categories of each default name (in the
/// order of the defaults), and the number of applications.
#[derive(Debug)]
pub struct SeedState {
    pub admin_count: i64,
    pub category_counts: Vec<i64>,
    pub app_count: i64,
}

/// What to write into it: the administrator when missing, each default
/// category that is missing, the example applications when there are no
/// applications at all, and the two site settings (written only where
/// absent).
#[derive(Debug)]
pub struct SeedPlan {
    pub create_admin: bool,
    pub categories: Vec<SeedCategory>,
    pub apps: Vec<SampleApp>,
    pub settings: Vec<(String, String)>,
}

/// The default categories whose count is zero, in order.
pub open spec fn missing_categories(counts: Seq<i64>) -> Seq<(Seq<char>, Seq<char>, i64)>
    decreases counts.len(),
{
    if counts.len() == 0 {
        Seq::empty()
    } else {
        let prev = missing_categories(counts.drop_last());
        if counts.last() == 0 {
            prev.push(default_categories_spec()[counts.len() - 1])
        } else {
            prev
        }
    }
}

/// The seed settings: the site name is the application name.
pub open spec fn seed_settings(app_name: Seq<char>) -> Seq<(Seq<char>, Seq<char>)> {
    seq![("site_name"@, app_name), ("site_description"@, "集中管理与快速访问我的所有 Web 应用"@)]
}

/// What seeding writes into a database in the given state.
pub fn seed_plan(state: &SeedState, app_name: &str) -> (r: SeedPlan)
    requires
        state.category_counts@.len() == 5,
    ensures
        r.create_admin == (state.admin_count == 0),
        r.categories@.map_values(|c: SeedCategory| category_view(c)) == missing_categories(state.category_counts@),
        r.apps@.map_values(|a: SampleApp| sample_view(a))
            == (if state.app_count == 0 { sample_apps_spec() } else { Seq::empty() }),
        r.settings@.map_values(|p: (String, String)| (p.0@, p.1@)) == seed_settings(app_name@),
{
    let defaults = default_categories();
    let mut categories: Vec<SeedCategory> = Vec::new();
    let ghost all = defaults@.map_values(|c: SeedCategory| category_view(c));
    assert(all.len() == 5);
    let mut i: usize = 0;
    assert(state.category_counts@.take(0) =~= Seq::<i64>::empty());
    while i < 5
        invariant
            i <= 5,
            state.category_counts@.len() == 5,
            defaults@.len() == 5,
            all == default_categories_spec(),
            all == defaults@.map_values(|c: SeedCategory| category_view(c)),
            categories@.map_values(|c: SeedCategory| category_view(c))
                == missing_categories(state.category_counts@.take(i as int)),
        decreases 5 - i,
    {
        assert(state.category_counts@.take(i + 1).drop_last() =~= state.category_counts@.take(i as int));
        if state.category_counts[i] == 0 {
            let d = &defaults[i];
            let c = SeedCategory { name: d.name.clone(), icon: d.icon.clone(), sort_order: d.sort_order };
            let ghost before = categories@;
            assert(category_view(c) == all[i as int]);
            categories.push(c);
            assert(categories@.map_values(|c: SeedCategory| category_view(c))
                =~= before.map_values(|c: SeedCategory| category_view(c)).push(category_view(c)));
        }
        i = i + 1;
    }
    assert(state.category_counts@.take(5) =~= state.category_counts@);
    let apps = if state.app_count == 0 {
        sample_apps()
    } else {
        let v: Vec<SampleApp> = Vec::new();
        assert(v@.map_values(|a: SampleApp| sample_view(a)) =~= Seq::empty());
        v
    };
    let settings = vec![
        (String::from_str("site_name"), String::from_str(app_name)),
        (String::from_str("site_description"), String::from_str("集中管理与快速访问我的所有 Web 应用")),
    ];
    assert(settings@.map_values(|p: (String, String)| (p.0@, p.1@)) =~= seed_settings(app_name@));
    SeedPlan { create_admin: state.admin_count == 0, categories, apps, settings }
}


/// Seeding is idempotent: a database that holds the administrator, every
/// default category and some application is planned nothing more than the
/// settings (which are written only where absent).
pub proof fn lemma_seed_complete(counts: Seq<i64>)
    requires
        forall|i: int| 0 <= i < counts.len() ==> #[trigger] counts[i] != 0,
    ensures
        missing_categories(counts) == Seq::<(Seq<char>, Seq<char>, i64)>::empty(),
    decreases counts.len(),
{
    if counts.len() > 0 {
        assert(counts.last() == counts[counts.len() - 1]);
        lemma_seed_complete(counts.drop_last());
    }
}

/// The category counts once a plan's categories are written: each missing
/// default category is there once.
pub open spec fn counts_after(counts: Seq<i64>) -> Seq<i64> {
    counts.map_values(|c: i64| if c == 0 { 1i64 } else { c })
}

/// Seeding twice writes nothing new the second time: after the first plan is
/// carried out (the administrator, the missing categories, the example
/// applications when there were none), the next plan creates no
/// administrator, no category and no application.
pub proof fn lemma_seed_twice(admin_count: i64, counts: Seq<i64>, app_count: i64)
    requires
        admin_count >= 0,
        app_count >= 0,
    ensures
        ({
            let admins = if admin_count == 0 { 1 } else { admin_count };
            let apps = if app_count == 0 { sample_apps_spec().len() as int } else { app_count as int };
            &&& admins != 0
            &&& apps != 0
            &&& missing_categories(counts_after(counts)) == Seq::<(Seq<char>, Seq<char>, i64)>::empty()
        }),
{
    let after = counts_after(counts);
    assert forall|i: int| 0 <= i < after.len() implies #[trigger] after[i] != 0 by {
        assert(after[i] == (if counts[i] == 0 { 1i64 } else { counts[i] }));
    }
    lemma_seed_complete(after);
}

} // verus!
