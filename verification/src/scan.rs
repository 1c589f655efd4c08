//! Building the catalog from what the platform offers: the texts of the
//! `.desktop` files in the application directories on Linux, the
//! uninstall entries of the registry on Windows.
use vstd::prelude::*;
use crate::app::{App, AppView, apps_view, opt_view};
use crate::catalog::{catalog, catalog_of, is_catalog_of};
use crate::desktop::{desktop_entry, parse_desktop};
use crate::text::{
    Strip, contains, contains_chars, strings_view, to_chars, trim_quotes, trim_range,
};

verus! {

/// The apps that the `.desktop` texts `texts` describe, in order.
pub open spec fn desktop_apps(texts: Seq<Seq<char>>) -> Seq<AppView>
    decreases texts.len(),
{
    if texts.len() == 0 {
        seq![]
    } else {
        let rest = desktop_apps(texts.drop_last());
        match desktop_entry(texts.last()) {
            Some(a) => rest.push(a),
            None => rest,
        }
    }
}

/// The catalog of the `.desktop` texts `texts` (the contents of the
/// `.desktop` files found in the application directories).
pub fn scan_linux_apps(texts: &Vec<String>) -> (res: Vec<App>)
    ensures
        is_catalog_of(apps_view(res@), desktop_apps(strings_view(texts@))),
        apps_view(res@) == catalog_of(desktop_apps(strings_view(texts@))),
{
    let mut apps: Vec<App> = Vec::new();
    for i in 0..texts.len()
        invariant
            apps_view(apps@) == desktop_apps(strings_view(texts@).take(i as int)),
    {
        let ghost before = apps_view(apps@);
        let parsed = parse_desktop(texts[i].as_str());
        proof {
            let t = strings_view(texts@).take(i + 1);
            assert(t.drop_last() =~= strings_view(texts@).take(i as int));
            assert(t.last() == texts@[i as int]@);
        }
        match parsed {
            Some(a) => {
                apps.push(a);
                proof {
                    assert(apps_view(apps@) =~= before.push(a@));
                }
            },
            None => {},
        }
    }
    proof {
        assert(strings_view(texts@).take(texts.len() as int) =~= strings_view(texts@));
    }
    catalog(apps)
}

/// One uninstall entry of the registry: its `DisplayName` and, where they
/// could be read, its `DisplayIcon` and `InstallLocation`.
pub struct RegistryEntry {
    pub display_name: String,
    pub display_icon: Option<String>,
    pub install_location: Option<String>,
}

pub struct RegistryView {
    pub display_name: Seq<char>,
    pub display_icon: Option<Seq<char>>,
    pub install_location: Option<Seq<char>>,
}

impl View for RegistryEntry {
    type V = RegistryView;

    open spec fn view(&self) -> RegistryView {
        RegistryView {
            display_name: self.display_name@,
            display_icon: opt_view(self.display_icon),
            install_location: opt_view(self.install_location),
        }
    }
}

pub open spec fn opt_trim_quotes(o: Option<Seq<char>>) -> Option<Seq<char>> {
    match o {
        Some(s) => Some(trim_quotes(s)),
        None => None,
    }
}

/// The app that an uninstall entry describes: its command is the
/// `DisplayIcon`, else the `InstallLocation`, without surrounding quotes;
/// none where that is missing or empty or the name contains `Update`.
pub open spec fn registry_app(e: RegistryView) -> Option<AppView> {
    let command = match e.display_icon {
        Some(p) => Some(trim_quotes(p)),
        None => opt_trim_quotes(e.install_location),
    };
    match command {
        Some(c) => if c.len() > 0 && !contains(e.display_name, "Update"@) {
            Some(
                AppView {
                    name: e.display_name,
                    command: c,
                    comment: None,
                    icon: opt_trim_quotes(e.display_icon),
                },
            )
        } else {
            None
        },
        None => None,
    }
}

/// The apps that the uninstall entries `entries` describe, in order.
pub open spec fn registry_apps(entries: Seq<RegistryView>) -> Seq<AppView>
    decreases entries.len(),
{
    if entries.len() == 0 {
        seq![]
    } else {
        let rest = registry_apps(entries.drop_last());
        match registry_app(entries.last()) {
            Some(a) => rest.push(a),
            None => rest,
        }
    }
}

pub open spec fn registry_view(v: Seq<RegistryEntry>) -> Seq<RegistryView> {
    v.map_values(|e: RegistryEntry| e@)
}

/// `s` without its surrounding double quotes.
pub fn strip_quotes(s: &str) -> (r: String)
    ensures
        r@ == trim_quotes(s@),
{
    let v = to_chars(s);
    let (a, b) = trim_range(&v, 0, v.len(), Strip::Quote);
    proof {
        assert(v@.subrange(0, v@.len() as int) =~= v@);
    }
    s.substring_char(a, b).to_owned()
}

/// The app that one uninstall entry describes, if any.
pub fn registry_entry_app(e: &RegistryEntry) -> (r: Option<App>)
    ensures
        match r {
            Some(a) => registry_app(e@) == Some(a@),
            None => registry_app(e@) is None,
        },
{
    let command = match &e.display_icon {
        Some(p) => Some(strip_quotes(p.as_str())),
        None => match &e.install_location {
            Some(p) => Some(strip_quotes(p.as_str())),
            None => None,
        },
    };
    match command {
        Some(c) => {
            let name = to_chars(e.display_name.as_str());
            let update = to_chars("Update");
            if to_chars(c.as_str()).len() > 0 && !contains_chars(&name, &update) {
                let icon = match &e.display_icon {
                    Some(p) => Some(strip_quotes(p.as_str())),
                    None => None,
                };
                Some(App { name: e.display_name.clone(), command: c, comment: None, icon })
            } else {
                None
            }
        },
        None => None,
    }
}

/// The catalog of the uninstall entries `entries`.
pub fn scan_windows_apps(entries: &Vec<RegistryEntry>) -> (res: Vec<App>)
    ensures
        is_catalog_of(apps_view(res@), registry_apps(registry_view(entries@))),
        apps_view(res@) == catalog_of(registry_apps(registry_view(entries@))),
{
    let mut apps: Vec<App> = Vec::new();
    for i in 0..entries.len()
        invariant
            apps_view(apps@) == registry_apps(registry_view(entries@).take(i as int)),
    {
        let ghost before = apps_view(apps@);
        let found = registry_entry_app(&entries[i]);
        proof {
            let t = registry_view(entries@).take(i + 1);
            assert(t.drop_last() =~= registry_view(entries@).take(i as int));
            assert(t.last() == entries@[i as int]@);
        }
        match found {
            Some(a) => {
                apps.push(a);
                proof {
                    assert(apps_view(apps@) =~= before.push(a@));
                }
            },
            None => {},
        }
    }
    proof {
        assert(registry_view(entries@).take(entries.len() as int) =~= registry_view(entries@));
    }
    catalog(apps)
}

/// Where the apps come from on the platform at hand.
pub enum AppSource {
    /// The texts of the `.desktop` files of the application directories.
    DesktopFiles(Vec<String>),
    /// The uninstall entries of the registry.
    Registry(Vec<RegistryEntry>),
    /// A platform with neither.
    Unsupported,
}

/// The catalog of installed apps, from what the platform offers.
pub fn scan_desktop_files(source: &AppSource) -> (res: Vec<App>)
    ensures
        match source {
            AppSource::DesktopFiles(texts) => apps_view(res@) == catalog_of(
                desktop_apps(strings_view(texts@)),
            ),
            AppSource::Registry(entries) => apps_view(res@) == catalog_of(
                registry_apps(registry_view(entries@)),
            ),
            AppSource::Unsupported => res@.len() == 0,
        },
{
    match source {
        AppSource::DesktopFiles(texts) => scan_linux_apps(texts),
        AppSource::Registry(entries) => scan_windows_apps(entries),
        AppSource::Unsupported => Vec::new(),
    }
}

/// The directories searched for `.desktop` files, for the home directory
/// `home`.
pub open spec fn application_dirs_spec(home: Seq<char>) -> Seq<Seq<char>> {
    seq![
        "/usr/share/applications"@,
        "/usr/local/share/applications"@,
        "/var/lib/flatpak/exports/share/applications"@,
        "/var/lib/snapd/desktop/applications"@,
        home + "/.local/share/applications"@,
        home + "/.local/share/flatpak/exports/share/applications"@,
    ]
}

fn home_dir(home: &str, suffix: &str) -> (r: String)
    ensures
        r@ == home@ + suffix@,
{
    let mut r = home.to_owned();
    r.append(suffix);
    r
}

/// The directories searched for `.desktop` files, system ones first.
pub fn application_dirs(home: &str) -> (r: Vec<String>)
    ensures
        strings_view(r@) == application_dirs_spec(home@),
{
    let mut r: Vec<String> = Vec::new();
    r.push("/usr/share/applications".to_owned());
    r.push("/usr/local/share/applications".to_owned());
    r.push("/var/lib/flatpak/exports/share/applications".to_owned());
    r.push("/var/lib/snapd/desktop/applications".to_owned());
    r.push(home_dir(home, "/.local/share/applications"));
    r.push(home_dir(home, "/.local/share/flatpak/exports/share/applications"));
    proof {
        assert(strings_view(r@) =~= application_dirs_spec(home@));
    }
    r
}

} // verus!
