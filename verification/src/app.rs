//! An entry of the application catalog.
use vstd::prelude::*;

verus! {

/// An installed application: the name shown and searched, the command line
/// that starts it, and an optional description and icon reference.
#[derive(Clone, Debug)]
pub struct App {
    pub name: String,
    pub command: String,
    pub comment: Option<String>,
    pub icon: Option<String>,
}

/// The abstract value of an [`App`]: its fields as character sequences.
pub struct AppView {
    pub name: Seq<char>,
    pub command: Seq<char>,
    pub comment: Option<Seq<char>>,
    pub icon: Option<Seq<char>>,
}

pub open spec fn opt_view(o: Option<String>) -> Option<Seq<char>> {
    match o {
        Some(s) => Some(s@),
        None => None,
    }
}

impl View for App {
    type V = AppView;

    open spec fn view(&self) -> AppView {
        AppView {
            name: self.name@,
            command: self.command@,
            comment: opt_view(self.comment),
            icon: opt_view(self.icon),
        }
    }
}

/// The abstract value of a list of apps.
pub open spec fn apps_view(v: Seq<App>) -> Seq<AppView> {
    v.map_values(|a: App| a@)
}

pub open spec fn opt_app_view(o: Option<App>) -> Option<AppView> {
    match o {
        Some(a) => Some(a@),
        None => None,
    }
}

pub fn copy_opt_string(o: &Option<String>) -> (r: Option<String>)
    ensures
        opt_view(r) == opt_view(*o),
{
    match o {
        Some(s) => Some(s.clone()),
        None => None,
    }
}

impl App {
    /// A copy of this app with the same field values.
    pub fn duplicate(&self) -> (r: App)
        ensures
            r@ == self@,
    {
        App {
            name: self.name.clone(),
            command: self.command.clone(),
            comment: copy_opt_string(&self.comment),
            icon: copy_opt_string(&self.icon),
        }
    }
}

} // verus!
