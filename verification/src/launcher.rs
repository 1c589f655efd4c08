//! The launcher's state and what the hotkey, the search box and the keys do
//! to it. Drawing, window commands and starting programs are the caller's;
//! each step here says which of them to perform.
use vstd::prelude::*;
use crate::app::{App, AppView, apps_view};
use crate::command::{LaunchCommand, command_words, launch_exec};
use crate::text::{
    ascii_lower, ascii_lower_chars, is_subsequence, is_subsequence_chars,
    lemma_subsequence_push_both, lemma_subsequence_push_right, lemma_subsequence_reflexive,
    lemma_subsequence_transitive,
    lower_char, strings_view, to_chars,
};

verus! {

/// The most result rows shown at once.
pub const MAX_ITEMS: usize = 8;

/// An app's name matches a query, fuzzily: the query's characters occur in
/// the name in order, not necessarily next to each other, both taken in ASCII
/// lower case (so `ffx` matches `Firefox`).
pub open spec fn name_matches(name: Seq<char>, query: Seq<char>) -> bool {
    is_subsequence(ascii_lower(query), ascii_lower(name))
}

/// The apps of `apps` whose names match `query`, in their order in `apps`.
pub open spec fn matching(apps: Seq<AppView>, query: Seq<char>) -> Seq<AppView>
    decreases apps.len(),
{
    if apps.len() == 0 {
        seq![]
    } else {
        let rest = matching(apps.drop_last(), query);
        if name_matches(apps.last().name, query) {
            rest.push(apps.last())
        } else {
            rest
        }
    }
}

/// The launcher: the query typed, the catalog, the apps that match, the
/// selected row, and whether the window is shown, positioned and wants the
/// keyboard focus.
pub struct Spotlight {
    query: String,
    all: Vec<App>,
    results: Vec<App>,
    selected: usize,
    need_focus: bool,
    positioned: bool,
    visible: bool,
    hotkey_id: u32,
}

/// The abstract value of a [`Spotlight`].
pub struct SpotlightView {
    pub query: Seq<char>,
    pub all: Seq<AppView>,
    pub results: Seq<AppView>,
    pub selected: nat,
    pub need_focus: bool,
    pub positioned: bool,
    pub visible: bool,
    pub hotkey_id: u32,
}

impl Spotlight {
    /// There is no result, or the selected row is a result.
    #[verifier::type_invariant]
    spec fn selection_in_results(self) -> bool {
        self.results.len() == 0 || self.selected < self.results.len()
    }
}

impl View for Spotlight {
    type V = SpotlightView;

    closed spec fn view(&self) -> SpotlightView {
        SpotlightView {
            query: self.query@,
            all: apps_view(self.all@),
            results: apps_view(self.results@),
            selected: self.selected as nat,
            need_focus: self.need_focus,
            positioned: self.positioned,
            visible: self.visible,
            hotkey_id: self.hotkey_id,
        }
    }
}

/// The state with the results recomputed for the query and the first row
/// selected.
pub open spec fn filtered(s: SpotlightView) -> SpotlightView {
    SpotlightView { results: matching(s.all, s.query), selected: 0, ..s }
}

/// The state after the window is shown: empty query, every app listed.
pub open spec fn shown(s: SpotlightView) -> SpotlightView {
    SpotlightView {
        visible: true,
        query: seq![],
        results: matching(s.all, seq![]),
        selected: 0,
        need_focus: true,
        positioned: false,
        ..s
    }
}

/// The state after the window is hidden: empty query, no results.
pub open spec fn hidden(s: SpotlightView) -> SpotlightView {
    SpotlightView { visible: false, query: seq![], results: seq![], ..s }
}

/// The state after a hotkey event with id `id`, pressed or released.
pub open spec fn hotkey_step(s: SpotlightView, id: u32, pressed: bool) -> SpotlightView {
    if id == s.hotkey_id && pressed {
        if s.visible {
            hidden(s)
        } else {
            shown(s)
        }
    } else {
        s
    }
}

/// The state after the pointer moves over row `row`: that row becomes the
/// selected one, where it is a shown row.
pub open spec fn hover_step(s: SpotlightView, row: nat) -> SpotlightView {
    if row < MAX_ITEMS && row < s.results.len() {
        SpotlightView { selected: row, ..s }
    } else {
        s
    }
}

/// There is no result, or the selected row is a result.
pub open spec fn selection_ok(s: SpotlightView) -> bool {
    s.results.len() == 0 || s.selected < s.results.len()
}

/// The keys of one frame: Escape and Enter taken, arrows pressed.
pub struct KeyInput {
    pub escape: bool,
    pub enter: bool,
    pub down: bool,
    pub up: bool,
}

/// The state after the arrow keys of `k` move the selection.
pub open spec fn moved(s: SpotlightView, k: KeyInput) -> SpotlightView {
    let s1 = if k.down && s.selected + 1 < s.results.len() {
        SpotlightView { selected: s.selected + 1, ..s }
    } else {
        s
    };
    if k.up && s1.selected > 0 {
        SpotlightView { selected: (s1.selected - 1) as nat, ..s1 }
    } else {
        s1
    }
}

/// The state after the keys `k`: the selection moves, and Escape or Enter
/// hides the window.
pub open spec fn keys_step(s: SpotlightView, k: KeyInput) -> SpotlightView {
    let m = moved(s, k);
    if k.escape || k.enter {
        hidden(m)
    } else {
        m
    }
}

/// The command line of the selected result, if a result is selected.
pub open spec fn selected_exec(s: SpotlightView) -> Option<Seq<char>> {
    if s.selected < s.results.len() {
        Some(s.results[s.selected as int].command)
    } else {
        None
    }
}

/// The words of the command that launching in state `s` starts, if any.
pub open spec fn launch_words(s: SpotlightView) -> Option<Seq<Seq<char>>> {
    match selected_exec(s) {
        Some(e) => if command_words(e).len() > 0 {
            Some(command_words(e))
        } else {
            None
        },
        None => None,
    }
}

/// The words of a launch command, program first.
pub open spec fn command_view(c: LaunchCommand) -> Seq<Seq<char>> {
    seq![c.program@] + strings_view(c.args@)
}

pub open spec fn opt_command_view(c: Option<LaunchCommand>) -> Option<Seq<Seq<char>>> {
    match c {
        Some(c) => Some(command_view(c)),
        None => None,
    }
}

/// What the keys of a frame call for.
pub struct KeyOutcome {
    /// The program to start, where Enter launched one.
    pub launch: Option<LaunchCommand>,
    /// Whether the window is to be hidden.
    pub close: bool,
}

fn launch_command_of(exec: &String) -> (r: Option<LaunchCommand>)
    ensures
        opt_command_view(r) == (if command_words(exec@).len() > 0 {
            Some(command_words(exec@))
        } else {
            None
        }),
{
    launch_exec(exec.as_str())
}

fn empty_string() -> (r: String)
    ensures
        r@ == Seq::<char>::empty(),
{
    String::new()
}

impl Spotlight {
    /// A hidden launcher over the catalog `all`, answering the hotkey with
    /// id `hotkey_id`.
    pub fn new(all: Vec<App>, hotkey_id: u32) -> (s: Spotlight)
        ensures
            s@ == (SpotlightView {
                query: seq![],
                all: apps_view(all@),
                results: seq![],
                selected: 0,
                need_focus: true,
                positioned: false,
                visible: false,
                hotkey_id,
            }),
    {
        let s = Spotlight {
            query: empty_string(),
            all,
            results: Vec::new(),
            selected: 0,
            need_focus: true,
            positioned: false,
            visible: false,
            hotkey_id,
        };
        proof {
            assert(apps_view(s.results@) =~= Seq::<AppView>::empty());
        }
        s
    }

    /// Recomputes the results for the query and selects the first row.
    pub fn filter(&mut self)
        ensures
            final(self)@ == filtered(old(self)@),
    {
        let q = ascii_lower_chars(&to_chars(self.query.as_str()));
        let mut results: Vec<App> = Vec::new();
        let ghost all = apps_view(self.all@);
        for i in 0..self.all.len()
            invariant
                all == apps_view(self.all@),
                q@ == ascii_lower(self.query@),
                apps_view(results@) == matching(all.take(i as int), self.query@),
        {
            let ghost before = apps_view(results@);
            let name = ascii_lower_chars(&to_chars(self.all[i].name.as_str()));
            proof {
                let t = all.take(i + 1);
                assert(t.drop_last() =~= all.take(i as int));
                assert(t.last() == self.all@[i as int]@);
            }
            if is_subsequence_chars(&q, &name) {
                results.push(self.all[i].duplicate());
                proof {
                    assert(apps_view(results@) =~= before.push(self.all@[i as int]@));
                }
            }
        }
        proof {
            assert(all.take(self.all.len() as int) =~= all);
        }
        self.selected = 0;
        self.results = results;
    }

    /// Sets the query to `query` and recomputes the results.
    pub fn set_query(&mut self, query: String)
        ensures
            final(self)@ == filtered(SpotlightView { query: query@, ..old(self)@ }),
    {
        proof {
            use_type_invariant(&*self);
        }
        self.query = query;
        self.filter();
    }

    /// The command that launching now starts: that of the selected result,
    /// split into words, where it has a word.
    pub fn launch(&self) -> (r: Option<LaunchCommand>)
        ensures
            opt_command_view(r) == launch_words(self@),
    {
        if self.selected < self.results.len() {
            launch_command_of(&self.results[self.selected].command)
        } else {
            None
        }
    }

    /// Shows the window: clears the query, lists every app, selects the
    /// first row and asks for focus and for positioning.
    pub fn show(&mut self)
        ensures
            final(self)@ == shown(old(self)@),
    {
        proof {
            use_type_invariant(&*self);
        }
        self.query = empty_string();
        self.filter();
        self.visible = true;
        self.need_focus = true;
        self.positioned = false;
    }

    /// Hides the window: clears the query and the results.
    pub fn hide_window(&mut self)
        ensures
            final(self)@ == hidden(old(self)@),
    {
        proof {
            use_type_invariant(&*self);
        }
        self.visible = false;
        self.query = empty_string();
        self.results = Vec::new();
        proof {
            assert(apps_view(self.results@) =~= Seq::<AppView>::empty());
        }
    }

    /// Handles a hotkey event with id `id`: where it is this launcher's
    /// hotkey being pressed, toggles the window and says whether it is now
    /// shown; else changes nothing and gives `None`.
    pub fn on_hotkey(&mut self, id: u32, pressed: bool) -> (r: Option<bool>)
        ensures
            final(self)@ == hotkey_step(old(self)@, id, pressed),
            r == (if id == old(self)@.hotkey_id && pressed {
                Some(!old(self)@.visible)
            } else {
                None
            }),
    {
        if id == self.hotkey_id && pressed {
            if self.visible {
                self.hide_window();
                Some(false)
            } else {
                self.show();
                Some(true)
            }
        } else {
            None
        }
    }

    /// Handles the keys of one frame: the arrows move the selection within
    /// the results, Enter launches the selected app, and Escape or Enter
    /// hides the window.
    pub fn handle_keys(&mut self, keys: KeyInput) -> (r: KeyOutcome)
        ensures
            final(self)@ == keys_step(old(self)@, keys),
            r.close == (keys.escape || keys.enter),
            opt_command_view(r.launch) == (if keys.enter {
                launch_words(moved(old(self)@, keys))
            } else {
                None
            }),
    {
        proof {
            use_type_invariant(&*self);
        }
        if keys.down && self.selected < self.results.len() && self.selected + 1
            < self.results.len() {
            self.selected = self.selected + 1;
        }
        if keys.up && self.selected > 0 {
            self.selected = self.selected - 1;
        }
        let launch = if keys.enter {
            self.launch()
        } else {
            None
        };
        let close = keys.escape || keys.enter;
        if close {
            self.hide_window();
        }
        KeyOutcome { launch, close }
    }

    /// The number of result rows shown.
    pub fn visible_rows(&self) -> (r: usize)
        ensures
            r == (if self@.results.len() < MAX_ITEMS {
                self@.results.len()
            } else {
                MAX_ITEMS as nat
            }),
    {
        if self.results.len() < MAX_ITEMS {
            self.results.len()
        } else {
            MAX_ITEMS
        }
    }

    /// The pointer is over row `row`: that row becomes the selected one,
    /// where it is a shown row.
    pub fn hover(&mut self, row: usize)
        ensures
            final(self)@ == hover_step(old(self)@, row as nat),
    {
        if row < MAX_ITEMS && row < self.results.len() {
            self.selected = row;
        }
    }

    /// The command that clicking row `row` starts, where it is a shown row
    /// whose command line has a word.
    pub fn row_command(&self, row: usize) -> (r: Option<LaunchCommand>)
        ensures
            opt_command_view(r) == (if row < MAX_ITEMS && row < self@.results.len()
                && command_words(self@.results[row as int].command).len() > 0 {
                Some(command_words(self@.results[row as int].command))
            } else {
                None
            }),
    {
        if row < MAX_ITEMS && row < self.results.len() {
            launch_command_of(&self.results[row].command)
        } else {
            None
        }
    }

    /// Whether the window still has to be placed; it counts as placed after.
    pub fn take_position_request(&mut self) -> (r: bool)
        ensures
            r == !old(self)@.positioned,
            final(self)@ == (SpotlightView { positioned: true, ..old(self)@ }),
    {
        proof {
            use_type_invariant(&*self);
        }
        let r = !self.positioned;
        self.positioned = true;
        r
    }

    /// Whether the search box is to take the keyboard focus; it is asked
    /// for once.
    pub fn take_focus_request(&mut self) -> (r: bool)
        ensures
            r == old(self)@.need_focus,
            final(self)@ == (SpotlightView { need_focus: false, ..old(self)@ }),
    {
        proof {
            use_type_invariant(&*self);
        }
        let r = self.need_focus;
        self.need_focus = false;
        r
    }

    pub fn is_visible(&self) -> (r: bool)
        ensures
            r == self@.visible,
    {
        self.visible
    }

    pub fn query(&self) -> (r: &String)
        ensures
            r@ == self@.query,
    {
        &self.query
    }

    pub fn results(&self) -> (r: &Vec<App>)
        ensures
            apps_view(r@) == self@.results,
    {
        &self.results
    }

    pub fn all_apps(&self) -> (r: &Vec<App>)
        ensures
            apps_view(r@) == self@.all,
    {
        &self.all
    }

    pub fn selected(&self) -> (r: usize)
        ensures
            r == self@.selected,
    {
        self.selected
    }

    pub fn hotkey_id(&self) -> (r: u32)
        ensures
            r == self@.hotkey_id,
    {
        self.hotkey_id
    }
}

/// The letter drawn in place of a missing icon: the first character of the
/// name, or `?` for an empty name.
pub open spec fn fallback_glyph_spec(name: Seq<char>) -> Seq<char> {
    if name.len() > 0 {
        seq![name[0]]
    } else {
        "?"@
    }
}

/// The letter drawn in place of a missing icon.
pub fn fallback_glyph(name: &str) -> (r: String)
    ensures
        r@ == fallback_glyph_spec(name@),
{
    let v = to_chars(name);
    if v.len() > 0 {
        let r = name.substring_char(0, 1).to_owned();
        proof {
            assert(name@.subrange(0, 1) =~= seq![name@[0]]);
        }
        r
    } else {
        "?".to_owned()
    }
}

/// The empty query matches every app: with nothing typed, every app of the
/// catalog is listed, in catalog order.
pub proof fn lemma_empty_query_lists_all(apps: Seq<AppView>)
    ensures
        matching(apps, seq![]) == apps,
    decreases apps.len(),
{
    if apps.len() > 0 {
        lemma_empty_query_lists_all(apps.drop_last());
        assert(ascii_lower(seq![]).len() == 0);
        assert(apps.drop_last().push(apps.last()) =~= apps);
    }
}

/// Showing the window lists the whole catalog.
pub proof fn lemma_show_lists_all(s: SpotlightView)
    ensures
        shown(s).results == s.all,
        shown(s).visible,
        shown(s).query.len() == 0,
        shown(s).selected == 0,
{
    lemma_empty_query_lists_all(s.all);
}

/// The results are exactly the apps of the catalog whose names match the
/// query.
pub proof fn lemma_matching_members(apps: Seq<AppView>, q: Seq<char>)
    ensures
        forall|x: AppView|
            #[trigger] matching(apps, q).contains(x) <==> (apps.contains(x) && name_matches(
                x.name,
                q,
            )),
    decreases apps.len(),
{
    if apps.len() > 0 {
        let init = apps.drop_last();
        lemma_matching_members(init, q);
        assert forall|x: AppView| #[trigger] matching(apps, q).contains(x) <==> (apps.contains(x)
            && name_matches(x.name, q)) by {
            let rest = matching(init, q);
            if apps.contains(x) {
                let k = choose|k: int| 0 <= k < apps.len() && apps[k] == x;
                if k < apps.len() - 1 {
                    assert(init[k] == x);
                }
            }
            if init.contains(x) {
                let k = choose|k: int| 0 <= k < init.len() && init[k] == x;
                assert(apps[k] == x);
            }
            if name_matches(apps.last().name, q) {
                let r2 = rest.push(apps.last());
                if r2.contains(x) {
                    let k = choose|k: int| 0 <= k < r2.len() && r2[k] == x;
                    if k < rest.len() {
                        assert(rest[k] == x);
                    }
                }
                if rest.contains(x) {
                    let k = choose|k: int| 0 <= k < rest.len() && rest[k] == x;
                    assert(r2[k] == x);
                }
                assert(r2[rest.len() as int] == apps.last());
            }
        }
    }
}

proof fn lemma_lower_char_idempotent(c: char)
    ensures
        lower_char(lower_char(c)) == lower_char(c),
{
}

/// Case folding the query twice changes nothing.
pub proof fn lemma_ascii_lower_idempotent(s: Seq<char>)
    ensures
        ascii_lower(ascii_lower(s)) == ascii_lower(s),
{
    assert forall|i: int| 0 <= i < s.len() implies ascii_lower(ascii_lower(s))[i] == ascii_lower(
        s,
    )[i] by {
        lemma_lower_char_idempotent(s[i]);
    }
    assert(ascii_lower(ascii_lower(s)) =~= ascii_lower(s));
}

/// The search ignores ASCII letter case in the query: a query and its lower
/// case form list the same apps.
pub proof fn lemma_query_case_insensitive(apps: Seq<AppView>, q: Seq<char>)
    ensures
        matching(apps, q) == matching(apps, ascii_lower(q)),
    decreases apps.len(),
{
    lemma_ascii_lower_idempotent(q);
    if apps.len() > 0 {
        lemma_query_case_insensitive(apps.drop_last(), q);
    }
}

/// Case folding keeps subsequences.
proof fn lemma_lower_keeps_subsequence(a: Seq<char>, b: Seq<char>)
    requires
        is_subsequence(a, b),
    ensures
        is_subsequence(ascii_lower(a), ascii_lower(b)),
    decreases b.len(),
{
    if a.len() > 0 {
        let la = ascii_lower(a);
        let lb = ascii_lower(b);
        assert(la.drop_first() =~= ascii_lower(a.drop_first()));
        assert(lb.drop_first() =~= ascii_lower(b.drop_first()));
        if a[0] == b[0] && is_subsequence(a.drop_first(), b.drop_first()) {
            lemma_lower_keeps_subsequence(a.drop_first(), b.drop_first());
            assert(la[0] == lb[0]);
        } else {
            lemma_lower_keeps_subsequence(a, b.drop_first());
        }
    }
}

/// What was typed before is a subsequence of what is typed now.
pub proof fn lemma_typed_prefix_is_subsequence(typed: Seq<char>, more: Seq<char>)
    ensures
        is_subsequence(typed, typed + more),
    decreases typed.len(),
{
    if typed.len() > 0 {
        let t = typed + more;
        assert(t[0] == typed[0]);
        assert(t.drop_first() =~= typed.drop_first() + more);
        lemma_typed_prefix_is_subsequence(typed.drop_first(), more);
    }
}

/// Typing more narrows the results and keeps their order: the apps listed
/// for a query are a subsequence of those listed for any subsequence of it
/// (such as what was typed before).
pub proof fn lemma_narrowing(apps: Seq<AppView>, shorter: Seq<char>, longer: Seq<char>)
    requires
        is_subsequence(shorter, longer),
    ensures
        is_subsequence(matching(apps, longer), matching(apps, shorter)),
        forall|x: AppView|
            #[trigger] matching(apps, longer).contains(x) ==> matching(apps, shorter).contains(x),
    decreases apps.len(),
{
    lemma_matching_members(apps, longer);
    lemma_matching_members(apps, shorter);
    lemma_lower_keeps_subsequence(shorter, longer);
    assert forall|x: AppView| #[trigger] matching(apps, longer).contains(x) implies matching(
        apps,
        shorter,
    ).contains(x) by {
        lemma_subsequence_transitive(
            ascii_lower(shorter),
            ascii_lower(longer),
            ascii_lower(x.name),
        );
    }
    if apps.len() > 0 {
        let init = apps.drop_last();
        let y = apps.last();
        lemma_narrowing(init, shorter, longer);
        let r1 = matching(init, shorter);
        let r2 = matching(init, longer);
        if name_matches(y.name, longer) {
            lemma_subsequence_transitive(
                ascii_lower(shorter),
                ascii_lower(longer),
                ascii_lower(y.name),
            );
            lemma_subsequence_push_both(r2, r1, y);
        } else if name_matches(y.name, shorter) {
            lemma_subsequence_push_right(r2, r1, y);
        }
    }
}

/// Typing more characters narrows the results and keeps their order.
pub proof fn lemma_typing_narrows(apps: Seq<AppView>, typed: Seq<char>, more: Seq<char>)
    ensures
        is_subsequence(matching(apps, typed + more), matching(apps, typed)),
{
    lemma_typed_prefix_is_subsequence(typed, more);
    lemma_narrowing(apps, typed, typed + more);
}

/// A query matches every name that differs from it only in the letter case
/// of ASCII letters: `audacity`, `AUDACITY` and `Audacity` all match the
/// name `Audacity`.
pub proof fn lemma_case_variant_matches(name: Seq<char>, q: Seq<char>)
    requires
        q.len() == name.len(),
        forall|i: int|
            0 <= i < q.len() ==> {
                ||| q[i] == name[i]
                ||| ('A' <= name[i] && name[i] <= 'Z' && (q[i] as u32) == (name[i] as u32) + 32)
                ||| ('A' <= q[i] && q[i] <= 'Z' && (name[i] as u32) == (q[i] as u32) + 32)
            },
    ensures
        name_matches(name, q),
{
    assert forall|i: int| 0 <= i < q.len() implies ascii_lower(q)[i] == ascii_lower(name)[i] by {
        assert(ascii_lower(q)[i] == lower_char(q[i]));
        assert(ascii_lower(name)[i] == lower_char(name[i]));
    }
    assert(ascii_lower(q) =~= ascii_lower(name));
    lemma_subsequence_reflexive(ascii_lower(name));
}

/// Typing a query selects the first row again: right after the query is
/// set, the selection is the first result, so Enter starts the top match.
pub proof fn lemma_new_query_selects_top_match(s: SpotlightView, q: Seq<char>)
    ensures
        ({
            let t = filtered(SpotlightView { query: q, ..s });
            &&& t.selected == 0
            &&& matching(s.all, q).len() > 0 ==> selected_exec(t) == Some(
                matching(s.all, q)[0].command,
            )
            &&& matching(s.all, q).len() > 0 ==> launch_words(
                moved(t, KeyInput { escape: false, enter: true, down: false, up: false }),
            ) == (if command_words(matching(s.all, q)[0].command).len() > 0 {
                Some(command_words(matching(s.all, q)[0].command))
            } else {
                None
            })
        }),
{
}

/// Pressing the hotkey twice puts the window back as it was, shown or
/// hidden, and a press on a hidden window always shows the whole catalog.
pub proof fn lemma_hotkey_twice(s: SpotlightView)
    ensures
        hotkey_step(hotkey_step(s, s.hotkey_id, true), s.hotkey_id, true).visible == s.visible,
        !s.visible ==> hotkey_step(s, s.hotkey_id, true).results == s.all,
        s.visible ==> hotkey_step(hotkey_step(s, s.hotkey_id, true), s.hotkey_id, true).results
            == s.all,
{
    lemma_empty_query_lists_all(s.all);
}

/// Escape or Enter always hides the window and clears the query and the
/// results.
pub proof fn lemma_escape_or_enter_hides(s: SpotlightView, k: KeyInput)
    requires
        k.escape || k.enter,
    ensures
        !keys_step(s, k).visible,
        keys_step(s, k).query.len() == 0,
        keys_step(s, k).results.len() == 0,
{
}

/// Every step keeps the selection inside the results, with the window shown
/// or hidden: where there is a result, the selected row is one. Typing
/// (`set_query`), filtering, showing, hiding, the hotkey, the keys of a frame
/// and the pointer all keep it, and a new launcher has it.
pub proof fn lemma_selection_stays_in_results(
    s: SpotlightView,
    query: Seq<char>,
    id: u32,
    pressed: bool,
    k: KeyInput,
    row: nat,
)
    requires
        selection_ok(s),
    ensures
        selection_ok(filtered(s)),
        selection_ok(filtered(SpotlightView { query, ..s })),
        selection_ok(shown(s)),
        selection_ok(hidden(s)),
        selection_ok(hotkey_step(s, id, pressed)),
        selection_ok(moved(s, k)),
        selection_ok(keys_step(s, k)),
        selection_ok(hover_step(s, row)),
{
}

/// The arrow keys never select a row outside the results, and never move
/// the selection by more than one row.
pub proof fn lemma_arrows_stay_in_results(s: SpotlightView, k: KeyInput)
    requires
        s.selected == 0 || s.selected < s.results.len(),
    ensures
        moved(s, k).selected == 0 || moved(s, k).selected < s.results.len(),
        moved(s, k).selected <= s.selected + 1,
        moved(s, k).selected + 1 >= s.selected,
        moved(s, k).results == s.results,
{
}

} // verus!
