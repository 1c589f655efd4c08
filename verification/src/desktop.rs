//! Reading a FreeDesktop `.desktop` entry into an [`App`].
//!
//! The text is read line by line, each line trimmed. Only the lines of a
//! `[Desktop Entry]` section count; any other `[...]` header ends it. In
//! that section the first `Name=`, `Icon=` and `Comment=` win, the last
//! `Exec=` wins, `Type=Application` marks the entry as an application and
//! `NoDisplay=true` or `Hidden=true` hides it.
use vstd::prelude::*;
use crate::app::{App, AppView, opt_app_view, opt_view};
use crate::text::{
    Strip, find_char, lemma_lines_step, lines, range_equals, range_starts_with, slice_string,
    starts_with, strip_cr, to_chars, trim, trim_range,
};

verus! {

/// What the reader has gathered after some lines.
pub struct ScanState {
    pub in_entry: bool,
    pub is_app: bool,
    pub skip: bool,
    pub name: Option<Seq<char>>,
    pub command: Option<Seq<char>>,
    pub comment: Option<Seq<char>>,
    pub icon: Option<Seq<char>>,
}

pub open spec fn scan_start() -> ScanState {
    ScanState {
        in_entry: false,
        is_app: false,
        skip: false,
        name: None,
        command: None,
        comment: None,
        icon: None,
    }
}

/// The part of `line` after the prefix `p`.
pub open spec fn after(line: Seq<char>, p: Seq<char>) -> Seq<char> {
    line.subrange(p.len() as int, line.len() as int)
}

/// What one trimmed line does to the gathered state.
pub open spec fn desktop_line(st: ScanState, line: Seq<char>) -> ScanState {
    if line == "[Desktop Entry]"@ {
        ScanState { in_entry: true, ..st }
    } else if line.len() > 0 && line[0] == '[' {
        ScanState { in_entry: false, ..st }
    } else if !st.in_entry {
        st
    } else if starts_with(line, "Type="@) {
        if after(line, "Type="@) == "Application"@ {
            ScanState { is_app: true, ..st }
        } else {
            st
        }
    } else if starts_with(line, "Name="@) {
        if st.name is None {
            ScanState { name: Some(after(line, "Name="@)), ..st }
        } else {
            st
        }
    } else if starts_with(line, "Exec="@) {
        ScanState { command: Some(after(line, "Exec="@)), ..st }
    } else if starts_with(line, "Icon="@) {
        if st.icon is None {
            ScanState { icon: Some(after(line, "Icon="@)), ..st }
        } else {
            st
        }
    } else if starts_with(line, "Comment="@) {
        if st.comment is None {
            ScanState { comment: Some(after(line, "Comment="@)), ..st }
        } else {
            st
        }
    } else if line == "NoDisplay=true"@ || line == "Hidden=true"@ {
        ScanState { skip: true, ..st }
    } else {
        st
    }
}

/// The state after reading the lines `ls`, each trimmed, starting from `st`.
pub open spec fn scan_lines(st: ScanState, ls: Seq<Seq<char>>) -> ScanState
    decreases ls.len(),
{
    if ls.len() == 0 {
        st
    } else {
        scan_lines(desktop_line(st, trim(ls[0])), ls.drop_first())
    }
}

/// The app that a finished scan describes, if any.
pub open spec fn scan_result(st: ScanState) -> Option<AppView> {
    if !st.is_app || st.skip {
        None
    } else {
        match (st.name, st.command) {
            (Some(name), Some(cmd)) => Some(
                AppView { name, command: cmd, comment: st.comment, icon: st.icon },
            ),
            _ => None,
        }
    }
}

/// The app that the `.desktop` text `text` describes, if any.
pub open spec fn desktop_entry(text: Seq<char>) -> Option<AppView> {
    scan_result(scan_lines(scan_start(), lines(text)))
}

/// Reading `a` and then `b` is reading `a + b`.
pub proof fn lemma_scan_lines_append(st: ScanState, a: Seq<Seq<char>>, b: Seq<Seq<char>>)
    ensures
        scan_lines(st, a + b) == scan_lines(scan_lines(st, a), b),
    decreases a.len(),
{
    if a.len() == 0 {
        assert(a + b =~= b);
    } else {
        assert((a + b)[0] == a[0]);
        assert((a + b).drop_first() =~= a.drop_first() + b);
        lemma_scan_lines_append(desktop_line(st, trim(a[0])), a.drop_first(), b);
    }
}

/// Once hidden, an entry stays hidden whatever lines follow.
proof fn lemma_skip_sticky(st: ScanState, ls: Seq<Seq<char>>)
    requires
        st.skip,
    ensures
        scan_lines(st, ls).skip,
    decreases ls.len(),
{
    if ls.len() > 0 {
        lemma_skip_sticky(desktop_line(st, trim(ls[0])), ls.drop_first());
    }
}

/// An entry whose `[Desktop Entry]` section holds a `NoDisplay=true` or
/// `Hidden=true` line is never listed, whatever the other lines say: where
/// line `k` is such a line and the lines before it leave the reader in that
/// section, the text describes no app.
pub proof fn lemma_hidden_entry_not_listed(text: Seq<char>, k: int)
    requires
        0 <= k < lines(text).len(),
        scan_lines(scan_start(), lines(text).take(k)).in_entry,
        trim(lines(text)[k]) == "NoDisplay=true"@ || trim(lines(text)[k]) == "Hidden=true"@,
    ensures
        desktop_entry(text) is None,
{
    reveal_strlit("NoDisplay=true");
    reveal_strlit("Hidden=true");
    reveal_strlit("[Desktop Entry]");
    reveal_strlit("Type=");
    reveal_strlit("Name=");
    reveal_strlit("Exec=");
    reveal_strlit("Icon=");
    reveal_strlit("Comment=");
    let ls = lines(text);
    let before = ls.take(k);
    let rest = ls.skip(k);
    assert(before + rest =~= ls);
    lemma_scan_lines_append(scan_start(), before, rest);
    let st = scan_lines(scan_start(), before);
    let line = trim(ls[k]);
    assert(rest[0] == ls[k]);
    let next = desktop_line(st, line);
    assert(line != "[Desktop Entry]"@) by {
        assert(line.len() != "[Desktop Entry]"@.len() || line[0] != "[Desktop Entry]"@[0]);
    }
    assert(line[0] != '[');
    assert(!starts_with(line, "Type="@)) by {
        assert(line.subrange(0, 5)[0] != "Type="@[0]);
    }
    assert(!starts_with(line, "Name="@)) by {
        assert(line.subrange(0, 5)[0] != "Name="@[0] || line.subrange(0, 5)[1] != "Name="@[1]);
    }
    assert(!starts_with(line, "Exec="@)) by {
        assert(line.subrange(0, 5)[0] != "Exec="@[0]);
    }
    assert(!starts_with(line, "Icon="@)) by {
        assert(line.subrange(0, 5)[0] != "Icon="@[0]);
    }
    assert(!starts_with(line, "Comment="@)) by {
        assert(line.subrange(0, 8)[0] != "Comment="@[0]);
    }
    assert(next.skip);
    lemma_skip_sticky(next, rest.drop_first());
}

/// Only a `NoDisplay=true` or `Hidden=true` line hides an entry: no other
/// line sets the hidden mark.
pub proof fn lemma_only_hiding_lines_hide(st: ScanState, line: Seq<char>)
    ensures
        desktop_line(st, line).skip ==> st.skip || line == "NoDisplay=true"@ || line
            == "Hidden=true"@,
        st.skip ==> desktop_line(st, line).skip,
{
}

/// A line that is no section header and starts with none of the known keys
/// (and is no hiding line) changes nothing: unknown keys such as
/// `Terminal=true` are ignored.
pub proof fn lemma_unknown_line_ignored(st: ScanState, line: Seq<char>)
    requires
        !(line.len() > 0 && line[0] == '['),
        !starts_with(line, "Type="@),
        !starts_with(line, "Name="@),
        !starts_with(line, "Exec="@),
        !starts_with(line, "Icon="@),
        !starts_with(line, "Comment="@),
        line != "NoDisplay=true"@,
        line != "Hidden=true"@,
    ensures
        desktop_line(st, line) == st,
{
    reveal_strlit("[Desktop Entry]");
}

proof fn lemma_no_hiding_line_keeps_shown(st: ScanState, ls: Seq<Seq<char>>)
    requires
        !st.skip,
        forall|i: int|
            0 <= i < ls.len() ==> trim(#[trigger] ls[i]) != "NoDisplay=true"@ && trim(ls[i])
                != "Hidden=true"@,
    ensures
        !scan_lines(st, ls).skip,
    decreases ls.len(),
{
    if ls.len() > 0 {
        lemma_only_hiding_lines_hide(st, trim(ls[0]));
        assert forall|i: int| 0 <= i < ls.drop_first().len() implies trim(
            #[trigger] ls.drop_first()[i],
        ) != "NoDisplay=true"@ && trim(ls.drop_first()[i]) != "Hidden=true"@ by {
            assert(ls.drop_first()[i] == ls[i + 1]);
        }
        lemma_no_hiding_line_keeps_shown(desktop_line(st, trim(ls[0])), ls.drop_first());
    }
}

/// A text with no `NoDisplay=true` or `Hidden=true` line describes an app
/// exactly where its `[Desktop Entry]` section says `Type=Application` and
/// has a `Name=` and an `Exec=` line.
pub proof fn lemma_entry_without_hiding_lines_listed(text: Seq<char>)
    requires
        forall|i: int|
            0 <= i < lines(text).len() ==> trim(#[trigger] lines(text)[i]) != "NoDisplay=true"@
                && trim(lines(text)[i]) != "Hidden=true"@,
    ensures
        ({
            let st = scan_lines(scan_start(), lines(text));
            (desktop_entry(text) is Some) <==> (st.is_app && st.name is Some && st.command is Some)
        }),
{
    lemma_no_hiding_line_keeps_shown(scan_start(), lines(text));
}

/// The literal keys and values that a `.desktop` line is matched against.
struct Keys {
    header: Vec<char>,
    type_key: Vec<char>,
    application: Vec<char>,
    name_key: Vec<char>,
    exec_key: Vec<char>,
    icon_key: Vec<char>,
    comment_key: Vec<char>,
    no_display: Vec<char>,
    hidden: Vec<char>,
}

impl Keys {
    spec fn wf(&self) -> bool {
        &&& self.header@ == "[Desktop Entry]"@
        &&& self.type_key@ == "Type="@
        &&& self.application@ == "Application"@
        &&& self.name_key@ == "Name="@
        &&& self.exec_key@ == "Exec="@
        &&& self.icon_key@ == "Icon="@
        &&& self.comment_key@ == "Comment="@
        &&& self.no_display@ == "NoDisplay=true"@
        &&& self.hidden@ == "Hidden=true"@
    }

    fn new() -> (k: Keys)
        ensures
            k.wf(),
    {
        Keys {
            header: to_chars("[Desktop Entry]"),
            type_key: to_chars("Type="),
            application: to_chars("Application"),
            name_key: to_chars("Name="),
            exec_key: to_chars("Exec="),
            icon_key: to_chars("Icon="),
            comment_key: to_chars("Comment="),
            no_display: to_chars("NoDisplay=true"),
            hidden: to_chars("Hidden=true"),
        }
    }
}

/// The gathered state, held in executable values.
struct Fields {
    in_entry: bool,
    is_app: bool,
    skip: bool,
    name: Option<String>,
    command: Option<String>,
    comment: Option<String>,
    icon: Option<String>,
}

impl View for Fields {
    type V = ScanState;

    closed spec fn view(&self) -> ScanState {
        ScanState {
            in_entry: self.in_entry,
            is_app: self.is_app,
            skip: self.skip,
            name: opt_view(self.name),
            command: opt_view(self.command),
            comment: opt_view(self.comment),
            icon: opt_view(self.icon),
        }
    }
}

impl Fields {
    /// Applies the trimmed line `v[a..b]` of `text`.
    fn apply_line(&mut self, keys: &Keys, text: &str, v: &Vec<char>, a: usize, b: usize)
        requires
            keys.wf(),
            v@ == text@,
            a <= b <= v.len(),
        ensures
            final(self)@ == desktop_line(old(self)@, v@.subrange(a as int, b as int)),
    {
        let ghost line = v@.subrange(a as int, b as int);
        if range_equals(v, a, b, &keys.header) {
            self.in_entry = true;
        } else if a < b && v[a] == '[' {
            self.in_entry = false;
        } else if !self.in_entry {
        } else if range_starts_with(v, a, b, &keys.type_key) {
            let s = a + keys.type_key.len();
            proof {
                assert(after(line, "Type="@) =~= v@.subrange(s as int, b as int));
            }
            if range_equals(v, s, b, &keys.application) {
                self.is_app = true;
            }
        } else if range_starts_with(v, a, b, &keys.name_key) {
            let s = a + keys.name_key.len();
            proof {
                assert(after(line, "Name="@) =~= v@.subrange(s as int, b as int));
            }
            if self.name.is_none() {
                self.name = Some(slice_string(text, s, b));
            }
        } else if range_starts_with(v, a, b, &keys.exec_key) {
            let s = a + keys.exec_key.len();
            proof {
                assert(after(line, "Exec="@) =~= v@.subrange(s as int, b as int));
            }
            self.command = Some(slice_string(text, s, b));
        } else if range_starts_with(v, a, b, &keys.icon_key) {
            let s = a + keys.icon_key.len();
            proof {
                assert(after(line, "Icon="@) =~= v@.subrange(s as int, b as int));
            }
            if self.icon.is_none() {
                self.icon = Some(slice_string(text, s, b));
            }
        } else if range_starts_with(v, a, b, &keys.comment_key) {
            let s = a + keys.comment_key.len();
            proof {
                assert(after(line, "Comment="@) =~= v@.subrange(s as int, b as int));
            }
            if self.comment.is_none() {
                self.comment = Some(slice_string(text, s, b));
            }
        } else if range_equals(v, a, b, &keys.no_display) || range_equals(v, a, b, &keys.hidden) {
            self.skip = true;
        }
    }
}

/// The app that the `.desktop` text `text` describes: `None` unless the
/// `[Desktop Entry]` section has `Type=Application`, a `Name=` and an
/// `Exec=` line and neither `NoDisplay=true` nor `Hidden=true`.
pub fn parse_desktop(text: &str) -> (res: Option<App>)
    ensures
        opt_app_view(res) == desktop_entry(text@),
{
    let keys = Keys::new();
    let v = to_chars(text);
    let n = v.len();
    let mut f = Fields {
        in_entry: false,
        is_app: false,
        skip: false,
        name: None,
        command: None,
        comment: None,
        icon: None,
    };
    let mut p: usize = 0;
    proof {
        assert(v@.subrange(0, n as int) =~= v@);
    }
    while p < n
        invariant
            keys.wf(),
            v@ == text@,
            n == v.len(),
            p <= n,
            scan_lines(scan_start(), lines(v@)) == scan_lines(f@, lines(v@.subrange(p as int, n as int))),
        decreases n - p,
    {
        let k = find_char(&v, p, '\n');
        let end = if k < n && k > p && v[k - 1] == '\r' {
            k - 1
        } else {
            k
        };
        let (a, b) = trim_range(&v, p, end, Strip::Whitespace);
        let ghost before = f@;
        f.apply_line(&keys, text, &v, a, b);
        proof {
            lemma_lines_step(v@, p as int, k as int);
            let raw = if k < n {
                strip_cr(v@.subrange(p as int, k as int))
            } else {
                v@.subrange(p as int, k as int)
            };
            if k < n && k > p && v@[k - 1] == '\r' {
                assert(strip_cr(v@.subrange(p as int, k as int)) =~= v@.subrange(p as int, end as int));
            }
            assert(raw == v@.subrange(p as int, end as int));
            let rest = if k < n {
                lines(v@.subrange(k + 1, n as int))
            } else {
                seq![]
            };
            if k == n {
                assert(v@.subrange(n as int, n as int) =~= Seq::<char>::empty());
            }
            let all = seq![raw] + rest;
            assert(all[0] == raw);
            assert(all.drop_first() =~= rest);
            assert(lines(v@.subrange(p as int, n as int)) == all);
            assert(scan_lines(before, all) == scan_lines(f@, rest));
        }
        p = if k < n {
            k + 1
        } else {
            n
        };
    }
    proof {
        assert(v@.subrange(n as int, n as int) =~= Seq::<char>::empty());
    }
    if !f.is_app || f.skip {
        return None;
    }
    match (f.name, f.command) {
        (Some(name), Some(cmd)) => Some(App { name, command: cmd, comment: f.comment, icon: f.icon }),
        _ => None,
    }
}

} // verus!
