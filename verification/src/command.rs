//! The command line that an entry's `Exec` value starts: the value split at
//! whitespace, with the desktop field codes (`%f`, `%U`, ...) left out.
use vstd::prelude::*;
use crate::text::{is_whitespace, is_whitespace_char, slice_string, strings_view, to_chars};

verus! {

/// The words that a finished word `w` contributes: none when it is empty or
/// a field code (a word that starts with `%`), else `w` itself.
pub open spec fn emit(w: Seq<char>) -> Seq<Seq<char>> {
    if w.len() > 0 && w[0] != '%' {
        seq![w]
    } else {
        seq![]
    }
}

/// The command words of `cur + s`, where `cur` is a word being read.
pub open spec fn command_words_from(s: Seq<char>, cur: Seq<char>) -> Seq<Seq<char>>
    decreases s.len(),
{
    if s.len() == 0 {
        emit(cur)
    } else if is_whitespace(s[0]) {
        emit(cur) + command_words_from(s.drop_first(), seq![])
    } else {
        command_words_from(s.drop_first(), cur.push(s[0]))
    }
}

/// The whitespace-separated words of `s` (as `str::split_whitespace` yields
/// them) that do not start with `%`, in order.
pub open spec fn command_words(s: Seq<char>) -> Seq<Seq<char>> {
    command_words_from(s, seq![])
}

/// A program to start and the arguments to hand it.
pub struct LaunchCommand {
    pub program: String,
    pub args: Vec<String>,
}

/// The command words of `exec`, in order.
pub fn exec_words(exec: &str) -> (words: Vec<String>)
    ensures
        strings_view(words@) == command_words(exec@),
{
    let v = to_chars(exec);
    let n = v.len();
    let mut words: Vec<String> = Vec::new();
    let mut start: usize = 0;
    let mut i: usize = 0;
    proof {
        assert(v@.subrange(0, n as int) =~= v@);
        assert(v@.subrange(0, 0) =~= Seq::<char>::empty());
        assert(strings_view(words@) =~= Seq::<Seq<char>>::empty());
    }
    while i < n
        invariant
            v@ == exec@,
            n == v.len(),
            start <= i <= n,
            strings_view(words@) + command_words_from(
                v@.subrange(i as int, n as int),
                v@.subrange(start as int, i as int),
            ) == command_words(v@),
        decreases n - i,
    {
        let ghost s = v@.subrange(i as int, n as int);
        let ghost cur = v@.subrange(start as int, i as int);
        let ghost before = strings_view(words@);
        proof {
            assert(s[0] == v@[i as int]);
            assert(s.drop_first() =~= v@.subrange(i + 1, n as int));
        }
        if is_whitespace_char(v[i]) {
            if i > start && v[start] != '%' {
                let w = slice_string(exec, start, i);
                words.push(w);
                proof {
                    assert(strings_view(words@) =~= before + seq![cur]);
                }
            }
            proof {
                assert(strings_view(words@) == before + emit(cur));
                assert(v@.subrange(i + 1, i + 1) =~= Seq::<char>::empty());
                assert((before + emit(cur)) + command_words_from(s.drop_first(), seq![]) =~= before
                    + (emit(cur) + command_words_from(s.drop_first(), seq![])));
            }
            start = i + 1;
        } else {
            proof {
                assert(cur.push(v@[i as int]) =~= v@.subrange(start as int, i + 1));
            }
        }
        i = i + 1;
    }
    let ghost before = strings_view(words@);
    let ghost cur = v@.subrange(start as int, n as int);
    proof {
        assert(v@.subrange(n as int, n as int) =~= Seq::<char>::empty());
    }
    if n > start && v[start] != '%' {
        let w = slice_string(exec, start, n);
        words.push(w);
        proof {
            assert(strings_view(words@) =~= before + seq![cur]);
        }
    }
    proof {
        assert(strings_view(words@) =~= before + emit(cur));
    }
    words
}

/// The program and arguments that starting an entry with the `Exec` value
/// `exec` runs: the first command word and the rest, or `None` where the
/// value has no command word.
pub fn launch_exec(exec: &str) -> (r: Option<LaunchCommand>)
    ensures
        match r {
            None => command_words(exec@).len() == 0,
            Some(c) => command_words(exec@) == seq![c.program@] + strings_view(c.args@),
        },
{
    let mut words = exec_words(exec);
    if words.len() == 0 {
        return None;
    }
    let ghost all = words@;
    let program = words.remove(0);
    proof {
        assert(strings_view(all) =~= seq![program@] + strings_view(words@));
    }
    Some(LaunchCommand { program, args: words })
}

/// `w` is non-empty, holds no whitespace and does not start with `%`.
pub open spec fn clean_word(w: Seq<char>) -> bool {
    &&& w.len() > 0
    &&& w[0] != '%'
    &&& forall|j: int| 0 <= j < w.len() ==> !is_whitespace(#[trigger] w[j])
}

pub open spec fn all_clean(ws: Seq<Seq<char>>) -> bool {
    forall|k: int| 0 <= k < ws.len() ==> clean_word(#[trigger] ws[k])
}

proof fn lemma_words_from_clean(s: Seq<char>, cur: Seq<char>)
    requires
        forall|j: int| 0 <= j < cur.len() ==> !is_whitespace(#[trigger] cur[j]),
    ensures
        all_clean(command_words_from(s, cur)),
    decreases s.len(),
{
    let a = emit(cur);
    assert(all_clean(a)) by {
        if cur.len() > 0 && cur[0] != '%' {
            assert(a[0] == cur);
            assert(clean_word(cur));
        }
    }
    if s.len() == 0 {
    } else if is_whitespace(s[0]) {
        lemma_words_from_clean(s.drop_first(), seq![]);
        let b = command_words_from(s.drop_first(), seq![]);
        assert forall|k: int| 0 <= k < (a + b).len() implies clean_word(#[trigger] (a + b)[k]) by {
            if k >= a.len() {
                assert((a + b)[k] == b[k - a.len()]);
            } else {
                assert((a + b)[k] == a[k]);
            }
        }
    } else {
        let next = cur.push(s[0]);
        assert forall|j: int| 0 <= j < next.len() implies !is_whitespace(#[trigger] next[j]) by {
            if j < cur.len() {
                assert(next[j] == cur[j]);
            }
        }
        lemma_words_from_clean(s.drop_first(), next);
    }
}

/// Every word of a launch command is non-empty, holds no whitespace and is
/// no field code: no `%f`, `%U` or other word starting with `%` reaches the
/// program that is started.
pub proof fn lemma_command_words_clean(s: Seq<char>)
    ensures
        all_clean(command_words(s)),
{
    lemma_words_from_clean(s, seq![]);
}

} // verus!
