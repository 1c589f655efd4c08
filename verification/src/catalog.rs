//! The application catalog: apps ordered by name, one app per name.
use vstd::prelude::*;
use crate::app::{App, AppView, apps_view};
use crate::text::to_chars;

verus! {

/// `a` orders before `b` as `String`'s `Ord` orders them: lexicographically
/// by code point (UTF-8 byte order is code point order, and `char`'s `<`
/// is code point order), a proper prefix first.
pub open spec fn name_lt(a: Seq<char>, b: Seq<char>) -> bool
    decreases a.len(),
{
    if a.len() == 0 {
        b.len() > 0
    } else if b.len() == 0 {
        false
    } else if a[0] != b[0] {
        a[0] < b[0]
    } else {
        name_lt(a.drop_first(), b.drop_first())
    }
}

/// No name orders before itself.
pub proof fn lemma_name_lt_irreflexive(a: Seq<char>)
    ensures
        !name_lt(a, a),
    decreases a.len(),
{
    if a.len() > 0 {
        lemma_name_lt_irreflexive(a.drop_first());
    }
}

/// The name order is transitive.
pub proof fn lemma_name_lt_transitive(a: Seq<char>, b: Seq<char>, c: Seq<char>)
    requires
        name_lt(a, b),
        name_lt(b, c),
    ensures
        name_lt(a, c),
    decreases a.len(),
{
    if a.len() > 0 && b.len() > 0 && c.len() > 0 {
        if a[0] == b[0] && b[0] == c[0] {
            lemma_name_lt_transitive(a.drop_first(), b.drop_first(), c.drop_first());
        }
    }
}

/// Of two different names, one orders before the other.
pub proof fn lemma_name_lt_total(a: Seq<char>, b: Seq<char>)
    requires
        a != b,
    ensures
        name_lt(a, b) || name_lt(b, a),
    decreases a.len(),
{
    if a.len() == 0 {
        assert(b.len() > 0) by {
            if b.len() == 0 {
                assert(a =~= b);
            }
        }
    } else if b.len() == 0 {
    } else if a[0] == b[0] {
        if a.drop_first() == b.drop_first() {
            assert(a.drop_first().len() == a.len() - 1);
            assert(b.drop_first().len() == b.len() - 1);
            assert(a.len() == b.len());
            assert(a =~= b) by {
                assert forall|i: int| 0 <= i < a.len() implies a[i] == b[i] by {
                    if i > 0 {
                        assert(a[i] == a.drop_first()[i - 1]);
                        assert(b[i] == b.drop_first()[i - 1]);
                    }
                }
            }
        }
        lemma_name_lt_total(a.drop_first(), b.drop_first());
    }
}

proof fn lemma_name_lt_skip(a: Seq<char>, b: Seq<char>, i: int)
    requires
        0 <= i <= a.len(),
        i <= b.len(),
        forall|j: int| 0 <= j < i ==> a[j] == b[j],
    ensures
        name_lt(a, b) == name_lt(a.skip(i), b.skip(i)),
        name_lt(b, a) == name_lt(b.skip(i), a.skip(i)),
        (a == b) == (a.skip(i) == b.skip(i)),
    decreases i,
{
    if i == 0 {
        assert(a.skip(0) =~= a);
        assert(b.skip(0) =~= b);
    } else {
        let a1 = a.drop_first();
        let b1 = b.drop_first();
        assert forall|j: int| 0 <= j < i - 1 implies a1[j] == b1[j] by {
            assert(a1[j] == a[j + 1]);
            assert(b1[j] == b[j + 1]);
        }
        lemma_name_lt_skip(a1, b1, i - 1);
        assert(a1.skip(i - 1) =~= a.skip(i));
        assert(b1.skip(i - 1) =~= b.skip(i));
        assert(a[0] == b[0]);
        if a1 == b1 {
            assert(a =~= b) by {
                assert forall|k: int| 0 <= k < a.len() implies a[k] == b[k] by {
                    if k > 0 {
                        assert(a[k] == a1[k - 1]);
                        assert(b[k] == b1[k - 1]);
                    }
                }
            }
        }
    }
}

/// How two names compare.
pub enum NameOrder {
    Less,
    Equal,
    Greater,
}

/// Compares the names `a` and `b` in [`name_lt`] order.
pub fn compare_names(a: &Vec<char>, b: &Vec<char>) -> (r: NameOrder)
    ensures
        (r is Less) == name_lt(a@, b@),
        (r is Equal) == (a@ == b@),
        (r is Greater) == name_lt(b@, a@),
{
    let mut i: usize = 0;
    while i < a.len() && i < b.len()
        invariant
            i <= a.len(),
            i <= b.len(),
            forall|j: int| 0 <= j < i ==> a@[j] == b@[j],
        decreases a.len() - i,
    {
        if a[i] != b[i] {
            proof {
                lemma_name_lt_skip(a@, b@, i as int);
                let x = a@.skip(i as int);
                let y = b@.skip(i as int);
                assert(x[0] == a@[i as int]);
                assert(y[0] == b@[i as int]);
                assert(x != y);
            }
            if a[i] < b[i] {
                return NameOrder::Less;
            } else {
                return NameOrder::Greater;
            }
        }
        i = i + 1;
    }
    proof {
        lemma_name_lt_skip(a@, b@, i as int);
        lemma_name_lt_irreflexive(a@);
    }
    if a.len() == b.len() {
        proof {
            assert(a@ =~= b@);
        }
        NameOrder::Equal
    } else if a.len() == i {
        proof {
            assert(a@.skip(i as int).len() == 0);
        }
        NameOrder::Less
    } else {
        proof {
            assert(b@.skip(i as int).len() == 0);
        }
        NameOrder::Greater
    }
}

/// The apps of `s` are in strictly increasing name order, so no two share a name.
pub open spec fn sorted_by_name(s: Seq<AppView>) -> bool {
    forall|i: int, j: int| 0 <= i < j < s.len() ==> name_lt(#[trigger] s[i].name, #[trigger] s[j].name)
}

/// Some app of `s` has the name `n`.
pub open spec fn has_name(s: Seq<AppView>, n: Seq<char>) -> bool {
    exists|k: int| 0 <= k < s.len() && (#[trigger] s[k]).name == n
}

/// `x` is the first app of `input` that has its name.
pub open spec fn first_of_name(input: Seq<AppView>, x: AppView) -> bool {
    exists|i: int|
        0 <= i < input.len() && input[i] == x && forall|j: int|
            0 <= j < i ==> (#[trigger] input[j]).name != x.name
}

/// `out` is the catalog of `input`: sorted by name with no name twice, every
/// app of it the first app of `input` with its name, and every name of
/// `input` in it. At most one sequence is the catalog of an input
/// ([`lemma_catalog_determined`]).
pub open spec fn is_catalog_of(out: Seq<AppView>, input: Seq<AppView>) -> bool {
    &&& sorted_by_name(out)
    &&& forall|k: int| 0 <= k < out.len() ==> first_of_name(input, #[trigger] out[k])
    &&& forall|i: int| 0 <= i < input.len() ==> has_name(out, #[trigger] input[i].name)
}

/// The catalog of `input`.
pub open spec fn catalog_of(input: Seq<AppView>) -> Seq<AppView> {
    choose|out: Seq<AppView>| is_catalog_of(out, input)
}

proof fn lemma_insert_sorted(s: Seq<AppView>, j: int, x: AppView)
    requires
        sorted_by_name(s),
        0 <= j <= s.len(),
        forall|m: int| 0 <= m < j ==> name_lt(#[trigger] s[m].name, x.name),
        j < s.len() ==> name_lt(x.name, s[j].name),
    ensures
        sorted_by_name(s.insert(j, x)),
{
    let t = s.insert(j, x);
    assert forall|p: int, q: int| 0 <= p < q < t.len() implies name_lt(
        #[trigger] t[p].name,
        #[trigger] t[q].name,
    ) by {
        if q < j {
            assert(t[p] == s[p] && t[q] == s[q]);
        } else if q == j {
            assert(t[p] == s[p] && t[q] == x);
        } else {
            assert(t[q] == s[q - 1]);
            if p < j {
                assert(t[p] == s[p]);
            } else if p == j {
                assert(t[p] == x);
                if q - 1 > j {
                    lemma_name_lt_transitive(x.name, s[j].name, s[q - 1].name);
                }
            } else {
                assert(t[p] == s[p - 1]);
            }
        }
    }
}

/// The catalog of `apps`: sorted by name and, of apps that share a name, the
/// first kept.
pub fn catalog(apps: Vec<App>) -> (res: Vec<App>)
    ensures
        is_catalog_of(apps_view(res@), apps_view(apps@)),
        apps_view(res@) == catalog_of(apps_view(apps@)),
{
    let ghost input = apps_view(apps@);
    let mut out: Vec<App> = Vec::new();
    let mut keys: Vec<Vec<char>> = Vec::new();
    for i in 0..apps.len()
        invariant
            input == apps_view(apps@),
            keys.len() == out.len(),
            forall|k: int| 0 <= k < keys.len() ==> (#[trigger] keys@[k])@ == out@[k].name@,
            sorted_by_name(apps_view(out@)),
            forall|k: int| 0 <= k < out.len() ==> first_of_name(input, #[trigger] apps_view(out@)[k]),
            forall|m: int| 0 <= m < i ==> has_name(apps_view(out@), #[trigger] input[m].name),
    {
        let ghost ov = apps_view(out@);
        let key = to_chars(apps[i].name.as_str());
        assert(input[i as int] == apps@[i as int]@);
        let mut j: usize = 0;
        let mut found = false;
        while j < keys.len()
            invariant
                keys.len() == out.len(),
                ov == apps_view(out@),
                forall|k: int| 0 <= k < keys.len() ==> (#[trigger] keys@[k])@ == out@[k].name@,
                j <= keys.len(),
                forall|m: int| 0 <= m < j ==> name_lt(#[trigger] ov[m].name, key@),
                found ==> j < keys.len() && keys@[j as int]@ == key@,
            ensures
                j <= keys.len(),
                forall|m: int| 0 <= m < j ==> name_lt(#[trigger] ov[m].name, key@),
                found ==> j < keys.len() && keys@[j as int]@ == key@,
                !found && j < keys.len() ==> name_lt(key@, keys@[j as int]@),
            decreases keys.len() - j,
        {
            match compare_names(&keys[j], &key) {
                NameOrder::Less => {
                    assert(ov[j as int].name == keys@[j as int]@);
                    j = j + 1;
                },
                NameOrder::Equal => {
                    found = true;
                    break;
                },
                NameOrder::Greater => {
                    break;
                },
            }
        }
        if found {
            proof {
                assert(ov[j as int].name == input[i as int].name);
                assert forall|m: int| 0 <= m < i + 1 implies has_name(ov, #[trigger] input[m].name) by {
                    if m == i {
                        assert(ov[j as int].name == input[m].name);
                    }
                }
            }
        } else {
            let app = apps[i].duplicate();
            proof {
                if j < keys.len() {
                    assert(ov[j as int].name == keys@[j as int]@);
                }
                lemma_insert_sorted(ov, j as int, app@);
                assert forall|m: int| 0 <= m < ov.len() implies (#[trigger] ov[m]).name != key@ by {
                    lemma_name_lt_irreflexive(key@);
                    if m < j {
                        assert(name_lt(ov[m].name, key@));
                    } else {
                        assert(name_lt(key@, ov[j as int].name));
                        if m > j {
                            assert(name_lt(ov[j as int].name, ov[m].name));
                            lemma_name_lt_transitive(key@, ov[j as int].name, ov[m].name);
                        }
                    }
                }
                assert forall|m: int| 0 <= m < i implies (#[trigger] input[m]).name != key@ by {
                    assert(has_name(ov, input[m].name));
                }
                assert(first_of_name(input, app@)) by {
                    assert(input[i as int] == app@);
                }
            }
            keys.insert(j, key);
            out.insert(j, app);
            proof {
                let nv = apps_view(out@);
                assert(nv =~= ov.insert(j as int, app@));
                assert forall|k: int| 0 <= k < keys.len() implies (#[trigger] keys@[k])@
                    == out@[k].name@ by {
                    if k < j {
                    } else if k > j {
                    }
                }
                assert forall|k: int| 0 <= k < out.len() implies first_of_name(
                    input,
                    #[trigger] nv[k],
                ) by {
                    if k < j {
                        assert(nv[k] == ov[k]);
                    } else if k == j {
                        assert(nv[k] == input[i as int]);
                    } else {
                        assert(nv[k] == ov[k - 1]);
                    }
                }
                assert forall|m: int| 0 <= m < i + 1 implies has_name(nv, #[trigger] input[m].name) by {
                    if m == i {
                        assert(nv[j as int].name == input[m].name);
                    } else {
                        let k = choose|k: int| 0 <= k < ov.len() && (#[trigger] ov[k]).name == input[m].name;
                        if k < j {
                            assert(nv[k] == ov[k]);
                        } else {
                            assert(nv[k + 1] == ov[k]);
                        }
                    }
                }
            }
        }
    }
    proof {
        lemma_catalog_of(apps_view(out@), input);
    }
    out
}

/// The names of `s`, in order.
pub open spec fn names(s: Seq<AppView>) -> Seq<Seq<char>> {
    s.map_values(|a: AppView| a.name)
}

pub open spec fn strictly_sorted(x: Seq<Seq<char>>) -> bool {
    forall|i: int, j: int| 0 <= i < j < x.len() ==> name_lt(#[trigger] x[i], #[trigger] x[j])
}

proof fn lemma_name_lt_asymmetric(a: Seq<char>, b: Seq<char>)
    requires
        name_lt(a, b),
    ensures
        !name_lt(b, a),
{
    if name_lt(b, a) {
        lemma_name_lt_transitive(a, b, a);
        lemma_name_lt_irreflexive(a);
    }
}

/// Two strictly sorted name lists with the same members are equal.
proof fn lemma_sorted_same_members(x: Seq<Seq<char>>, y: Seq<Seq<char>>)
    requires
        strictly_sorted(x),
        strictly_sorted(y),
        forall|i: int| 0 <= i < x.len() ==> y.contains(#[trigger] x[i]),
        forall|j: int| 0 <= j < y.len() ==> x.contains(#[trigger] y[j]),
    ensures
        x == y,
    decreases x.len(),
{
    if x.len() == 0 {
        if y.len() > 0 {
            assert(x.contains(y[0]));
        }
        assert(x =~= y);
    } else if y.len() == 0 {
        assert(y.contains(x[0]));
    } else {
        let p = choose|p: int| 0 <= p < y.len() && y[p] == x[0];
        let q = choose|q: int| 0 <= q < x.len() && x[q] == y[0];
        if p > 0 {
            assert(name_lt(y[0], y[p]));
            if q > 0 {
                assert(name_lt(x[0], x[q]));
                lemma_name_lt_asymmetric(x[0], y[0]);
            } else {
                lemma_name_lt_irreflexive(y[0]);
            }
        }
        assert(x[0] == y[0]);
        let x1 = x.drop_first();
        let y1 = y.drop_first();
        assert forall|i: int| 0 <= i < x1.len() implies y1.contains(#[trigger] x1[i]) by {
            assert(x1[i] == x[i + 1]);
            assert(y.contains(x[i + 1]));
            let k = choose|k: int| 0 <= k < y.len() && y[k] == x[i + 1];
            if k == 0 {
                assert(name_lt(x[0], x[i + 1]));
                lemma_name_lt_irreflexive(x[0]);
            }
            assert(y1[k - 1] == y[k]);
        }
        assert forall|j: int| 0 <= j < y1.len() implies x1.contains(#[trigger] y1[j]) by {
            assert(y1[j] == y[j + 1]);
            assert(x.contains(y[j + 1]));
            let k = choose|k: int| 0 <= k < x.len() && x[k] == y[j + 1];
            if k == 0 {
                assert(name_lt(y[0], y[j + 1]));
                lemma_name_lt_irreflexive(y[0]);
            }
            assert(x1[k - 1] == x[k]);
        }
        lemma_sorted_same_members(x1, y1);
        assert forall|i: int| 0 <= i < x.len() implies x[i] == y[i] by {
            if i > 0 {
                assert(x[i] == x1[i - 1]);
                assert(y[i] == y1[i - 1]);
            }
        }
        assert(x =~= y);
    }
}

/// No two apps of a catalog share a name.
pub proof fn lemma_catalog_names_unique(out: Seq<AppView>, input: Seq<AppView>)
    requires
        is_catalog_of(out, input),
    ensures
        forall|i: int, j: int|
            0 <= i < out.len() && 0 <= j < out.len() && i != j ==> #[trigger] out[i].name
                != #[trigger] out[j].name,
{
    assert forall|i: int, j: int|
        0 <= i < out.len() && 0 <= j < out.len() && i != j implies #[trigger] out[i].name
        != #[trigger] out[j].name by {
        lemma_name_lt_irreflexive(out[i].name);
        if i < j {
            assert(name_lt(out[i].name, out[j].name));
        } else {
            assert(name_lt(out[j].name, out[i].name));
        }
    }
}

/// The names of a catalog are the names of its input, each once, in name
/// order: any two catalogs of one input list the same names in the same
/// order (only which of two apps with one name is kept is left open).
pub proof fn lemma_catalog_names_determined(a: Seq<AppView>, b: Seq<AppView>, input: Seq<AppView>)
    requires
        is_catalog_of(a, input),
        is_catalog_of(b, input),
    ensures
        names(a) == names(b),
{
    let x = names(a);
    let y = names(b);
    assert forall|i: int, j: int| 0 <= i < j < x.len() implies name_lt(
        #[trigger] x[i],
        #[trigger] x[j],
    ) by {
        assert(name_lt(a[i].name, a[j].name));
    }
    assert forall|i: int, j: int| 0 <= i < j < y.len() implies name_lt(
        #[trigger] y[i],
        #[trigger] y[j],
    ) by {
        assert(name_lt(b[i].name, b[j].name));
    }
    assert forall|i: int| 0 <= i < x.len() implies y.contains(#[trigger] x[i]) by {
        assert(first_of_name(input, a[i]));
        let m = choose|m: int|
            0 <= m < input.len() && input[m] == a[i] && forall|j: int|
                0 <= j < m ==> (#[trigger] input[j]).name != a[i].name;
        assert(has_name(b, input[m].name));
        let k = choose|k: int| 0 <= k < b.len() && (#[trigger] b[k]).name == input[m].name;
        assert(y[k] == x[i]);
    }
    assert forall|j: int| 0 <= j < y.len() implies x.contains(#[trigger] y[j]) by {
        assert(first_of_name(input, b[j]));
        let m = choose|m: int|
            0 <= m < input.len() && input[m] == b[j] && forall|jj: int|
                0 <= jj < m ==> (#[trigger] input[jj]).name != b[j].name;
        assert(has_name(a, input[m].name));
        let k = choose|k: int| 0 <= k < a.len() && (#[trigger] a[k]).name == input[m].name;
        assert(x[k] == y[j]);
    }
    lemma_sorted_same_members(x, y);
}

/// The catalog of an input is determined: any two catalogs of one input are
/// equal, app for app.
pub proof fn lemma_catalog_determined(a: Seq<AppView>, b: Seq<AppView>, input: Seq<AppView>)
    requires
        is_catalog_of(a, input),
        is_catalog_of(b, input),
    ensures
        a == b,
{
    lemma_catalog_names_determined(a, b, input);
    assert(names(a).len() == names(b).len());
    assert forall|k: int| 0 <= k < a.len() implies a[k] == b[k] by {
        assert(names(a)[k] == names(b)[k]);
        assert(first_of_name(input, a[k]));
        assert(first_of_name(input, b[k]));
        let i1 = choose|i: int|
            0 <= i < input.len() && input[i] == a[k] && forall|j: int|
                0 <= j < i ==> (#[trigger] input[j]).name != a[k].name;
        let i2 = choose|i: int|
            0 <= i < input.len() && input[i] == b[k] && forall|j: int|
                0 <= j < i ==> (#[trigger] input[j]).name != b[k].name;
        if i1 < i2 {
            assert(input[i1].name != b[k].name);
        } else if i2 < i1 {
            assert(input[i2].name != a[k].name);
        }
    }
    assert(a =~= b);
}

/// A catalog of an input is the catalog of it.
pub proof fn lemma_catalog_of(out: Seq<AppView>, input: Seq<AppView>)
    requires
        is_catalog_of(out, input),
    ensures
        catalog_of(input) == out,
{
    lemma_catalog_determined(catalog_of(input), out, input);
}

} // verus!
