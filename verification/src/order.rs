//! Orders on path text and a stable sort of paths.
//!
//! File names compare character by character by code point, which is the
//! byte order of their UTF-8 text, as `OsStr` compares on Unix. Whole paths
//! compare component by component, as `Path` orders them: the root before a
//! current directory before a parent directory before any name, names by
//! their text.
use vstd::prelude::*;
use crate::path::{
    components, cur_dir, file_name, parent_dir, path_components, path_file_name, root_dir,
};

verus! {

/// `a` comes no later than `b` when compared character by character.
pub open spec fn chars_le(a: Seq<char>, b: Seq<char>) -> bool
    decreases a.len(),
{
    if a.len() == 0 {
        true
    } else if b.len() == 0 {
        false
    } else if a[0] != b[0] {
        a[0] < b[0]
    } else {
        chars_le(a.drop_first(), b.drop_first())
    }
}

/// Rank of an encoded component among the kinds of component.
pub open spec fn component_rank(c: Seq<char>) -> int {
    if c == root_dir() {
        0
    } else if c == cur_dir() {
        1
    } else if c == parent_dir() {
        2
    } else {
        3
    }
}

/// `a` comes no later than `b` as path components.
pub open spec fn component_le(a: Seq<char>, b: Seq<char>) -> bool {
    component_rank(a) < component_rank(b) || (component_rank(a) == component_rank(b) && (
    component_rank(a) < 3 || chars_le(a, b)))
}

/// `a` comes no later than `b` when compared component by component.
pub open spec fn components_le(a: Seq<Seq<char>>, b: Seq<Seq<char>>) -> bool
    decreases a.len(),
{
    if a.len() == 0 {
        true
    } else if b.len() == 0 {
        false
    } else if a[0] != b[0] {
        component_le(a[0], b[0])
    } else {
        components_le(a.drop_first(), b.drop_first())
    }
}

/// What a list of paths is sorted by.
#[derive(Clone, Copy, PartialEq, Eq, Structural, Debug)]
pub enum SortKey {
    /// The final file name, a path without one counting as an empty name.
    FileName,
    /// The whole path, component by component.
    WholePath,
}

/// The name a path is sorted by under `SortKey::FileName`.
pub open spec fn name_key(p: Seq<char>) -> Seq<char> {
    match path_file_name(p) {
        Some(n) => n,
        None => Seq::empty(),
    }
}

/// Path `a` may stand before path `b` when sorted by `key`.
pub open spec fn precedes(key: SortKey, a: Seq<char>, b: Seq<char>) -> bool {
    match key {
        SortKey::FileName => chars_le(name_key(a), name_key(b)),
        SortKey::WholePath => components_le(path_components(a), path_components(b)),
    }
}

/// Every path of `s` may stand before every later one.
pub open spec fn sorted_by(key: SortKey, s: Seq<Seq<char>>) -> bool {
    forall|i: int, j: int| 0 <= i < j < s.len() ==> precedes(key, #[trigger] s[i], #[trigger] s[j])
}

/// `out` is `input` rearranged by `perm` (`out[k]` is `input[perm[k]]`), and
/// paths that compare equal keep their order from `input`.
pub open spec fn stable_arrangement(
    key: SortKey,
    out: Seq<Seq<char>>,
    input: Seq<Seq<char>>,
    perm: Seq<int>,
) -> bool {
    &&& out.len() == input.len()
    &&& perm.len() == input.len()
    &&& forall|k: int|
        0 <= k < perm.len() ==> 0 <= #[trigger] perm[k] < input.len() && out[k] == input[perm[k]]
    &&& forall|k: int, l: int| 0 <= k < l < perm.len() ==> #[trigger] perm[k] != #[trigger] perm[l]
    &&& forall|k: int, l: int|
        0 <= k < l < perm.len() && precedes(key, #[trigger] out[l], #[trigger] out[k]) ==> perm[k]
            < perm[l]
}

/// `out` is what a stable sort of `input` by `key` gives.
pub open spec fn is_stable_sort(key: SortKey, out: Seq<Seq<char>>, input: Seq<Seq<char>>) -> bool {
    &&& sorted_by(key, out)
    &&& exists|perm: Seq<int>| stable_arrangement(key, out, input, perm)
}

pub proof fn lemma_chars_le_total(a: Seq<char>, b: Seq<char>)
    ensures
        chars_le(a, b) || chars_le(b, a),
    decreases a.len(),
{
    if a.len() > 0 && b.len() > 0 && a[0] == b[0] {
        lemma_chars_le_total(a.drop_first(), b.drop_first());
    }
}

pub proof fn lemma_chars_le_transitive(a: Seq<char>, b: Seq<char>, c: Seq<char>)
    requires
        chars_le(a, b),
        chars_le(b, c),
    ensures
        chars_le(a, c),
    decreases a.len(),
{
    if a.len() > 0 && b.len() > 0 && c.len() > 0 && a[0] == b[0] && b[0] == c[0] {
        lemma_chars_le_transitive(a.drop_first(), b.drop_first(), c.drop_first());
    }
}

pub proof fn lemma_chars_le_antisymmetric(a: Seq<char>, b: Seq<char>)
    requires
        chars_le(a, b),
        chars_le(b, a),
    ensures
        a == b,
    decreases a.len(),
{
    if a.len() > 0 {
        lemma_chars_le_antisymmetric(a.drop_first(), b.drop_first());
        assert(a =~= seq![a[0]] + a.drop_first());
        assert(b =~= seq![b[0]] + b.drop_first());
    }
}

pub proof fn lemma_component_le_total(a: Seq<char>, b: Seq<char>)
    ensures
        component_le(a, b) || component_le(b, a),
{
    lemma_chars_le_total(a, b);
}

pub proof fn lemma_component_le_transitive(a: Seq<char>, b: Seq<char>, c: Seq<char>)
    requires
        component_le(a, b),
        component_le(b, c),
    ensures
        component_le(a, c),
{
    if component_rank(a) == 3 && component_rank(b) == 3 && component_rank(c) == 3 {
        lemma_chars_le_transitive(a, b, c);
    }
}

pub proof fn lemma_component_le_antisymmetric(a: Seq<char>, b: Seq<char>)
    requires
        component_le(a, b),
        component_le(b, a),
    ensures
        a == b,
{
    if component_rank(a) == 3 {
        lemma_chars_le_antisymmetric(a, b);
    }
}

pub proof fn lemma_components_le_total(a: Seq<Seq<char>>, b: Seq<Seq<char>>)
    ensures
        components_le(a, b) || components_le(b, a),
    decreases a.len(),
{
    if a.len() > 0 && b.len() > 0 {
        if a[0] == b[0] {
            lemma_components_le_total(a.drop_first(), b.drop_first());
        } else {
            lemma_component_le_total(a[0], b[0]);
        }
    }
}

pub proof fn lemma_components_le_transitive(
    a: Seq<Seq<char>>,
    b: Seq<Seq<char>>,
    c: Seq<Seq<char>>,
)
    requires
        components_le(a, b),
        components_le(b, c),
    ensures
        components_le(a, c),
    decreases a.len(),
{
    if a.len() > 0 && b.len() > 0 && c.len() > 0 {
        if a[0] == b[0] && b[0] == c[0] {
            lemma_components_le_transitive(a.drop_first(), b.drop_first(), c.drop_first());
        } else if a[0] == b[0] {
            assert(component_le(a[0], c[0]));
        } else if b[0] == c[0] {
            assert(component_le(a[0], c[0]));
        } else {
            lemma_component_le_transitive(a[0], b[0], c[0]);
            if a[0] == c[0] {
                lemma_component_le_antisymmetric(a[0], b[0]);
            }
        }
    }
}

pub proof fn lemma_precedes_total(key: SortKey, a: Seq<char>, b: Seq<char>)
    ensures
        precedes(key, a, b) || precedes(key, b, a),
{
    match key {
        SortKey::FileName => lemma_chars_le_total(name_key(a), name_key(b)),
        SortKey::WholePath => lemma_components_le_total(path_components(a), path_components(b)),
    }
}

pub proof fn lemma_precedes_transitive(key: SortKey, a: Seq<char>, b: Seq<char>, c: Seq<char>)
    requires
        precedes(key, a, b),
        precedes(key, b, c),
    ensures
        precedes(key, a, c),
{
    match key {
        SortKey::FileName => lemma_chars_le_transitive(name_key(a), name_key(b), name_key(c)),
        SortKey::WholePath => lemma_components_le_transitive(
            path_components(a),
            path_components(b),
            path_components(c),
        ),
    }
}

/// Whether `a` comes no later than `b`, character by character.
pub fn chars_no_later(a: &Vec<char>, b: &Vec<char>) -> (r: bool)
    ensures
        r == chars_le(a@, b@),
{
    let mut i: usize = 0;
    assert(a@.skip(0) =~= a@);
    assert(b@.skip(0) =~= b@);
    while i < a.len() && i < b.len() && a[i] == b[i]
        invariant
            i <= a.len(),
            i <= b.len(),
            chars_le(a@, b@) == chars_le(a@.skip(i as int), b@.skip(i as int)),
        decreases a.len() - i,
    {
        assert(a@.skip(i as int).drop_first() =~= a@.skip(i + 1));
        assert(b@.skip(i as int).drop_first() =~= b@.skip(i + 1));
        i = i + 1;
    }
    if i == a.len() {
        true
    } else if i == b.len() {
        false
    } else {
        a[i] < b[i]
    }
}

/// Rank of an encoded component among the kinds of component.
fn rank_of(c: &String) -> (r: u8)
    ensures
        r as int == component_rank(c@),
{
    let v = crate::path::chars_of(c.as_str());
    if v.len() == 1 && v[0] == '/' {
        assert(c@ =~= root_dir());
        0
    } else if v.len() == 1 && v[0] == '.' {
        assert(c@ =~= cur_dir());
        1
    } else if v.len() == 2 && v[0] == '.' && v[1] == '.' {
        assert(c@ =~= parent_dir());
        2
    } else {
        3
    }
}

/// Whether component `a` comes no later than component `b`.
fn component_no_later(a: &String, b: &String) -> (r: bool)
    ensures
        r == component_le(a@, b@),
{
    let ra = rank_of(a);
    let rb = rank_of(b);
    if ra != rb {
        ra < rb
    } else if ra < 3 {
        true
    } else {
        let va = crate::path::chars_of(a.as_str());
        let vb = crate::path::chars_of(b.as_str());
        chars_no_later(&va, &vb)
    }
}

/// Whether the components `a` come no later than the components `b`.
fn components_no_later(a: &Vec<String>, b: &Vec<String>) -> (r: bool)
    ensures
        r == components_le(a.deep_view(), b.deep_view()),
{
    let ghost da = a.deep_view();
    let ghost db = b.deep_view();
    let mut i: usize = 0;
    assert(da.skip(0) =~= da);
    assert(db.skip(0) =~= db);
    loop
        invariant
            i <= a.len(),
            i <= b.len(),
            da == a.deep_view(),
            db == b.deep_view(),
            components_le(da, db) == components_le(da.skip(i as int), db.skip(i as int)),
        decreases a.len() - i,
    {
        if i == a.len() {
            return true;
        }
        if i == b.len() {
            return false;
        }
        assert(da.skip(i as int)[0] == a[i as int]@);
        assert(db.skip(i as int)[0] == b[i as int]@);
        let same = a[i] == b[i];
        if !same {
            return component_no_later(&a[i], &b[i]);
        }
        assert(da.skip(i as int).drop_first() =~= da.skip(i + 1));
        assert(db.skip(i as int).drop_first() =~= db.skip(i + 1));
        i = i + 1;
    }
}

/// Whether path `a` may stand before path `b` when sorted by `key`.
pub fn path_precedes(key: SortKey, a: &String, b: &String) -> (r: bool)
    ensures
        r == precedes(key, a@, b@),
{
    match key {
        SortKey::FileName => {
            let na = match file_name(a.as_str()) {
                Some(n) => n,
                None => String::new(),
            };
            let nb = match file_name(b.as_str()) {
                Some(n) => n,
                None => String::new(),
            };
            let va = crate::path::chars_of(na.as_str());
            let vb = crate::path::chars_of(nb.as_str());
            chars_no_later(&va, &vb)
        },
        SortKey::WholePath => {
            let ca = components(a.as_str());
            let cb = components(b.as_str());
            components_no_later(&ca, &cb)
        },
    }
}

/// Sorts `items` by `key`, keeping items that compare equal in their order.
pub fn stable_sort(key: SortKey, items: &mut Vec<String>)
    ensures
        is_stable_sort(key, final(items).deep_view(), old(items).deep_view()),
{
    let ghost input = items.deep_view();
    let n = items.len();
    let mut out: Vec<String> = Vec::new();
    let ghost mut perm: Seq<int> = Seq::empty();
    let mut i: usize = 0;
    assert(input.take(0) =~= Seq::<Seq<char>>::empty());
    assert(out.deep_view() =~= Seq::<Seq<char>>::empty());
    while i < n
        invariant
            n == items.len(),
            input == items.deep_view(),
            i <= n,
            out.len() == i,
            sorted_by(key, out.deep_view()),
            stable_arrangement(key, out.deep_view(), input.take(i as int), perm),
        decreases n - i,
    {
        let x = items[i].clone();
        let ghost before = out.deep_view();
        let mut p: usize = 0;
        while p < out.len() && path_precedes(key, &out[p], &x)
            invariant
                p <= out.len(),
                before == out.deep_view(),
                forall|j: int| 0 <= j < p ==> precedes(key, #[trigger] before[j], x@),
            decreases out.len() - p,
        {
            p = p + 1;
        }
        proof {
            if p < out.len() {
                assert(!precedes(key, before[p as int], x@));
                lemma_precedes_total(key, before[p as int], x@);
            }
        }
        out.insert(p, x);
        let ghost after = out.deep_view();
        assert(after =~= before.insert(p as int, x@));
        let ghost old_perm = perm;
        let ghost new_input = input.take(i + 1);
        proof {
            perm = old_perm.insert(p as int, i as int);
            assert(new_input[i as int] == x@);
            assert forall|k: int, l: int| 0 <= k < l < after.len() implies precedes(
                key,
                #[trigger] after[k],
                #[trigger] after[l],
            ) by {
                if l == p {
                    assert(after[k] == before[k]);
                } else if k == p {
                    assert(after[l] == before[l - 1]);
                    if l - 1 > p {
                        assert(precedes(key, before[p as int], before[l - 1]));
                        lemma_precedes_transitive(key, x@, before[p as int], before[l - 1]);
                    }
                } else {
                    let kk = if k < p {
                        k
                    } else {
                        k - 1
                    };
                    let ll = if l < p {
                        l
                    } else {
                        l - 1
                    };
                    assert(after[k] == before[kk]);
                    assert(after[l] == before[ll]);
                }
            }
            assert forall|k: int|
                0 <= k < perm.len() implies 0 <= #[trigger] perm[k] < new_input.len() && after[k]
                == new_input[perm[k]] by {
                if k < p {
                    assert(perm[k] == old_perm[k]);
                } else if k > p {
                    assert(perm[k] == old_perm[k - 1]);
                }
            }
            assert forall|k: int, l: int| 0 <= k < l < perm.len() implies #[trigger] perm[k]
                != #[trigger] perm[l] by {
                if k != p && l != p {
                    let kk = if k < p {
                        k
                    } else {
                        k - 1
                    };
                    let ll = if l < p {
                        l
                    } else {
                        l - 1
                    };
                    assert(perm[k] == old_perm[kk]);
                    assert(perm[l] == old_perm[ll]);
                } else if k == p {
                    assert(perm[l] == old_perm[l - 1]);
                } else {
                    assert(perm[k] == old_perm[k]);
                }
            }
            assert forall|k: int, l: int|
                0 <= k < l < perm.len() && precedes(
                    key,
                    #[trigger] after[l],
                    #[trigger] after[k],
                ) implies perm[k] < perm[l] by {
                if k != p && l != p {
                    let kk = if k < p {
                        k
                    } else {
                        k - 1
                    };
                    let ll = if l < p {
                        l
                    } else {
                        l - 1
                    };
                    assert(perm[k] == old_perm[kk]);
                    assert(perm[l] == old_perm[ll]);
                    assert(after[k] == before[kk]);
                    assert(after[l] == before[ll]);
                } else if k == p {
                    assert(after[l] == before[l - 1]);
                    if l - 1 > p {
                        assert(precedes(key, before[p as int], before[l - 1]));
                        lemma_precedes_transitive(key, before[p as int], before[l - 1], x@);
                    }
                } else {
                    assert(perm[k] == old_perm[k]);
                }
            }
        }
        i = i + 1;
    }
    assert(input.take(n as int) =~= input);
    *items = out;
}

} // verus!
