//! Unix path text, read the way `std::path::Path` reads it: components,
//! the final file name and its extension, component-wise equality.
//!
//! A path is modelled by its characters. Its components are encoded as
//! character sequences: the root directory as `/`, a leading current
//! directory as `.`, a parent directory as `..` and every other component by
//! its own text (which is never empty, never `.` or `..` and holds no `/`).
use vstd::prelude::*;
use vstd::string::*;

verus! {

/// The pieces of `s` between separators, left to right; there is always one
/// more piece than there are separators.
pub open spec fn split_slash(s: Seq<char>) -> Seq<Seq<char>>
    decreases s.len(),
{
    if s.len() == 0 {
        seq![Seq::<char>::empty()]
    } else {
        let prev = split_slash(s.drop_last());
        if s.last() == '/' {
            prev.push(Seq::<char>::empty())
        } else {
            prev.update(prev.len() - 1, prev.last().push(s.last()))
        }
    }
}

/// Encoding of the root directory component.
pub open spec fn root_dir() -> Seq<char> {
    seq!['/']
}

/// Encoding of the current directory component.
pub open spec fn cur_dir() -> Seq<char> {
    seq!['.']
}

/// Encoding of the parent directory component.
pub open spec fn parent_dir() -> Seq<char> {
    seq!['.', '.']
}

/// Whether an encoded component is an ordinary name.
pub open spec fn is_normal(c: Seq<char>) -> bool {
    c != root_dir() && c != cur_dir() && c != parent_dir()
}

/// The component that a piece between separators contributes: none for an
/// empty piece or `.`, the piece itself otherwise (`..` encodes the parent).
pub open spec fn piece_component(piece: Seq<char>) -> Seq<Seq<char>> {
    if piece.len() == 0 || piece == cur_dir() {
        Seq::empty()
    } else {
        seq![piece]
    }
}

pub open spec fn pieces_components(pieces: Seq<Seq<char>>) -> Seq<Seq<char>>
    decreases pieces.len(),
{
    if pieces.len() == 0 {
        Seq::empty()
    } else {
        pieces_components(pieces.drop_last()) + piece_component(pieces.last())
    }
}

/// The component that the start of a path contributes: the root for an
/// absolute path, the current directory for a path that is `.` or starts
/// with `./`.
pub open spec fn path_head(s: Seq<char>) -> Seq<Seq<char>> {
    if s.len() > 0 && s[0] == '/' {
        seq![root_dir()]
    } else if s.len() > 0 && s[0] == '.' && (s.len() == 1 || s[1] == '/') {
        seq![cur_dir()]
    } else {
        Seq::empty()
    }
}

/// The components of a path, as `Path::components` yields them on Unix.
pub open spec fn path_components(s: Seq<char>) -> Seq<Seq<char>> {
    path_head(s) + pieces_components(split_slash(s))
}

/// The final component of a path if it is an ordinary name.
pub open spec fn path_file_name(s: Seq<char>) -> Option<Seq<char>> {
    let c = path_components(s);
    if c.len() > 0 && is_normal(c.last()) {
        Some(c.last())
    } else {
        None
    }
}

/// Position of the last `.` in `s`, or -1.
pub open spec fn last_dot(s: Seq<char>) -> int
    decreases s.len(),
{
    if s.len() == 0 {
        -1
    } else if s.last() == '.' {
        s.len() - 1
    } else {
        last_dot(s.drop_last())
    }
}

/// The extension of a file name: the text after its last `.`, where that dot
/// is not the name's first character.
pub open spec fn name_extension(name: Seq<char>) -> Option<Seq<char>> {
    let d = last_dot(name);
    if d <= 0 {
        None
    } else {
        Some(name.subrange(d + 1, name.len() as int))
    }
}

/// The extension of a path, as `Path::extension` gives it.
pub open spec fn path_extension(s: Seq<char>) -> Option<Seq<char>> {
    match path_file_name(s) {
        Some(name) => name_extension(name),
        None => None,
    }
}

/// Two paths are equal as `Path`s when their components are.
pub open spec fn same_path(a: Seq<char>, b: Seq<char>) -> bool {
    path_components(a) == path_components(b)
}

/// `s` holds no `/`.
pub open spec fn no_slash(s: Seq<char>) -> bool {
    forall|i: int| 0 <= i < s.len() ==> s[i] != '/'
}

/// A piece that stands for an ordinary name or `..`: not empty, not `.`,
/// without a `/`.
pub open spec fn is_name_piece(w: Seq<char>) -> bool {
    w.len() > 0 && w != cur_dir() && no_slash(w)
}

/// Splitting always gives at least one piece.
pub proof fn lemma_split_slash_len(s: Seq<char>)
    ensures
        split_slash(s).len() >= 1,
    decreases s.len(),
{
    if s.len() > 0 {
        lemma_split_slash_len(s.drop_last());
    }
}

/// No piece of a split holds a `/`.
pub proof fn lemma_split_slash_no_slash(s: Seq<char>)
    ensures
        forall|k: int| 0 <= k < split_slash(s).len() ==> no_slash(#[trigger] split_slash(s)[k]),
    decreases s.len(),
{
    if s.len() > 0 {
        lemma_split_slash_no_slash(s.drop_last());
        lemma_split_slash_len(s.drop_last());
        let prev = split_slash(s.drop_last());
        if s.last() != '/' {
            let w = prev.last().push(s.last());
            assert(no_slash(prev[prev.len() - 1]));
            assert forall|i: int| 0 <= i < w.len() implies w[i] != '/' by {
                if i < w.len() - 1 {
                    assert(w[i] == prev[prev.len() - 1][i]);
                }
            }
        }
    }
}

/// A text without `/` is a single piece.
pub proof fn lemma_split_slash_name(w: Seq<char>)
    requires
        no_slash(w),
    ensures
        split_slash(w) == seq![w],
    decreases w.len(),
{
    if w.len() == 0 {
        assert(w =~= Seq::<char>::empty());
    } else {
        assert(no_slash(w.drop_last()));
        lemma_split_slash_name(w.drop_last());
        assert(w.last() == w[w.len() - 1]);
        assert(w.drop_last().push(w.last()) =~= w);
        assert(seq![w.drop_last()].update(0, w.drop_last().push(w.last())) =~= seq![w]);
    }
}

/// Splitting text joined at a `/` splits each side.
pub proof fn lemma_split_slash_append(x: Seq<char>, y: Seq<char>)
    ensures
        split_slash(x + seq!['/'] + y) == split_slash(x) + split_slash(y),
    decreases y.len(),
{
    let z = x + seq!['/'] + y;
    if y.len() == 0 {
        assert(z.drop_last() =~= x);
        assert(z.last() == '/');
        assert(split_slash(y) == seq![Seq::<char>::empty()]);
        assert(split_slash(z) =~= split_slash(x) + split_slash(y));
    } else {
        let y1 = y.drop_last();
        assert(z.drop_last() =~= x + seq!['/'] + y1);
        assert(z.last() == y.last());
        lemma_split_slash_append(x, y1);
        lemma_split_slash_len(y1);
        let a = split_slash(x);
        let b = split_slash(y1);
        let prev = a + b;
        if y.last() == '/' {
            assert(split_slash(z) == prev.push(Seq::<char>::empty()));
            assert(split_slash(y) == b.push(Seq::<char>::empty()));
            assert(prev.push(Seq::<char>::empty()) =~= a + b.push(Seq::<char>::empty()));
        } else {
            assert(split_slash(z) == prev.update(prev.len() - 1, prev.last().push(y.last())));
            assert(split_slash(y) == b.update(b.len() - 1, b.last().push(y.last())));
            assert(prev.last() == b.last());
            assert(prev.update(prev.len() - 1, prev.last().push(y.last())) =~= a + b.update(
                b.len() - 1,
                b.last().push(y.last()),
            ));
        }
    }
}

/// The components of concatenated pieces are those of each part.
pub proof fn lemma_pieces_components_append(a: Seq<Seq<char>>, b: Seq<Seq<char>>)
    ensures
        pieces_components(a + b) == pieces_components(a) + pieces_components(b),
    decreases b.len(),
{
    if b.len() == 0 {
        assert(a + b =~= a);
        assert(pieces_components(a) + pieces_components(b) =~= pieces_components(a));
    } else {
        assert((a + b).drop_last() =~= a + b.drop_last());
        assert((a + b).last() == b.last());
        lemma_pieces_components_append(a, b.drop_last());
        assert(pieces_components(a) + pieces_components(b.drop_last()) + piece_component(b.last())
            =~= pieces_components(a) + (pieces_components(b.drop_last()) + piece_component(
            b.last(),
        )));
    }
}

/// A single piece gives its own component, if any.
pub proof fn lemma_pieces_components_single(w: Seq<char>)
    ensures
        pieces_components(seq![w]) == piece_component(w),
{
    assert(seq![w].drop_last() =~= Seq::<Seq<char>>::empty());
    assert(pieces_components(Seq::<Seq<char>>::empty()) == Seq::<Seq<char>>::empty());
    assert(seq![w].last() == w);
    assert(Seq::<Seq<char>>::empty() + piece_component(w) =~= piece_component(w));
}

/// Pieces that are all names are their own components.
pub proof fn lemma_pieces_components_of_names(c: Seq<Seq<char>>)
    requires
        forall|k: int| 0 <= k < c.len() ==> is_name_piece(#[trigger] c[k]),
    ensures
        pieces_components(c) == c,
    decreases c.len(),
{
    if c.len() > 0 {
        assert forall|k: int| 0 <= k < c.drop_last().len() implies is_name_piece(
            #[trigger] c.drop_last()[k],
        ) by {
            assert(c.drop_last()[k] == c[k]);
        }
        lemma_pieces_components_of_names(c.drop_last());
        assert(is_name_piece(c[c.len() - 1]));
        assert(c.drop_last() + seq![c.last()] =~= c);
    }
}

/// The components that pieces without `/` give are names.
pub proof fn lemma_pieces_components_are_names(pieces: Seq<Seq<char>>)
    requires
        forall|k: int| 0 <= k < pieces.len() ==> no_slash(#[trigger] pieces[k]),
    ensures
        forall|k: int|
            0 <= k < pieces_components(pieces).len() ==> is_name_piece(
                #[trigger] pieces_components(pieces)[k],
            ),
    decreases pieces.len(),
{
    if pieces.len() > 0 {
        let init = pieces.drop_last();
        assert forall|k: int| 0 <= k < init.len() implies no_slash(#[trigger] init[k]) by {
            assert(init[k] == pieces[k]);
        }
        lemma_pieces_components_are_names(init);
        assert(no_slash(pieces[pieces.len() - 1]));
        let front = pieces_components(init);
        let back = piece_component(pieces.last());
        assert forall|k: int|
            0 <= k < pieces_components(pieces).len() implies is_name_piece(
            #[trigger] pieces_components(pieces)[k],
        ) by {
            if k < front.len() {
                assert(pieces_components(pieces)[k] == front[k]);
            } else {
                assert(pieces_components(pieces)[k] == back[k - front.len()]);
            }
        }
    }
}

/// The components of a path after its head are names.
pub proof fn lemma_path_body_names(s: Seq<char>)
    ensures
        forall|k: int|
            0 <= k < pieces_components(split_slash(s)).len() ==> is_name_piece(
                #[trigger] pieces_components(split_slash(s))[k],
            ),
{
    lemma_split_slash_no_slash(s);
    lemma_pieces_components_are_names(split_slash(s));
}

/// The characters of a string.
pub fn chars_of(s: &str) -> (r: Vec<char>)
    ensures
        r@ == s@,
{
    let mut r: Vec<char> = Vec::new();
    for c in it: s.chars()
        invariant
            r@ == it.seq().take(it.index()),
            it.seq() == s@,
    {
        r.push(c);
    }
    r
}

/// The components of `path`, encoded as described for this module.
pub fn components(path: &str) -> (r: Vec<String>)
    ensures
        r.deep_view() == path_components(path@),
{
    let v = chars_of(path);
    let n = v.len();
    let ghost s = path@;
    let mut r: Vec<String> = Vec::new();
    if n > 0 && v[0] == '/' {
        let root = String::from_str("/");
        proof {
            reveal_strlit("/");
        }
        assert(root@ =~= root_dir());
        r.push(root);
    } else if n > 0 && v[0] == '.' && (n == 1 || v[1] == '/') {
        let cur = String::from_str(".");
        proof {
            reveal_strlit(".");
        }
        assert(cur@ =~= cur_dir());
        r.push(cur);
    }
    assert(r.deep_view() =~= path_head(s));
    let mut start: usize = 0;
    let mut i: usize = 0;
    let ghost mut done: Seq<Seq<char>> = Seq::empty();
    assert(s.take(0) =~= Seq::<char>::empty());
    assert(split_slash(s.take(0)) =~= done.push(s.subrange(0, 0)));
    while i < n
        invariant
            n == v.len(),
            v@ == s,
            s == path@,
            0 <= start <= i <= n,
            split_slash(s.take(i as int)) == done.push(s.subrange(start as int, i as int)),
            r.deep_view() == path_head(s) + pieces_components(done),
        decreases n - i,
    {
        let ghost prefix = s.take(i as int);
        assert(s.take(i + 1).drop_last() =~= prefix);
        assert(s.take(i + 1).last() == v@[i as int]);
        if v[i] == '/' {
            let ghost piece = s.subrange(start as int, i as int);
            let ghost before = r.deep_view();
            if i - start == 1 && v[start] == '.' {
                assert(piece =~= cur_dir());
            } else if i > start {
                assert(piece.len() > 0);
                proof {
                    if piece == cur_dir() {
                        assert(piece[0] == v@[start as int]);
                    }
                }
                let part = path.substring_char(start, i);
                let name = String::from_str(part);
                r.push(name);
            }
            proof {
                assert(done.push(piece).drop_last() =~= done);
                assert(done.push(piece).last() == piece);
                assert(pieces_components(done.push(piece)) == pieces_components(done)
                    + piece_component(piece));
                assert(r.deep_view() =~= before + piece_component(piece));
                assert(r.deep_view() =~= path_head(s) + pieces_components(done.push(piece)));
                done = done.push(piece);
            }
            start = i + 1;
            assert(s.subrange(start as int, i + 1) =~= Seq::<char>::empty());
            assert(split_slash(s.take(i + 1)) =~= done.push(s.subrange(start as int, i + 1)));
        } else {
            assert(s.subrange(start as int, i + 1) =~= s.subrange(start as int, i as int).push(
                v@[i as int],
            ));
            assert(split_slash(s.take(i + 1)) =~= done.push(s.subrange(start as int, i + 1)));
        }
        i = i + 1;
    }
    let ghost piece = s.subrange(start as int, n as int);
    let ghost before = r.deep_view();
    if n - start == 1 && v[start] == '.' {
        assert(piece =~= cur_dir());
    } else if n > start {
        assert(piece.len() > 0);
        proof {
            if piece == cur_dir() {
                assert(piece[0] == v@[start as int]);
            }
        }
        let part = path.substring_char(start, n);
        let name = String::from_str(part);
        r.push(name);
    }
    proof {
        assert(s.take(n as int) =~= s);
        assert(done.push(piece).drop_last() =~= done);
        assert(done.push(piece).last() == piece);
        assert(pieces_components(done.push(piece)) == pieces_components(done) + piece_component(
            piece,
        ));
        assert(r.deep_view() =~= before + piece_component(piece));
        assert(r.deep_view() =~= path_head(s) + pieces_components(done.push(piece)));
    }
    r
}

/// Whether an encoded component is the root, current or parent directory.
fn is_special_component(c: &String) -> (r: bool)
    ensures
        r == !is_normal(c@),
{
    let s = c.as_str();
    let len = s.unicode_len();
    if len == 1 {
        let ch = s.get_char(0);
        if ch == '/' || ch == '.' {
            assert(c@ =~= seq![ch]);
            true
        } else {
            false
        }
    } else if len == 2 {
        let a = s.get_char(0);
        let b = s.get_char(1);
        if a == '.' && b == '.' {
            assert(c@ =~= parent_dir());
            true
        } else {
            false
        }
    } else {
        false
    }
}

/// The final component of `path` if it is an ordinary name, as
/// `Path::file_name` gives it.
pub fn file_name(path: &str) -> (r: Option<String>)
    ensures
        match r {
            Some(name) => path_file_name(path@) == Some(name@),
            None => path_file_name(path@) is None,
        },
{
    let comps = components(path);
    let len = comps.len();
    if len == 0 {
        return None;
    }
    let last = &comps[len - 1];
    assert(comps.deep_view().last() == last@);
    if is_special_component(last) {
        None
    } else {
        Some(last.clone())
    }
}

/// The extension of `path`, as `Path::extension` gives it.
pub fn extension(path: &str) -> (r: Option<String>)
    ensures
        match r {
            Some(ext) => path_extension(path@) == Some(ext@),
            None => path_extension(path@) is None,
        },
{
    match file_name(path) {
        None => None,
        Some(name) => {
            let s = name.as_str();
            let v = chars_of(s);
            let n = v.len();
            let mut found = false;
            let mut pos: usize = 0;
            let mut i: usize = 0;
            assert(v@.take(0) =~= Seq::<char>::empty());
            while i < n
                invariant
                    n == v.len(),
                    v@ == name@,
                    i <= n,
                    found ==> pos < i && last_dot(v@.take(i as int)) == pos,
                    !found ==> last_dot(v@.take(i as int)) == -1,
                decreases n - i,
            {
                assert(v@.take(i + 1).drop_last() =~= v@.take(i as int));
                if v[i] == '.' {
                    found = true;
                    pos = i;
                }
                i = i + 1;
            }
            assert(v@.take(n as int) =~= v@);
            if !found || pos == 0 {
                None
            } else {
                let part = s.substring_char(pos + 1, n);
                Some(String::from_str(part))
            }
        },
    }
}

/// Whether two paths name the same path component by component, as `==`
/// on `Path` decides.
pub fn paths_equal(a: &str, b: &str) -> (r: bool)
    ensures
        r == same_path(a@, b@),
{
    let ca = components(a);
    let cb = components(b);
    if ca.len() != cb.len() {
        assert(ca.deep_view().len() != cb.deep_view().len());
        return false;
    }
    let n = ca.len();
    let mut i: usize = 0;
    while i < n
        invariant
            n == ca.len(),
            n == cb.len(),
            ca.deep_view() == path_components(a@),
            cb.deep_view() == path_components(b@),
            i <= n,
            forall|j: int| 0 <= j < i ==> ca.deep_view()[j] == cb.deep_view()[j],
        decreases n - i,
    {
        let same = ca[i] == cb[i];
        if !same {
            assert(ca.deep_view()[i as int] != cb.deep_view()[i as int]);
            assert(ca.deep_view() != cb.deep_view());
            return false;
        }
        i = i + 1;
    }
    assert(ca.deep_view() =~= cb.deep_view());
    true
}

} // verus!
