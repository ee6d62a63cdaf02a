//! The cache of loaded images: at most a fixed number of them, the least
//! recently used one leaving first, kept in an `lru::LruCache`.
use vstd::prelude::*;
use vstd::string::*;
use crate::image_data::ImageData;
use crate::path::{
    components, cur_dir, is_name_piece, lemma_path_body_names, lemma_pieces_components_append,
    lemma_pieces_components_of_names, lemma_pieces_components_single, lemma_split_slash_append, lemma_split_slash_name, no_slash,
    path_components, path_head, pieces_components, root_dir, same_path, split_slash,
};

verus! {

/// The names joined with `/` between them.
pub open spec fn join_names(names: Seq<Seq<char>>) -> Seq<char>
    decreases names.len(),
{
    if names.len() == 0 {
        Seq::empty()
    } else if names.len() == 1 {
        names[0]
    } else {
        join_names(names.drop_last()) + seq!['/'] + names.last()
    }
}

/// The key a path is cached under: its components joined again, so that
/// paths equal as `Path`s share one key.
pub open spec fn path_key(p: Seq<char>) -> Seq<char> {
    let c = path_components(p);
    if c.len() > 0 && c[0] == root_dir() {
        seq!['/'] + join_names(c.drop_first())
    } else {
        join_names(c)
    }
}

/// The key `path` is cached under.
pub fn cache_key(path: &str) -> (r: String)
    ensures
        r@ == path_key(path@),
{
    let comps = components(path);
    let ghost c = comps.deep_view();
    let n = comps.len();
    let root = String::from_str("/");
    proof {
        reveal_strlit("/");
        assert(root@ =~= root_dir());
    }
    let mut key = String::new();
    let mut start: usize = 0;
    if n > 0 && comps[0] == root {
        key.append("/");
        start = 1;
    }
    let ghost prefix = key@;
    proof {
        reveal_strlit("/");
        if start == 1 {
            assert(c[0] == root_dir());
            assert(prefix =~= seq!['/']);
        } else {
            assert(prefix =~= Seq::<char>::empty());
        }
        assert(c.subrange(start as int, start as int) =~= Seq::<Seq<char>>::empty());
    }
    let mut i: usize = start;
    while i < n
        invariant
            n == comps.len(),
            c == comps.deep_view(),
            start <= i <= n,
            start <= 1,
            key@ == prefix + join_names(c.subrange(start as int, i as int)),
        decreases n - i,
    {
        let ghost before = c.subrange(start as int, i as int);
        assert(c.subrange(start as int, i + 1).drop_last() =~= before);
        assert(c.subrange(start as int, i + 1).last() == comps[i as int]@);
        if i > start {
            key.append("/");
            proof {
                reveal_strlit("/");
            }
        }
        key.append(comps[i].as_str());
        proof {
            if i > start {
                assert(key@ =~= prefix + (join_names(before) + seq!['/'] + comps[i as int]@));
            } else {
                assert(before.len() == 0);
                assert(key@ =~= prefix + join_names(c.subrange(start as int, i + 1)));
            }
        }
        i = i + 1;
    }
    proof {
        if start == 1 {
            assert(c.subrange(1, n as int) =~= c.drop_first());
        } else {
            assert(c.subrange(0, n as int) =~= c);
            if n > 0 {
                assert(c[0] != root_dir());
            }
        }
    }
    key
}

/// An entry of the cache: a key and the image kept under it.
pub type CacheEntry = (Seq<char>, ImageData);

/// `entries` holds an entry under `key`.
pub open spec fn has_key(entries: Seq<CacheEntry>, key: Seq<char>) -> bool {
    exists|i: int| 0 <= i < entries.len() && (#[trigger] entries[i]).0 == key
}

/// A position of `entries` that holds `key`.
pub open spec fn key_index(entries: Seq<CacheEntry>, key: Seq<char>) -> int {
    choose|i: int| 0 <= i < entries.len() && (#[trigger] entries[i]).0 == key
}

/// No two entries share a key.
pub open spec fn keys_unique(entries: Seq<CacheEntry>) -> bool {
    forall|i: int, j: int|
        0 <= i < j < entries.len() ==> (#[trigger] entries[i]).0 != (#[trigger] entries[j]).0
}

/// The image kept under `key`, if any.
pub open spec fn lookup(entries: Seq<CacheEntry>, key: Seq<char>) -> Option<ImageData> {
    if has_key(entries, key) {
        Some(entries[key_index(entries, key)].1)
    } else {
        None
    }
}

/// The entries after reading `key`: its entry, if any, becomes the most
/// recently used (the last).
pub open spec fn after_get(entries: Seq<CacheEntry>, key: Seq<char>) -> Seq<CacheEntry> {
    if has_key(entries, key) {
        let i = key_index(entries, key);
        entries.remove(i).push(entries[i])
    } else {
        entries
    }
}

/// The entries after storing `value` under `key` in a cache of `capacity`:
/// an entry under `key` is replaced and becomes the most recent; otherwise
/// the new entry is added last, and when the cache is full the least
/// recently used entry (the first) leaves.
pub open spec fn after_put(
    entries: Seq<CacheEntry>,
    key: Seq<char>,
    value: ImageData,
    capacity: nat,
) -> Seq<CacheEntry> {
    if has_key(entries, key) {
        entries.remove(key_index(entries, key)).push((key, value))
    } else if entries.len() == capacity {
        entries.drop_first().push((key, value))
    } else {
        entries.push((key, value))
    }
}

/// What an `lru::LruCache` of images holds, least recently used first, each
/// entry keyed by the text of its key.
pub uninterp spec fn lru_entries(cache: lru::LruCache<String, ImageData>) -> Seq<CacheEntry>;

/// The capacity an `lru::LruCache` of images was made with.
pub uninterp spec fn lru_capacity(cache: lru::LruCache<String, ImageData>) -> nat;

/// The `lru` crate's cache type, opaque to the proofs.
#[verifier::external_type_specification]
#[verifier::external_body]
#[verifier::reject_recursive_types(K)]
#[verifier::reject_recursive_types(V)]
#[verifier::reject_recursive_types(S)]
pub struct ExLruCache<K, V, S>(lru::LruCache<K, V, S>);

/// The hasher an `lru::LruCache` uses by default.
#[verifier::external_type_specification]
#[verifier::external_body]
pub struct ExLruDefaultHasher(lru::DefaultHasher);

/// `LruCache::new`: an empty cache that holds at most `capacity` entries.
#[verifier::external_body]
fn lru_new(capacity: usize) -> (r: lru::LruCache<String, ImageData>)
    requires
        capacity > 0,
    ensures
        lru_entries(r) == Seq::<CacheEntry>::empty(),
        lru_capacity(r) == capacity,
{
    lru::LruCache::new(core::num::NonZeroUsize::new(capacity).unwrap())
}

/// `LruCache::get`, handing out a copy of the value: the value under `key`
/// if there is one, whose entry then moves to the most recently used end.
#[verifier::external_body]
fn lru_get(cache: &mut lru::LruCache<String, ImageData>, key: &String) -> (r: Option<ImageData>)
    ensures
        r == lookup(lru_entries(*old(cache)), key@),
        lru_entries(*final(cache)) == after_get(lru_entries(*old(cache)), key@),
        lru_capacity(*final(cache)) == lru_capacity(*old(cache)),
{
    cache.get(key).cloned()
}

/// `LruCache::put`: stores `value` under `key` as the most recently used
/// entry, replacing the entry under `key` if there is one, else evicting the
/// least recently used entry when the cache holds `capacity` entries.
#[verifier::external_body]
fn lru_put(cache: &mut lru::LruCache<String, ImageData>, key: String, value: ImageData)
    ensures
        lru_entries(*final(cache)) == after_put(
            lru_entries(*old(cache)),
            key@,
            value,
            lru_capacity(*old(cache)),
        ),
        lru_capacity(*final(cache)) == lru_capacity(*old(cache)),
{
    cache.put(key, value);
}

/// `LruCache::contains`: whether an entry is kept under `key`, without
/// changing which entry is the most recently used.
#[verifier::external_body]
fn lru_contains(cache: &lru::LruCache<String, ImageData>, key: &String) -> (r: bool)
    ensures
        r == has_key(lru_entries(*cache), key@),
{
    cache.contains(key)
}

/// The capacity a cache asked to hold `cache_size` images gets: that many,
/// or 10 when asked for none.
pub open spec fn effective_capacity(cache_size: nat) -> nat {
    if cache_size == 0 {
        10
    } else {
        cache_size
    }
}

/// The images loaded most recently, under the keys of their paths.
pub struct ImageCache {
    cache: lru::LruCache<String, ImageData>,
    cache_size: usize,
}

impl ImageCache {
    /// The cached entries, least recently used first.
    pub closed spec fn entries(&self) -> Seq<CacheEntry> {
        lru_entries(self.cache)
    }

    /// The most entries the cache holds.
    pub closed spec fn capacity(&self) -> nat {
        lru_capacity(self.cache)
    }

    /// The size the cache was asked for.
    pub closed spec fn requested_size(&self) -> nat {
        self.cache_size as nat
    }

    /// Keys are unique, the cache holds no more than its capacity, and the
    /// capacity is the one asked for (10 when asked for none).
    pub open spec fn wf(&self) -> bool {
        &&& keys_unique(self.entries())
        &&& self.entries().len() <= self.capacity()
        &&& self.capacity() == effective_capacity(self.requested_size())
    }

    pub fn new(cache_size: usize) -> (c: Self)
        ensures
            c.wf(),
            c.entries() == Seq::<CacheEntry>::empty(),
            c.requested_size() == cache_size,
            c.capacity() == effective_capacity(cache_size as nat),
    {
        let capacity = if cache_size == 0 {
            10
        } else {
            cache_size
        };
        ImageCache { cache: lru_new(capacity), cache_size }
    }

    /// The image cached for `path`, if any; it becomes the most recently used.
    pub fn get(&mut self, path: &str) -> (r: Option<ImageData>)
        requires
            old(self).wf(),
        ensures
            final(self).wf(),
            r == lookup(old(self).entries(), path_key(path@)),
            final(self).entries() == after_get(old(self).entries(), path_key(path@)),
            final(self).requested_size() == old(self).requested_size(),
    {
        let key = cache_key(path);
        let r = lru_get(&mut self.cache, &key);
        proof {
            lemma_after_get_keeps_shape(old(self).entries(), key@);
        }
        r
    }

    /// Caches `image` for `path` as the most recently used entry.
    pub fn put(&mut self, path: &str, image: ImageData)
        requires
            old(self).wf(),
        ensures
            final(self).wf(),
            final(self).entries() == after_put(
                old(self).entries(),
                path_key(path@),
                image,
                old(self).capacity(),
            ),
            final(self).requested_size() == old(self).requested_size(),
    {
        let key = cache_key(path);
        proof {
            lemma_after_put_keeps_shape(old(self).entries(), key@, image, old(self).capacity());
        }
        lru_put(&mut self.cache, key, image);
    }

    /// Whether an image is cached for `path`; the order of use is unchanged.
    pub fn contains(&self, path: &str) -> (r: bool)
        ensures
            r == has_key(self.entries(), path_key(path@)),
    {
        let key = cache_key(path);
        lru_contains(&self.cache, &key)
    }

    /// The size the cache was asked for.
    pub fn cache_size(&self) -> (r: usize)
        ensures
            r == self.requested_size(),
    {
        self.cache_size
    }
}

impl Default for ImageCache {
    /// A cache of 5 images.
    fn default() -> (c: Self)
        ensures
            c.wf(),
            c.entries() == Seq::<CacheEntry>::empty(),
            c.requested_size() == 5,
            c.capacity() == 5,
    {
        ImageCache::new(5)
    }
}

/// Reading keeps the keys unique and the number of entries.
pub proof fn lemma_after_get_keeps_shape(entries: Seq<CacheEntry>, key: Seq<char>)
    requires
        keys_unique(entries),
    ensures
        keys_unique(after_get(entries, key)),
        after_get(entries, key).len() == entries.len(),
{
    if has_key(entries, key) {
        let i = key_index(entries, key);
        let out = after_get(entries, key);
        assert forall|a: int, b: int| 0 <= a < b < out.len() implies (#[trigger] out[a]).0 != (
        #[trigger] out[b]).0 by {
            let ia = if a < i {
                a
            } else {
                a + 1
            };
            let ib = if b == out.len() - 1 {
                i
            } else if b < i {
                b
            } else {
                b + 1
            };
            assert(out[a] == entries[ia]);
            assert(out[b] == entries[ib]);
            assert(ia != ib);
            if ia < ib {
                assert(entries[ia].0 != entries[ib].0);
            } else {
                assert(entries[ib].0 != entries[ia].0);
            }
        }
    }
}

/// Storing keeps the keys unique and the cache within its capacity.
pub proof fn lemma_after_put_keeps_shape(
    entries: Seq<CacheEntry>,
    key: Seq<char>,
    value: ImageData,
    capacity: nat,
)
    requires
        keys_unique(entries),
        entries.len() <= capacity,
        capacity > 0,
    ensures
        keys_unique(after_put(entries, key, value, capacity)),
        after_put(entries, key, value, capacity).len() <= capacity,
{
    let out = after_put(entries, key, value, capacity);
    if has_key(entries, key) {
        let i = key_index(entries, key);
        assert forall|a: int, b: int| 0 <= a < b < out.len() implies (#[trigger] out[a]).0 != (
        #[trigger] out[b]).0 by {
            let ia = if a < i {
                a
            } else {
                a + 1
            };
            assert(out[a] == entries[ia]);
            if b == out.len() - 1 {
                assert(out[b].0 == key);
                assert(entries[i].0 == key);
                if ia < i {
                    assert(entries[ia].0 != entries[i].0);
                } else {
                    assert(entries[i].0 != entries[ia].0);
                }
            } else {
                let ib = if b < i {
                    b
                } else {
                    b + 1
                };
                assert(out[b] == entries[ib]);
                assert(entries[ia].0 != entries[ib].0);
            }
        }
    } else {
        let base = if entries.len() == capacity {
            entries.drop_first()
        } else {
            entries
        };
        let off: int = if entries.len() == capacity {
            1
        } else {
            0
        };
        assert(out == base.push((key, value)));
        assert forall|a: int, b: int| 0 <= a < b < out.len() implies (#[trigger] out[a]).0 != (
        #[trigger] out[b]).0 by {
            assert(out[a] == entries[a + off]);
            if b == out.len() - 1 {
                assert(out[b].0 == key);
                if entries[a + off].0 == key {
                    assert(has_key(entries, key));
                }
            } else {
                assert(out[b] == entries[b + off]);
            }
        }
    }
}

/// Paths that are equal as `Path`s are cached under one key.
pub proof fn law_equal_paths_share_a_key(p: Seq<char>, q: Seq<char>)
    requires
        crate::path::same_path(p, q),
    ensures
        path_key(p) == path_key(q),
{
}

/// Splitting names joined with `/` gives the names back.
pub proof fn lemma_join_then_split(c: Seq<Seq<char>>)
    requires
        c.len() >= 1,
        forall|k: int| 0 <= k < c.len() ==> no_slash(#[trigger] c[k]),
    ensures
        split_slash(join_names(c)) == c,
    decreases c.len(),
{
    if c.len() == 1 {
        assert(no_slash(c[0]));
        lemma_split_slash_name(c[0]);
        assert(seq![c[0]] =~= c);
    } else {
        let init = c.drop_last();
        assert forall|k: int| 0 <= k < init.len() implies no_slash(#[trigger] init[k]) by {
            assert(init[k] == c[k]);
        }
        lemma_join_then_split(init);
        assert(no_slash(c[c.len() - 1]));
        lemma_split_slash_name(c.last());
        lemma_split_slash_append(join_names(init), c.last());
        assert(init + seq![c.last()] =~= c);
    }
}

/// Names joined with `/` start with the first name, followed by the end of
/// the text or a `/`.
pub proof fn lemma_join_starts_with_first(c: Seq<Seq<char>>)
    requires
        c.len() >= 1,
    ensures
        join_names(c).len() >= c[0].len(),
        join_names(c).subrange(0, c[0].len() as int) == c[0],
        join_names(c).len() > c[0].len() ==> join_names(c)[c[0].len() as int] == '/',
    decreases c.len(),
{
    if c.len() == 1 {
        assert(join_names(c).subrange(0, c[0].len() as int) =~= c[0]);
    } else {
        let init = c.drop_last();
        lemma_join_starts_with_first(init);
        assert(init[0] == c[0]);
        let j = join_names(init);
        let n = c[0].len() as int;
        assert(join_names(c) == j + seq!['/'] + c.last());
        assert(join_names(c).subrange(0, n) =~= j.subrange(0, n));
        if j.len() > n {
            assert(join_names(c)[n] == j[n]);
        } else {
            assert(join_names(c)[n] == '/');
        }
    }
}

/// A path's key, read as a path, is the same path: its components are those
/// of the path it was made from.
pub proof fn law_key_is_the_same_path(p: Seq<char>)
    ensures
        same_path(path_key(p), p),
{
    let head = path_head(p);
    let body = pieces_components(split_slash(p));
    let c = path_components(p);
    let k = path_key(p);
    let e = Seq::<char>::empty();
    lemma_path_body_names(p);
    assert(c == head + body);
    assert forall|i: int| 0 <= i < body.len() implies no_slash(#[trigger] body[i]) by {
        assert(is_name_piece(body[i]));
    }
    lemma_pieces_components_single(e);
    assert(pieces_components(seq![e]) =~= Seq::<Seq<char>>::empty());
    assert(split_slash(e) == seq![e]);
    if body.len() > 0 {
        lemma_join_then_split(body);
        lemma_pieces_components_of_names(body);
    }
    if p.len() > 0 && p[0] == '/' {
        assert(head == seq![root_dir()]);
        assert(c[0] == root_dir());
        assert(c.drop_first() =~= body);
        assert(k == seq!['/'] + join_names(body));
        assert(k =~= e + seq!['/'] + join_names(body));
        lemma_split_slash_append(e, join_names(body));
        lemma_pieces_components_append(seq![e], split_slash(join_names(body)));
        if body.len() == 0 {
            assert(join_names(body) == e);
            assert(pieces_components(split_slash(k)) =~= body);
        } else {
            assert(pieces_components(split_slash(k)) =~= body);
        }
        assert(k[0] == '/');
        assert(path_head(k) == seq![root_dir()]);
        assert(path_components(k) =~= c);
    } else if p.len() > 0 && p[0] == '.' && (p.len() == 1 || p[1] == '/') {
        assert(head == seq![cur_dir()]);
        assert(c[0] == cur_dir());
        assert(c[0] != root_dir()) by {
            assert(cur_dir()[0] != root_dir()[0]);
        }
        assert(k == join_names(c));
        assert(no_slash(cur_dir()));
        assert forall|i: int| 0 <= i < c.len() implies no_slash(#[trigger] c[i]) by {
            if i > 0 {
                assert(c[i] == body[i - 1]);
            }
        }
        lemma_join_then_split(c);
        lemma_pieces_components_append(seq![cur_dir()], body);
        lemma_pieces_components_single(cur_dir());
        assert(pieces_components(seq![cur_dir()]) =~= Seq::<Seq<char>>::empty());
        assert(seq![cur_dir()] + body =~= c);
        lemma_pieces_components_of_names(body);
        lemma_join_starts_with_first(c);
        assert(k.subrange(0, 1)[0] == k[0]);
        assert(k[0] == '.');
        assert(path_head(k) == seq![cur_dir()]);
        assert(path_components(k) =~= c);
    } else {
        assert(head == Seq::<Seq<char>>::empty());
        assert(c =~= body);
        if body.len() == 0 {
            assert(k == join_names(body));
            assert(k == e);
            assert(path_components(k) =~= c);
        } else {
            let first = body[0];
            assert(is_name_piece(first));
            assert(first != root_dir()) by {
                assert(root_dir()[0] == '/');
            }
            assert(k == join_names(body));
            lemma_join_starts_with_first(body);
            assert(k[0] == first[0]) by {
                assert(k.subrange(0, first.len() as int)[0] == k[0]);
            }
            assert(first[0] != '/');
            if first.len() >= 2 {
                assert(k[1] == first[1]) by {
                    assert(k.subrange(0, first.len() as int)[1] == k[1]);
                }
                assert(first[1] != '/');
            } else {
                if first[0] == '.' {
                    assert(first =~= cur_dir());
                }
            }
            assert(path_head(k) == Seq::<Seq<char>>::empty());
            assert(path_components(k) =~= c);
        }
    }
}

/// Two paths share a key exactly when they are equal as `Path`s: keys tell
/// different paths apart.
pub proof fn law_keys_tell_paths_apart(p: Seq<char>, q: Seq<char>)
    ensures
        path_key(p) == path_key(q) <==> same_path(p, q),
{
    law_key_is_the_same_path(p);
    law_key_is_the_same_path(q);
}

/// Reading what was just stored gives it back.
pub proof fn law_get_after_put(
    entries: Seq<CacheEntry>,
    key: Seq<char>,
    value: ImageData,
    capacity: nat,
)
    requires
        keys_unique(entries),
        entries.len() <= capacity,
        capacity > 0,
    ensures
        lookup(after_put(entries, key, value, capacity), key) == Some(value),
{
    let out = after_put(entries, key, value, capacity);
    lemma_after_put_keeps_shape(entries, key, value, capacity);
    let last = out.len() - 1;
    assert(out[last].0 == key);
    assert(has_key(out, key));
    let i = key_index(out, key);
    if i != last {
        assert(out[i].0 == out[last].0);
    }
}

/// Storing under a new key in a full cache removes the least recently used
/// entry and keeps every other.
pub proof fn law_full_cache_evicts_least_recent(
    entries: Seq<CacheEntry>,
    key: Seq<char>,
    value: ImageData,
    capacity: nat,
)
    requires
        keys_unique(entries),
        entries.len() == capacity,
        capacity > 0,
        !has_key(entries, key),
    ensures
        !has_key(after_put(entries, key, value, capacity), entries[0].0),
        forall|i: int|
            1 <= i < entries.len() ==> lookup(
                after_put(entries, key, value, capacity),
                #[trigger] entries[i].0,
            ) == Some(entries[i].1),
        after_put(entries, key, value, capacity).len() == capacity,
{
    let out = after_put(entries, key, value, capacity);
    lemma_after_put_keeps_shape(entries, key, value, capacity);
    if has_key(out, entries[0].0) {
        let j = choose|j: int| 0 <= j < out.len() && (#[trigger] out[j]).0 == entries[0].0;
        if j == out.len() - 1 {
            assert(out[j].0 == key);
            assert(has_key(entries, key));
        } else {
            assert(out[j] == entries[j + 1]);
            assert(entries[0].0 != entries[j + 1].0);
        }
    }
    assert forall|i: int| 1 <= i < entries.len() implies lookup(out, #[trigger] entries[i].0)
        == Some(entries[i].1) by {
        assert(out[i - 1] == entries[i]);
        assert(has_key(out, entries[i].0));
        let k = key_index(out, entries[i].0);
        if k != i - 1 {
            if k < i - 1 {
                assert(out[k].0 != out[i - 1].0);
            } else {
                assert(out[i - 1].0 != out[k].0);
            }
        }
    }
}

/// Reading changes no image that the cache gives for any key.
pub proof fn law_get_keeps_contents(entries: Seq<CacheEntry>, key: Seq<char>, other: Seq<char>)
    requires
        keys_unique(entries),
    ensures
        lookup(after_get(entries, key), other) == lookup(entries, other),
{
    lemma_after_get_keeps_shape(entries, key);
    if has_key(entries, key) {
        let i = key_index(entries, key);
        let out = after_get(entries, key);
        let to_out = |a: int| if a == i {
            out.len() - 1
        } else if a < i {
            a
        } else {
            a - 1
        };
        if has_key(entries, other) {
            let a = key_index(entries, other);
            let b = to_out(a);
            assert(out[b] == entries[a]);
            assert(has_key(out, other));
            let c = key_index(out, other);
            if c != b {
                if c < b {
                    assert(out[c].0 != out[b].0);
                } else {
                    assert(out[b].0 != out[c].0);
                }
            }
        } else {
            if has_key(out, other) {
                let c = choose|c: int| 0 <= c < out.len() && (#[trigger] out[c]).0 == other;
                if c == out.len() - 1 {
                    assert(out[c] == entries[i]);
                } else if c < i {
                    assert(out[c] == entries[c]);
                } else {
                    assert(out[c] == entries[c + 1]);
                }
            }
        }
    }
}

/// Reading a cached key makes its entry the most recently used.
pub proof fn law_get_makes_most_recent(entries: Seq<CacheEntry>, key: Seq<char>)
    requires
        has_key(entries, key),
    ensures
        after_get(entries, key).last().0 == key,
        after_get(entries, key).len() == entries.len(),
{
}

} // verus!
