//! Data model: manifest entries, image references, and the string-keyed
//! metadata map that frontmatter extraction produces.

use vstd::prelude::*;

verus! {

/// A reference to a catalogued image: its perceptual-hash string, its
/// aspect ratio rendered as `"W/H"`, its file name and its root-relative
/// path.
#[derive(Debug)]
pub struct Img {
    pub blurhash: String,
    pub aspect_ratio: String,
    pub name: String,
    pub path: String,
}

impl Img {
    /// A deep copy whose fields equal the original's.
    pub fn duplicate(&self) -> (r: Img)
        ensures
            r == *self,
    {
        Img {
            blurhash: self.blurhash.clone(),
            aspect_ratio: self.aspect_ratio.clone(),
            name: self.name.clone(),
            path: self.path.clone(),
        }
    }
}

/// A string-keyed, string-valued metadata map with distinct keys, kept in
/// insertion order. Its view is the sequence of key/value pairs; lookups
/// are specified through `meta_lookup`.
#[derive(Debug)]
pub struct MetaMap {
    pairs: Vec<(String, String)>,
}

/// The value bound to `key` in `pairs`: the first pair whose key matches.
pub open spec fn meta_lookup(pairs: Seq<(Seq<char>, Seq<char>)>, key: Seq<char>) -> Option<
    Seq<char>,
>
    decreases pairs.len(),
{
    if pairs.len() == 0 {
        None
    } else if pairs[0].0 == key {
        Some(pairs[0].1)
    } else {
        meta_lookup(pairs.subrange(1, pairs.len() as int), key)
    }
}

impl View for MetaMap {
    type V = Seq<(Seq<char>, Seq<char>)>;

    closed spec fn view(&self) -> Seq<(Seq<char>, Seq<char>)> {
        Seq::new(self.pairs@.len(), |i: int| (self.pairs@[i].0@, self.pairs@[i].1@))
    }
}

impl MetaMap {
    /// All keys in the map are distinct.
    pub open spec fn wf(&self) -> bool {
        forall|i: int, j: int| 0 <= i < j < self@.len() ==> self@[i].0 != self@[j].0
    }

    /// An empty metadata map.
    pub fn new() -> (r: MetaMap)
        ensures
            r@ =~= Seq::<(Seq<char>, Seq<char>)>::empty(),
            r.wf(),
    {
        MetaMap { pairs: Vec::new() }
    }

    /// Number of entries.
    pub fn len(&self) -> (r: usize)
        ensures
            r == self@.len(),
    {
        self.pairs.len()
    }

    /// The pair at position `i`, for iteration from unverified callers.
    pub fn pair_at(&self, i: usize) -> (r: (&String, &String))
        requires
            i < self@.len(),
        ensures
            r.0@ == self@[i as int].0,
            r.1@ == self@[i as int].1,
    {
        (&self.pairs[i].0, &self.pairs[i].1)
    }

    /// Position of the first pair holding `key`, if any.
    fn position(&self, key: &str) -> (r: Option<usize>)
        ensures
            match r {
                Some(i) => i < self@.len() && self@[i as int].0 == key@ && forall|j: int|
                    0 <= j < i ==> self@[j].0 != key@,
                None => forall|i: int| 0 <= i < self@.len() ==> self@[i].0 != key@,
            },
    {
        let n = self.pairs.len();
        let mut i: usize = 0;
        while i < n
            invariant
                n == self@.len(),
                n == self.pairs@.len(),
                0 <= i <= n,
                forall|j: int| 0 <= j < i ==> self@[j].0 != key@,
            decreases n - i,
        {
            if crate::text::str_eq(self.pairs[i].0.as_str(), key) {
                return Some(i);
            }
            i += 1;
        }
        None
    }

    /// Whether `key` is bound in the map.
    pub fn contains_key(&self, key: &str) -> (r: bool)
        ensures
            r == meta_lookup(self@, key@) is Some,
    {
        match self.position(key) {
            Some(i) => {
                proof {
                    lemma_meta_lookup_at(self@, key@, i as int);
                }
                true
            },
            None => {
                proof {
                    lemma_meta_lookup_absent(self@, key@);
                }
                false
            },
        }
    }

    /// The value bound to `key`, if any.
    pub fn get(&self, key: &str) -> (r: Option<&String>)
        ensures
            match r {
                Some(v) => meta_lookup(self@, key@) == Some(v@),
                None => meta_lookup(self@, key@) is None,
            },
    {
        match self.position(key) {
            Some(i) => {
                proof {
                    lemma_meta_lookup_at(self@, key@, i as int);
                }
                Some(&self.pairs[i].1)
            },
            None => {
                proof {
                    lemma_meta_lookup_absent(self@, key@);
                }
                None
            },
        }
    }

    /// Binds `key` to `value`, replacing any previous binding; a fresh key
    /// is appended, so insertion order is preserved.
    pub fn insert(&mut self, key: String, value: String)
        requires
            old(self).wf(),
        ensures
            final(self).wf(),
            meta_lookup(final(self)@, key@) == Some(value@),
            forall|k: Seq<char>| k != key@ ==> meta_lookup(final(self)@, k) == meta_lookup(
                old(self)@,
                k,
            ),
    {
        let ghost pre = self@;
        match self.position(key.as_str()) {
            Some(i) => {
                let ghost gi = i as int;
                self.pairs.set(i, (key, value));
                proof {
                    assert(self@ =~= pre.update(gi, (pre[gi].0, value@)));
                    lemma_meta_lookup_update_hit(pre, gi, value@);
                    assert forall|k: Seq<char>| k != key@ implies meta_lookup(self@, k)
                        == meta_lookup(pre, k) by {
                        lemma_meta_lookup_update_other(pre, gi, value@, k);
                    }
                }
            },
            None => {
                let ghost gkey = key@;
                let ghost gval = value@;
                self.pairs.push((key, value));
                proof {
                    assert(self@ =~= pre.push((gkey, gval)));
                    lemma_meta_lookup_at(pre.push((gkey, gval)), gkey, pre.len() as int);
                    assert forall|k: Seq<char>| k != gkey implies meta_lookup(self@, k)
                        == meta_lookup(pre, k) by {
                        lemma_meta_lookup_push_other(pre, gkey, gval, k);
                    }
                }
            },
        }
    }
}

/// If position `i` holds the first occurrence of `key`, the lookup
/// returns that pair's value.
pub proof fn lemma_meta_lookup_at(pairs: Seq<(Seq<char>, Seq<char>)>, key: Seq<char>, i: int)
    requires
        0 <= i < pairs.len(),
        pairs[i].0 == key,
        forall|j: int| 0 <= j < i ==> pairs[j].0 != key,
    ensures
        meta_lookup(pairs, key) == Some(pairs[i].1),
    decreases i,
{
    if i > 0 {
        let rest = pairs.subrange(1, pairs.len() as int);
        assert(rest[i - 1] == pairs[i]);
        assert forall|j: int| 0 <= j < i - 1 implies rest[j].0 != key by {
            assert(rest[j] == pairs[j + 1]);
        }
        lemma_meta_lookup_at(rest, key, i - 1);
    }
}

/// If no position holds `key`, the lookup fails.
pub proof fn lemma_meta_lookup_absent(pairs: Seq<(Seq<char>, Seq<char>)>, key: Seq<char>)
    requires
        forall|i: int| 0 <= i < pairs.len() ==> pairs[i].0 != key,
    ensures
        meta_lookup(pairs, key) is None,
    decreases pairs.len(),
{
    if pairs.len() > 0 {
        let rest = pairs.subrange(1, pairs.len() as int);
        assert forall|j: int| 0 <= j < rest.len() implies rest[j].0 != key by {
            assert(rest[j] == pairs[j + 1]);
        }
        lemma_meta_lookup_absent(rest, key);
    }
}

/// Replacing the value at the first occurrence of a key rebinds that key.
proof fn lemma_meta_lookup_update_hit(pairs: Seq<(Seq<char>, Seq<char>)>, i: int, v: Seq<char>)
    requires
        0 <= i < pairs.len(),
        forall|j: int| 0 <= j < i ==> pairs[j].0 != pairs[i].0,
    ensures
        meta_lookup(pairs.update(i, (pairs[i].0, v)), pairs[i].0) == Some(v),
{
    let upd = pairs.update(i, (pairs[i].0, v));
    lemma_meta_lookup_at(upd, pairs[i].0, i);
}

/// Replacing a value in place leaves every other key's binding unchanged.
proof fn lemma_meta_lookup_update_other(
    pairs: Seq<(Seq<char>, Seq<char>)>,
    i: int,
    v: Seq<char>,
    k: Seq<char>,
)
    requires
        0 <= i < pairs.len(),
        k != pairs[i].0,
    ensures
        meta_lookup(pairs.update(i, (pairs[i].0, v)), k) == meta_lookup(pairs, k),
    decreases pairs.len(),
{
    let upd = pairs.update(i, (pairs[i].0, v));
    if i == 0 {
        assert(upd[0].0 == pairs[0].0);
        assert(upd.subrange(1, upd.len() as int) =~= pairs.subrange(1, pairs.len() as int));
    } else {
        let rest = pairs.subrange(1, pairs.len() as int);
        assert(rest[i - 1] == pairs[i]);
        lemma_meta_lookup_update_other(rest, i - 1, v, k);
        assert(upd[0] == pairs[0]);
        assert(upd.subrange(1, upd.len() as int) =~= rest.update(i - 1, (rest[i - 1].0, v)));
    }
}

/// Appending a pair leaves every other key's binding unchanged.
proof fn lemma_meta_lookup_push_other(
    pairs: Seq<(Seq<char>, Seq<char>)>,
    key: Seq<char>,
    v: Seq<char>,
    k: Seq<char>,
)
    requires
        k != key,
    ensures
        meta_lookup(pairs.push((key, v)), k) == meta_lookup(pairs, k),
    decreases pairs.len(),
{
    let ext = pairs.push((key, v));
    if pairs.len() == 0 {
        assert(ext[0].0 == key);
        assert(ext.subrange(1, 1) =~= Seq::<(Seq<char>, Seq<char>)>::empty());
        assert(meta_lookup(Seq::<(Seq<char>, Seq<char>)>::empty(), k) is None);
        assert(meta_lookup(pairs, k) is None);
    } else {
        let rest = pairs.subrange(1, pairs.len() as int);
        lemma_meta_lookup_push_other(rest, key, v, k);
        assert(ext[0] == pairs[0]);
        assert(ext.subrange(1, ext.len() as int) =~= rest.push((key, v)));
    }
}

/// One manifest record: a document file with its path, size, display
/// name, optional date, embedded images and frontmatter metadata.
#[derive(Debug)]
pub struct JsonEntry {
    pub path: String,
    pub entry_type: String,
    pub size: u64,
    pub name: String,
    pub date: Option<String>,
    pub images: Vec<Img>,
    pub metadata: MetaMap,
}


/// The mathematical content of a manifest entry: every field reduced to
/// its view.
pub struct EntryView {
    pub path: Seq<char>,
    pub entry_type: Seq<char>,
    pub size: u64,
    pub name: Seq<char>,
    pub date: Option<Seq<char>>,
    pub images: Seq<Img>,
    pub metadata: Seq<(Seq<char>, Seq<char>)>,
}

impl View for JsonEntry {
    type V = EntryView;

    open spec fn view(&self) -> EntryView {
        EntryView {
            path: self.path@,
            entry_type: self.entry_type@,
            size: self.size,
            name: self.name@,
            date: match self.date {
                Some(d) => Some(d@),
                None => None,
            },
            images: self.images@,
            metadata: self.metadata@,
        }
    }
}

/// The views of a sequence of entries.
pub open spec fn entry_views(s: Seq<JsonEntry>) -> Seq<EntryView> {
    s.map_values(|e: JsonEntry| e@)
}

impl MetaMap {
    /// A deep copy with the same pairs.
    pub fn duplicate(&self) -> (r: MetaMap)
        ensures
            r@ == self@,
    {
        let n = self.pairs.len();
        let mut out: Vec<(String, String)> = Vec::new();
        let mut i: usize = 0;
        while i < n
            invariant
                n == self.pairs@.len(),
                0 <= i <= n,
                out@.len() == i,
                forall|j: int| 0 <= j < i ==> out@[j] == self.pairs@[j],
            decreases n - i,
        {
            let pair = (self.pairs[i].0.clone(), self.pairs[i].1.clone());
            out.push(pair);
            i += 1;
        }
        let r = MetaMap { pairs: out };
        proof {
            assert(r@ =~= self@);
        }
        r
    }
}

/// A deep copy of an image list whose elements equal the originals.
pub fn duplicate_imgs(imgs: &Vec<Img>) -> (r: Vec<Img>)
    ensures
        r@ == imgs@,
{
    let n = imgs.len();
    let mut out: Vec<Img> = Vec::new();
    let mut i: usize = 0;
    while i < n
        invariant
            n == imgs@.len(),
            0 <= i <= n,
            out@.len() == i,
            forall|j: int| 0 <= j < i ==> out@[j] == imgs@[j],
        decreases n - i,
    {
        let img = imgs[i].duplicate();
        out.push(img);
        i += 1;
    }
    proof {
        assert(out@ =~= imgs@);
    }
    out
}

impl JsonEntry {
    /// A deep copy whose view equals the original's.
    pub fn duplicate(&self) -> (r: JsonEntry)
        ensures
            r@ == self@,
    {
        let date = match &self.date {
            Some(d) => Some(d.clone()),
            None => None,
        };
        let r = JsonEntry {
            path: self.path.clone(),
            entry_type: self.entry_type.clone(),
            size: self.size,
            name: self.name.clone(),
            date,
            images: duplicate_imgs(&self.images),
            metadata: self.metadata.duplicate(),
        };
        proof {
            assert(r@ == self@);
        }
        r
    }
}

/// How a listing is rendered by the presentation layer.
pub enum Style {
    Card,
    Photo,
    Music,
}

} // verus!
