//! The manifest client: memoizes the fetched manifest, answers filtered
//! and sorted listings, resolves document requests against a growing
//! cache, and classifies HTTP statuses into the error taxonomy.

use vstd::multiset::Multiset;
use vstd::prelude::*;

use crate::dates::spec_parse_date;
use crate::models::{entry_views, meta_lookup, EntryView, Img, JsonEntry};
use crate::text::{lex_le, lemma_lex_le_total, lemma_lex_le_trans};

verus! {

/// The date key a listing sorts by: the entry's own date field.
pub open spec fn entry_date_key(e: EntryView) -> Option<i64> {
    match e.date {
        Some(d) => spec_parse_date(d),
        None => None,
    }
}

/// The date key the metadata-based sort uses: the `date` value of the
/// entry's frontmatter metadata.
pub open spec fn meta_date_key(e: EntryView) -> Option<i64> {
    match meta_lookup(e.metadata, "date"@) {
        Some(d) => spec_parse_date(d),
        None => None,
    }
}

/// The key an entry sorts by, from its date field or its metadata.
pub open spec fn sort_key(e: EntryView, use_meta: bool) -> Option<i64> {
    if use_meta {
        meta_date_key(e)
    } else {
        entry_date_key(e)
    }
}

/// The listing order: entries with parseable dates first (newest first,
/// or oldest first when `newest_first` is false), dated entries before
/// undated ones, and undated entries by name.
pub open spec fn entry_le(a: EntryView, b: EntryView, use_meta: bool, newest_first: bool) -> bool {
    match (sort_key(a, use_meta), sort_key(b, use_meta)) {
        (Some(x), Some(y)) => if newest_first {
            x >= y
        } else {
            x <= y
        },
        (Some(x), None) => true,
        (None, Some(y)) => false,
        (None, None) => lex_le(a.name, b.name),
    }
}

/// The sequence is ordered by `entry_le`.
pub open spec fn sorted_le(s: Seq<EntryView>, use_meta: bool, newest_first: bool) -> bool {
    forall|i: int, j: int| 0 <= i < j < s.len() ==> entry_le(s[i], s[j], use_meta, newest_first)
}

/// `entry_le` is total.
pub proof fn lemma_entry_le_total(a: EntryView, b: EntryView, use_meta: bool, newest_first: bool)
    ensures
        entry_le(a, b, use_meta, newest_first) || entry_le(b, a, use_meta, newest_first),
{
    if sort_key(a, use_meta) is None && sort_key(b, use_meta) is None {
        lemma_lex_le_total(a.name, b.name);
    }
}

/// `entry_le` is transitive.
pub proof fn lemma_entry_le_trans(
    a: EntryView,
    b: EntryView,
    c: EntryView,
    use_meta: bool,
    newest_first: bool,
)
    requires
        entry_le(a, b, use_meta, newest_first),
        entry_le(b, c, use_meta, newest_first),
    ensures
        entry_le(a, c, use_meta, newest_first),
{
    if sort_key(a, use_meta) is None && sort_key(b, use_meta) is None && sort_key(c, use_meta)
        is None {
        lemma_lex_le_trans(a.name, b.name, c.name);
    }
}

/// Decides `entry_le` on two entries.
fn entry_le_exec(a: &JsonEntry, b: &JsonEntry, use_meta: bool, newest_first: bool) -> (r: bool)
    ensures
        r == entry_le(a@, b@, use_meta, newest_first),
{
    let ka = entry_key_exec(a, use_meta);
    let kb = entry_key_exec(b, use_meta);
    match (ka, kb) {
        (Some(x), Some(y)) => if newest_first {
            x >= y
        } else {
            x <= y
        },
        (Some(_), None) => true,
        (None, Some(_)) => false,
        (None, None) => crate::text::str_le(a.name.as_str(), b.name.as_str()),
    }
}

/// Computes an entry's sort key.
fn entry_key_exec(e: &JsonEntry, use_meta: bool) -> (r: Option<i64>)
    ensures
        r == sort_key(e@, use_meta),
{
    if use_meta {
        match e.metadata.get("date") {
            Some(d) => crate::dates::parse_date_to_utc(d.as_str()),
            None => None,
        }
    } else {
        match &e.date {
            Some(d) => crate::dates::parse_date_to_utc(d.as_str()),
            None => None,
        }
    }
}

/// Inserting an element anywhere adds exactly it to the multiset.
proof fn lemma_to_multiset_insert(s: Seq<EntryView>, i: int, a: EntryView)
    requires
        0 <= i <= s.len(),
    ensures
        s.insert(i, a).to_multiset() =~= s.to_multiset().insert(a),
{
    broadcast use vstd::seq_lib::group_to_multiset_ensures;

    let x = s.insert(i, a);
    assert(x.remove(i) =~= s);
    assert(x[i] == a);
    assert(x.remove(i).to_multiset() =~= x.to_multiset().remove(a));
    assert(x.contains(a));
    assert(x.to_multiset().count(a) > 0);
}

/// Entry views commute with removing a position.
proof fn lemma_views_remove(s: Seq<JsonEntry>, i: int)
    requires
        0 <= i < s.len(),
    ensures
        entry_views(s.remove(i)) =~= entry_views(s).remove(i),
{
}

/// Entry views commute with inserting a position.
proof fn lemma_views_insert(s: Seq<JsonEntry>, i: int, e: JsonEntry)
    requires
        0 <= i <= s.len(),
    ensures
        entry_views(s.insert(i, e)) =~= entry_views(s).insert(i, e@),
{
}

/// Sorts entries in place by `entry_le`: the result is ordered, and it
/// holds exactly the entries it started with.
fn sort_entries(entries: &mut Vec<JsonEntry>, use_meta: bool, newest_first: bool)
    ensures
        sorted_le(entry_views(final(entries)@), use_meta, newest_first),
        entry_views(final(entries)@).to_multiset() == entry_views(old(entries)@).to_multiset(),
{
    broadcast use vstd::seq_lib::group_to_multiset_ensures;

    let ghost orig = entry_views(entries@);
    let mut out: Vec<JsonEntry> = Vec::new();
    proof {
        assert(entry_views(out@) =~= Seq::<EntryView>::empty());
        assert(entry_views(out@).to_multiset().add(entry_views(entries@).to_multiset())
            =~= orig.to_multiset());
    }
    while entries.len() > 0
        invariant
            sorted_le(entry_views(out@), use_meta, newest_first),
            entry_views(out@).to_multiset().add(entry_views(entries@).to_multiset())
                == orig.to_multiset(),
        decreases entries@.len(),
    {
        let ghost pre_rest = entry_views(entries@);
        let item = entries.remove(0);
        proof {
            lemma_views_remove(entries@.insert(0, item), 0);
            assert(entries@.insert(0, item).remove(0) =~= entries@);
            lemma_views_insert(entries@, 0, item);
            assert(pre_rest =~= entry_views(entries@).insert(0, item@));
            lemma_to_multiset_insert(entry_views(entries@), 0, item@);
            assert(pre_rest.to_multiset() =~= entry_views(entries@).to_multiset().insert(item@));
        }
        let ghost sorted_pre = entry_views(out@);
        let n = out.len();
        let mut pos: usize = 0;
        while pos < n && entry_le_exec(&out[pos], &item, use_meta, newest_first)
            invariant
                n == out@.len(),
                0 <= pos <= n,
                sorted_pre == entry_views(out@),
                forall|i: int|
                    0 <= i < pos ==> entry_le(
                        entry_views(out@)[i],
                        item@,
                        use_meta,
                        newest_first,
                    ),
            decreases n - pos,
        {
            pos += 1;
        }
        proof {
            if pos < n {
                lemma_entry_le_total(sorted_pre[pos as int], item@, use_meta, newest_first);
                assert(entry_le(item@, sorted_pre[pos as int], use_meta, newest_first));
            }
        }
        out.insert(pos, item);
        proof {
            let news = entry_views(out@);
            lemma_views_insert(out@.remove(pos as int), pos as int, item);
            assert(out@.remove(pos as int).insert(pos as int, item) =~= out@);
            assert(news =~= sorted_pre.insert(pos as int, item@)) by {
                lemma_views_insert(out@.remove(pos as int), pos as int, item);
                assert(entry_views(out@.remove(pos as int)) =~= sorted_pre) by {
                    lemma_views_remove(out@, pos as int);
                }
            }
            lemma_to_multiset_insert(sorted_pre, pos as int, item@);
            let gp = pos as int;
            assert forall|i: int, j: int|
                0 <= i < j < news.len() implies entry_le(
                news[i],
                news[j],
                use_meta,
                newest_first,
            ) by {
                if j < gp {
                    assert(news[i] == sorted_pre[i] && news[j] == sorted_pre[j]);
                } else if i < gp && j == gp {
                    assert(news[i] == sorted_pre[i] && news[j] == item@);
                } else if i < gp && j > gp {
                    assert(news[i] == sorted_pre[i] && news[j] == sorted_pre[j - 1]);
                    assert(entry_le(sorted_pre[i], sorted_pre[j - 1], use_meta, newest_first));
                } else if i == gp && j > gp {
                    assert(news[i] == item@ && news[j] == sorted_pre[j - 1]);
                    if j - 1 == gp {
                        assert(entry_le(item@, sorted_pre[gp], use_meta, newest_first));
                    } else {
                        assert(entry_le(sorted_pre[gp], sorted_pre[j - 1], use_meta, newest_first));
                        lemma_entry_le_trans(
                            item@,
                            sorted_pre[gp],
                            sorted_pre[j - 1],
                            use_meta,
                            newest_first,
                        );
                    }
                } else {
                    assert(news[i] == sorted_pre[i - 1] && news[j] == sorted_pre[j - 1]);
                }
            }
        }
    }
    proof {
        assert(entry_views(entries@).to_multiset() =~= Seq::<EntryView>::empty().to_multiset());
        assert(entry_views(out@).to_multiset().add(Multiset::<EntryView>::empty())
            =~= entry_views(out@).to_multiset());
        assert(Seq::<EntryView>::empty().to_multiset() =~= Multiset::<EntryView>::empty());
    }
    *entries = out;
}

/// Sorts entries by the `date` key of their frontmatter metadata:
/// entries with parseable dates first (direction given by
/// `newest_first`), dated before undated, undated by name. The entries
/// themselves are kept, reordered.
pub fn sort_entries_by_date(entries: &mut Vec<JsonEntry>, newest_first: bool)
    ensures
        sorted_le(entry_views(final(entries)@), true, newest_first),
        entry_views(final(entries)@).to_multiset() == entry_views(old(entries)@).to_multiset(),
{
    sort_entries(entries, true, newest_first);
}


/// Whether `prefix` begins `s`.
pub open spec fn has_prefix(s: Seq<char>, prefix: Seq<char>) -> bool {
    crate::text::matches_at(s, prefix, 0)
}

/// An entry survives a listing query: its path starts with the prefix,
/// and when a type filter is given its type equals it exactly.
pub open spec fn entry_keeps(e: EntryView, prefix: Seq<char>, filter: Option<Seq<char>>) -> bool {
    has_prefix(e.path, prefix) && match filter {
        Some(f) => e.entry_type == f,
        None => true,
    }
}

/// The entries a listing query keeps, in manifest order.
pub open spec fn query_filter(
    files: Seq<EntryView>,
    prefix: Seq<char>,
    filter: Option<Seq<char>>,
) -> Seq<EntryView> {
    files.filter(|e: EntryView| entry_keeps(e, prefix, filter))
}

/// Appending an entry extends the kept entries by it exactly when the
/// query keeps it.
proof fn lemma_query_filter_push(
    s: Seq<EntryView>,
    e: EntryView,
    prefix: Seq<char>,
    filter: Option<Seq<char>>,
)
    ensures
        query_filter(s.push(e), prefix, filter) == query_filter(s, prefix, filter) + (
        if entry_keeps(e, prefix, filter) {
            seq![e]
        } else {
            Seq::<EntryView>::empty()
        }),
{
    reveal_with_fuel(Seq::filter, 2);
    assert(s.push(e).drop_last() =~= s);
    assert(s.push(e).last() == e);
    assert(query_filter(s.push(e), prefix, filter) =~= query_filter(s, prefix, filter) + (
    if entry_keeps(e, prefix, filter) {
        seq![e]
    } else {
        Seq::<EntryView>::empty()
    }));
}

/// Length of the leading run of `/` characters.
pub open spec fn slash_run(s: Seq<char>) -> nat
    decreases s.len(),
{
    if s.len() == 0 {
        0
    } else if s[0] == '/' {
        1 + slash_run(s.subrange(1, s.len() as int))
    } else {
        0
    }
}

/// A path is blank when it holds only whitespace.
pub open spec fn spec_blank(s: Seq<char>) -> bool {
    crate::text::ws_prefix_len(s) == s.len()
}

/// A document path is absolute when it carries its own scheme.
pub open spec fn spec_absolute(p: Seq<char>) -> bool {
    has_prefix(p, "http://"@) || has_prefix(p, "https://"@)
}

/// The URL a document path resolves to: an absolute path passes
/// through; a relative one is joined to the base URL with a single
/// slash, its own leading slashes dropped.
pub open spec fn resolve_doc_url(base: Seq<char>, p: Seq<char>) -> Seq<char> {
    if spec_absolute(p) {
        p
    } else {
        base + "/"@ + p.subrange(slash_run(p) as int, p.len() as int)
    }
}

/// What the runtime must do for a document request: serve the cached
/// body, or fetch the resolved URL.
#[derive(Debug)]
pub enum DocumentAction {
    /// The resolved URL was fetched before; its cached body.
    Cached(String),
    /// The resolved URL must be fetched, then stored.
    Fetch(String),
}

/// The manifest client: a base URL, the memoized manifest, and the
/// document cache, keyed by resolved URL.
#[derive(Debug)]
pub struct ContentServiceClient {
    pub base_url: String,
    pub files: Vec<JsonEntry>,
    pub documents: crate::models::MetaMap,
}

/// The client has not yet memoized a manifest.
pub open spec fn spec_needs_fetch(c: ContentServiceClient) -> bool {
    c.files@.len() == 0
}

impl ContentServiceClient {
    /// The document cache's keys are distinct.
    pub open spec fn wf(&self) -> bool {
        self.documents.wf()
    }

    /// A client against the default base URL, with empty caches.
    pub fn new() -> (r: ContentServiceClient)
        ensures
            r.base_url@ == "https://oli.fm"@,
            r.files@.len() == 0,
            r.documents@.len() == 0,
            r.wf(),
    {
        ContentServiceClient {
            base_url: "https://oli.fm".to_owned(),
            files: Vec::new(),
            documents: crate::models::MetaMap::new(),
        }
    }

    /// A client against a custom base URL, with empty caches.
    pub fn with_base_url(base_url: &str) -> (r: ContentServiceClient)
        ensures
            r.base_url@ == base_url@,
            r.files@.len() == 0,
            r.documents@.len() == 0,
            r.wf(),
    {
        ContentServiceClient {
            base_url: base_url.to_owned(),
            files: Vec::new(),
            documents: crate::models::MetaMap::new(),
        }
    }

    /// The base URL being used.
    pub fn base_url(&self) -> (r: &str)
        ensures
            r@ == self.base_url@,
    {
        self.base_url.as_str()
    }

    /// The spec-level base URL, for contracts of other functions.
    pub open spec fn spec_base_url(&self) -> Seq<char> {
        self.base_url@
    }

    /// The URL of the manifest resource.
    pub fn directory_structure_url(&self) -> (r: String)
        ensures
            r@ == self.base_url@ + "/directory_structure.json"@,
    {
        let mut u = self.base_url.clone();
        u.append("/directory_structure.json");
        u
    }

    /// Whether a manifest fetch is due, and from where: a client that
    /// has memoized a manifest needs none; one that has not must fetch
    /// the manifest URL and store the parsed entries.
    pub fn manifest_fetch_url(&self) -> (r: Option<String>)
        ensures
            spec_needs_fetch(*self) ==> (r matches Some(u) && u@ == self.base_url@
                + "/directory_structure.json"@),
            !spec_needs_fetch(*self) ==> r is None,
    {
        if self.files.is_empty() {
            Some(self.directory_structure_url())
        } else {
            None
        }
    }

    /// Memoizes a fetched manifest.
    pub fn store_manifest(&mut self, items: Vec<JsonEntry>)
        ensures
            final(self).files == items,
            final(self).base_url@ == old(self).base_url@,
            final(self).documents@ == old(self).documents@,
            final(self).wf() == old(self).wf(),
    {
        self.files = items;
    }

    /// Lists the entries whose path starts with `path` and, when a type
    /// filter is given, whose type equals it; the result is sorted by
    /// the entries' dates, newest first, dated entries before undated,
    /// undated entries by name.
    pub fn query_content(&self, path: &str, filter: Option<&str>) -> (r: Vec<JsonEntry>)
        ensures
            sorted_le(entry_views(r@), false, true),
            entry_views(r@).to_multiset() == query_filter(
                entry_views(self.files@),
                path@,
                match filter {
                    Some(f) => Some(f@),
                    None => None,
                },
            ).to_multiset(),
    {
        let ghost filt: Option<Seq<char>> = match filter {
            Some(f) => Some(f@),
            None => None,
        };
        let ghost all = entry_views(self.files@);
        let n = self.files.len();
        let plen = path.unicode_len();
        let mut out: Vec<JsonEntry> = Vec::new();
        let mut i: usize = 0;
        proof {
            assert(all.subrange(0, 0) =~= Seq::<EntryView>::empty());
            reveal_with_fuel(Seq::filter, 1);
            assert(query_filter(Seq::<EntryView>::empty(), path@, filt) =~= Seq::<
                EntryView,
            >::empty());
            assert(entry_views(out@) =~= Seq::<EntryView>::empty());
        }
        while i < n
            invariant
                n == self.files@.len(),
                plen == path@.len(),
                0 <= i <= n,
                all == entry_views(self.files@),
                filt == (match filter {
                    Some(f) => Some(f@),
                    None => None,
                }),
                entry_views(out@) == query_filter(all.subrange(0, i as int), path@, filt),
            decreases n - i,
        {
            let e = &self.files[i];
            let mut keep = plen <= e.path.unicode_len() && crate::text::check_match_at(
                e.path.as_str(),
                path,
                0,
            );
            if keep {
                if let Some(f) = filter {
                    keep = crate::text::str_eq(e.entry_type.as_str(), f);
                }
            }
            proof {
                if path@.len() > self.files@[i as int].path@.len() {
                    assert(!crate::text::matches_at(self.files@[i as int].path@, path@, 0));
                }
                assert(keep == entry_keeps(all[i as int], path@, filt));
            }
            let ghost pre_views = entry_views(out@);
            if keep {
                let copy = e.duplicate();
                out.push(copy);
                proof {
                    assert(entry_views(out@) =~= pre_views.push(all[i as int]));
                }
            }
            proof {
                let prefix = all.subrange(0, i as int);
                let prefix1 = all.subrange(0, i + 1);
                assert(prefix1 =~= prefix.push(all[i as int]));
                lemma_query_filter_push(prefix, all[i as int], path@, filt);
                if keep {
                    assert(entry_views(out@) =~= query_filter(prefix, path@, filt) + seq![
                        all[i as int],
                    ]);
                } else {
                    assert(entry_views(out@) =~= query_filter(prefix, path@, filt) + Seq::<
                        EntryView,
                    >::empty());
                }
                assert(entry_views(out@) =~= query_filter(prefix1, path@, filt));
            }
            i += 1;
        }
        proof {
            assert(all.subrange(0, n as int) =~= all);
        }
        sort_entries(&mut out, false, true);
        out
    }

    /// Resolves a document path to the URL it is fetched from.
    pub fn resolve_document_url(&self, path: &str) -> (r: String)
        ensures
            r@ == resolve_doc_url(self.base_url@, path@),
    {
        let n = path.unicode_len();
        proof {
            reveal_strlit("http://");
            reveal_strlit("https://");
            reveal_strlit("/");
        }
        let p1 = "http://";
        let p2 = "https://";
        if n >= 7 && crate::text::check_match_at(path, p1, 0) {
            return path.to_owned();
        }
        if n >= 8 && crate::text::check_match_at(path, p2, 0) {
            return path.to_owned();
        }
        let mut k: usize = 0;
        proof {
            assert(path@.subrange(0, n as int) =~= path@);
        }
        while k < n && path.get_char(k) == '/'
            invariant
                n == path@.len(),
                0 <= k <= n,
                slash_run(path@.subrange(k as int, n as int)) + k == slash_run(path@),
            decreases n - k,
        {
            let ghost pre = path@.subrange(k as int, n as int);
            proof {
                assert(pre[0] == path@[k as int]);
                assert(pre.subrange(1, pre.len() as int) =~= path@.subrange(k + 1, n as int));
            }
            k += 1;
        }
        proof {
            let pre = path@.subrange(k as int, n as int);
            if k < n {
                assert(pre[0] == path@[k as int]);
                assert(slash_run(pre) == 0);
            } else {
                assert(pre =~= Seq::<char>::empty());
            }
            assert(k == slash_run(path@));
        }
        let mut u = self.base_url.clone();
        u.append("/");
        u.append(path.substring_char(k, n));
        u
    }

    /// What a document request must do: a blank path is invalid input;
    /// otherwise the resolved URL's cached body is served, or the URL
    /// must be fetched.
    pub fn document_request(&self, path: &str) -> (r: Result<
        DocumentAction,
        crate::error::ContentServiceError,
    >)
        ensures
            spec_blank(path@) ==> (r matches Err(e) && (e matches
            crate::error::ContentServiceError::InvalidInput(m) && m@ == "Path cannot be empty"@)),
            !spec_blank(path@) ==> (match meta_lookup(
                self.documents@,
                resolve_doc_url(self.base_url@, path@),
            ) {
                Some(body) => r matches Ok(a) && (a matches DocumentAction::Cached(b) && b@
                    == body),
                None => r matches Ok(a) && (a matches DocumentAction::Fetch(u) && u@
                    == resolve_doc_url(self.base_url@, path@)),
            }),
    {
        let n = path.unicode_len();
        if crate::text::ws_prefix_end(path) == n {
            return Err(
                crate::error::ContentServiceError::InvalidInput("Path cannot be empty".to_owned()),
            );
        }
        let url = self.resolve_document_url(path);
        match self.documents.get(url.as_str()) {
            Some(body) => Ok(DocumentAction::Cached(body.clone())),
            None => Ok(DocumentAction::Fetch(url)),
        }
    }

    /// Caches a fetched document body under its resolved URL.
    pub fn store_document(&mut self, url: String, content: String)
        requires
            old(self).wf(),
        ensures
            final(self).wf(),
            meta_lookup(final(self).documents@, url@) == Some(content@),
            forall|k: Seq<char>| k != url@ ==> meta_lookup(final(self).documents@, k)
                == meta_lookup(old(self).documents@, k),
            final(self).base_url@ == old(self).base_url@,
            final(self).files@ == old(self).files@,
    {
        self.documents.insert(url, content);
    }

    /// The entry whose path equals `path` ignoring case, if any.
    pub fn get_entry_by_path(&self, path: &str) -> (r: Option<&JsonEntry>)
        ensures
            match r {
                Some(e) => exists|i: int|
                    0 <= i < self.files@.len() && *e == self.files@[i] && crate::text::lower_of(
                        e@.path,
                    ) == crate::text::lower_of(path@),
                None => forall|i: int|
                    0 <= i < self.files@.len() ==> crate::text::lower_of(
                        #[trigger] self.files@[i]@.path,
                    ) != crate::text::lower_of(path@),
            },
    {
        let target = crate::text::lowercase(path);
        let n = self.files.len();
        let mut i: usize = 0;
        while i < n
            invariant
                n == self.files@.len(),
                0 <= i <= n,
                target@ == crate::text::lower_of(path@),
                forall|j: int|
                    0 <= j < i ==> crate::text::lower_of(#[trigger] self.files@[j]@.path)
                        != crate::text::lower_of(path@),
            decreases n - i,
        {
            let lowered = crate::text::lowercase(self.files[i].path.as_str());
            if crate::text::str_eq(lowered.as_str(), target.as_str()) {
                return Some(&self.files[i]);
            }
            i += 1;
        }
        None
    }

    /// The images of the entry whose path equals `entry_path` exactly,
    /// or an empty list when no entry has that path.
    pub fn resolve_images_for(&self, entry_path: &str) -> (r: Vec<Img>)
        ensures
            (exists|i: int| 0 <= i < self.files@.len() && #[trigger] self.files@[i]@.path
                == entry_path@) ==> exists|i: int|
                0 <= i < self.files@.len() && #[trigger] self.files@[i]@.path == entry_path@
                    && (forall|j: int| 0 <= j < i ==> self.files@[j]@.path != entry_path@) && r@
                    == self.files@[i].images@,
            (forall|i: int| 0 <= i < self.files@.len() ==> #[trigger] self.files@[i]@.path
                != entry_path@) ==> r@.len() == 0,
    {
        let n = self.files.len();
        let mut i: usize = 0;
        while i < n
            invariant
                n == self.files@.len(),
                0 <= i <= n,
                forall|j: int| 0 <= j < i ==> #[trigger] self.files@[j]@.path != entry_path@,
            decreases n - i,
        {
            if crate::text::str_eq(self.files[i].path.as_str(), entry_path) {
                proof {
                    assert(self.files@[i as int]@.path == entry_path@);
                }
                let imgs = crate::models::duplicate_imgs(&self.files[i].images);
                proof {
                    assert(imgs@ == self.files@[i as int].images@);
                }
                return imgs;
            }
            i += 1;
        }
        Vec::new()
    }
}

/// Classifies an HTTP status for the content service: 404 is not found,
/// 403 is rate limited, any 2xx is success, and everything else is a
/// network error naming the status.
pub fn classify_status(status: u16) -> (r: Result<(), crate::error::ContentServiceError>)
    ensures
        status == 404 ==> r == Err::<(), crate::error::ContentServiceError>(
            crate::error::ContentServiceError::NotFound,
        ),
        status == 403 ==> r == Err::<(), crate::error::ContentServiceError>(
            crate::error::ContentServiceError::RateLimited,
        ),
        200 <= status <= 299 ==> r is Ok,
        status != 404 && status != 403 && !(200 <= status <= 299) ==> (r matches Err(e) && (e
            matches crate::error::ContentServiceError::NetworkError(m) && m@ == "HTTP error: "@
            + crate::text::dec_str(status as nat))),
{
    if status == 404 {
        Err(crate::error::ContentServiceError::NotFound)
    } else if status == 403 {
        Err(crate::error::ContentServiceError::RateLimited)
    } else if 200 <= status && status <= 299 {
        Ok(())
    } else {
        let mut m = "HTTP error: ".to_owned();
        let num = crate::text::u64_to_string(status as u64);
        m.append(num.as_str());
        Err(crate::error::ContentServiceError::NetworkError(m))
    }
}

/// The client state after one manifest fetch: a client that has not
/// memoized a manifest stores what the fetch returned; one that has is
/// untouched and no fetch happens.
pub open spec fn after_manifest_fetch(
    c: ContentServiceClient,
    fetched: Vec<JsonEntry>,
) -> ContentServiceClient {
    if spec_needs_fetch(c) {
        ContentServiceClient { base_url: c.base_url, files: fetched, documents: c.documents }
    } else {
        c
    }
}

/// The manifest a fetch call serves: the memoized entries after the
/// call.
pub open spec fn manifest_served(c: ContentServiceClient, fetched: Vec<JsonEntry>) -> Seq<
    EntryView,
> {
    entry_views(after_manifest_fetch(c, fetched).files@)
}

/// The memoization law of the manifest fetch: once a first call has run
/// (storing a non-empty manifest if one was needed), a second call finds
/// the cache filled, issues no network fetch, leaves the client exactly
/// as it was, and serves a manifest identical to the first call's —
/// whatever a second response would have held.
pub proof fn lemma_fetch_manifest_idempotent(
    c: ContentServiceClient,
    first: Vec<JsonEntry>,
    second: Vec<JsonEntry>,
)
    requires
        spec_needs_fetch(c) ==> first@.len() > 0,
    ensures
        !spec_needs_fetch(after_manifest_fetch(c, first)),
        after_manifest_fetch(after_manifest_fetch(c, first), second) == after_manifest_fetch(
            c,
            first,
        ),
        manifest_served(after_manifest_fetch(c, first), second) == manifest_served(c, first),
{
}

/// The callback-flavoured client: the same state, driven by an event
/// loop that hands results to callbacks.
#[derive(Debug)]
pub struct ContentServiceClientCallback {
    pub inner: ContentServiceClient,
}

impl ContentServiceClientCallback {
    /// A callback client against the default base URL.
    pub fn new() -> (r: ContentServiceClientCallback)
        ensures
            r.inner.spec_base_url() == "https://oli.fm"@,
            r.inner.files@.len() == 0,
            r.inner.wf(),
    {
        ContentServiceClientCallback { inner: ContentServiceClient::new() }
    }

    /// A callback client against a custom base URL.
    pub fn with_base_url(base_url: &str) -> (r: ContentServiceClientCallback)
        ensures
            r.inner.spec_base_url() == base_url@,
            r.inner.files@.len() == 0,
            r.inner.wf(),
    {
        ContentServiceClientCallback { inner: ContentServiceClient::with_base_url(base_url) }
    }

    /// The base URL being used.
    pub fn base_url(&self) -> (r: &str)
        ensures
            r@ == self.inner.spec_base_url(),
    {
        self.inner.base_url()
    }
}

} // verus!
