//! Cross-referencing of inline image embeds: scans a document for
//! `![[NAME]]` markers and resolves the names against the image catalog.

use vstd::prelude::*;

use crate::models::Img;

verus! {

/// Index of the first `]` at or after `k`, if any.
pub open spec fn first_close(t: Seq<char>, k: nat) -> Option<nat>
    decreases t.len() - k,
{
    if k >= t.len() {
        None
    } else if t[k as int] == ']' {
        Some(k)
    } else {
        first_close(t, k + 1)
    }
}

/// The embed marker starting at position `i`, if one matches there:
/// `![[`, then one or more characters other than `]`, then `]]`. Returns
/// the embedded name and the position just past the marker.
pub open spec fn marker_at(t: Seq<char>, i: nat) -> Option<(Seq<char>, nat)> {
    if i + 3 <= t.len() && t[i as int] == '!' && t[i as int + 1] == '[' && t[i as int + 2] == '[' {
        match first_close(t, i + 3) {
            Some(j) => if i + 3 < j && j + 1 < t.len() && t[j as int + 1] == ']' {
                Some((t.subrange(i as int + 3, j as int), (j + 2) as nat))
            } else {
                None
            },
            None => None,
        }
    } else {
        None
    }
}

/// The names of all embed markers in `t` at or after position `i`, in
/// order of occurrence; matches are non-overlapping and leftmost-first.
pub open spec fn markers_from(t: Seq<char>, i: nat) -> Seq<Seq<char>>
    decreases t.len() - i,
{
    if i >= t.len() {
        Seq::empty()
    } else {
        match marker_at(t, i) {
            Some(pair) => seq![pair.0] + markers_from(t, pair.1),
            None => markers_from(t, (i + 1) as nat),
        }
    }
}

/// The names of all embed markers of a document, in occurrence order.
pub open spec fn markers_of(t: Seq<char>) -> Seq<Seq<char>> {
    markers_from(t, 0)
}

/// Keeps the first occurrence of every name, dropping names in `seen`.
pub open spec fn dedup_seen(names: Seq<Seq<char>>, seen: Seq<Seq<char>>) -> Seq<Seq<char>>
    decreases names.len(),
{
    if names.len() == 0 {
        Seq::empty()
    } else if seen.contains(names[0]) {
        dedup_seen(names.subrange(1, names.len() as int), seen)
    } else {
        seq![names[0]] + dedup_seen(names.subrange(1, names.len() as int), seen.push(names[0]))
    }
}

/// The distinct names of `names`, each at its first occurrence.
pub open spec fn dedup_first(names: Seq<Seq<char>>) -> Seq<Seq<char>> {
    dedup_seen(names, Seq::empty())
}

/// The catalog image named `name`: the last one inserted under that
/// name, since a later image of the same name replaces an earlier one.
pub open spec fn catalog_last(store: Seq<Img>, name: Seq<char>) -> Option<Img>
    decreases store.len(),
{
    if store.len() == 0 {
        None
    } else if store.last().name@ == name {
        Some(store.last())
    } else {
        catalog_last(store.drop_last(), name)
    }
}

/// The images that a list of names resolves to: each name present in the
/// catalog contributes its image, absent names are skipped.
pub open spec fn resolve_names(names: Seq<Seq<char>>, store: Seq<Img>) -> Seq<Img>
    decreases names.len(),
{
    if names.len() == 0 {
        Seq::empty()
    } else {
        let rest = resolve_names(names.subrange(1, names.len() as int), store);
        match catalog_last(store, names[0]) {
            Some(img) => seq![img] + rest,
            None => rest,
        }
    }
}

/// Finds the first `]` at or after `from`.
fn find_close(s: &str, from: usize) -> (r: Option<usize>)
    ensures
        match r {
            Some(j) => from <= j < s@.len() && first_close(s@, from as nat) == Some(j as nat),
            None => first_close(s@, from as nat) is None,
        },
{
    let n = s.unicode_len();
    let mut k: usize = from;
    if k > n {
        return None;
    }
    while k < n
        invariant
            n == s@.len(),
            from <= k <= n,
            first_close(s@, from as nat) == first_close(s@, k as nat),
        decreases n - k,
    {
        if s.get_char(k) == ']' {
            return Some(k);
        }
        k += 1;
    }
    None
}

/// Collects the names of all embed markers of `content`, with
/// duplicates, in occurrence order.
fn scan_markers(content: &str) -> (r: Vec<String>)
    ensures
        r@.map_values(|s: String| s@) == markers_of(content@),
{
    let n = content.unicode_len();
    let mut found: Vec<String> = Vec::new();
    let mut i: usize = 0;
    while i < n
        invariant
            n == content@.len(),
            0 <= i <= n,
            markers_of(content@) == found@.map_values(|s: String| s@) + markers_from(
                content@,
                i as nat,
            ),
        decreases n - i,
    {
        let ghost pre = found@.map_values(|s: String| s@);
        let mut matched = false;
        if n >= 3 && i <= n - 3 && content.get_char(i) == '!' && content.get_char(i + 1) == '['
            && content.get_char(i + 2) == '[' {
            if let Some(j) = find_close(content, i + 3) {
                if i + 3 < j && j + 1 < n && content.get_char(j + 1) == ']' {
                    let name = content.substring_char(i + 3, j).to_owned();
                    proof {
                        assert(marker_at(content@, i as nat) == Some(
                            (content@.subrange(i + 3, j as int), (j + 2) as nat),
                        ));
                    }
                    found.push(name);
                    proof {
                        assert(found@.map_values(|s: String| s@) =~= pre.push(
                            content@.subrange(i + 3, j as int),
                        ));
                        assert(markers_from(content@, i as nat) =~= seq![
                            content@.subrange(i + 3, j as int),
                        ] + markers_from(content@, (j + 2) as nat));
                        assert(markers_of(content@) =~= found@.map_values(|s: String| s@)
                            + markers_from(content@, (j + 2) as nat));
                    }
                    i = j + 2;
                    matched = true;
                }
            }
        }
        if !matched {
            proof {
                assert(marker_at(content@, i as nat) is None);
                assert(markers_from(content@, i as nat) == markers_from(content@, (i + 1) as nat));
            }
            i += 1;
        }
    }
    proof {
        assert(markers_from(content@, i as nat) =~= Seq::<Seq<char>>::empty());
        assert(markers_of(content@) =~= found@.map_values(|s: String| s@));
    }
    found
}

/// Keeps the first occurrence of each name.
fn dedup_names(names: Vec<String>) -> (r: Vec<String>)
    ensures
        r@.map_values(|s: String| s@) == dedup_first(names@.map_values(|s: String| s@)),
{
    let n = names.len();
    let mut out: Vec<String> = Vec::new();
    let mut i: usize = 0;
    let ghost all = names@.map_values(|s: String| s@);
    proof {
        assert(all.subrange(0, n as int) =~= all);
        assert(out@.map_values(|s: String| s@) =~= Seq::<Seq<char>>::empty());
        assert(Seq::<Seq<char>>::empty() + dedup_seen(all, Seq::<Seq<char>>::empty())
            =~= dedup_seen(all, Seq::<Seq<char>>::empty()));
    }
    while i < n
        invariant
            n == names@.len(),
            all == names@.map_values(|s: String| s@),
            0 <= i <= n,
            dedup_first(all) == out@.map_values(|s: String| s@) + dedup_seen(
                all.subrange(i as int, n as int),
                out@.map_values(|s: String| s@),
            ),
        decreases n - i,
    {
        let ghost outv = out@.map_values(|s: String| s@);
        let ghost restpre = all.subrange(i as int, n as int);
        proof {
            assert(restpre[0] == all[i as int]);
            assert(restpre.subrange(1, restpre.len() as int) =~= all.subrange(i + 1, n as int));
        }
        let mut present = false;
        let mut k: usize = 0;
        let m = out.len();
        while k < m
            invariant
                m == out@.len(),
                0 <= k <= m,
                outv == out@.map_values(|s: String| s@),
                present == exists|j: int| 0 <= j < k && outv[j] == names@[i as int]@,
                i < n,
                n == names@.len(),
            decreases m - k,
        {
            proof {
                assert(outv[k as int] == out@[k as int]@);
            }
            if crate::text::str_eq(out[k].as_str(), names[i].as_str()) {
                present = true;
                proof {
                    assert(outv[k as int] == names@[i as int]@);
                }
            }
            k += 1;
        }
        proof {
            if present {
                assert(outv.contains(all[i as int]));
            } else {
                if outv.contains(all[i as int]) {
                    let j = choose|j: int| 0 <= j < outv.len() && outv[j] == all[i as int];
                    assert(false);
                }
            }
        }
        if !present {
            let item = names[i].clone();
            out.push(item);
            proof {
                assert(out@.map_values(|s: String| s@) =~= outv.push(all[i as int]));
                assert(dedup_seen(restpre, outv) =~= seq![all[i as int]] + dedup_seen(
                    all.subrange(i + 1, n as int),
                    outv.push(all[i as int]),
                ));
                assert(dedup_first(all) =~= out@.map_values(|s: String| s@) + dedup_seen(
                    all.subrange(i + 1, n as int),
                    out@.map_values(|s: String| s@),
                ));
            }
        } else {
            proof {
                assert(dedup_seen(restpre, outv) =~= dedup_seen(
                    all.subrange(i + 1, n as int),
                    outv,
                ));
            }
        }
        i += 1;
    }
    proof {
        assert(all.subrange(i as int, n as int) =~= Seq::<Seq<char>>::empty());
        assert(dedup_seen(
            Seq::<Seq<char>>::empty(),
            out@.map_values(|s: String| s@),
        ) =~= Seq::<Seq<char>>::empty());
        assert(dedup_first(all) =~= out@.map_values(|s: String| s@));
    }
    out
}

/// Looks `name` up in the catalog; the last image of that name wins, as
/// a later entry under the same name replaces an earlier one.
fn lookup_catalog<'a>(store: &'a Vec<Img>, name: &str) -> (r: Option<&'a Img>)
    ensures
        match r {
            Some(img) => catalog_last(store@, name@) == Some(*img),
            None => catalog_last(store@, name@) is None,
        },
{
    let n = store.len();
    let mut best: Option<usize> = None;
    let mut k: usize = 0;
    proof {
        assert(store@.subrange(0, 0) =~= Seq::<Img>::empty());
    }
    while k < n
        invariant
            n == store@.len(),
            0 <= k <= n,
            match best {
                Some(b) => b < k && catalog_last(store@.subrange(0, k as int), name@) == Some(
                    store@[b as int],
                ),
                None => catalog_last(store@.subrange(0, k as int), name@) is None,
            },
        decreases n - k,
    {
        let ghost prefix = store@.subrange(0, k as int);
        proof {
            assert(store@.subrange(0, k + 1).drop_last() =~= prefix);
            assert(store@.subrange(0, k + 1).last() == store@[k as int]);
        }
        if crate::text::str_eq(store[k].name.as_str(), name) {
            best = Some(k);
        }
        k += 1;
    }
    proof {
        assert(store@.subrange(0, n as int) =~= store@);
    }
    match best {
        Some(b) => Some(&store[b]),
        None => None,
    }
}

/// Scans a document's text for `![[NAME]]` embed markers and returns the
/// catalog images for the distinct names, in first-occurrence order;
/// names absent from the catalog are skipped.
pub fn find_images(content: &str, img_store: Vec<Img>) -> (r: Vec<Img>)
    ensures
        r@ == resolve_names(dedup_first(markers_of(content@)), img_store@),
{
    let raw = scan_markers(content);
    let names = dedup_names(raw);
    let ghost dnames = names@.map_values(|s: String| s@);
    let mut out: Vec<Img> = Vec::new();
    let n = names.len();
    let mut i: usize = 0;
    proof {
        assert(dnames.subrange(0, n as int) =~= dnames);
        assert(out@ =~= Seq::<Img>::empty());
        assert(Seq::<Img>::empty() + resolve_names(dnames, img_store@) =~= resolve_names(
            dnames,
            img_store@,
        ));
    }
    while i < n
        invariant
            n == names@.len(),
            dnames == names@.map_values(|s: String| s@),
            0 <= i <= n,
            resolve_names(dnames, img_store@) == out@ + resolve_names(
                dnames.subrange(i as int, n as int),
                img_store@,
            ),
        decreases n - i,
    {
        let ghost rest = dnames.subrange(i as int, n as int);
        proof {
            assert(rest[0] == dnames[i as int]);
            assert(rest.subrange(1, rest.len() as int) =~= dnames.subrange(i + 1, n as int));
        }
        match lookup_catalog(&img_store, names[i].as_str()) {
            Some(img) => {
                let copy = img.duplicate();
                out.push(copy);
                proof {
                    assert(resolve_names(rest, img_store@) =~= seq![
                        catalog_last(img_store@, dnames[i as int]).unwrap(),
                    ] + resolve_names(dnames.subrange(i + 1, n as int), img_store@));
                    assert(resolve_names(dnames, img_store@) =~= out@ + resolve_names(
                        dnames.subrange(i + 1, n as int),
                        img_store@,
                    ));
                }
            },
            None => {
                proof {
                    assert(resolve_names(rest, img_store@) =~= resolve_names(
                        dnames.subrange(i + 1, n as int),
                        img_store@,
                    ));
                }
            },
        }
        i += 1;
    }
    proof {
        assert(dnames.subrange(i as int, n as int) =~= Seq::<Seq<char>>::empty());
        assert(resolve_names(Seq::<Seq<char>>::empty(), img_store@) =~= Seq::<Img>::empty());
        assert(out@ =~= resolve_names(dnames, img_store@));
    }
    out
}


/// Deduplicated names are pairwise distinct and avoid the `seen` list.
pub proof fn lemma_dedup_distinct(names: Seq<Seq<char>>, seen: Seq<Seq<char>>)
    ensures
        forall|i: int, j: int|
            0 <= i < j < dedup_seen(names, seen).len() ==> dedup_seen(names, seen)[i] != dedup_seen(
                names,
                seen,
            )[j],
        forall|i: int|
            0 <= i < dedup_seen(names, seen).len() ==> !seen.contains(
                #[trigger] dedup_seen(names, seen)[i],
            ),
    decreases names.len(),
{
    if names.len() > 0 {
        let rest = names.subrange(1, names.len() as int);
        let d = dedup_seen(names, seen);
        if seen.contains(names[0]) {
            lemma_dedup_distinct(rest, seen);
            let dr = dedup_seen(rest, seen);
            assert forall|i: int, j: int| 0 <= i < j < d.len() implies d[i] != d[j] by {
                assert(d[i] == dr[i] && d[j] == dr[j]);
            }
            assert forall|i: int| 0 <= i < d.len() implies !seen.contains(#[trigger] d[i]) by {
                assert(d[i] == dr[i]);
            }
        } else {
            lemma_dedup_distinct(rest, seen.push(names[0]));
            let dr = dedup_seen(rest, seen.push(names[0]));
            assert forall|i: int| 0 <= i < d.len() implies !seen.contains(#[trigger] d[i]) by {
                if i == 0 {
                    assert(d[0] == names[0]);
                }
                if i > 0 {
                    assert(d[i] == dr[i - 1]);
                    assert(!seen.push(names[0]).contains(dr[i - 1]));
                    if seen.contains(dr[i - 1]) {
                        let j = choose|j: int| 0 <= j < seen.len() && seen[j] == dr[i - 1];
                        assert(seen.push(names[0])[j] == dr[i - 1]);
                        assert(false);
                    }
                }
            }
            assert forall|i: int, j: int| 0 <= i < j < d.len() implies d[i] != d[j] by {
                if i == 0 {
                    assert(d[j] == dr[j - 1]);
                    assert(!seen.push(names[0]).contains(dr[j - 1]));
                    assert(seen.push(names[0])[seen.len() as int] == names[0]);
                    if dr[j - 1] == names[0] {
                        assert(seen.push(names[0]).contains(dr[j - 1]));
                        assert(false);
                    }
                } else {
                    assert(d[i] == dr[i - 1] && d[j] == dr[j - 1]);
                }
            }
        }
    }
}

/// A catalog hit is an element of the catalog, carrying the looked-up
/// name.
pub proof fn lemma_catalog_member(store: Seq<Img>, name: Seq<char>)
    ensures
        catalog_last(store, name) matches Some(img) ==> store.contains(img) && img.name@ == name,
    decreases store.len(),
{
    if store.len() > 0 && store.last().name@ != name {
        lemma_catalog_member(store.drop_last(), name);
        if catalog_last(store, name) is Some {
            let img = catalog_last(store, name).unwrap();
            let i = choose|i: int|
                0 <= i < store.drop_last().len() && store.drop_last()[i] == img;
            assert(store[i] == img);
        }
    }
}

/// Resolution of pairwise-distinct names: the resolved images' names are
/// exactly the given names that the catalog holds, in the given order;
/// every image comes from the catalog; and no name repeats.
pub proof fn lemma_resolve_names(names: Seq<Seq<char>>, store: Seq<Img>)
    requires
        forall|i: int, j: int| 0 <= i < j < names.len() ==> names[i] != names[j],
    ensures
        resolve_names(names, store).map_values(|img: Img| img.name@) == names.filter(
            |n: Seq<char>| catalog_last(store, n) is Some,
        ),
        forall|i: int|
            0 <= i < resolve_names(names, store).len() ==> store.contains(
                #[trigger] resolve_names(names, store)[i],
            ),
        forall|i: int, j: int|
            0 <= i < j < resolve_names(names, store).len() ==> resolve_names(names, store)[i].name@
                != resolve_names(names, store)[j].name@,
    decreases names.len(),
{
    let pred = |n: Seq<char>| catalog_last(store, n) is Some;
    let r = resolve_names(names, store);
    if names.len() == 0 {
        assert(r.map_values(|img: Img| img.name@) =~= names.filter(pred));
    } else {
        let rest = names.subrange(1, names.len() as int);
        let rr = resolve_names(rest, store);
        lemma_resolve_names(rest, store);
        lemma_catalog_member(store, names[0]);
        assert(names =~= seq![names[0]] + rest);
        Seq::filter_distributes_over_add(seq![names[0]], rest, pred);
        reveal_with_fuel(Seq::filter, 2);
        assert(seq![names[0]].filter(pred) == if pred(names[0]) {
            seq![names[0]]
        } else {
            Seq::<Seq<char>>::empty()
        });
        assert(names.filter(pred) == seq![names[0]].filter(pred) + rest.filter(pred));
        match catalog_last(store, names[0]) {
            Some(img) => {
                assert(r == seq![img] + rr);
                assert(r.map_values(|im: Img| im.name@) =~= seq![names[0]] + rr.map_values(
                    |im: Img| im.name@,
                ));
                assert(r.map_values(|im: Img| im.name@) =~= names.filter(pred));
                assert forall|i: int, j: int| 0 <= i < j < r.len() implies r[i].name@
                    != r[j].name@ by {
                    if i == 0 {
                        assert(r[j] == rr[j - 1]);
                        assert(rr.map_values(|im: Img| im.name@)[j - 1] == rr[j - 1].name@);
                        assert(rest.filter(pred)[j - 1] == rr[j - 1].name@);
                        rest.filter(pred).push(rr[j - 1].name@);
                        lemma_filter_members(rest, pred, j - 1);
                        assert(rest.contains(rr[j - 1].name@));
                        let k = choose|k: int| 0 <= k < rest.len() && rest[k] == rr[j - 1].name@;
                        assert(names[k + 1] == rest[k]);
                        assert(names[0] != names[k + 1]);
                    } else {
                        assert(r[i] == rr[i - 1] && r[j] == rr[j - 1]);
                    }
                }
            },
            None => {
                assert(r == rr);
                assert(r.map_values(|im: Img| im.name@) =~= names.filter(pred));
            },
        }
    }
}

/// Every element of a filtered sequence occurs in the original.
pub proof fn lemma_filter_members<A>(s: Seq<A>, pred: spec_fn(A) -> bool, i: int)
    requires
        0 <= i < s.filter(pred).len(),
    ensures
        s.contains(s.filter(pred)[i]),
        pred(s.filter(pred)[i]),
    decreases s.len(),
{
    reveal_with_fuel(Seq::filter, 2);
    if s.len() > 0 {
        let rest = s.drop_last();
        if pred(s.last()) {
            if i < s.filter(pred).len() - 1 {
                lemma_filter_members(rest, pred, i);
                let k = choose|k: int| 0 <= k < rest.len() && rest[k] == s.filter(pred)[i];
                assert(s[k] == rest[k]);
            } else {
                assert(s.filter(pred)[i] == s.last());
                assert(s[s.len() - 1] == s.last());
            }
        } else {
            lemma_filter_members(rest, pred, i);
            let k = choose|k: int| 0 <= k < rest.len() && rest[k] == s.filter(pred)[i];
            assert(s[k] == rest[k]);
        }
    }
}

/// The cross-referencer's law: for any document text, the resolved
/// images carry exactly the distinct embedded names that the catalog
/// holds, in first-occurrence order; at most one image per distinct
/// name; and every image is a catalog entry.
pub proof fn lemma_image_cross_reference(t: Seq<char>, store: Seq<Img>)
    ensures
        ({
            let r = resolve_names(dedup_first(markers_of(t)), store);
            &&& r.map_values(|img: Img| img.name@) == dedup_first(markers_of(t)).filter(
                |n: Seq<char>| catalog_last(store, n) is Some,
            )
            &&& forall|i: int, j: int| 0 <= i < j < r.len() ==> r[i].name@ != r[j].name@
            &&& forall|i: int| 0 <= i < r.len() ==> store.contains(#[trigger] r[i])
        }),
{
    lemma_dedup_distinct(markers_of(t), Seq::empty());
    lemma_resolve_names(dedup_first(markers_of(t)), store);
}

} // verus!
