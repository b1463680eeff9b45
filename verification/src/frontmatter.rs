//! Frontmatter extraction: finds the leading `---`-delimited metadata
//! block of a document, parses it as YAML, and falls back to a
//! line-oriented `key: value` parser when the YAML parse fails.

use serde_yaml::Value;
use vstd::prelude::*;

use crate::models::{meta_lookup, MetaMap};
use crate::text::{
    find_char, first_char, trim_str, trim_ws, ws_prefix_end, ws_prefix_len,
};

verus! {

/// The last newline strictly before `hi` and at or after `lo`.
pub open spec fn last_nl_before(t: Seq<char>, lo: int, hi: int) -> Option<int>
    decreases hi - lo,
{
    if hi <= lo {
        None
    } else if t[hi - 1] == '\n' {
        Some(hi - 1)
    } else {
        last_nl_before(t, lo, hi - 1)
    }
}

/// The first position at or after `k` where a newline followed by `---`
/// begins.
pub open spec fn first_nl_dashes(t: Seq<char>, k: nat) -> Option<nat>
    decreases t.len() - k,
{
    if k + 4 > t.len() {
        None
    } else if t[k as int] == '\n' && t[k as int + 1] == '-' && t[k as int + 2] == '-' && t[k as int
        + 3] == '-' {
        Some(k)
    } else {
        first_nl_dashes(t, k + 1)
    }
}

/// The frontmatter block of a document: the text opens with a `---`
/// line (trailing whitespace tolerated), and the block runs to the next
/// line that begins with `---`; the block is returned trimmed. No such
/// pair of delimiters means no block.
pub open spec fn fm_block(t: Seq<char>) -> Option<Seq<char>> {
    if t.len() >= 3 && t[0] == '-' && t[1] == '-' && t[2] == '-' {
        let run = ws_prefix_len(t.subrange(3, t.len() as int));
        match last_nl_before(t, 3, 3 + run as int) {
            Some(nl) => match first_nl_dashes(t, (nl + 1) as nat) {
                Some(p) => Some(trim_ws(t.subrange(nl + 1, p as int))),
                None => None,
            },
            None => None,
        }
    } else {
        None
    }
}

/// What serde_yaml's parser yields for a frontmatter block: the
/// mapping's key/value pairs in document order, each value coerced to a
/// display string (strings pass through, numbers in canonical decimal,
/// booleans as `true`/`false`, null as `null`, other structures in a
/// generic textual form); an empty list when the document is not a
/// mapping; nothing when the text does not parse. A function of the
/// text alone.
pub uninterp spec fn yaml_pairs_of(y: Seq<char>) -> Option<Seq<(Seq<char>, Seq<char>)>>;

/// Relies on serde_yaml's `from_str` for `Value`: parses the block and
/// coerces each mapping entry to a pair of strings, as `yaml_pairs_of`
/// names it.
#[verifier::external_body]
fn yaml_parse_pairs(y: &str) -> (r: Option<Vec<(String, String)>>)
    ensures
        match r {
            Some(v) => yaml_pairs_of(y@) == Some(
                v@.map_values(|p: (String, String)| (p.0@, p.1@)),
            ),
            None => yaml_pairs_of(y@) is None,
        },
{
    match serde_yaml::from_str::<Value>(y) {
        Err(_) => None,
        Ok(Value::Mapping(m)) => Some(m.into_iter().filter_map(|(k, v)| match k {
            Value::String(s) => Some((s, match v {
                Value::String(x) => x,
                Value::Number(x) => x.to_string(),
                Value::Bool(x) => x.to_string(),
                Value::Null => "null".to_string(),
                x => format!("{:?}", x),
            })),
            _ => None,
        }).collect()),
        Ok(_) => Some(Vec::new()),
    }
}

/// The value the pairs bind `k` to once all are inserted in order: the
/// last pair holding `k` wins.
pub open spec fn last_pair(pairs: Seq<(Seq<char>, Seq<char>)>, k: Seq<char>) -> Option<Seq<char>>
    decreases pairs.len(),
{
    if pairs.len() == 0 {
        None
    } else if pairs.last().0 == k {
        Some(pairs.last().1)
    } else {
        last_pair(pairs.drop_last(), k)
    }
}

/// Strips one leading and one trailing `q` from `v`.
pub open spec fn strip_one(v: Seq<char>, q: char) -> Seq<char> {
    let v1 = if v.len() > 0 && v[0] == q {
        v.subrange(1, v.len() as int)
    } else {
        v
    };
    if v1.len() > 0 && v1.last() == q {
        v1.drop_last()
    } else {
        v1
    }
}

/// Strips one layer of surrounding double quotes, then one of single
/// quotes.
pub open spec fn strip_quotes(v: Seq<char>) -> Seq<char> {
    strip_one(strip_one(v, '"'), '\'')
}

/// The key/value pair a fallback line yields: the trimmed line must be
/// non-empty, not a comment (`#`), and hold a `:`; the key is the text
/// before the first `:`, the value the text after it, both trimmed, the
/// value stripped of surrounding quotes.
pub open spec fn line_pair(line: Seq<char>) -> Option<(Seq<char>, Seq<char>)> {
    let l = trim_ws(line);
    if l.len() == 0 {
        None
    } else if l[0] == '#' {
        None
    } else {
        match first_char(l, ':', 0) {
            None => None,
            Some(c) => Some(
                (
                    trim_ws(l.subrange(0, c as int)),
                    strip_quotes(trim_ws(l.subrange(c as int + 1, l.len() as int))),
                ),
            ),
        }
    }
}

/// A line's contribution to the fallback pairs.
pub open spec fn line_pairs(line: Seq<char>) -> Seq<(Seq<char>, Seq<char>)> {
    match line_pair(line) {
        Some(p) => seq![p],
        None => Seq::empty(),
    }
}

/// The pairs the line-oriented fallback parser reads from a block:
/// lines split on newlines, blank lines and `#` comments skipped, each
/// remaining line split at its first `:`.
pub open spec fn fb_pairs(y: Seq<char>) -> Seq<(Seq<char>, Seq<char>)>
    decreases y.len(),
{
    match first_char(y, '\n', 0) {
        Some(j) => if j < y.len() {
            line_pairs(y.subrange(0, j as int)) + fb_pairs(y.subrange(j as int + 1, y.len() as int))
        } else {
            line_pairs(y)
        },
        None => line_pairs(y),
    }
}

/// Positions found from `k` in `s` are positions found from 0 in the
/// suffix, shifted by `k`.
proof fn lemma_first_char_offsets(s: Seq<char>, c: char, k: nat)
    requires
        k <= s.len(),
    ensures
        match first_char(s.subrange(k as int, s.len() as int), c, 0) {
            Some(j) => first_char(s, c, k) == Some((j + k) as nat),
            None => first_char(s, c, k) is None,
        },
    decreases s.len() - k,
{
    let suf = s.subrange(k as int, s.len() as int);
    if k < s.len() {
        assert(suf[0] == s[k as int]);
        if s[k as int] == c {
            assert(first_char(suf, c, 0) == Some(0nat));
        } else {
            lemma_first_char_offsets(s, c, k + 1);
            let suf2 = s.subrange(k as int + 1, s.len() as int);
            assert(suf.subrange(1, suf.len() as int) =~= suf2);
            lemma_first_char_step(suf, c);
        }
    } else {
        assert(suf.len() == 0);
    }
}

/// On a non-empty sequence whose head is not `c`, searching from 0 is
/// searching the tail from 0, shifted by one.
proof fn lemma_first_char_step(s: Seq<char>, c: char)
    requires
        s.len() > 0,
        s[0] != c,
    ensures
        match first_char(s.subrange(1, s.len() as int), c, 0) {
            Some(j) => first_char(s, c, 0) == Some((j + 1) as nat),
            None => first_char(s, c, 0) is None,
        },
    decreases s.len(),
{
    lemma_first_char_rec(s, c, 1);
}

/// Searching `s` from `k >= 1` finds exactly the tail's positions from
/// `k - 1`, shifted by one.
proof fn lemma_first_char_rec(s: Seq<char>, c: char, k: nat)
    requires
        1 <= k <= s.len(),
    ensures
        match first_char(s.subrange(1, s.len() as int), c, (k - 1) as nat) {
            Some(j) => first_char(s, c, k) == Some((j + 1) as nat),
            None => first_char(s, c, k) is None,
        },
    decreases s.len() - k,
{
    let tail = s.subrange(1, s.len() as int);
    if k < s.len() {
        assert(tail[k - 1] == s[k as int]);
        if s[k as int] != c {
            lemma_first_char_rec(s, c, k + 1);
        }
    }
}

/// Parses one fallback line into the map; blank lines, comments and
/// lines without a colon contribute nothing.
fn apply_line(map: &mut MetaMap, line: &str)
    requires
        old(map).wf(),
    ensures
        final(map).wf(),
        forall|k: Seq<char>|
            meta_lookup(final(map)@, k) == (match line_pair(line@) {
                Some(p) => if k == p.0 {
                    Some(p.1)
                } else {
                    meta_lookup(old(map)@, k)
                },
                None => meta_lookup(old(map)@, k),
            }),
{
    let l = trim_str(line);
    let n = l.unicode_len();
    if n == 0 {
        return ;
    }
    if l.get_char(0) == '#' {
        return ;
    }
    let c = match find_char(l, ':', 0) {
        None => {
            return ;
        },
        Some(c) => c,
    };
    let key = trim_str(l.substring_char(0, c)).to_owned();
    let vraw = l.substring_char(c + 1, n);
    let vtrim = trim_str(vraw);
    let ghost vt = vtrim@;
    let m = vtrim.unicode_len();
    let mut lo: usize = 0;
    let mut hi: usize = m;
    if hi > lo && vtrim.get_char(lo) == '"' {
        lo += 1;
    }
    if hi > lo && vtrim.get_char(hi - 1) == '"' {
        hi -= 1;
    }
    proof {
        assert(vt.subrange(lo as int, hi as int) =~= strip_one(vt, '"'));
    }
    let ghost v1 = strip_one(vt, '"');
    if hi > lo && vtrim.get_char(lo) == '\'' {
        lo += 1;
    }
    if hi > lo && vtrim.get_char(hi - 1) == '\'' {
        hi -= 1;
    }
    proof {
        assert(vt.subrange(lo as int, hi as int) =~= strip_one(v1, '\''));
    }
    let value = vtrim.substring_char(lo, hi).to_owned();
    map.insert(key, value);
}



/// Scans backwards for the last newline in `[lo, hi)`.
fn scan_last_nl(s: &str, lo: usize, hi: usize) -> (r: Option<usize>)
    requires
        lo <= hi <= s@.len(),
    ensures
        match r {
            Some(j) => lo <= j < hi && last_nl_before(s@, lo as int, hi as int) == Some(j as int),
            None => last_nl_before(s@, lo as int, hi as int) is None,
        },
{
    let mut j: usize = hi;
    while j > lo
        invariant
            lo <= j <= hi <= s@.len(),
            last_nl_before(s@, lo as int, hi as int) == last_nl_before(s@, lo as int, j as int),
        decreases j,
    {
        if s.get_char(j - 1) == '\n' {
            return Some(j - 1);
        }
        j -= 1;
    }
    None
}

/// Scans forwards for the first `\n---` at or after `from`.
fn scan_nl_dashes(s: &str, from: usize) -> (r: Option<usize>)
    requires
        from <= s@.len(),
    ensures
        match r {
            Some(p) => from <= p && p + 4 <= s@.len() && first_nl_dashes(s@, from as nat) == Some(
                p as nat,
            ),
            None => first_nl_dashes(s@, from as nat) is None,
        },
{
    let n = s.unicode_len();
    let mut p: usize = from;
    if n < 4 || p > n - 4 {
        return None;
    }
    while p <= n - 4
        invariant
            from <= p <= n - 3,
            n >= 4,
            n == s@.len(),
            first_nl_dashes(s@, from as nat) == first_nl_dashes(s@, p as nat),
        decreases n - p,
    {
        if s.get_char(p) == '\n' && s.get_char(p + 1) == '-' && s.get_char(p + 2) == '-'
            && s.get_char(p + 3) == '-' {
            return Some(p);
        }
        p += 1;
    }
    None
}

/// Scans forwards for the first `---` at or after `from`.
fn scan_dashes(s: &str, from: usize) -> (r: Option<usize>)
    requires
        from <= s@.len(),
    ensures
        match r {
            Some(q) => from <= q && q + 3 <= s@.len() && first_dashes(s@, from as nat) == Some(
                q as nat,
            ),
            None => first_dashes(s@, from as nat) is None,
        },
{
    let n = s.unicode_len();
    let mut q: usize = from;
    if n < 3 || q > n - 3 {
        return None;
    }
    while q <= n - 3
        invariant
            from <= q <= n - 2,
            n >= 3,
            n == s@.len(),
            first_dashes(s@, from as nat) == first_dashes(s@, q as nat),
        decreases n - q,
    {
        if s.get_char(q) == '-' && s.get_char(q + 1) == '-' && s.get_char(q + 2) == '-' {
            return Some(q);
        }
        q += 1;
    }
    None
}

/// Extracts the frontmatter metadata of a document into a string map.
/// Without a `---`-delimited block the map is empty; with one, the
/// block is parsed as YAML (`yaml_pairs_of`), and if that fails, by the
/// line-oriented fallback (`fb_pairs`); either way the pairs are bound
/// in order, the last binding of a key winning.
pub fn extract_frontmatter(text: &str) -> (r: MetaMap)
    ensures
        r.wf(),
        fm_block(text@) is None ==> r@.len() == 0,
        fm_block(text@) matches Some(y) ==> (match yaml_pairs_of(y) {
            Some(pairs) => forall|k: Seq<char>| meta_lookup(r@, k) == last_pair(pairs, k),
            None => forall|k: Seq<char>| meta_lookup(r@, k) == last_pair(fb_pairs(y), k),
        }),
{
    let mut map = MetaMap::new();
    let n = text.unicode_len();
    if n < 3 || text.get_char(0) != '-' || text.get_char(1) != '-' || text.get_char(2) != '-' {
        return map;
    }
    let sub = text.substring_char(3, n);
    proof {
        crate::text::lemma_ws_prefix(sub@);
    }
    let run = ws_prefix_end(sub);
    let e = 3 + run;
    let nl = match scan_last_nl(text, 3, e) {
        Some(nl) => nl,
        None => {
            return map;
        },
    };
    let start = nl + 1;
    let p = match scan_nl_dashes(text, start) {
        Some(p) => p,
        None => {
            return map;
        },
    };
    let raw = text.substring_char(start, p);
    let y = trim_str(raw);
    let ghost yv = fm_block(text@).unwrap();
    proof {
        assert(y@ == yv);
    }

    match yaml_parse_pairs(y) {
        Some(pairs) => {
            let ghost pv = pairs@.map_values(|q: (String, String)| (q.0@, q.1@));
            let m = pairs.len();
            let mut i: usize = 0;
            proof {
                assert(pv.subrange(0, 0) =~= Seq::<(Seq<char>, Seq<char>)>::empty());
            }
            while i < m
                invariant
                    m == pairs@.len(),
                    pv == pairs@.map_values(|q: (String, String)| (q.0@, q.1@)),
                    0 <= i <= m,
                    map.wf(),
                    forall|k: Seq<char>|
                        meta_lookup(map@, k) == last_pair(pv.subrange(0, i as int), k),
                decreases m - i,
            {
                let key = pairs[i].0.clone();
                let value = pairs[i].1.clone();
                let ghost kk = key@;
                let ghost vvv = value@;
                map.insert(key, value);
                proof {
                    let pre = pv.subrange(0, i as int);
                    let post = pv.subrange(0, i + 1);
                    assert(pv[i as int] == (pairs@[i as int].0@, pairs@[i as int].1@));
                    assert(post.drop_last() =~= pre);
                    assert(post.last() == pv[i as int]);
                    assert(kk == pv[i as int].0 && vvv == pv[i as int].1);
                    assert forall|k: Seq<char>|
                        meta_lookup(map@, k) == last_pair(post, k) by {
                        if k == kk {
                            assert(last_pair(post, k) == Some(vvv));
                        } else {
                            assert(last_pair(post, k) == last_pair(pre, k));
                        }
                    }
                }
                i += 1;
            }
            proof {
                assert(pv.subrange(0, m as int) =~= pv);
            }
            map
        },
        None => {
            let ghost full = fb_pairs(y@);
            let ylen = y.unicode_len();
            let ghost acc = Seq::<(Seq<char>, Seq<char>)>::empty();
            let mut acc_len: Ghost<Seq<(Seq<char>, Seq<char>)>> = Ghost(acc);
            let mut ls: usize = 0;
            proof {
                assert(y@.subrange(0, ylen as int) =~= y@);
                assert(acc_len@ + fb_pairs(y@.subrange(ls as int, ylen as int)) =~= full);
            }
            loop
                invariant
                    ylen == y@.len(),
                    0 <= ls <= ylen,
                    map.wf(),
                    fm_block(text@) == Some(y@),
                    yaml_pairs_of(y@) is None,
                    full == fb_pairs(y@),
                    acc_len@ + fb_pairs(y@.subrange(ls as int, ylen as int)) == full,
                    forall|k: Seq<char>| meta_lookup(map@, k) == last_pair(acc_len@, k),
                decreases ylen - ls,
            {
                let ghost suffix = y@.subrange(ls as int, ylen as int);
                match find_char(y, '\n', ls) {
                    Some(le) => {
                        let line = y.substring_char(ls, le);
                        proof {
                            lemma_first_char_offsets(y@, '\n', ls as nat);
                            assert(first_char(suffix, '\n', 0) == Some((le - ls) as nat));
                            assert(suffix.subrange(0, le - ls) =~= y@.subrange(
                                ls as int,
                                le as int,
                            ));
                            assert(suffix.subrange((le - ls) as int + 1, suffix.len() as int)
                                =~= y@.subrange(le as int + 1, ylen as int));
                            assert(fb_pairs(suffix) == line_pairs(line@) + fb_pairs(
                                y@.subrange(le as int + 1, ylen as int),
                            ));
                        }
                        apply_line(&mut map, line);
                        proof {
                            let lacc = acc_len@;
                            let nacc = lacc + line_pairs(line@);
                            assert forall|k: Seq<char>|
                                meta_lookup(map@, k) == last_pair(nacc, k) by {
                                match line_pair(line@) {
                                    Some(q) => {
                                        assert(nacc =~= lacc.push(q));
                                        assert(nacc.drop_last() =~= lacc);
                                        if k == q.0 {
                                            assert(last_pair(nacc, k) == Some(q.1));
                                        } else {
                                            assert(last_pair(nacc, k) == last_pair(lacc, k));
                                        }
                                    },
                                    None => {
                                        assert(nacc =~= lacc);
                                    },
                                }
                            }
                            assert(nacc + fb_pairs(y@.subrange(le as int + 1, ylen as int))
                                =~= full);
                        }
                        acc_len = Ghost(acc_len@ + line_pairs(line@));
                        ls = le + 1;
                    },
                    None => {
                        let line = y.substring_char(ls, ylen);
                        proof {
                            lemma_first_char_offsets(y@, '\n', ls as nat);
                            assert(first_char(suffix, '\n', 0) is None);
                            assert(suffix =~= line@);
                            assert(fb_pairs(suffix) == line_pairs(line@));
                        }
                        apply_line(&mut map, line);
                        proof {
                            let lacc = acc_len@;
                            let nacc = lacc + line_pairs(line@);
                            assert forall|k: Seq<char>|
                                meta_lookup(map@, k) == last_pair(nacc, k) by {
                                match line_pair(line@) {
                                    Some(q) => {
                                        assert(nacc =~= lacc.push(q));
                                        assert(nacc.drop_last() =~= lacc);
                                        if k == q.0 {
                                            assert(last_pair(nacc, k) == Some(q.1));
                                        } else {
                                            assert(last_pair(nacc, k) == last_pair(lacc, k));
                                        }
                                    },
                                    None => {
                                        assert(nacc =~= lacc);
                                    },
                                }
                            }
                            assert(nacc =~= full);
                        }
                        return map;
                    },
                }
            }
        },
    }
}

/// The first position at or after `k` where `---` begins.
pub open spec fn first_dashes(t: Seq<char>, k: nat) -> Option<nat>
    decreases t.len() - k,
{
    if k + 3 > t.len() {
        None
    } else if t[k as int] == '-' && t[k as int + 1] == '-' && t[k as int + 2] == '-' {
        Some(k)
    } else {
        first_dashes(t, k + 1)
    }
}

/// What stripping the frontmatter leaves of a document: if the text,
/// once its leading whitespace is dropped, starts with `---` and holds
/// a second `---`, the result is everything after that second `---`
/// with leading whitespace dropped; otherwise the text is unchanged.
pub open spec fn strip_fm(t: Seq<char>) -> Seq<char> {
    let p = ws_prefix_len(t);
    if p + 3 <= t.len() && t[p as int] == '-' && t[p as int + 1] == '-' && t[p as int + 2] == '-' {
        match first_dashes(t, p + 3) {
            Some(q) => {
                let rest = t.subrange(q as int + 3, t.len() as int);
                rest.subrange(ws_prefix_len(rest) as int, rest.len() as int)
            },
            None => t,
        }
    } else {
        t
    }
}

/// Strips a leading frontmatter block: when the document opens (after
/// whitespace) with `---` and a later `---` follows, returns the text
/// after the closing delimiter, trimmed at its start; otherwise returns
/// the document unchanged.
pub fn strip_frontmatter<'a>(content: &'a str) -> (r: &'a str)
    ensures
        r@ == strip_fm(content@),
{
    let n = content.unicode_len();
    let p = ws_prefix_end(content);
    proof {
        crate::text::lemma_ws_prefix(content@);
    }
    if n < 3 || p > n - 3 || content.get_char(p) != '-' || content.get_char(p + 1) != '-'
        || content.get_char(p + 2) != '-' {
        return content;
    }
    let q = match scan_dashes(content, p + 3) {
        Some(q) => q,
        None => {
            return content;
        },
    };
    let rest = content.substring_char(q + 3, n);
    let e = ws_prefix_end(rest);
    proof {
        crate::text::lemma_ws_prefix(rest@);
    }
    let rn = rest.unicode_len();
    rest.substring_char(e, rn)
}

} // verus!
