//! Verified text utilities: whitespace handling, substring search,
//! lexicographic comparison, and decimal formatting.

use vstd::prelude::*;

verus! {

/// The whitespace characters recognised when trimming and when scanning
/// frontmatter delimiters: space, tab, newline, carriage return, vertical
/// tab and form feed.
pub open spec fn is_ws(c: char) -> bool {
    c == ' ' || c == '\t' || c == '\n' || c == '\r' || c == '\u{b}' || c == '\u{c}'
}

/// Executable whitespace test matching `is_ws`.
pub fn is_ws_char(c: char) -> (r: bool)
    ensures
        r == is_ws(c),
{
    c == ' ' || c == '\t' || c == '\n' || c == '\r' || c == '\u{b}' || c == '\u{c}'
}

/// The pattern `pat` occurs in `s` at position `i`.
pub open spec fn matches_at(s: Seq<char>, pat: Seq<char>, i: int) -> bool {
    0 <= i && i + pat.len() <= s.len() && s.subrange(i, i + pat.len() as int) == pat
}

/// Whether `pat` occurs at position `i` of `s`, decided executably.
pub fn check_match_at(s: &str, pat: &str, i: usize) -> (r: bool)
    requires
        i + pat@.len() <= s@.len(),
    ensures
        r == matches_at(s@, pat@, i as int),
{
    let sn = s.unicode_len();
    let n = pat.unicode_len();
    let mut k: usize = 0;
    while k < n
        invariant
            sn == s@.len(),
            n == pat@.len(),
            i + n <= s@.len(),
            0 <= k <= n,
            forall|j: int| 0 <= j < k ==> s@[i + j] == pat@[j],
        decreases n - k,
    {
        if s.get_char(i + k) != pat.get_char(k) {
            assert(s@.subrange(i as int, i + pat@.len() as int)[k as int] != pat@[k as int]);
            return false;
        }
        k += 1;
    }
    assert(s@.subrange(i as int, i + pat@.len() as int) =~= pat@);
    true
}

/// Equality of two string slices, decided character by character.
pub fn str_eq(a: &str, b: &str) -> (r: bool)
    ensures
        r == (a@ == b@),
{
    let na = a.unicode_len();
    let nb = b.unicode_len();
    if na != nb {
        assert(a@ != b@);
        return false;
    }
    let mut k: usize = 0;
    while k < na
        invariant
            na == a@.len(),
            na == b@.len(),
            0 <= k <= na,
            forall|j: int| 0 <= j < k ==> a@[j] == b@[j],
        decreases na - k,
    {
        if a.get_char(k) != b.get_char(k) {
            return false;
        }
        k += 1;
    }
    assert(a@ =~= b@);
    true
}

/// Length of the leading whitespace run of `s`.
pub open spec fn ws_prefix_len(s: Seq<char>) -> nat
    decreases s.len(),
{
    if s.len() == 0 {
        0
    } else if is_ws(s[0]) {
        1 + ws_prefix_len(s.subrange(1, s.len() as int))
    } else {
        0
    }
}

/// The leading whitespace run is at most the whole string, every character
/// in it is whitespace, and the character after it (if any) is not.
pub proof fn lemma_ws_prefix(s: Seq<char>)
    ensures
        ws_prefix_len(s) <= s.len(),
        forall|j: int| 0 <= j < ws_prefix_len(s) ==> is_ws(s[j]),
        ws_prefix_len(s) < s.len() ==> !is_ws(s[ws_prefix_len(s) as int]),
    decreases s.len(),
{
    if s.len() > 0 && is_ws(s[0]) {
        lemma_ws_prefix(s.subrange(1, s.len() as int));
        assert forall|j: int| 0 <= j < ws_prefix_len(s) implies is_ws(s[j]) by {
            if j > 0 {
                assert(s.subrange(1, s.len() as int)[j - 1] == s[j]);
            }
        }
        if ws_prefix_len(s) < s.len() {
            assert(s.subrange(1, s.len() as int)[ws_prefix_len(s) - 1] == s[ws_prefix_len(
                s,
            ) as int]);
        }
    }
}

/// Index of the first non-whitespace character of `s`, or its length if
/// there is none; this is where `str::trim_start` would begin the result.
pub fn ws_prefix_end(s: &str) -> (r: usize)
    ensures
        r == ws_prefix_len(s@),
{
    let n = s.unicode_len();
    proof {
        assert(s@.subrange(0, n as int) =~= s@);
    }
    let mut i: usize = 0;
    while i < n
        invariant
            n == s@.len(),
            0 <= i <= n,
            forall|j: int| 0 <= j < i ==> is_ws(s@[j]),
            ws_prefix_len(s@.subrange(i as int, n as int)) + i == ws_prefix_len(s@),
        decreases n - i,
    {
        let ghost pre = s@.subrange(i as int, n as int);
        if !is_ws_char(s.get_char(i)) {
            proof {
                assert(pre[0] == s@[i as int]);
                assert(ws_prefix_len(pre) == 0);
            }
            return i;
        }
        proof {
            assert(pre[0] == s@[i as int]);
            assert(pre.subrange(1, pre.len() as int) =~= s@.subrange(i + 1, n as int));
            assert(ws_prefix_len(pre) == 1 + ws_prefix_len(s@.subrange(i + 1, n as int)));
        }
        i += 1;
    }
    proof {
        assert(s@.subrange(i as int, n as int) =~= Seq::<char>::empty());
    }
    i
}

/// Lexicographic order on character sequences; chars compare by code point,
/// which is the order `str` comparison in Rust induces.
pub open spec fn lex_le(a: Seq<char>, b: Seq<char>) -> bool
    decreases a.len(),
{
    if a.len() == 0 {
        true
    } else if b.len() == 0 {
        false
    } else if a[0] != b[0] {
        a[0] < b[0]
    } else {
        lex_le(a.subrange(1, a.len() as int), b.subrange(1, b.len() as int))
    }
}

/// `lex_le` is total: any two sequences compare one way or the other.
pub proof fn lemma_lex_le_total(a: Seq<char>, b: Seq<char>)
    ensures
        lex_le(a, b) || lex_le(b, a),
    decreases a.len(),
{
    if a.len() > 0 && b.len() > 0 && a[0] == b[0] {
        lemma_lex_le_total(a.subrange(1, a.len() as int), b.subrange(1, b.len() as int));
    }
}

/// `lex_le` is transitive.
pub proof fn lemma_lex_le_trans(a: Seq<char>, b: Seq<char>, c: Seq<char>)
    requires
        lex_le(a, b),
        lex_le(b, c),
    ensures
        lex_le(a, c),
    decreases a.len(),
{
    if a.len() > 0 && b.len() > 0 && c.len() > 0 && a[0] == b[0] && b[0] == c[0] {
        lemma_lex_le_trans(
            a.subrange(1, a.len() as int),
            b.subrange(1, b.len() as int),
            c.subrange(1, c.len() as int),
        );
    }
}

/// Decides `lex_le` on two string slices.
pub fn str_le(a: &str, b: &str) -> (r: bool)
    ensures
        r == lex_le(a@, b@),
{
    let na = a.unicode_len();
    let nb = b.unicode_len();
    proof {
        assert(a@.subrange(0, na as int) =~= a@);
        assert(b@.subrange(0, nb as int) =~= b@);
    }
    let mut k: usize = 0;
    while k < na && k < nb
        invariant
            na == a@.len(),
            nb == b@.len(),
            0 <= k <= na,
            0 <= k <= nb,
            forall|j: int| 0 <= j < k ==> a@[j] == b@[j],
            lex_le(a@, b@) == lex_le(
                a@.subrange(k as int, na as int),
                b@.subrange(k as int, nb as int),
            ),
        decreases na - k,
    {
        let ca = a.get_char(k);
        let cb = b.get_char(k);
        let ghost sa = a@.subrange(k as int, na as int);
        let ghost sb = b@.subrange(k as int, nb as int);
        proof {
            assert(sa[0] == a@[k as int]);
            assert(sb[0] == b@[k as int]);
            assert(sa.subrange(1, sa.len() as int) =~= a@.subrange(k + 1, na as int));
            assert(sb.subrange(1, sb.len() as int) =~= b@.subrange(k + 1, nb as int));
        }
        if ca != cb {
            return ca < cb;
        }
        k += 1;
    }
    proof {
        if k == na {
            assert(a@.subrange(k as int, na as int) =~= Seq::<char>::empty());
        } else {
            assert(b@.subrange(k as int, nb as int) =~= Seq::<char>::empty());
            assert(a@.subrange(k as int, na as int).len() > 0);
        }
    }
    k == na
}

/// The decimal digit characters, as a spec-level table.
pub open spec fn digit_char(d: nat) -> char {
    if d == 0 {
        '0'
    } else if d == 1 {
        '1'
    } else if d == 2 {
        '2'
    } else if d == 3 {
        '3'
    } else if d == 4 {
        '4'
    } else if d == 5 {
        '5'
    } else if d == 6 {
        '6'
    } else if d == 7 {
        '7'
    } else if d == 8 {
        '8'
    } else {
        '9'
    }
}

/// Canonical decimal rendering of a natural number, most significant
/// digit first, with no leading zeros (except for zero itself).
pub open spec fn dec_str(n: nat) -> Seq<char>
    decreases n,
{
    if n < 10 {
        seq![digit_char(n)]
    } else {
        dec_str(n / 10).push(digit_char(n % 10))
    }
}

/// One decimal digit as a string slice.
fn digit_str(d: u64) -> (r: &'static str)
    requires
        d < 10,
    ensures
        r@ =~= seq![digit_char(d as nat)],
{
    proof {
        reveal_strlit("0");
        reveal_strlit("1");
        reveal_strlit("2");
        reveal_strlit("3");
        reveal_strlit("4");
        reveal_strlit("5");
        reveal_strlit("6");
        reveal_strlit("7");
        reveal_strlit("8");
        reveal_strlit("9");
    }
    if d == 0 {
        "0"
    } else if d == 1 {
        "1"
    } else if d == 2 {
        "2"
    } else if d == 3 {
        "3"
    } else if d == 4 {
        "4"
    } else if d == 5 {
        "5"
    } else if d == 6 {
        "6"
    } else if d == 7 {
        "7"
    } else if d == 8 {
        "8"
    } else {
        "9"
    }
}

/// Renders `n` in canonical decimal form, as `format!("{}", n)` would.
pub fn u64_to_string(n: u64) -> (r: String)
    ensures
        r@ == dec_str(n as nat),
    decreases n,
{
    if n < 10 {
        digit_str(n).to_owned()
    } else {
        let mut s = u64_to_string(n / 10);
        s.append(digit_str(n % 10));
        proof {
            assert(s@ =~= dec_str(n as nat));
        }
        s
    }
}


/// Length of the trailing whitespace run of `s`.
pub open spec fn ws_suffix_len(s: Seq<char>) -> nat
    decreases s.len(),
{
    if s.len() == 0 {
        0
    } else if is_ws(s.last()) {
        1 + ws_suffix_len(s.drop_last())
    } else {
        0
    }
}

/// The trailing whitespace run is at most the whole string, every
/// character in it is whitespace, and the character before it (if any)
/// is not.
pub proof fn lemma_ws_suffix(s: Seq<char>)
    ensures
        ws_suffix_len(s) <= s.len(),
        forall|j: int| s.len() - ws_suffix_len(s) <= j < s.len() ==> is_ws(s[j]),
        ws_suffix_len(s) < s.len() ==> !is_ws(s[s.len() - ws_suffix_len(s) - 1]),
    decreases s.len(),
{
    if s.len() > 0 && is_ws(s.last()) {
        lemma_ws_suffix(s.drop_last());
        assert forall|j: int| s.len() - ws_suffix_len(s) <= j < s.len() implies is_ws(s[j]) by {
            if j < s.len() - 1 {
                assert(s.drop_last()[j] == s[j]);
            }
        }
        if ws_suffix_len(s) < s.len() {
            assert(s.drop_last()[s.len() - ws_suffix_len(s) - 1] == s[s.len() - ws_suffix_len(s)
                - 1]);
        }
    }
}

/// `s` with leading and trailing whitespace removed.
pub open spec fn trim_ws(s: Seq<char>) -> Seq<char> {
    if ws_prefix_len(s) == s.len() {
        Seq::empty()
    } else {
        s.subrange(ws_prefix_len(s) as int, s.len() - ws_suffix_len(s))
    }
}

/// When `s` holds a non-whitespace character, its leading and trailing
/// whitespace runs do not meet.
pub proof fn lemma_trim_bounds(s: Seq<char>)
    ensures
        ws_prefix_len(s) < s.len() ==> ws_prefix_len(s) + ws_suffix_len(s) < s.len(),
{
    lemma_ws_prefix(s);
    lemma_ws_suffix(s);
    if ws_prefix_len(s) < s.len() {
        if ws_suffix_len(s) == s.len() {
            assert(is_ws(s[ws_prefix_len(s) as int]));
        } else {
            let last_non = s.len() - ws_suffix_len(s) - 1;
            if ws_prefix_len(s) + ws_suffix_len(s) >= s.len() {
                assert(is_ws(s[last_non]));
            }
        }
    }
}

/// Index one past the last non-whitespace character of `s`, or zero if
/// there is none; this is where `str::trim_end` would end the result.
pub fn ws_suffix_start(s: &str) -> (r: usize)
    ensures
        r == s@.len() - ws_suffix_len(s@),
{
    let n = s.unicode_len();
    proof {
        assert(s@.subrange(0, n as int) =~= s@);
    }
    let mut i: usize = n;
    while i > 0
        invariant
            n == s@.len(),
            0 <= i <= n,
            ws_suffix_len(s@) == ws_suffix_len(s@.subrange(0, i as int)) + (n - i),
        decreases i,
    {
        let ghost pre = s@.subrange(0, i as int);
        proof {
            assert(pre.last() == s@[i - 1]);
            assert(pre.drop_last() =~= s@.subrange(0, i - 1));
        }
        if !is_ws_char(s.get_char(i - 1)) {
            proof {
                assert(ws_suffix_len(pre) == 0);
            }
            return i;
        }
        proof {
            assert(ws_suffix_len(pre) == 1 + ws_suffix_len(s@.subrange(0, i - 1)));
        }
        i -= 1;
    }
    proof {
        assert(s@.subrange(0, 0) =~= Seq::<char>::empty());
        assert(ws_suffix_len(Seq::<char>::empty()) == 0);
    }
    i
}

/// Trims leading and trailing whitespace, as `str::trim` does over the
/// whitespace set of `is_ws`.
pub fn trim_str(s: &str) -> (r: &str)
    ensures
        r@ == trim_ws(s@),
{
    let n = s.unicode_len();
    let p = ws_prefix_end(s);
    if p == n {
        let r = s.substring_char(n, n);
        proof {
            assert(r@ =~= trim_ws(s@));
        }
        return r;
    }
    proof {
        lemma_ws_prefix(s@);
        lemma_trim_bounds(s@);
    }
    let e = ws_suffix_start(s);
    s.substring_char(p, e)
}

/// Index of the first occurrence of `c` at or after `k`, if any.
pub open spec fn first_char(t: Seq<char>, c: char, k: nat) -> Option<nat>
    decreases t.len() - k,
{
    if k >= t.len() {
        None
    } else if t[k as int] == c {
        Some(k)
    } else {
        first_char(t, c, k + 1)
    }
}

/// The found position is in range, holds `c`, and nothing between `k`
/// and it does.
pub proof fn lemma_first_char(t: Seq<char>, c: char, k: nat)
    ensures
        match first_char(t, c, k) {
            Some(j) => k <= j < t.len() && t[j as int] == c && forall|m: int|
                k <= m < j ==> t[m] != c,
            None => forall|m: int| k <= m < t.len() ==> t[m] != c,
        },
    decreases t.len() - k,
{
    if k < t.len() && t[k as int] != c {
        lemma_first_char(t, c, k + 1);
    }
}

/// Finds the first occurrence of `c` at or after `from`.
pub fn find_char(s: &str, c: char, from: usize) -> (r: Option<usize>)
    ensures
        match r {
            Some(j) => from <= j < s@.len() && first_char(s@, c, from as nat) == Some(j as nat),
            None => first_char(s@, c, from as nat) is None,
        },
{
    let n = s.unicode_len();
    let mut k: usize = from;
    if k > n {
        return None;
    }
    while k < n
        invariant
            n == s@.len(),
            from <= k <= n,
            first_char(s@, c, from as nat) == first_char(s@, c, k as nat),
        decreases n - k,
    {
        if s.get_char(k) == c {
            return Some(k);
        }
        k += 1;
    }
    None
}


/// What `str::to_lowercase` yields for a string: its Unicode lowercase
/// form, a function of the characters alone.
pub uninterp spec fn lower_of(s: Seq<char>) -> Seq<char>;

/// Relies on `str::to_lowercase`: the Unicode lowercase form of the
/// string, depending on its characters alone.
#[verifier::external_body]
pub(crate) fn lowercase(s: &str) -> (r: String)
    ensures
        r@ == lower_of(s@),
{
    s.to_lowercase()
}

} // verus!
