//! Character-level helpers shared by the URL parser and the message readers:
//! whitespace handling, trimming, searching, ASCII lower-casing, and string
//! equality, each specified over `Seq<char>`.

use vstd::prelude::*;

verus! {

/// Whitespace as the line handling understands it: space, horizontal tab,
/// carriage return and line feed.
pub open spec fn is_ws(c: char) -> bool {
    c == ' ' || c == '\t' || c == '\r' || c == '\n'
}

/// First index at or after `i` holding a non-whitespace character, or `s.len()`.
pub open spec fn skip_ws_from(s: Seq<char>, i: int) -> int
    decreases s.len() - i,
{
    if i < 0 || i >= s.len() {
        s.len() as int
    } else if is_ws(s[i]) {
        skip_ws_from(s, i + 1)
    } else {
        i
    }
}

/// First index at or after `i` holding a whitespace character, or `s.len()`.
pub open spec fn next_ws_from(s: Seq<char>, i: int) -> int
    decreases s.len() - i,
{
    if i < 0 || i >= s.len() {
        s.len() as int
    } else if is_ws(s[i]) {
        i
    } else {
        next_ws_from(s, i + 1)
    }
}

/// Length of `s` once trailing whitespace is dropped.
pub open spec fn trim_end_len(s: Seq<char>) -> int
    decreases s.len(),
{
    if s.len() == 0 {
        0
    } else if is_ws(s.last()) {
        trim_end_len(s.drop_last())
    } else {
        s.len() as int
    }
}

/// `s` with leading and trailing whitespace removed.
pub open spec fn spec_trim(s: Seq<char>) -> Seq<char> {
    let a = skip_ws_from(s, 0);
    let b = trim_end_len(s);
    if a >= b {
        Seq::empty()
    } else {
        s.subrange(a, b)
    }
}

/// First index at or after `from` holding `c`, or `s.len()`.
pub open spec fn find_from(s: Seq<char>, from: int, c: char) -> int
    decreases s.len() - from,
{
    if from < 0 || from >= s.len() {
        s.len() as int
    } else if s[from] == c {
        from
    } else {
        find_from(s, from + 1, c)
    }
}

/// Last index holding `c` strictly below `below`, or `-1`.
pub open spec fn rfind_below(s: Seq<char>, below: int, c: char) -> int
    decreases below,
{
    if below <= 0 || below > s.len() {
        -1
    } else if s[below - 1] == c {
        below - 1
    } else {
        rfind_below(s, below - 1, c)
    }
}

/// First index at or after `i` where the scheme separator `"://"` begins,
/// or `-1` when it never occurs.
pub open spec fn find_scheme_sep_from(s: Seq<char>, i: int) -> int
    decreases s.len() - i,
{
    if i < 0 || i + 3 > s.len() {
        -1
    } else if s[i] == ':' && s[i + 1] == '/' && s[i + 2] == '/' {
        i
    } else {
        find_scheme_sep_from(s, i + 1)
    }
}

/// ASCII lower-casing of one character.
pub open spec fn lower_char(c: char) -> char {
    if c == 'A' {
        'a'
    } else if c == 'B' {
        'b'
    } else if c == 'C' {
        'c'
    } else if c == 'D' {
        'd'
    } else if c == 'E' {
        'e'
    } else if c == 'F' {
        'f'
    } else if c == 'G' {
        'g'
    } else if c == 'H' {
        'h'
    } else if c == 'I' {
        'i'
    } else if c == 'J' {
        'j'
    } else if c == 'K' {
        'k'
    } else if c == 'L' {
        'l'
    } else if c == 'M' {
        'm'
    } else if c == 'N' {
        'n'
    } else if c == 'O' {
        'o'
    } else if c == 'P' {
        'p'
    } else if c == 'Q' {
        'q'
    } else if c == 'R' {
        'r'
    } else if c == 'S' {
        's'
    } else if c == 'T' {
        't'
    } else if c == 'U' {
        'u'
    } else if c == 'V' {
        'v'
    } else if c == 'W' {
        'w'
    } else if c == 'X' {
        'x'
    } else if c == 'Y' {
        'y'
    } else if c == 'Z' {
        'z'
    } else {
        c
    }
}

/// Lower-casing is idempotent: a character already lowered stays put.
pub proof fn lemma_lower_char_idempotent(c: char)
    ensures
        lower_char(lower_char(c)) == lower_char(c),
{
}

/// ASCII lower-casing of a character sequence.
pub open spec fn to_lower(s: Seq<char>) -> Seq<char> {
    s.map_values(|c: char| lower_char(c))
}

/// Whether `pat` occurs in `s` as a contiguous subsequence.
pub open spec fn contains_seq(s: Seq<char>, pat: Seq<char>) -> bool {
    exists|i: int|
        0 <= i && i + pat.len() <= s.len() && #[trigger] s.subrange(i, i + pat.len()) == pat
}

/// The one-character string for an ASCII capital letter's lower-case form,
/// or `None` for every other character.
pub fn upper_to_lower_str(c: char) -> (r: Option<&'static str>)
    ensures
        match r {
            Some(t) => 'A' <= c && c <= 'Z' && t@ == seq![lower_char(c)],
            None => !('A' <= c && c <= 'Z'),
        },
{
    proof {
        reveal_strlit("a");
        reveal_strlit("b");
        reveal_strlit("c");
        reveal_strlit("d");
        reveal_strlit("e");
        reveal_strlit("f");
        reveal_strlit("g");
        reveal_strlit("h");
        reveal_strlit("i");
        reveal_strlit("j");
        reveal_strlit("k");
        reveal_strlit("l");
        reveal_strlit("m");
        reveal_strlit("n");
        reveal_strlit("o");
        reveal_strlit("p");
        reveal_strlit("q");
        reveal_strlit("r");
        reveal_strlit("s");
        reveal_strlit("t");
        reveal_strlit("u");
        reveal_strlit("v");
        reveal_strlit("w");
        reveal_strlit("x");
        reveal_strlit("y");
        reveal_strlit("z");
    }
    match c {
        'A' => Some("a"),
        'B' => Some("b"),
        'C' => Some("c"),
        'D' => Some("d"),
        'E' => Some("e"),
        'F' => Some("f"),
        'G' => Some("g"),
        'H' => Some("h"),
        'I' => Some("i"),
        'J' => Some("j"),
        'K' => Some("k"),
        'L' => Some("l"),
        'M' => Some("m"),
        'N' => Some("n"),
        'O' => Some("o"),
        'P' => Some("p"),
        'Q' => Some("q"),
        'R' => Some("r"),
        'S' => Some("s"),
        'T' => Some("t"),
        'U' => Some("u"),
        'V' => Some("v"),
        'W' => Some("w"),
        'X' => Some("x"),
        'Y' => Some("y"),
        'Z' => Some("z"),
        _ => None,
    }
}

/// ASCII lower-casing of a whole string.
pub fn to_lower_str(s: &str) -> (r: String)
    ensures
        r@ == to_lower(s@),
{
    let n: usize = s.unicode_len();
    let mut r = String::new();
    let mut i: usize = 0;
    while i < n
        invariant
            n == s@.len(),
            i <= n,
            r@ =~= to_lower(s@).subrange(0, i as int),
        decreases n - i,
    {
        let c = s.get_char(i);
        match upper_to_lower_str(c) {
            Some(t) => {
                r.append(t);
            },
            None => {
                r.append(s.substring_char(i, i + 1));
                proof {
                    assert(s@.subrange(i as int, i as int + 1) =~= seq![s@[i as int]]);
                }
            },
        }
        proof {
            assert(to_lower(s@).subrange(0, i as int + 1) =~= to_lower(s@).subrange(0, i as int)
                + seq![lower_char(s@[i as int])]);
        }
        i += 1;
    }
    proof {
        assert(to_lower(s@).subrange(0, n as int) =~= to_lower(s@));
    }
    r
}

/// Whether `pat` occurs in `s` as a contiguous substring.
pub fn contains_str(s: &str, pat: &str) -> (r: bool)
    ensures
        r == contains_seq(s@, pat@),
{
    let n: usize = s.unicode_len();
    let m: usize = pat.unicode_len();
    if m > n {
        proof {
            assert(!contains_seq(s@, pat@));
        }
        return false;
    }
    let mut i: usize = 0;
    while i <= n - m
        invariant
            n == s@.len(),
            m == pat@.len(),
            m <= n,
            i <= n - m + 1,
            forall|k: int|
                0 <= k < i ==> #[trigger] s@.subrange(k, k + m) != pat@,
        decreases n - i,
    {
        let mut j: usize = 0;
        let mut same = true;
        while j < m && same
            invariant
                n == s@.len(),
                m == pat@.len(),
                i + m <= n,
                j <= m,
                same ==> (forall|l: int| 0 <= l < j ==> s@[i + l] == pat@[l]),
                !same ==> (exists|l: int| 0 <= l < m && #[trigger] s@[i + l] != pat@[l]),
            decreases m - j, (if same { 1int } else { 0int }),
        {
            if s.get_char(i + j) != pat.get_char(j) {
                same = false;
                proof {
                    assert(s@[i + j as int] != pat@[j as int]);
                }
            } else {
                j += 1;
            }
        }
        if same {
            proof {
                assert(s@.subrange(i as int, i + m) =~= pat@);
            }
            return true;
        } else {
            proof {
                let l = choose|l: int| 0 <= l < m && #[trigger] s@[i + l] != pat@[l];
                assert(s@.subrange(i as int, i + m)[l] == s@[i + l]);
                assert(s@.subrange(i as int, i + m) != pat@);
            }
        }
        i += 1;
    }
    proof {
        assert forall|k: int| 0 <= k && k + m <= n implies #[trigger] s@.subrange(k, k + m)
            != pat@ by {
            assert(k < i);
        }
    }
    false
}

pub fn is_ws_char(c: char) -> (r: bool)
    ensures
        r == is_ws(c),
{
    c == ' ' || c == '\t' || c == '\r' || c == '\n'
}

/// Equality of two string slices, decided character by character.
pub fn str_eq(a: &str, b: &str) -> (r: bool)
    ensures
        r <==> a@ == b@,
{
    let n: usize = a.unicode_len();
    if n != b.unicode_len() {
        proof {
            assert(a@ != b@);
        }
        return false;
    }
    let mut i: usize = 0;
    while i < n
        invariant
            n == a@.len(),
            n == b@.len(),
            i <= n,
            forall|j: int| 0 <= j < i ==> a@[j] == b@[j],
        decreases n - i,
    {
        if a.get_char(i) != b.get_char(i) {
            proof {
                assert(a@[i as int] != b@[i as int]);
            }
            return false;
        }
        i += 1;
    }
    proof {
        assert(a@ =~= b@);
    }
    true
}

/// First index at or after `from` holding `c`, or the length of `s`.
pub fn find_char_from(s: &str, from: usize, c: char) -> (r: usize)
    requires
        from <= s@.len(),
    ensures
        r == find_from(s@, from as int, c),
        from <= r <= s@.len(),
        r < s@.len() ==> s@[r as int] == c,
{
    let n: usize = s.unicode_len();
    let mut i: usize = from;
    while i < n
        invariant
            n == s@.len(),
            from <= i <= n,
            find_from(s@, from as int, c) == find_from(s@, i as int, c),
        decreases n - i,
    {
        if s.get_char(i) == c {
            return i;
        }
        i += 1;
    }
    i
}

/// Last index below `below` holding `c`, as an option.
pub fn rfind_char_below(s: &str, below: usize, c: char) -> (r: Option<usize>)
    requires
        below <= s@.len(),
    ensures
        match r {
            Some(k) => rfind_below(s@, below as int, c) == k && k < below && s@[k as int] == c,
            None => rfind_below(s@, below as int, c) == -1,
        },
{
    let mut i: usize = below;
    while i > 0
        invariant
            i <= below <= s@.len(),
            rfind_below(s@, below as int, c) == rfind_below(s@, i as int, c),
        decreases i,
    {
        i -= 1;
        if s.get_char(i) == c {
            return Some(i);
        }
    }
    None
}

/// First index at or after `from` where `"://"` begins, as an option.
pub fn find_scheme_sep(s: &str) -> (r: Option<usize>)
    ensures
        match r {
            Some(k) => find_scheme_sep_from(s@, 0) == k && 0 <= k && k + 3 <= s@.len(),
            None => find_scheme_sep_from(s@, 0) == -1,
        },
{
    let n: usize = s.unicode_len();
    if n < 3 {
        return None;
    }
    let mut i: usize = 0;
    while i <= n - 3
        invariant
            n == s@.len(),
            3 <= n,
            i <= n - 2,
            find_scheme_sep_from(s@, 0) == find_scheme_sep_from(s@, i as int),
        decreases n - i,
    {
        if s.get_char(i) == ':' && s.get_char(i + 1) == '/' && s.get_char(i + 2) == '/' {
            return Some(i);
        }
        i += 1;
    }
    None
}

/// First index at or after `from` holding a non-whitespace character, or the
/// length of `s`.
pub fn skip_ws_char_from(s: &str, from: usize) -> (r: usize)
    requires
        from <= s@.len(),
    ensures
        r == skip_ws_from(s@, from as int),
        from <= r <= s@.len(),
{
    let n: usize = s.unicode_len();
    let mut i: usize = from;
    while i < n && is_ws_char(s.get_char(i))
        invariant
            n == s@.len(),
            from <= i <= n,
            skip_ws_from(s@, from as int) == skip_ws_from(s@, i as int),
        decreases n - i,
    {
        i += 1;
    }
    i
}

/// First index at or after `from` holding a whitespace character, or the
/// length of `s`.
pub fn next_ws_char_from(s: &str, from: usize) -> (r: usize)
    requires
        from <= s@.len(),
    ensures
        r == next_ws_from(s@, from as int),
        from <= r <= s@.len(),
{
    let n: usize = s.unicode_len();
    let mut i: usize = from;
    while i < n && !is_ws_char(s.get_char(i))
        invariant
            n == s@.len(),
            from <= i <= n,
            next_ws_from(s@, from as int) == next_ws_from(s@, i as int),
        decreases n - i,
    {
        i += 1;
    }
    i
}

/// `find_from` never leaves the range between its start and the length.
pub proof fn lemma_find_from_bounds(s: Seq<char>, i: int, c: char)
    requires
        0 <= i <= s.len(),
    ensures
        i <= find_from(s, i, c) <= s.len(),
    decreases s.len() - i,
{
    if i < s.len() && s[i] != c {
        lemma_find_from_bounds(s, i + 1, c);
    }
}

/// The slice of `s` with leading and trailing whitespace removed.
pub fn trim_of<'a>(s: &'a str) -> (r: &'a str)
    ensures
        r@ == spec_trim(s@),
{
    let n: usize = s.unicode_len();
    let mut a: usize = 0;
    while a < n && is_ws_char(s.get_char(a))
        invariant
            n == s@.len(),
            a <= n,
            skip_ws_from(s@, 0) == skip_ws_from(s@, a as int),
        decreases n - a,
    {
        a += 1;
    }
    proof {
        assert(skip_ws_from(s@, a as int) == a as int);
        assert(s@.subrange(0, s@.len() as int) =~= s@);
    }
    let mut b: usize = n;
    while b > a && is_ws_char(s.get_char(b - 1))
        invariant
            n == s@.len(),
            a <= b <= n,
            a == skip_ws_from(s@, 0),
            trim_end_len(s@) == trim_end_len(s@.subrange(0, b as int)),
        decreases b,
    {
        proof {
            assert(s@.subrange(0, b as int).drop_last() =~= s@.subrange(0, b as int - 1));
        }
        b -= 1;
    }
    proof {
        let t = s@.subrange(0, b as int);
        if b == a {
            lemma_skip_ws_prefix(s@, 0, a as int);
            assert(forall|j: int| 0 <= j < t.len() ==> is_ws(t[j]));
            lemma_trim_end_all_ws(t);
            assert(spec_trim(s@) =~= Seq::<char>::empty());
            assert(s@.subrange(a as int, b as int) =~= Seq::<char>::empty());
        } else {
            assert(t.last() == s@[b as int - 1]);
            assert(trim_end_len(t) == b as int);
        }
    }
    s.substring_char(a, b)
}

/// `find_from` stops exactly at the first occurrence.
pub proof fn lemma_find_from_target(s: Seq<char>, i: int, t: int, c: char)
    requires
        0 <= i <= t <= s.len(),
        forall|j: int| i <= j < t ==> s[j] != c,
        t == s.len() || s[t] == c,
    ensures
        find_from(s, i, c) == t,
    decreases t - i,
{
    if i < t {
        lemma_find_from_target(s, i + 1, t, c);
    }
}

/// `rfind_below` reports no occurrence when there is none.
pub proof fn lemma_rfind_below_none(s: Seq<char>, below: int, c: char)
    requires
        0 <= below <= s.len(),
        forall|j: int| 0 <= j < below ==> s[j] != c,
    ensures
        rfind_below(s, below, c) == -1,
    decreases below,
{
    if below > 0 {
        lemma_rfind_below_none(s, below - 1, c);
    }
}

/// `rfind_below` stops exactly at the last occurrence.
pub proof fn lemma_rfind_below_some(s: Seq<char>, below: int, t: int, c: char)
    requires
        0 <= t < below <= s.len(),
        s[t] == c,
        forall|j: int| t < j < below ==> s[j] != c,
    ensures
        rfind_below(s, below, c) == t,
    decreases below,
{
    if t < below - 1 {
        lemma_rfind_below_some(s, below - 1, t, c);
    }
}

/// `find_scheme_sep_from` stops exactly where `"://"` first begins.
pub proof fn lemma_find_scheme_sep_target(s: Seq<char>, i: int, t: int)
    requires
        0 <= i <= t,
        t + 3 <= s.len(),
        forall|j: int| i <= j < t ==> s[j] != ':',
        s[t] == ':' && s[t + 1] == '/' && s[t + 2] == '/',
    ensures
        find_scheme_sep_from(s, i) == t,
    decreases t - i,
{
    if i < t {
        lemma_find_scheme_sep_target(s, i + 1, t);
    }
}

/// Trimming a sequence of nothing but whitespace from the end removes it all.
proof fn lemma_trim_end_all_ws(t: Seq<char>)
    requires
        forall|j: int| 0 <= j < t.len() ==> is_ws(t[j]),
    ensures
        trim_end_len(t) == 0,
    decreases t.len(),
{
    if t.len() > 0 {
        assert(is_ws(t.last()));
        lemma_trim_end_all_ws(t.drop_last());
    }
}

/// Every index below the stopping point of `skip_ws_from` holds whitespace.
proof fn lemma_skip_ws_prefix(s: Seq<char>, i: int, a: int)
    requires
        0 <= i,
        skip_ws_from(s, i) == a,
    ensures
        forall|j: int| i <= j < a ==> is_ws(s[j]),
    decreases s.len() - i,
{
    if i < s.len() && is_ws(s[i]) {
        lemma_skip_ws_prefix(s, i + 1, a);
    }
}

} // verus!
