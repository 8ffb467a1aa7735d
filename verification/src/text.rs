//! Character-level text operations with exact specifications.
//!
//! Every executable function here has a spec counterpart over `Seq<char>`;
//! the parsers in the rest of the crate are stated in terms of these.
use vstd::prelude::*;

verus! {

pub assume_specification[ String::push ](s: &mut String, ch: char)
    ensures
        final(s)@ == old(s)@.push(ch),
;

/// Unicode `White_Space`, the set that `char::is_whitespace` and `str::trim` use.
pub open spec fn is_ws(c: char) -> bool {
    let u = c as u32;
    ||| u == 0x09 || u == 0x0A || u == 0x0B || u == 0x0C || u == 0x0D || u == 0x20
    ||| u == 0x85 || u == 0xA0 || u == 0x1680
    ||| (0x2000 <= u && u <= 0x200A)
    ||| u == 0x2028 || u == 0x2029 || u == 0x202F || u == 0x205F || u == 0x3000
}

pub fn is_whitespace(c: char) -> (r: bool)
    ensures
        r == is_ws(c),
{
    let u = c as u32;
    u == 0x09 || u == 0x0A || u == 0x0B || u == 0x0C || u == 0x0D || u == 0x20 || u == 0x85
        || u == 0xA0 || u == 0x1680 || (0x2000 <= u && u <= 0x200A) || u == 0x2028 || u
        == 0x2029 || u == 0x202F || u == 0x205F || u == 0x3000
}

/// `s` without its leading whitespace.
pub open spec fn trim_start(s: Seq<char>) -> Seq<char>
    decreases s.len(),
{
    if s.len() > 0 && is_ws(s[0]) {
        trim_start(s.drop_first())
    } else {
        s
    }
}

/// `s` without its trailing whitespace.
pub open spec fn trim_end(s: Seq<char>) -> Seq<char>
    decreases s.len(),
{
    if s.len() > 0 && is_ws(s.last()) {
        trim_end(s.drop_last())
    } else {
        s
    }
}

/// `s` without leading and trailing whitespace, as `str::trim` gives it.
pub open spec fn trim(s: Seq<char>) -> Seq<char> {
    trim_end(trim_start(s))
}

/// The characters of `s`, in order.
pub fn chars_of(s: &str) -> (v: Vec<char>)
    ensures
        v@ == s@,
{
    let mut v: Vec<char> = Vec::new();
    for c in it: s.chars()
        invariant
            v@ == it.seq().take(it.index() as int),
    {
        v.push(c);
    }
    v
}

/// A `String` holding exactly the characters of `v`.
pub fn string_of(v: &[char]) -> (s: String)
    ensures
        s@ == v@,
{
    let mut s = String::new();
    let mut i: usize = 0;
    while i < v.len()
        invariant
            i <= v.len(),
            s@ == v@.take(i as int),
        decreases v.len() - i,
    {
        s.push(v[i]);
        i = i + 1;
        assert(s@ == v@.take(i as int));
    }
    assert(v@.take(v.len() as int) == v@);
    s
}

/// A `String` holding `v[a..b]`.
pub fn string_of_range(v: &[char], a: usize, b: usize) -> (s: String)
    requires
        a <= b <= v@.len(),
    ensures
        s@ == v@.subrange(a as int, b as int),
{
    string_of(&v[a..b])
}

/// A copy of the string `s`.
pub fn str_to_string(s: &str) -> (r: String)
    ensures
        r@ == s@,
{
    let v = chars_of(s);
    string_of(v.as_slice())
}

/// `a` followed by `b`.
pub fn concat(a: &str, b: &str) -> (r: String)
    ensures
        r@ == a@ + b@,
{
    let mut r = str_to_string(a);
    let v = chars_of(b);
    let mut i: usize = 0;
    while i < v.len()
        invariant
            i <= v.len(),
            v@ == b@,
            r@ == a@ + v@.take(i as int),
        decreases v.len() - i,
    {
        r.push(v[i]);
        i = i + 1;
        assert(r@ == a@ + v@.take(i as int));
    }
    assert(v@.take(v.len() as int) == v@);
    r
}

/// Index of the first non-whitespace character at or after `i`.
fn skip_ws_from(v: &[char], i: usize) -> (k: usize)
    requires
        i <= v@.len(),
    ensures
        i <= k <= v@.len(),
        trim_start(v@.skip(i as int)) == v@.skip(k as int),
        k < v@.len() ==> !is_ws(v@[k as int]),
{
    let mut k = i;
    while k < v.len() && is_whitespace(v[k])
        invariant
            i <= k <= v@.len(),
            trim_start(v@.skip(i as int)) == trim_start(v@.skip(k as int)),
        decreases v.len() - k,
    {
        assert(v@.skip(k as int).drop_first() =~= v@.skip(k + 1));
        k = k + 1;
    }
    k
}

/// Start and end of `trim(v[a..b])` inside `v`.
pub fn trim_bounds(v: &[char], a: usize, b: usize) -> (r: (usize, usize))
    requires
        a <= b <= v@.len(),
    ensures
        a <= r.0 <= r.1 <= b,
        v@.subrange(r.0 as int, r.1 as int) == trim(v@.subrange(a as int, b as int)),
{
    let w = &v[a..b];
    let s = skip_ws_from(w, 0);
    assert(w@.skip(0) =~= w@);
    let mut e = w.len();
    while e > s && is_whitespace(w[e - 1])
        invariant
            s <= e <= w@.len(),
            w@ == v@.subrange(a as int, b as int),
            trim_end(w@.skip(s as int)) == trim_end(w@.subrange(s as int, e as int)),
        decreases e,
    {
        assert(w@.subrange(s as int, e as int).drop_last() =~= w@.subrange(s as int, e - 1));
        e = e - 1;
    }
    assert(w@.subrange(s as int, w@.len() as int) =~= w@.skip(s as int));
    assert(v@.subrange(a + s, a + e) =~= w@.subrange(s as int, e as int));
    (a + s, a + e)
}

/// `trim(s)` as a fresh `String`.
pub fn trim_str(s: &str) -> (r: String)
    ensures
        r@ == trim(s@),
{
    let v = chars_of(s);
    let (a, b) = trim_bounds(v.as_slice(), 0, v.len());
    assert(v@.subrange(0, v@.len() as int) =~= v@);
    string_of_range(v.as_slice(), a, b)
}

} // verus!

verus! {

/// `i` is the position of the first `c` in `s`.
pub open spec fn first_at(s: Seq<char>, c: char, i: int) -> bool {
    &&& 0 <= i < s.len()
    &&& s[i] == c
    &&& forall|j: int| 0 <= j < i ==> s[j] != c
}

/// The parts of `s` before and after its first `c`, as `str::split_once` gives them.
pub open spec fn split_once(s: Seq<char>, c: char) -> Option<(Seq<char>, Seq<char>)> {
    if exists|i: int| first_at(s, c, i) {
        let i = choose|i: int| first_at(s, c, i);
        Some((s.take(i), s.skip(i + 1)))
    } else {
        None
    }
}

pub proof fn lemma_first_at_unique(s: Seq<char>, c: char, i: int, k: int)
    requires
        first_at(s, c, i),
        first_at(s, c, k),
    ensures
        i == k,
{
}

/// Position of the first `c` in `v[from..]`, if any.
pub fn find_char(v: &[char], from: usize, c: char) -> (r: Option<usize>)
    requires
        from <= v@.len(),
    ensures
        match r {
            Some(i) => from <= i < v@.len() && v@[i as int] == c && forall|j: int|
                from <= j < i ==> v@[j] != c,
            None => forall|j: int| from <= j < v@.len() ==> v@[j] != c,
        },
{
    let mut i = from;
    while i < v.len()
        invariant
            from <= i <= v@.len(),
            forall|j: int| from <= j < i ==> v@[j] != c,
        decreases v.len() - i,
    {
        if v[i] == c {
            return Some(i);
        }
        i = i + 1;
    }
    None
}

/// `split_once(v, c)` as the position of the separator.
pub fn split_once_at(v: &[char], c: char) -> (r: Option<usize>)
    ensures
        match r {
            Some(i) => i < v@.len() && split_once(v@, c) == Some(
                (v@.take(i as int), v@.skip(i + 1)),
            ),
            None => split_once(v@, c) is None,
        },
{
    let r = find_char(v, 0, c);
    match r {
        Some(i) => {
            assert(first_at(v@, c, i as int));
            let ghost k = choose|k: int| first_at(v@, c, k);
            proof {
                lemma_first_at_unique(v@, c, i as int, k);
            }
        },
        None => {
            assert(!exists|i: int| first_at(v@, c, i));
        },
    }
    r
}

/// `p` is a prefix of `s`.
pub open spec fn starts_with(s: Seq<char>, p: Seq<char>) -> bool {
    p.len() <= s.len() && s.take(p.len() as int) == p
}

/// `p` is a suffix of `s`.
pub open spec fn ends_with(s: Seq<char>, p: Seq<char>) -> bool {
    p.len() <= s.len() && s.skip(s.len() - p.len()) == p
}

/// `str::strip_prefix`.
pub open spec fn strip_prefix(s: Seq<char>, p: Seq<char>) -> Option<Seq<char>> {
    if starts_with(s, p) {
        Some(s.skip(p.len() as int))
    } else {
        None
    }
}

/// `str::strip_suffix`.
pub open spec fn strip_suffix(s: Seq<char>, p: Seq<char>) -> Option<Seq<char>> {
    if ends_with(s, p) {
        Some(s.take(s.len() - p.len()))
    } else {
        None
    }
}

/// `s[a..b]` equals `p`.
pub fn range_eq(v: &[char], a: usize, b: usize, p: &[char]) -> (r: bool)
    requires
        a <= b <= v@.len(),
    ensures
        r == (v@.subrange(a as int, b as int) == p@),
{
    if b - a != p.len() {
        return false;
    }
    let mut i: usize = 0;
    while i < p.len()
        invariant
            a <= b <= v@.len(),
            b - a == p@.len(),
            i <= p@.len(),
            forall|j: int| 0 <= j < i ==> v@[a + j] == p@[j],
        decreases p.len() - i,
    {
        if v[a + i] != p[i] {
            assert(v@.subrange(a as int, b as int)[i as int] != p@[i as int]);
            return false;
        }
        i = i + 1;
    }
    assert(v@.subrange(a as int, b as int) =~= p@);
    true
}

pub fn has_prefix(v: &[char], p: &[char]) -> (r: bool)
    ensures
        r == starts_with(v@, p@),
{
    if p.len() > v.len() {
        return false;
    }
    assert(v@.subrange(0, p@.len() as int) =~= v@.take(p@.len() as int));
    range_eq(v, 0, p.len(), p)
}

pub fn has_suffix(v: &[char], p: &[char]) -> (r: bool)
    ensures
        r == ends_with(v@, p@),
{
    if p.len() > v.len() {
        return false;
    }
    assert(v@.subrange(v@.len() - p@.len(), v@.len() as int) =~= v@.skip(
        v@.len() - p@.len(),
    ));
    range_eq(v, v.len() - p.len(), v.len(), p)
}

/// `v` equals the string `lit`.
pub fn chars_eq_str(v: &[char], lit: &str) -> (r: bool)
    ensures
        r == (v@ == lit@),
{
    let p = chars_of(lit);
    assert(v@.subrange(0, v@.len() as int) =~= v@);
    range_eq(v, 0, v.len(), p.as_slice())
}

/// The string `a` equals the string `b`.
pub fn str_eq(a: &str, b: &str) -> (r: bool)
    ensures
        r == (a@ == b@),
{
    let v = chars_of(a);
    chars_eq_str(v.as_slice(), b)
}

/// `s` contains `p` as a contiguous part.
pub open spec fn contains_seq(s: Seq<char>, p: Seq<char>) -> bool {
    exists|i: int| 0 <= i && i + p.len() <= s.len() && #[trigger] s.subrange(i, i + p.len()) == p
}

pub fn contains_str(v: &[char], lit: &str) -> (r: bool)
    ensures
        r == contains_seq(v@, lit@),
{
    let p = chars_of(lit);
    if p.len() > v.len() {
        return false;
    }
    if p.len() == 0 {
        assert(v@.subrange(0, 0 + p@.len() as int) =~= p@);
        return true;
    }
    let plen = p.len();
    let vlen = v.len();
    let last = vlen - plen;
    let mut i: usize = 0;
    while i <= last
        invariant
            p@ == lit@,
            0 < p@.len() <= v@.len() <= usize::MAX,
            plen == p@.len(),
            last == v@.len() - p@.len(),
            i <= last + 1,
            forall|j: int| 0 <= j < i ==> #[trigger] v@.subrange(j, j + p@.len()) != p@,
        decreases last + 1 - i,
    {
        if range_eq(v, i, i + plen, p.as_slice()) {
            return true;
        }
        i = i + 1;
    }
    false
}

/// ASCII lower-casing of one character.
pub open spec fn lower(c: char) -> char {
    if 'A' <= c && c <= 'Z' {
        ((c as u32) + 32) as char
    } else {
        c
    }
}

/// `str::to_ascii_lowercase`.
pub open spec fn lower_seq(s: Seq<char>) -> Seq<char> {
    s.map_values(|c: char| lower(c))
}

pub fn lower_char(c: char) -> (r: char)
    ensures
        r == lower(c),
{
    if 'A' <= c && c <= 'Z' {
        ((c as u8) + 32) as char
    } else {
        c
    }
}

pub fn lower_chars(v: &[char]) -> (r: Vec<char>)
    ensures
        r@ == lower_seq(v@),
{
    let mut r: Vec<char> = Vec::new();
    let mut i: usize = 0;
    while i < v.len()
        invariant
            i <= v@.len(),
            r@ == lower_seq(v@.take(i as int)),
        decreases v.len() - i,
    {
        r.push(lower_char(v[i]));
        i = i + 1;
        assert(lower_seq(v@.take(i as int)) =~= lower_seq(v@.take(i - 1)).push(lower(v@[i - 1])));
    }
    assert(v@.take(v@.len() as int) =~= v@);
    r
}

/// `str::eq_ignore_ascii_case` against a literal.
pub fn eq_ignore_case(v: &[char], lit: &str) -> (r: bool)
    ensures
        r == (lower_seq(v@) == lower_seq(lit@)),
{
    let a = lower_chars(v);
    let p = chars_of(lit);
    let b = lower_chars(p.as_slice());
    assert(a@.subrange(0, a@.len() as int) =~= a@);
    range_eq(a.as_slice(), 0, a.len(), b.as_slice())
}

} // verus!

verus! {

/// Words of `s` read so far and the word being read, after reading all of `s`.
pub open spec fn words_state(s: Seq<char>) -> (Seq<Seq<char>>, Seq<char>)
    decreases s.len(),
{
    if s.len() == 0 {
        (Seq::empty(), Seq::empty())
    } else {
        let (done, cur) = words_state(s.drop_last());
        if is_ws(s.last()) {
            if cur.len() > 0 {
                (done.push(cur), Seq::empty())
            } else {
                (done, cur)
            }
        } else {
            (done, cur.push(s.last()))
        }
    }
}

/// The maximal runs of non-whitespace characters of `s`, as `str::split_whitespace` gives them.
pub open spec fn words(s: Seq<char>) -> Seq<Seq<char>> {
    let (done, cur) = words_state(s);
    if cur.len() > 0 {
        done.push(cur)
    } else {
        done
    }
}

/// Pieces of `s` between occurrences of `sep`, read so far, and the piece being read.
pub open spec fn pieces_state(s: Seq<char>, sep: char) -> (Seq<Seq<char>>, Seq<char>)
    decreases s.len(),
{
    if s.len() == 0 {
        (Seq::empty(), Seq::empty())
    } else {
        let (done, cur) = pieces_state(s.drop_last(), sep);
        if s.last() == sep {
            (done.push(cur), Seq::empty())
        } else {
            (done, cur.push(s.last()))
        }
    }
}

/// The pieces of `s` between occurrences of `sep`, as `str::split(sep)` gives them.
pub open spec fn pieces(s: Seq<char>, sep: char) -> Seq<Seq<char>> {
    let (done, cur) = pieces_state(s, sep);
    done.push(cur)
}

/// A line without its `'\r'` before the newline.
pub open spec fn drop_cr(line: Seq<char>) -> Seq<char> {
    if line.len() > 0 && line.last() == '\r' {
        line.drop_last()
    } else {
        line
    }
}

/// Lines of `s` read so far and the line being read.
pub open spec fn lines_state(s: Seq<char>) -> (Seq<Seq<char>>, Seq<char>)
    decreases s.len(),
{
    if s.len() == 0 {
        (Seq::empty(), Seq::empty())
    } else {
        let (done, cur) = lines_state(s.drop_last());
        if s.last() == '\n' {
            (done.push(drop_cr(cur)), Seq::empty())
        } else {
            (done, cur.push(s.last()))
        }
    }
}

/// The lines of `s`, as `str::lines` gives them: split at `'\n'`, a `'\r'` before the
/// newline dropped, and no empty last line after a final newline.
pub open spec fn lines(s: Seq<char>) -> Seq<Seq<char>> {
    let (done, cur) = lines_state(s);
    if cur.len() > 0 {
        done.push(cur)
    } else {
        done
    }
}

pub open spec fn strings_view(v: Seq<String>) -> Seq<Seq<char>> {
    v.map_values(|s: String| s@)
}

/// Every range of `r` lies inside `0..n`.
pub open spec fn ranges_within(r: Seq<(usize, usize)>, n: nat) -> bool {
    forall|i: int| 0 <= i < r.len() ==> (#[trigger] r[i]).0 <= r[i].1 <= n
}

pub open spec fn ranges_view(v: Seq<char>, r: Seq<(usize, usize)>) -> Seq<Seq<char>> {
    r.map_values(|p: (usize, usize)| v.subrange(p.0 as int, p.1 as int))
}

/// Bounds of the words of `v`.
pub fn word_ranges(v: &[char]) -> (r: Vec<(usize, usize)>)
    ensures
        ranges_view(v@, r@) == words(v@),
        ranges_within(r@, v@.len()),
{
    let mut done: Vec<(usize, usize)> = Vec::new();
    let mut start: usize = 0;
    let mut i: usize = 0;
    while i < v.len()
        invariant
            i <= v@.len(),
            start <= i,
            ranges_within(done@, v@.len()),
            ranges_view(v@, done@) == words_state(v@.take(i as int)).0,
            v@.subrange(start as int, i as int) == words_state(v@.take(i as int)).1,
        decreases v.len() - i,
    {
        let ghost pre = v@.take(i as int);
        assert(v@.take(i + 1).drop_last() =~= pre);
        let c = v[i];
        if is_whitespace(c) {
            if start < i {
                let ghost d = done@;
                done.push((start, i));
                assert(ranges_view(v@, done@) =~= ranges_view(v@, d).push(
                    v@.subrange(start as int, i as int),
                ));
            }
            start = i + 1;
        } else {
            assert(v@.subrange(start as int, i + 1) =~= v@.subrange(start as int, i as int).push(c));
        }
        i = i + 1;
    }
    assert(v@.take(v@.len() as int) =~= v@);
    if start < v.len() {
        let ghost d = done@;
        done.push((start, v.len()));
        assert(ranges_view(v@, done@) =~= ranges_view(v@, d).push(
            v@.subrange(start as int, v@.len() as int),
        ));
    }
    done
}

/// Bounds of the pieces of `v[a..b]` between occurrences of `sep`.
pub fn piece_ranges(v: &[char], sep: char) -> (r: Vec<(usize, usize)>)
    ensures
        ranges_view(v@, r@) == pieces(v@, sep),
        ranges_within(r@, v@.len()),
{
    let mut done: Vec<(usize, usize)> = Vec::new();
    let mut start: usize = 0;
    let mut i: usize = 0;
    while i < v.len()
        invariant
            i <= v@.len(),
            start <= i,
            ranges_within(done@, v@.len()),
            ranges_view(v@, done@) == pieces_state(v@.take(i as int), sep).0,
            v@.subrange(start as int, i as int) == pieces_state(v@.take(i as int), sep).1,
        decreases v.len() - i,
    {
        let ghost pre = v@.take(i as int);
        assert(v@.take(i + 1).drop_last() =~= pre);
        let c = v[i];
        if c == sep {
            let ghost d = done@;
            done.push((start, i));
            assert(ranges_view(v@, done@) =~= ranges_view(v@, d).push(
                v@.subrange(start as int, i as int),
            ));
            start = i + 1;
        } else {
            assert(v@.subrange(start as int, i + 1) =~= v@.subrange(start as int, i as int).push(c));
        }
        i = i + 1;
    }
    assert(v@.take(v@.len() as int) =~= v@);
    let ghost d = done@;
    done.push((start, v.len()));
    assert(ranges_view(v@, done@) =~= ranges_view(v@, d).push(
        v@.subrange(start as int, v@.len() as int),
    ));
    done
}

/// Bounds of the lines of `v`.
pub fn line_ranges(v: &[char]) -> (r: Vec<(usize, usize)>)
    ensures
        ranges_view(v@, r@) == lines(v@),
        ranges_within(r@, v@.len()),
{
    let mut done: Vec<(usize, usize)> = Vec::new();
    let mut start: usize = 0;
    let mut i: usize = 0;
    while i < v.len()
        invariant
            i <= v@.len(),
            start <= i,
            ranges_within(done@, v@.len()),
            ranges_view(v@, done@) == lines_state(v@.take(i as int)).0,
            v@.subrange(start as int, i as int) == lines_state(v@.take(i as int)).1,
        decreases v.len() - i,
    {
        let ghost pre = v@.take(i as int);
        assert(v@.take(i + 1).drop_last() =~= pre);
        let c = v[i];
        if c == '\n' {
            let ghost d = done@;
            let end = if start < i && v[i - 1] == '\r' {
                i - 1
            } else {
                i
            };
            assert(v@.subrange(start as int, end as int) =~= drop_cr(
                v@.subrange(start as int, i as int),
            ));
            done.push((start, end));
            assert(ranges_view(v@, done@) =~= ranges_view(v@, d).push(
                v@.subrange(start as int, end as int),
            ));
            start = i + 1;
        } else {
            assert(v@.subrange(start as int, i + 1) =~= v@.subrange(start as int, i as int).push(c));
        }
        i = i + 1;
    }
    assert(v@.take(v@.len() as int) =~= v@);
    if start < v.len() {
        let ghost d = done@;
        done.push((start, v.len()));
        assert(ranges_view(v@, done@) =~= ranges_view(v@, d).push(
            v@.subrange(start as int, v@.len() as int),
        ));
    }
    done
}

/// The ranges of `v` given by `r`, as strings.
pub fn strings_of_ranges(v: &[char], r: &Vec<(usize, usize)>) -> (out: Vec<String>)
    requires
        ranges_within(r@, v@.len()),
    ensures
        strings_view(out@) == ranges_view(v@, r@),
{
    let mut out: Vec<String> = Vec::new();
    let mut i: usize = 0;
    while i < r.len()
        invariant
            i <= r@.len(),
            ranges_within(r@, v@.len()),
            strings_view(out@) == ranges_view(v@, r@.take(i as int)),
        decreases r.len() - i,
    {
        let (a, b) = r[i];
        let ghost o = out@;
        out.push(string_of_range(v, a, b));
        assert(strings_view(out@) =~= strings_view(o).push(v@.subrange(a as int, b as int)));
        assert(ranges_view(v@, r@.take(i + 1)) =~= ranges_view(v@, r@.take(i as int)).push(
            v@.subrange(a as int, b as int),
        ));
        i = i + 1;
    }
    assert(r@.take(r@.len() as int) =~= r@);
    out
}

/// `str::split_whitespace`, collected.
pub fn split_words(s: &str) -> (r: Vec<String>)
    ensures
        strings_view(r@) == words(s@),
{
    let v = chars_of(s);
    let rg = word_ranges(v.as_slice());
    strings_of_ranges(v.as_slice(), &rg)
}

/// `str::lines`, collected.
pub fn split_lines(s: &str) -> (r: Vec<String>)
    ensures
        strings_view(r@) == lines(s@),
{
    let v = chars_of(s);
    let rg = line_ranges(v.as_slice());
    strings_of_ranges(v.as_slice(), &rg)
}

/// `str::split(sep)`, collected.
pub fn split_char(s: &str, sep: char) -> (r: Vec<String>)
    ensures
        strings_view(r@) == pieces(s@, sep),
{
    let v = chars_of(s);
    let rg = piece_ranges(v.as_slice(), sep);
    strings_of_ranges(v.as_slice(), &rg)
}

} // verus!

verus! {

pub open spec fn is_digit(c: char) -> bool {
    '0' <= c && c <= '9'
}

pub open spec fn digit_val(c: char) -> nat {
    if is_digit(c) {
        ((c as u32) - 48) as nat
    } else {
        0
    }
}

/// The decimal value of the digits `s`.
pub open spec fn digits_value(s: Seq<char>) -> nat
    decreases s.len(),
{
    if s.len() == 0 {
        0
    } else {
        digits_value(s.drop_last()) * 10 + digit_val(s.last())
    }
}

pub open spec fn all_digits(s: Seq<char>) -> bool {
    forall|i: int| 0 <= i < s.len() ==> is_digit(#[trigger] s[i])
}

/// The digits of an unsigned number: a leading `'+'` is dropped when more follows.
pub open spec fn unsigned_digits(s: Seq<char>) -> Seq<char> {
    if s.len() > 1 && s[0] == '+' {
        s.drop_first()
    } else {
        s
    }
}

/// What `str::parse` gives for an unsigned integer type whose largest value is `max`.
pub open spec fn parse_unsigned(s: Seq<char>, max: nat) -> Option<nat> {
    let d = unsigned_digits(s);
    if d.len() > 0 && all_digits(d) && digits_value(d) <= max {
        Some(digits_value(d))
    } else {
        None
    }
}

pub proof fn lemma_digits_value_prefix(s: Seq<char>, i: int)
    requires
        0 <= i <= s.len(),
    ensures
        digits_value(s.take(i)) <= digits_value(s),
    decreases s.len(),
{
    if i < s.len() {
        assert(s.drop_last().take(i) =~= s.take(i));
        lemma_digits_value_prefix(s.drop_last(), i);
    } else {
        assert(s.take(i) =~= s);
    }
}

/// `str::parse::<u64>` on `v[a..b]`.
pub fn parse_u64_range(v: &[char], a: usize, b: usize) -> (r: Option<u64>)
    requires
        a <= b <= v@.len(),
    ensures
        match parse_unsigned(v@.subrange(a as int, b as int), u64::MAX as nat) {
            Some(n) => r == Some(n as u64),
            None => r is None,
        },
{
    let ghost s = v@.subrange(a as int, b as int);
    let mut start = a;
    if b - a > 1 && v[a] == '+' {
        start = a + 1;
    }
    let ghost d = v@.subrange(start as int, b as int);
    assert(d =~= unsigned_digits(s));
    if start == b {
        return None;
    }
    let mut acc: u64 = 0;
    let mut i = start;
    while i < b
        invariant
            a <= start <= i <= b <= v@.len(),
            d == v@.subrange(start as int, b as int),
            d == unsigned_digits(v@.subrange(a as int, b as int)),
            acc == digits_value(d.take(i - start)),
            all_digits(d.take(i - start)),
        decreases b - i,
    {
        let c = v[i];
        assert(d.take(i - start + 1).drop_last() =~= d.take(i - start));
        assert(d[i - start] == c);
        if !('0' <= c && c <= '9') {
            assert(!is_digit(d[i - start]));
            assert(!all_digits(d));
            return None;
        }
        let dv = (c as u32 - 48) as u64;
        proof {
            lemma_digits_value_prefix(d, i - start + 1);
            assert(d.take(i - start + 1).last() == c);
            assert(digit_val(c) == dv);
            assert(digits_value(d.take(i - start + 1)) == acc * 10 + dv);
        }
        match acc.checked_mul(10) {
            Some(m) => match m.checked_add(dv) {
                Some(n) => {
                    acc = n;
                },
                None => {
                    return None;
                },
            },
            None => {
                assert(digits_value(d.take(i - start + 1)) >= acc * 10);
                return None;
            },
        }
        i = i + 1;
        assert(all_digits(d.take(i - start))) by {
            assert forall|k: int| 0 <= k < d.take(i - start).len() implies is_digit(
                #[trigger] d.take(i - start)[k],
            ) by {
                if k < i - start - 1 {
                    assert(d.take(i - start)[k] == d.take(i - start - 1)[k]);
                }
            }
        }
    }
    assert(d.take(b - start) =~= d);
    Some(acc)
}

/// `str::parse::<u64>`.
pub fn parse_u64(s: &str) -> (r: Option<u64>)
    ensures
        match parse_unsigned(s@, u64::MAX as nat) {
            Some(n) => r == Some(n as u64),
            None => r is None,
        },
{
    let v = chars_of(s);
    assert(v@.subrange(0, v@.len() as int) =~= v@);
    parse_u64_range(v.as_slice(), 0, v.len())
}

/// `str::parse::<u32>` on `v[a..b]`.
pub fn parse_u32_range(v: &[char], a: usize, b: usize) -> (r: Option<u32>)
    requires
        a <= b <= v@.len(),
    ensures
        match parse_unsigned(v@.subrange(a as int, b as int), u32::MAX as nat) {
            Some(n) => r == Some(n as u32),
            None => r is None,
        },
{
    match parse_u64_range(v, a, b) {
        Some(n) => {
            if n <= u32::MAX as u64 {
                Some(n as u32)
            } else {
                None
            }
        },
        None => None,
    }
}

/// `str::parse::<u8>` on `v[a..b]`.
pub fn parse_u8_range(v: &[char], a: usize, b: usize) -> (r: Option<u8>)
    requires
        a <= b <= v@.len(),
    ensures
        match parse_unsigned(v@.subrange(a as int, b as int), u8::MAX as nat) {
            Some(n) => r == Some(n as u8),
            None => r is None,
        },
{
    match parse_u64_range(v, a, b) {
        Some(n) => {
            if n <= u8::MAX as u64 {
                Some(n as u8)
            } else {
                None
            }
        },
        None => None,
    }
}

/// The character of the decimal digit `d`.
pub open spec fn digit_char(d: nat) -> char {
    ((d + 48) as u32) as char
}

/// The decimal digits of `n`, as `to_string` writes an unsigned integer.
pub open spec fn decimal(n: nat) -> Seq<char>
    decreases n,
{
    if n < 10 {
        seq![digit_char(n)]
    } else {
        decimal(n / 10).push(digit_char(n % 10))
    }
}

fn push_decimal(s: &mut String, n: u64)
    ensures
        final(s)@ == old(s)@ + decimal(n as nat),
    decreases n,
{
    if n >= 10 {
        push_decimal(s, n / 10);
    }
    let d = (n % 10) as u8;
    let c = (d + 48) as char;
    assert(c == digit_char((n % 10) as nat));
    s.push(c);
}

fn push_decimal_wide(s: &mut String, n: u128)
    ensures
        final(s)@ == old(s)@ + decimal(n as nat),
    decreases n,
{
    if n >= 10 {
        push_decimal_wide(s, n / 10);
    }
    let d = (n % 10) as u8;
    let c = (d + 48) as char;
    assert(c == digit_char((n % 10) as nat));
    s.push(c);
}

/// `n.to_string()` for a `u128`.
pub fn u128_to_string(n: u128) -> (r: String)
    ensures
        r@ == decimal(n as nat),
{
    let mut s = String::new();
    push_decimal_wide(&mut s, n);
    s
}

/// `n.to_string()` for an unsigned integer.
pub fn u64_to_string(n: u64) -> (r: String)
    ensures
        r@ == decimal(n as nat),
{
    let mut s = String::new();
    push_decimal(&mut s, n);
    s
}


/// `a` sorts before `b`: the order `str`'s comparison gives, character by character.
pub open spec fn seq_lt(a: Seq<char>, b: Seq<char>) -> bool
    decreases a.len(),
{
    if a.len() == 0 {
        b.len() > 0
    } else if b.len() == 0 {
        false
    } else if a[0] != b[0] {
        (a[0] as int) < (b[0] as int)
    } else {
        seq_lt(a.drop_first(), b.drop_first())
    }
}

/// Two different strings are ordered one way or the other.
pub proof fn lemma_seq_lt_total(a: Seq<char>, b: Seq<char>)
    requires
        a != b,
    ensures
        seq_lt(a, b) || seq_lt(b, a),
    decreases a.len(),
{
    if a.len() > 0 && b.len() > 0 && a[0] == b[0] {
        if a.drop_first() == b.drop_first() {
            assert(a =~= seq![a[0]] + a.drop_first());
            assert(b =~= seq![b[0]] + b.drop_first());
        }
        lemma_seq_lt_total(a.drop_first(), b.drop_first());
    } else if a.len() == 0 && b.len() == 0 {
        assert(a =~= b);
    } else if a.len() > 0 && b.len() > 0 {
        assert((a[0] as int) != (b[0] as int));
    }
}

/// No string sorts before itself.
pub proof fn lemma_seq_lt_irreflexive(a: Seq<char>)
    ensures
        !seq_lt(a, a),
    decreases a.len(),
{
    if a.len() > 0 {
        lemma_seq_lt_irreflexive(a.drop_first());
    }
}

/// `a` sorts before `b`.
pub fn str_lt(a: &str, b: &str) -> (r: bool)
    ensures
        r == seq_lt(a@, b@),
{
    let x = chars_of(a);
    let y = chars_of(b);
    let mut i: usize = 0;
    assert(x@.skip(0) =~= x@);
    assert(y@.skip(0) =~= y@);
    while i < x.len() && i < y.len()
        invariant
            i <= x@.len(),
            i <= y@.len(),
            x@ == a@,
            y@ == b@,
            seq_lt(a@, b@) == seq_lt(x@.skip(i as int), y@.skip(i as int)),
        decreases x@.len() - i,
    {
        let ghost xs = x@.skip(i as int);
        let ghost ys = y@.skip(i as int);
        assert(xs[0] == x@[i as int]);
        assert(ys[0] == y@[i as int]);
        if x[i] != y[i] {
            return x[i] < y[i];
        }
        assert(xs.drop_first() =~= x@.skip(i + 1));
        assert(ys.drop_first() =~= y@.skip(i + 1));
        i = i + 1;
    }
    i < y.len()
}


/// The path `part` joined onto `base`, as `Path::join` builds it: an absolute `part`
/// replaces `base`; otherwise one `/` separates them.
pub open spec fn join_path(base: Seq<char>, part: Seq<char>) -> Seq<char> {
    if part.len() > 0 && part[0] == '/' {
        part
    } else if base.len() == 0 {
        part
    } else if base.last() == '/' {
        base + part
    } else {
        base + seq!['/'] + part
    }
}

/// `part` joined onto `base`.
pub fn join(base: &str, part: &str) -> (r: String)
    ensures
        r@ == join_path(base@, part@),
{
    let p = chars_of(part);
    let b = chars_of(base);
    if p.len() > 0 && p[0] == '/' {
        return str_to_string(part);
    }
    if b.len() == 0 {
        return str_to_string(part);
    }
    if b[b.len() - 1] == '/' {
        return concat(base, part);
    }
    let mut r = str_to_string(base);
    r.push('/');
    let t = concat(r.as_str(), part);
    t
}


/// `str::strip_prefix`, as an owned string.
pub fn strip_prefix_str(s: &str, p: &str) -> (r: Option<String>)
    ensures
        match strip_prefix(s@, p@) {
            Some(t) => r matches Some(x) && x@ == t,
            None => r is None,
        },
{
    let v = chars_of(s);
    let q = chars_of(p);
    if has_prefix(v.as_slice(), q.as_slice()) {
        let t = string_of_range(v.as_slice(), q.len(), v.len());
        assert(v@.subrange(q@.len() as int, v@.len() as int) =~= v@.skip(q@.len() as int));
        Some(t)
    } else {
        None
    }
}

/// `str::strip_suffix`, as an owned string.
pub fn strip_suffix_str(s: &str, p: &str) -> (r: Option<String>)
    ensures
        match strip_suffix(s@, p@) {
            Some(t) => r matches Some(x) && x@ == t,
            None => r is None,
        },
{
    let v = chars_of(s);
    let q = chars_of(p);
    if has_suffix(v.as_slice(), q.as_slice()) {
        let t = string_of_range(v.as_slice(), 0, v.len() - q.len());
        assert(v@.subrange(0, v@.len() - q@.len()) =~= v@.take(v@.len() - q@.len()));
        Some(t)
    } else {
        None
    }
}

/// `str::eq_ignore_ascii_case`.
pub fn str_eq_ignore_case(s: &str, lit: &str) -> (r: bool)
    ensures
        r == (lower_seq(s@) == lower_seq(lit@)),
{
    let v = chars_of(s);
    eq_ignore_case(v.as_slice(), lit)
}


/// `str::split_once(c)`, as owned strings.
pub fn split_once_str(s: &str, c: char) -> (r: Option<(String, String)>)
    ensures
        match split_once(s@, c) {
            Some((a, b)) => r matches Some((x, y)) && x@ == a && y@ == b,
            None => r is None,
        },
{
    let v = chars_of(s);
    let n = v.len();
    match split_once_at(v.as_slice(), c) {
        Some(i) => {
            assert(i < n);
            let a = string_of_range(v.as_slice(), 0, i);
            let b = string_of_range(v.as_slice(), i + 1, v.len());
            assert(v@.subrange(0, i as int) =~= v@.take(i as int));
            assert(v@.subrange(i + 1, v@.len() as int) =~= v@.skip(i + 1));
            Some((a, b))
        },
        None => None,
    }
}


/// `p` occurs in `s` at position `i`.
pub open spec fn occurs_at(s: Seq<char>, p: Seq<char>, i: int) -> bool {
    0 <= i && i + p.len() <= s.len() && s.subrange(i, i + p.len()) == p
}

/// The first occurrence of `p` in `s` is at `i`.
pub open spec fn first_occurrence(s: Seq<char>, p: Seq<char>, i: int) -> bool {
    &&& occurs_at(s, p, i)
    &&& forall|j: int| 0 <= j < i ==> !occurs_at(s, p, j)
}

/// The parts of `s` before and after its first `p`, as `str::split_once` with a string
/// pattern gives them.
pub open spec fn split_once_seq(s: Seq<char>, p: Seq<char>) -> Option<(Seq<char>, Seq<char>)> {
    if exists|i: int| first_occurrence(s, p, i) {
        let i = choose|i: int| first_occurrence(s, p, i);
        Some((s.take(i), s.skip(i + p.len())))
    } else {
        None
    }
}

/// The second piece of `s` split at `p`, as `s.split(p).nth(1)` gives it.
pub open spec fn second_piece_seq(s: Seq<char>, p: Seq<char>) -> Option<Seq<char>> {
    match split_once_seq(s, p) {
        Some((_, rest)) => match split_once_seq(rest, p) {
            Some((a, _)) => Some(a),
            None => Some(rest),
        },
        None => None,
    }
}

/// Position of the first occurrence of the non-empty `p` in `v`.
pub fn find_seq(v: &[char], p: &[char]) -> (r: Option<usize>)
    requires
        p@.len() > 0,
    ensures
        match r {
            Some(i) => first_occurrence(v@, p@, i as int),
            None => forall|j: int| !occurs_at(v@, p@, j),
        },
{
    if p.len() > v.len() {
        return None;
    }
    let n = p.len();
    let m = v.len();
    let last = m - n;
    let mut i: usize = 0;
    while i <= last
        invariant
            n == p@.len(),
            m == v@.len(),
            0 < p@.len() <= v@.len(),
            last == v@.len() - p@.len(),
            i <= last + 1,
            forall|j: int| 0 <= j < i ==> !occurs_at(v@, p@, j),
        decreases v@.len() - i,
    {
        if range_eq(v, i, i + n, p) {
            return Some(i);
        }
        i = i + 1;
    }
    assert forall|j: int| !occurs_at(v@, p@, j) by {
        if 0 <= j < i {
        }
    }
    None
}

/// `split_once_seq(v, p)` as the position of the separator, for a non-empty `p`.
pub fn split_once_seq_at(v: &[char], p: &[char]) -> (r: Option<usize>)
    requires
        p@.len() > 0,
    ensures
        match r {
            Some(i) => i + p@.len() <= v@.len() && split_once_seq(v@, p@) == Some(
                (v@.take(i as int), v@.skip(i + p@.len())),
            ),
            None => split_once_seq(v@, p@) is None,
        },
{
    let r = find_seq(v, p);
    match r {
        Some(i) => {
            let ghost k = choose|k: int| first_occurrence(v@, p@, k);
            assert(k == i) by {
                if k < i {
                    assert(!occurs_at(v@, p@, k));
                } else if i < k {
                    assert(!occurs_at(v@, p@, i as int));
                }
            }
        },
        None => {
            assert(!exists|i: int| first_occurrence(v@, p@, i));
        },
    }
    r
}

/// `s.split(p).nth(1)` for a non-empty `p`, as an owned string.
pub fn second_piece_str(s: &str, p: &str) -> (r: Option<String>)
    requires
        p@.len() > 0,
    ensures
        match second_piece_seq(s@, p@) {
            Some(t) => r matches Some(x) && x@ == t,
            None => r is None,
        },
{
    let v = chars_of(s);
    let q = chars_of(p);
    match split_once_seq_at(v.as_slice(), q.as_slice()) {
        Some(i) => {
            let n = q.len();
            let m = v.len();
            assert(i + n <= m);
            let start = i + n;
            let rest = string_of_range(v.as_slice(), start, v.len());
            assert(v@.subrange(start as int, v@.len() as int) =~= v@.skip(start as int));
            let w = chars_of(rest.as_str());
            match split_once_seq_at(w.as_slice(), q.as_slice()) {
                Some(k) => {
                    let a = string_of_range(w.as_slice(), 0, k);
                    assert(w@.subrange(0, k as int) =~= w@.take(k as int));
                    Some(a)
                },
                None => Some(rest),
            }
        },
        None => None,
    }
}

/// `parts` joined with `sep` between each two, as `[..].join(sep)` writes them.
pub open spec fn joined(parts: Seq<Seq<char>>, sep: Seq<char>) -> Seq<char>
    decreases parts.len(),
{
    if parts.len() == 0 {
        Seq::empty()
    } else if parts.len() == 1 {
        parts[0]
    } else {
        joined(parts.drop_last(), sep) + sep + parts.last()
    }
}

/// `parts.join(sep)`.
pub fn join_with(parts: &Vec<String>, sep: &str) -> (r: String)
    ensures
        r@ == joined(strings_view(parts@), sep@),
{
    let mut r = String::new();
    let mut i: usize = 0;
    while i < parts.len()
        invariant
            i <= parts@.len(),
            r@ == joined(strings_view(parts@).take(i as int), sep@),
        decreases parts@.len() - i,
    {
        let ghost before = strings_view(parts@).take(i as int);
        let ghost after = strings_view(parts@).take(i + 1);
        assert(after.drop_last() =~= before);
        if i == 0 {
            r = concat(r.as_str(), parts[i].as_str());
            assert(r@ =~= joined(after, sep@));
        } else {
            let with_sep = concat(r.as_str(), sep);
            r = concat(with_sep.as_str(), parts[i].as_str());
            assert(r@ =~= joined(after, sep@));
        }
        i = i + 1;
    }
    assert(strings_view(parts@).take(parts@.len() as int) =~= strings_view(parts@));
    r
}

} // verus!
