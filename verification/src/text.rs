use vstd::prelude::*;

verus! {

broadcast use vstd::string::group_string_axioms;

// ---------------------------------------------------------------------------
// Specifications
// ---------------------------------------------------------------------------

/// The Unicode `White_Space` property, the set of characters that
/// `char::is_whitespace` accepts.
pub open spec fn is_ws(c: char) -> bool {
    let n = c as u32;
    ||| 0x09 <= n <= 0x0D
    ||| n == 0x20
    ||| n == 0x85
    ||| n == 0xA0
    ||| n == 0x1680
    ||| 0x2000 <= n <= 0x200A
    ||| n == 0x2028
    ||| n == 0x2029
    ||| n == 0x202F
    ||| n == 0x205F
    ||| n == 0x3000
}

/// `s` without its leading whitespace.
pub open spec fn trim_start(s: Seq<char>) -> Seq<char>
    decreases s.len(),
{
    if s.len() > 0 && is_ws(s[0]) {
        trim_start(s.drop_first())
    } else {
        s
    }
}

/// `s` without its trailing whitespace.
pub open spec fn trim_end(s: Seq<char>) -> Seq<char>
    decreases s.len(),
{
    if s.len() > 0 && is_ws(s.last()) {
        trim_end(s.drop_last())
    } else {
        s
    }
}

/// `s` without leading and trailing whitespace (what `str::trim` returns).
pub open spec fn trim(s: Seq<char>) -> Seq<char> {
    trim_end(trim_start(s))
}

/// The pieces of `s` between occurrences of `sep`, as `str::split` yields them:
/// there is always at least one piece, and `k` separators give `k + 1` pieces.
pub open spec fn split_on(s: Seq<char>, sep: char) -> Seq<Seq<char>>
    decreases s.len(),
{
    if s.len() == 0 {
        seq![Seq::<char>::empty()]
    } else {
        let ps = split_on(s.drop_last(), sep);
        if s.last() == sep {
            ps.push(Seq::<char>::empty())
        } else {
            ps.update(ps.len() - 1, ps.last().push(s.last()))
        }
    }
}

/// A line ended by `'\n'`, without a carriage return that precedes the newline.
pub open spec fn strip_cr(piece: Seq<char>) -> Seq<char> {
    if piece.len() > 0 && piece.last() == '\r' {
        piece.drop_last()
    } else {
        piece
    }
}

/// The lines of `s`, as `str::lines` yields them: split at `'\n'`, a `'\r'`
/// before a `'\n'` removed, and no final empty line after a trailing newline.
pub open spec fn lines(s: Seq<char>) -> Seq<Seq<char>> {
    if s.len() == 0 {
        Seq::empty()
    } else {
        let ps = split_on(s, '\n');
        let body = ps.drop_last().map_values(|p: Seq<char>| strip_cr(p));
        if ps.last().len() == 0 {
            body
        } else {
            body.push(ps.last())
        }
    }
}

/// Number of bytes of the UTF-8 encoding of `c`.
pub open spec fn utf8_width(c: char) -> nat {
    let n = c as u32;
    if n < 0x80 {
        1
    } else if n < 0x800 {
        2
    } else if n < 0x10000 {
        3
    } else {
        4
    }
}

/// Number of bytes of the UTF-8 encoding of `s` (what `str::len` returns).
pub open spec fn utf8_len(s: Seq<char>) -> nat
    decreases s.len(),
{
    if s.len() == 0 {
        0
    } else {
        utf8_len(s.drop_last()) + utf8_width(s.last())
    }
}

/// `p` is a prefix of `s`.
pub open spec fn has_prefix(s: Seq<char>, p: Seq<char>) -> bool {
    p.len() <= s.len() && s.subrange(0, p.len() as int) == p
}

/// `p` occurs in `s` starting at position `i`.
pub open spec fn occurs_at(s: Seq<char>, p: Seq<char>, i: int) -> bool {
    0 <= i && i + p.len() <= s.len() && s.subrange(i, i + p.len()) == p
}

/// `p` is a suffix of `s`.
pub open spec fn has_suffix(s: Seq<char>, p: Seq<char>) -> bool {
    p.len() <= s.len() && s.subrange(s.len() - p.len(), s.len() as int) == p
}

/// `p` occurs somewhere in `s` (what `str::contains` with a string pattern tests).
pub open spec fn contains_seq(s: Seq<char>, p: Seq<char>) -> bool {
    exists|i: int| occurs_at(s, p, i)
}

/// Position of the first `c` in `s`, or `s.len()` when there is none.
pub open spec fn index_of_char(s: Seq<char>, c: char) -> nat
    decreases s.len(),
{
    if s.len() == 0 {
        0
    } else if s[0] == c {
        0
    } else {
        1 + index_of_char(s.drop_first(), c)
    }
}

// ---------------------------------------------------------------------------
// Lemmas
// ---------------------------------------------------------------------------

/// `index_of_char` finds the first occurrence.
pub proof fn lemma_index_of_char(s: Seq<char>, c: char)
    ensures
        index_of_char(s, c) <= s.len(),
        forall|k: int| 0 <= k < index_of_char(s, c) ==> s[k] != c,
        index_of_char(s, c) < s.len() ==> s[index_of_char(s, c) as int] == c,
    decreases s.len(),
{
    if s.len() > 0 && s[0] != c {
        lemma_index_of_char(s.drop_first(), c);
        assert forall|k: int| 0 <= k < index_of_char(s, c) implies s[k] != c by {
            if k > 0 {
                assert(s[k] == s.drop_first()[k - 1]);
            }
        }
    }
}

/// `str::split` always yields at least one piece.
pub proof fn lemma_split_on_len(s: Seq<char>, sep: char)
    ensures
        split_on(s, sep).len() >= 1,
    decreases s.len(),
{
    if s.len() > 0 {
        lemma_split_on_len(s.drop_last(), sep);
    }
}

/// Trimming yields a piece of `s` that neither starts nor ends with whitespace.
pub proof fn lemma_trim_shape(s: Seq<char>)
    ensures
        trim(s).len() > 0 ==> !is_ws(trim(s)[0]) && !is_ws(trim(s).last()),
        trim_start(s).len() > 0 ==> !is_ws(trim_start(s)[0]),
        trim_end(s).len() > 0 ==> !is_ws(trim_end(s).last()),
    decreases s.len(),
{
    if s.len() > 0 && is_ws(s[0]) {
        lemma_trim_shape(s.drop_first());
    }
    if s.len() > 0 && is_ws(s.last()) {
        lemma_trim_shape(s.drop_last());
    }
    lemma_trim_end_keeps_first(trim_start(s));
}

/// `s` does not contain `c`.
pub open spec fn lacks_char(s: Seq<char>, c: char) -> bool {
    forall|i: int| 0 <= i < s.len() ==> s[i] != c
}

/// The pieces of a split never contain the separator.
pub proof fn lemma_split_on_lacks_sep(s: Seq<char>, sep: char)
    ensures
        forall|i: int| 0 <= i < split_on(s, sep).len() ==> lacks_char(#[trigger] split_on(s, sep)[i], sep),
    decreases s.len(),
{
    if s.len() > 0 {
        let ps = split_on(s.drop_last(), sep);
        lemma_split_on_lacks_sep(s.drop_last(), sep);
        lemma_split_on_len(s.drop_last(), sep);
        assert forall|i: int| 0 <= i < split_on(s, sep).len() implies lacks_char(#[trigger] split_on(s, sep)[i], sep) by {
            if s.last() != sep && i == ps.len() - 1 {
                assert(lacks_char(ps[i], sep));
                assert(split_on(s, sep)[i] == ps[i].push(s.last()));
            } else if i < ps.len() {
                assert(split_on(s, sep)[i] == ps[i]);
            }
        }
    }
}

/// Lines never contain a newline.
pub proof fn lemma_lines_lack_newline(s: Seq<char>)
    ensures
        forall|i: int| 0 <= i < lines(s).len() ==> lacks_char(#[trigger] lines(s)[i], '\n'),
{
    if s.len() > 0 {
        let ps = split_on(s, '\n');
        lemma_split_on_lacks_sep(s, '\n');
        lemma_split_on_len(s, '\n');
        let body = ps.drop_last().map_values(|p: Seq<char>| strip_cr(p));
        assert forall|i: int| 0 <= i < body.len() implies lacks_char(#[trigger] body[i], '\n') by {
            assert(lacks_char(ps[i], '\n'));
            assert(body[i] == strip_cr(ps[i]));
        }
        assert(lacks_char(ps.last(), '\n'));
        if ps.last().len() != 0 {
            assert forall|i: int| 0 <= i < lines(s).len() implies lacks_char(#[trigger] lines(s)[i], '\n') by {
                if i < body.len() {
                    assert(lines(s)[i] == body[i]);
                }
            }
        }
    }
}

/// Trimming does not bring in a character.
pub proof fn lemma_trim_lacks(s: Seq<char>, c: char)
    requires
        lacks_char(s, c),
    ensures
        lacks_char(trim_start(s), c),
        lacks_char(trim(s), c),
    decreases s.len(),
{
    if s.len() > 0 && is_ws(s[0]) {
        assert forall|i: int| 0 <= i < s.drop_first().len() implies s.drop_first()[i] != c by {
            assert(s.drop_first()[i] == s[i + 1]);
        }
        lemma_trim_lacks(s.drop_first(), c);
    }
    lemma_trim_end_keeps_first(trim_start(s));
    let t = trim_start(s);
    assert forall|i: int| 0 <= i < trim_end(t).len() implies trim_end(t)[i] != c by {
        assert(trim_end(t)[i] == t.subrange(0, trim_end(t).len() as int)[i]);
    }
}

/// Trimming twice is trimming once.
pub proof fn lemma_trim_idempotent(s: Seq<char>)
    ensures
        trim(trim(s)) == trim(s),
{
    lemma_trim_shape(s);
    let t = trim(s);
    if t.len() > 0 {
        assert(trim_start(t) == t);
        assert(trim_end(t) == t);
    }
}

/// Removing trailing whitespace keeps the first character when something remains.
pub proof fn lemma_trim_end_keeps_first(s: Seq<char>)
    ensures
        trim_end(s).len() <= s.len(),
        trim_end(s) == s.subrange(0, trim_end(s).len() as int),
        trim_end(s).len() > 0 ==> trim_end(s)[0] == s[0],
        trim_end(s).len() > 0 ==> !is_ws(trim_end(s).last()),
    decreases s.len(),
{
    if s.len() > 0 && is_ws(s.last()) {
        lemma_trim_end_keeps_first(s.drop_last());
        assert(trim_end(s) == s.subrange(0, trim_end(s).len() as int));
    } else {
        assert(s == s.subrange(0, s.len() as int));
    }
}

// ---------------------------------------------------------------------------
// Executable functions
// ---------------------------------------------------------------------------

/// The characters of a string slice, in order.
pub fn chars_of(s: &str) -> (v: Vec<char>)
    ensures
        v@ == s@,
{
    let mut v: Vec<char> = Vec::new();
    for c in it: s.chars()
        invariant
            it.seq() == s@,
            v@ == it.seq().take(it.index() as int),
    {
        v.push(c);
    }
    v
}

/// `char::is_whitespace`.
pub fn is_whitespace(c: char) -> (r: bool)
    ensures
        r == is_ws(c),
{
    let n = c as u32;
    (0x09 <= n && n <= 0x0D) || n == 0x20 || n == 0x85 || n == 0xA0 || n == 0x1680 || (0x2000
        <= n && n <= 0x200A) || n == 0x2028 || n == 0x2029 || n == 0x202F || n == 0x205F || n
        == 0x3000
}

/// Appends one character to a string (`String::push`).
#[verifier::external_body]
pub fn push_char(s: &mut String, c: char)
    ensures
        final(s)@ == old(s)@.push(c),
{
    s.push(c);
}

/// Appends characters to a string, in order.
pub fn push_chars(s: &mut String, cs: &[char])
    ensures
        final(s)@ == old(s)@ + cs@,
{
    let mut i: usize = 0;
    while i < cs.len()
        invariant
            i <= cs.len(),
            s@ == old(s)@ + cs@.subrange(0, i as int),
        decreases cs.len() - i,
    {
        push_char(s, cs[i]);
        i = i + 1;
        assert(cs@.subrange(0, i as int) == cs@.subrange(0, i - 1 as int).push(cs@[i - 1]));
    }
    assert(cs@.subrange(0, cs.len() as int) == cs@);
}

/// A string made of the given characters.
pub fn string_of(cs: &[char]) -> (s: String)
    ensures
        s@ == cs@,
{
    let mut s = String::new();
    push_chars(&mut s, cs);
    s
}

/// The characters `s[from..to]` as a new vector.
pub fn copy_range(s: &[char], from: usize, to: usize) -> (v: Vec<char>)
    requires
        from <= to <= s.len(),
    ensures
        v@ == s@.subrange(from as int, to as int),
{
    let mut v: Vec<char> = Vec::new();
    let mut i = from;
    while i < to
        invariant
            from <= i <= to <= s.len(),
            v@ == s@.subrange(from as int, i as int),
        decreases to - i,
    {
        v.push(s[i]);
        i = i + 1;
        assert(v@ == s@.subrange(from as int, i as int));
    }
    v
}

/// The bounds `(start, end)` of `trim(s)` inside `s`.
pub fn trim_bounds(s: &[char]) -> (r: (usize, usize))
    ensures
        r.0 <= r.1 <= s.len(),
        s@.subrange(r.0 as int, r.1 as int) == trim(s@),
        s@.subrange(r.0 as int, s.len() as int) == trim_start(s@),
{
    let n = s.len();
    let mut i: usize = 0;
    assert(s@.subrange(0, n as int) == s@);
    while i < n && is_whitespace(s[i])
        invariant
            i <= n == s.len(),
            trim_start(s@) == trim_start(s@.subrange(i as int, n as int)),
        decreases n - i,
    {
        assert(s@.subrange(i as int, n as int).drop_first() == s@.subrange(i + 1, n as int));
        i = i + 1;
    }
    let ghost t = s@.subrange(i as int, n as int);
    assert(trim_start(t) == t);
    let mut j: usize = n;
    while j > i && is_whitespace(s[j - 1])
        invariant
            i <= j <= n == s.len(),
            t == s@.subrange(i as int, n as int),
            trim_end(t) == trim_end(s@.subrange(i as int, j as int)),
        decreases j,
    {
        assert(s@.subrange(i as int, j as int).drop_last() == s@.subrange(i as int, j - 1));
        j = j - 1;
    }
    (i, j)
}

/// `trim(s)` as a new vector.
pub fn trim_chars(s: &[char]) -> (v: Vec<char>)
    ensures
        v@ == trim(s@),
{
    let (a, b) = trim_bounds(s);
    copy_range(s, a, b)
}

/// `min(utf8_len(s), cap)`: the byte length of `s`, counted up to `cap`.
pub fn utf8_len_capped(s: &[char], cap: usize) -> (r: usize)
    ensures
        r as int == if utf8_len(s@) < cap { utf8_len(s@) as int } else { cap as int },
{
    let mut acc: usize = 0;
    let mut i: usize = 0;
    while i < s.len()
        invariant
            i <= s.len(),
            acc <= cap,
            acc as int == if utf8_len(s@.subrange(0, i as int)) < cap {
                utf8_len(s@.subrange(0, i as int)) as int
            } else {
                cap as int
            },
        decreases s.len() - i,
    {
        let c = s[i];
        let n = c as u32;
        let w: usize = if n < 0x80 {
            1
        } else if n < 0x800 {
            2
        } else if n < 0x10000 {
            3
        } else {
            4
        };
        assert(s@.subrange(0, i + 1).drop_last() == s@.subrange(0, i as int));
        acc = if w < cap - acc { acc + w } else { cap };
        i = i + 1;
    }
    assert(s@.subrange(0, s.len() as int) == s@);
    acc
}

/// Whether `p` is a prefix of `s`.
pub fn starts_with_chars(s: &[char], p: &[char]) -> (r: bool)
    ensures
        r == has_prefix(s@, p@),
{
    if p.len() > s.len() {
        return false;
    }
    let mut i: usize = 0;
    while i < p.len()
        invariant
            i <= p.len() <= s.len(),
            s@.subrange(0, i as int) == p@.subrange(0, i as int),
        decreases p.len() - i,
    {
        if s[i] != p[i] {
            assert(s@.subrange(0, p.len() as int)[i as int] != p@[i as int]);
            return false;
        }
        i = i + 1;
        assert(s@.subrange(0, i as int) == p@.subrange(0, i as int));
    }
    assert(p@.subrange(0, p.len() as int) == p@);
    true
}

/// Whether the string literal `p` is a prefix of `s`.
pub fn starts_with_str(s: &[char], p: &str) -> (r: bool)
    ensures
        r == has_prefix(s@, p@),
{
    let pc = chars_of(p);
    starts_with_chars(s, pc.as_slice())
}

/// Whether the string literal `p` is a suffix of `s`.
pub fn ends_with_str(s: &[char], p: &str) -> (r: bool)
    ensures
        r == has_suffix(s@, p@),
{
    let pc = chars_of(p);
    if pc.len() > s.len() {
        return false;
    }
    let r = matches_at(s, pc.as_slice(), s.len() - pc.len());
    assert(r == (s@.subrange(s.len() - pc.len(), s.len() as int) == pc@));
    r
}

/// Whether `p` occurs at position `i` of `s`.
fn matches_at(s: &[char], p: &[char], i: usize) -> (r: bool)
    requires
        i + p.len() <= s.len(),
    ensures
        r == occurs_at(s@, p@, i as int),
{
    let mut k: usize = 0;
    while k < p.len()
        invariant
            k <= p.len(),
            i + p.len() <= s.len(),
            s@.subrange(i as int, i + k) == p@.subrange(0, k as int),
        decreases p.len() - k,
    {
        if s[i + k] != p[k] {
            assert(s@.subrange(i as int, i + p.len())[k as int] != p@[k as int]);
            return false;
        }
        k = k + 1;
        assert(s@.subrange(i as int, i + k) == p@.subrange(0, k as int));
    }
    assert(p@.subrange(0, p.len() as int) == p@);
    true
}

/// Whether `p` occurs somewhere in `s`.
pub fn contains_chars(s: &[char], p: &[char]) -> (r: bool)
    ensures
        r == contains_seq(s@, p@),
{
    if p.len() > s.len() {
        assert forall|i: int| !occurs_at(s@, p@, i) by {}
        return false;
    }
    let last = s.len() - p.len();
    let mut i: usize = 0;
    loop
        invariant
            last == s.len() - p.len(),
            p.len() <= s.len(),
            i <= last,
            forall|j: int| 0 <= j < i ==> !occurs_at(s@, p@, j),
        decreases last - i,
    {
        if matches_at(s, p, i) {
            return true;
        }
        if i == last {
            assert forall|j: int| !occurs_at(s@, p@, j) by {
                if 0 <= j && j + p.len() <= s.len() {
                    assert(j <= last);
                }
            }
            return false;
        }
        i = i + 1;
    }
}

/// Whether the string literal `p` occurs somewhere in `s`.
pub fn contains_str(s: &[char], p: &str) -> (r: bool)
    ensures
        r == contains_seq(s@, p@),
{
    let pc = chars_of(p);
    contains_chars(s, pc.as_slice())
}

/// The pieces of `s` between occurrences of `sep` (`str::split`).
pub fn split_chars(s: &[char], sep: char) -> (ps: Vec<Vec<char>>)
    ensures
        ps@.map_values(|p: Vec<char>| p@) == split_on(s@, sep),
{
    let mut done: Vec<Vec<char>> = Vec::new();
    let mut cur: Vec<char> = Vec::new();
    let mut i: usize = 0;
    assert(s@.subrange(0, 0) == Seq::<char>::empty());
    while i < s.len()
        invariant
            i <= s.len(),
            split_on(s@.subrange(0, i as int), sep) == done@.map_values(|p: Vec<char>| p@).push(
                cur@,
            ),
        decreases s.len() - i,
    {
        let c = s[i];
        assert(s@.subrange(0, i + 1).drop_last() == s@.subrange(0, i as int));
        let ghost before = done@.map_values(|p: Vec<char>| p@);
        if c == sep {
            let piece = cur;
            done.push(piece);
            cur = Vec::new();
            assert(done@.map_values(|p: Vec<char>| p@) == before.push(piece@));
        } else {
            cur.push(c);
        }
        i = i + 1;
    }
    assert(s@.subrange(0, s.len() as int) == s@);
    done.push(cur);
    done
}

/// The lines of `s` (`str::lines`).
pub fn lines_of(s: &[char]) -> (ls: Vec<Vec<char>>)
    ensures
        ls@.map_values(|l: Vec<char>| l@) == lines(s@),
{
    let mut ls: Vec<Vec<char>> = Vec::new();
    if s.len() == 0 {
        return ls;
    }
    let mut ps = split_chars(s, '\n');
    let ghost pv = ps@.map_values(|p: Vec<char>| p@);
    proof {
        lemma_split_on_len(s@, '\n');
    }
    let n = ps.len();
    let mut i: usize = 0;
    while i + 1 < n
        invariant
            n == ps.len() >= 1,
            pv == split_on(s@, '\n'),
            pv.len() == n,
            forall|k: int| 0 <= k < n ==> #[trigger] ps@[k]@ == pv[k],
            i < n,
            ls@.map_values(|l: Vec<char>| l@) == pv.subrange(0, i as int).map_values(
                |p: Seq<char>| strip_cr(p),
            ),
        decreases n - i,
    {
        let p = &ps[i];
        let mut e = p.len();
        if e > 0 && p[e - 1] == '\r' {
            e = e - 1;
        }
        let line = copy_range(p.as_slice(), 0, e);
        assert(line@ == strip_cr(pv[i as int]));
        let ghost before = ls@.map_values(|l: Vec<char>| l@);
        ls.push(line);
        i = i + 1;
        assert(ls@.map_values(|l: Vec<char>| l@) =~= before.push(strip_cr(pv[i - 1])));
        assert(pv.subrange(0, i as int).map_values(|p: Seq<char>| strip_cr(p)) =~= pv.subrange(
            0,
            i - 1 as int,
        ).map_values(|p: Seq<char>| strip_cr(p)).push(strip_cr(pv[i - 1])));
    }
    assert(pv.subrange(0, n - 1 as int) == pv.drop_last());
    let last = ps.pop().unwrap();
    if last.len() > 0 {
        ls.push(last);
    }
    ls
}

// ---------------------------------------------------------------------------
// Character classes decided by Unicode tables
// ---------------------------------------------------------------------------

/// What `char::is_alphabetic` returns for `c` (the Unicode `Alphabetic` property).
pub uninterp spec fn char_alphabetic(c: char) -> bool;

/// What `char::is_uppercase` returns for `c` (the Unicode `Uppercase` property).
pub uninterp spec fn char_uppercase(c: char) -> bool;

/// What `char::is_numeric` returns for `c` (general categories `Nd`, `Nl`, `No`).
pub uninterp spec fn char_numeric(c: char) -> bool;

/// Calls `char::is_alphabetic`; the contract only names its result, which
/// depends on `c` alone.
#[verifier::external_body]
pub fn is_alphabetic(c: char) -> (r: bool)
    ensures
        r == char_alphabetic(c),
{
    c.is_alphabetic()
}

/// Calls `char::is_uppercase`; the contract only names its result, which
/// depends on `c` alone.
#[verifier::external_body]
pub fn is_uppercase(c: char) -> (r: bool)
    ensures
        r == char_uppercase(c),
{
    c.is_uppercase()
}

/// Calls `char::is_numeric`; the contract only names its result, which
/// depends on `c` alone.
#[verifier::external_body]
pub fn is_numeric(c: char) -> (r: bool)
    ensures
        r == char_numeric(c),
{
    c.is_numeric()
}

} // verus!
