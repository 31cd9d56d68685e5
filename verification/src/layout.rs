//! What the Markdown rendering of extracted PDF text is: heading detection,
//! page formatting and the joining of pages.
use vstd::prelude::*;
use crate::text;

verus! {

/// Position of the first whitespace character of `s`, or `s.len()`.
pub open spec fn index_of_ws(s: Seq<char>) -> nat
    decreases s.len(),
{
    if s.len() == 0 {
        0
    } else if text::is_ws(s[0]) {
        0
    } else {
        1 + index_of_ws(s.drop_first())
    }
}

/// Every alphabetic character of `t` is uppercase.
pub open spec fn alpha_all_upper(t: Seq<char>) -> bool {
    forall|i: int| 0 <= i < t.len() && text::char_alphabetic(t[i]) ==> text::char_uppercase(t[i])
}

/// A line of 3 to 100 bytes whose letters are all capitals.
pub open spec fn is_all_caps(t: Seq<char>) -> bool {
    3 <= text::utf8_len(t) <= 100 && alpha_all_upper(t)
}

/// A line of fewer than 60 bytes.
pub open spec fn is_short(t: Seq<char>) -> bool {
    text::utf8_len(t) < 60
}

/// A line that begins like a section title.
pub open spec fn has_heading_prefix(t: Seq<char>) -> bool {
    ||| text::has_prefix(t, "Chapter "@)
    ||| text::has_prefix(t, "Section "@)
    ||| text::has_prefix(t, "Part "@)
    ||| text::has_prefix(t, "Appendix "@)
    ||| text::has_prefix(t, "Introduction"@)
    ||| text::has_prefix(t, "Conclusion"@)
    ||| text::has_prefix(t, "Abstract"@)
    ||| text::has_prefix(t, "Summary"@)
}

/// The first whitespace-separated word of `t` (empty when `t` is blank).
pub open spec fn first_word(t: Seq<char>) -> Seq<char> {
    let u = text::trim_start(t);
    u.subrange(0, index_of_ws(u) as int)
}

/// The part of a word before its first `'.'`.
pub open spec fn before_dot(w: Seq<char>) -> Seq<char> {
    w.subrange(0, text::index_of_char(w, '.') as int)
}

/// A line that starts with a numbered label such as `1.`, `2.3.` or `IV.`.
pub open spec fn has_numbered_prefix(t: Seq<char>) -> bool {
    let w = first_word(t);
    let b = before_dot(w);
    &&& w.len() > 0
    &&& w.last() == '.'
    &&& {
        ||| forall|i: int| 0 <= i < b.len() ==> text::char_numeric(b[i]) || b[i] == '.'
        ||| text::utf8_len(w) <= 4 && forall|i: int| 0 <= i < b.len() ==> text::char_uppercase(b[i])
    }
}

/// A line that does not end like a sentence.
pub open spec fn no_sentence_ending(t: Seq<char>) -> bool {
    !(t.len() > 0 && (t.last() == '.' || t.last() == '?' || t.last() == '!'))
}

pub open spec fn b2n(b: bool) -> nat {
    if b {
        1
    } else {
        0
    }
}

/// How many heading indicators a trimmed line shows.
pub open spec fn heading_score(t: Seq<char>) -> nat {
    b2n(is_all_caps(t)) + b2n(is_short(t)) + b2n(has_heading_prefix(t)) + b2n(
        has_numbered_prefix(t),
    ) + b2n(no_sentence_ending(t))
}

/// A trimmed line is taken for a heading.
pub open spec fn is_heading_text(t: Seq<char>) -> bool {
    heading_score(t) >= 2 || has_heading_prefix(t) || (is_all_caps(t) && is_short(t))
}

/// A heading is rendered at the first level (`# `) rather than the second (`## `).
pub open spec fn is_major_heading(t: Seq<char>) -> bool {
    text::utf8_len(t) < 40 && alpha_all_upper(t)
}

/// The line at index `i` of `ls` is a heading line: non-blank, and its
/// trimmed text is a heading.
pub open spec fn is_heading_line(ls: Seq<Seq<char>>, i: int) -> bool {
    text::trim(ls[i]).len() > 0 && is_heading_text(text::trim(ls[i]))
}

/// The `(line index, trimmed text)` of each heading line of `ls`, in order.
pub open spec fn heading_entries(ls: Seq<Seq<char>>) -> Seq<(int, Seq<char>)>
    decreases ls.len(),
{
    if ls.len() == 0 {
        Seq::empty()
    } else {
        let prev = heading_entries(ls.drop_last());
        let i = ls.len() - 1;
        if is_heading_line(ls, i) {
            prev.push((i, text::trim(ls[i])))
        } else {
            prev
        }
    }
}

/// The headings found in a page of text.
pub open spec fn detected_headings(page: Seq<char>) -> Seq<(int, Seq<char>)> {
    heading_entries(text::lines(page))
}

pub open spec fn paragraph_break() -> Seq<char> {
    seq!['\n', '\n']
}

/// Body text as it is written out: a leading `'#'` is escaped with a backslash.
pub open spec fn escaped_text(t: Seq<char>) -> Seq<char> {
    if t.len() > 0 && t[0] == '#' {
        seq!['\\'] + t
    } else {
        t
    }
}

/// The Markdown marker of a heading.
pub open spec fn heading_marker(t: Seq<char>) -> Seq<char> {
    if is_major_heading(t) {
        seq!['#', ' ']
    } else {
        seq!['#', '#', ' ']
    }
}

/// The Markdown written for the lines `ls`, and whether a paragraph is still open.
pub open spec fn render_lines(ls: Seq<Seq<char>>) -> (Seq<char>, bool)
    decreases ls.len(),
{
    if ls.len() == 0 {
        (Seq::empty(), false)
    } else {
        let (out, in_par) = render_lines(ls.drop_last());
        let i = ls.len() - 1;
        let t = text::trim(ls[i]);
        let closed = if in_par {
            out + paragraph_break()
        } else {
            out
        };
        if t.len() == 0 {
            (closed, false)
        } else if is_heading_text(t) {
            (closed + heading_marker(t) + t + paragraph_break(), false)
        } else {
            let joined = if in_par {
                out.push(' ')
            } else {
                out
            };
            (joined + escaped_text(t), true)
        }
    }
}

/// The Markdown rendering of one page of text. An open paragraph is ended
/// with a newline; a page that yields nothing else is rendered as one empty
/// line, so that no page vanishes from the document.
pub open spec fn render_page(page: Seq<char>) -> Seq<char> {
    let (out, in_par) = render_lines(text::lines(page));
    if in_par || out.len() == 0 {
        out.push('\n')
    } else {
        out
    }
}

/// What separates two rendered pages.
pub open spec fn page_separator() -> Seq<char> {
    seq!['\n', '-', '-', '-', '\n', '\n']
}

/// The Markdown rendering of a document: each page rendered, with a separator
/// between consecutive pages and none after the last.
pub open spec fn render_pages(pages: Seq<Seq<char>>) -> Seq<char>
    decreases pages.len(),
{
    if pages.len() == 0 {
        Seq::empty()
    } else if pages.len() == 1 {
        render_page(pages[0])
    } else {
        render_pages(pages.drop_last()) + page_separator() + render_page(pages.last())
    }
}

// ---------------------------------------------------------------------------
// Lemmas
// ---------------------------------------------------------------------------

/// `index_of_ws` finds the first whitespace character.
pub proof fn lemma_index_of_ws(s: Seq<char>)
    ensures
        index_of_ws(s) <= s.len(),
        forall|k: int| 0 <= k < index_of_ws(s) ==> !text::is_ws(s[k]),
        index_of_ws(s) < s.len() ==> text::is_ws(s[index_of_ws(s) as int]),
    decreases s.len(),
{
    if s.len() > 0 && !text::is_ws(s[0]) {
        lemma_index_of_ws(s.drop_first());
        assert forall|k: int| 0 <= k < index_of_ws(s) implies !text::is_ws(s[k]) by {
            if k > 0 {
                assert(s[k] == s.drop_first()[k - 1]);
            }
        }
    }
}

/// The heading entries are exactly the heading lines, in increasing order of index.
pub proof fn lemma_heading_entries(ls: Seq<Seq<char>>)
    ensures
        forall|k: int|
            0 <= k < heading_entries(ls).len() ==> {
                let e = #[trigger] heading_entries(ls)[k];
                &&& 0 <= e.0 < ls.len()
                &&& is_heading_line(ls, e.0)
                &&& e.1 == text::trim(ls[e.0])
            },
        forall|j: int|
            0 <= j < ls.len() && is_heading_line(ls, j) ==> exists|k: int|
                0 <= k < heading_entries(ls).len() && #[trigger] heading_entries(ls)[k].0 == j,
    decreases ls.len(),
{
    if ls.len() > 0 {
        let p = ls.drop_last();
        lemma_heading_entries(p);
        let prev = heading_entries(p);
        assert forall|k: int| 0 <= k < prev.len() implies is_heading_line(ls, prev[k].0) && prev[k].1
            == text::trim(ls[prev[k].0]) by {
            assert(ls[prev[k].0] == p[prev[k].0]);
        }
        assert forall|j: int| 0 <= j < ls.len() && is_heading_line(ls, j) implies exists|k: int|
            0 <= k < heading_entries(ls).len() && #[trigger] heading_entries(ls)[k].0 == j by {
            if j < ls.len() - 1 {
                assert(ls[j] == p[j]);
                assert(is_heading_line(p, j));
                let k = choose|k: int| 0 <= k < prev.len() && #[trigger] prev[k].0 == j;
                assert(heading_entries(ls)[k] == prev[k]);
            } else {
                assert(heading_entries(ls)[prev.len() as int].0 == j);
            }
        }
    }
}


/// `index_of_char` is the only position before which `c` does not occur and at
/// which `c` occurs (or the end).
pub proof fn lemma_index_of_char_unique(s: Seq<char>, c: char, k: int)
    requires
        0 <= k <= s.len(),
        forall|m: int| 0 <= m < k ==> s[m] != c,
        k == s.len() || s[k] == c,
    ensures
        text::index_of_char(s, c) == k,
{
    text::lemma_index_of_char(s, c);
    let i = text::index_of_char(s, c) as int;
    if i < k {
        assert(s[i] == c);
    } else if i > k {
        assert(s[k] != c);
    }
}

/// `index_of_ws` is the only position before which no whitespace occurs and at
/// which whitespace occurs (or the end).
pub proof fn lemma_index_of_ws_unique(s: Seq<char>, k: int)
    requires
        0 <= k <= s.len(),
        forall|m: int| 0 <= m < k ==> !text::is_ws(s[m]),
        k == s.len() || text::is_ws(s[k]),
    ensures
        index_of_ws(s) == k,
{
    lemma_index_of_ws(s);
    let i = index_of_ws(s) as int;
    if i < k {
        assert(text::is_ws(s[i]));
    } else if i > k {
        assert(!text::is_ws(s[k]));
    }
}

// ---------------------------------------------------------------------------
// Laws of heading detection
// ---------------------------------------------------------------------------

/// A line that begins like a section title is a heading, however long it is:
/// a trimmed line starting with "Chapter ", "Section ", "Part ", "Appendix ",
/// "Introduction", "Conclusion", "Abstract" or "Summary" is taken for a heading.
pub proof fn lemma_titled_lines_are_headings(t: Seq<char>)
    ensures
        t.len() >= 8 && t.subrange(0, 8) == "Chapter "@ ==> is_heading_text(t),
        t.len() >= 8 && t.subrange(0, 8) == "Section "@ ==> is_heading_text(t),
        t.len() >= 5 && t.subrange(0, 5) == "Part "@ ==> is_heading_text(t),
        t.len() >= 9 && t.subrange(0, 9) == "Appendix "@ ==> is_heading_text(t),
        t.len() >= 12 && t.subrange(0, 12) == "Introduction"@ ==> is_heading_text(t),
        t.len() >= 10 && t.subrange(0, 10) == "Conclusion"@ ==> is_heading_text(t),
        t.len() >= 8 && t.subrange(0, 8) == "Abstract"@ ==> is_heading_text(t),
        t.len() >= 7 && t.subrange(0, 7) == "Summary"@ ==> is_heading_text(t),
{
    reveal_strlit("Chapter ");
    reveal_strlit("Section ");
    reveal_strlit("Part ");
    reveal_strlit("Appendix ");
    reveal_strlit("Introduction");
    reveal_strlit("Conclusion");
    reveal_strlit("Abstract");
    reveal_strlit("Summary");
}

/// Sentences are not headings: a trimmed line that ends with '.', '?' or '!',
/// has no title prefix, is not in capitals and has no numbered label is not a
/// heading, however short it is.
pub proof fn lemma_sentences_are_not_headings(t: Seq<char>)
    requires
        t.len() > 0,
        t.last() == '.' || t.last() == '?' || t.last() == '!',
        !has_heading_prefix(t),
        !is_all_caps(t),
        !has_numbered_prefix(t),
    ensures
        !is_heading_text(t),
{
}

/// Short lines that do not end like a sentence are headings: a trimmed line of
/// fewer than 60 bytes whose last character is none of '.', '?' and '!' is
/// taken for a heading.
pub proof fn lemma_short_unpunctuated_lines_are_headings(t: Seq<char>)
    requires
        text::utf8_len(t) < 60,
        t.len() > 0,
        t.last() != '.' && t.last() != '?' && t.last() != '!',
    ensures
        is_heading_text(t),
{
}

/// Heading levels: a heading of 40 bytes or more is written with "## "; it is
/// written with "# " exactly when it is shorter than 40 bytes and each of its
/// letters is a capital.
pub proof fn lemma_heading_levels(t: Seq<char>)
    ensures
        text::utf8_len(t) >= 40 ==> heading_marker(t) == seq!['#', '#', ' '],
        heading_marker(t) == seq!['#', ' '] <==> (text::utf8_len(t) < 40 && forall|k: int|
            0 <= k < t.len() && text::char_alphabetic(t[k]) ==> text::char_uppercase(t[k])),
        heading_marker(t) == seq!['#', ' '] || heading_marker(t) == seq!['#', '#', ' '],
{
    assert(seq!['#', ' '] != seq!['#', '#', ' ']) by {
        assert(seq!['#', ' '].len() != seq!['#', '#', ' '].len());
    }
}

// ---------------------------------------------------------------------------
// Laws of the rendering
// ---------------------------------------------------------------------------

/// Rendering more lines only appends to what was written for the first ones.
pub proof fn lemma_render_lines_extends(ls: Seq<Seq<char>>, j: int)
    requires
        0 <= j <= ls.len(),
    ensures
        text::has_prefix(render_lines(ls).0, render_lines(ls.subrange(0, j)).0),
    decreases ls.len(),
{
    if j == ls.len() {
        assert(ls.subrange(0, j) == ls);
        assert(render_lines(ls).0.subrange(0, render_lines(ls).0.len() as int) == render_lines(
            ls,
        ).0);
    } else {
        let p = ls.drop_last();
        lemma_render_lines_extends(p, j);
        assert(p.subrange(0, j) == ls.subrange(0, j));
        let prev = render_lines(p).0;
        let cur = render_lines(ls).0;
        assert(cur.subrange(0, prev.len() as int) == prev);
        let q = render_lines(ls.subrange(0, j)).0;
        assert(cur.subrange(0, q.len() as int) == prev.subrange(0, q.len() as int));
    }
}

/// The line at index `i` is rendered right after what the lines before it gave.
proof fn lemma_render_line_at(ls: Seq<Seq<char>>, i: int)
    requires
        0 <= i < ls.len(),
    ensures
        ({
            let t = text::trim(ls[i]);
            let step = render_lines(ls.subrange(0, i + 1)).0;
            &&& t.len() > 0 && is_heading_text(t) ==> text::has_suffix(
                step,
                heading_marker(t) + t + paragraph_break(),
            )
            &&& t.len() > 0 && !is_heading_text(t) ==> text::has_suffix(step, escaped_text(t))
        }),
{
    let pre = ls.subrange(0, i + 1);
    assert(pre.drop_last() == ls.subrange(0, i));
    assert(pre.last() == ls[i]);
    let t = text::trim(ls[i]);
    let step = render_lines(pre).0;
    if t.len() > 0 && is_heading_text(t) {
        let tail = heading_marker(t) + t + paragraph_break();
        assert(step.subrange(step.len() - tail.len(), step.len() as int) == tail);
    }
    if t.len() > 0 && !is_heading_text(t) {
        let tail = escaped_text(t);
        assert(step.subrange(step.len() - tail.len(), step.len() as int) == tail);
    }
}

/// A suffix of a prefix of `s` occurs in `s`.
proof fn lemma_suffix_of_prefix_occurs(s: Seq<char>, pre: Seq<char>, suf: Seq<char>)
    requires
        text::has_prefix(s, pre),
        text::has_suffix(pre, suf),
    ensures
        text::occurs_at(s, suf, pre.len() - suf.len()),
        text::contains_seq(s, suf),
{
    let i = pre.len() - suf.len();
    assert(s.subrange(i, i + suf.len()) == pre.subrange(i, pre.len() as int));
    assert(text::occurs_at(s, suf, i));
}

/// Heading conversion: every heading line of a page appears in its rendering
/// as the heading marker (`# ` or `## `) followed by the trimmed heading text.
pub proof fn lemma_heading_is_rendered(page: Seq<char>, i: int)
    requires
        0 <= i < text::lines(page).len(),
        is_heading_line(text::lines(page), i),
    ensures
        text::contains_seq(
            render_page(page),
            heading_marker(text::trim(text::lines(page)[i])) + text::trim(text::lines(page)[i]),
        ),
{
    let ls = text::lines(page);
    let t = text::trim(ls[i]);
    lemma_render_line_at(ls, i);
    lemma_render_lines_extends(ls, i + 1);
    let step = render_lines(ls.subrange(0, i + 1)).0;
    let full = render_lines(ls).0;
    let out = render_page(page);
    assert(text::has_prefix(out, full)) by {
        assert(out.subrange(0, full.len() as int) == full);
    }
    let tail = heading_marker(t) + t + paragraph_break();
    lemma_suffix_of_prefix_occurs(full, step, tail);
    let k = step.len() - tail.len();
    let needle = heading_marker(t) + t;
    assert(out.subrange(k, k + needle.len()) == needle) by {
        assert(out.subrange(k, k + needle.len()) == full.subrange(k, k + needle.len()));
        assert(full.subrange(k, k + tail.len()) == tail);
        assert(tail.subrange(0, needle.len() as int) == needle);
    }
    assert(text::occurs_at(out, needle, k));
}

/// No page vanishes: the rendering of any page, blank or not, is not empty.
pub proof fn lemma_page_renders_nonempty(page: Seq<char>)
    ensures
        render_page(page).len() > 0,
{
}

/// Paragraph structure is kept: body text followed by a blank line is followed
/// in the rendering by a blank line (a paragraph break).
pub proof fn lemma_paragraph_break_kept(page: Seq<char>, i: int)
    requires
        0 <= i,
        i + 1 < text::lines(page).len(),
        text::trim(text::lines(page)[i]).len() > 0,
        !is_heading_text(text::trim(text::lines(page)[i])),
        text::trim(text::lines(page)[i + 1]).len() == 0,
    ensures
        text::contains_seq(
            render_page(page),
            escaped_text(text::trim(text::lines(page)[i])) + paragraph_break(),
        ),
{
    let ls = text::lines(page);
    let t = text::trim(ls[i]);
    lemma_render_line_at(ls, i);
    let pre1 = ls.subrange(0, i + 1);
    let pre2 = ls.subrange(0, i + 2);
    assert(pre2.drop_last() == pre1);
    assert(pre2.last() == ls[i + 1]);
    assert(pre1.drop_last() == ls.subrange(0, i));
    assert(pre1.last() == ls[i]);
    let step1 = render_lines(pre1).0;
    assert(render_lines(pre1).1);
    let step2 = render_lines(pre2).0;
    assert(step2 == step1 + paragraph_break());
    let e = escaped_text(t);
    let needle = e + paragraph_break();
    assert(step2.subrange(step2.len() - needle.len(), step2.len() as int) == needle) by {
        assert(step1.subrange(step1.len() - e.len(), step1.len() as int) == e);
    }
    lemma_render_lines_extends(ls, i + 2);
    let full = render_lines(ls).0;
    let out = render_page(page);
    assert(text::has_prefix(out, full)) by {
        assert(out.subrange(0, full.len() as int) == full);
    }
    lemma_suffix_of_prefix_occurs(full, step2, needle);
    let k = step2.len() - needle.len();
    assert(out.subrange(k, k + needle.len()) == full.subrange(k, k + needle.len()));
    assert(text::occurs_at(out, needle, k));
}

/// A rendered document is at least as long as the rendering of each of its pages.
proof fn lemma_render_pages_len(pages: Seq<Seq<char>>, k: int)
    requires
        0 <= k < pages.len(),
    ensures
        render_pages(pages).len() >= render_page(pages[k]).len(),
    decreases pages.len(),
{
    if pages.len() > 1 && k < pages.len() - 1 {
        lemma_render_pages_len(pages.drop_last(), k);
        assert(pages.drop_last()[k] == pages[k]);
    }
}

/// A document of at least one page renders to something non-empty.
pub proof fn lemma_document_renders_nonempty(pages: Seq<Seq<char>>)
    requires
        pages.len() >= 1,
    ensures
        render_pages(pages).len() > 0,
{
    lemma_render_pages_len(pages, 0);
}

/// Pages are joined in order: a single page renders as itself, and each further
/// page is appended after one separator; nothing follows the last page.
pub proof fn lemma_pages_joined(pages: Seq<Seq<char>>, page: Seq<char>)
    ensures
        render_pages(seq![page]) == render_page(page),
        pages.len() >= 1 ==> render_pages(pages.push(page)) == render_pages(pages)
            + page_separator() + render_page(page),
        text::has_suffix(render_pages(pages.push(page)), render_page(page)),
{
    assert(seq![page][0] == page);
    let all = pages.push(page);
    assert(all.drop_last() == pages);
    let out = render_pages(all);
    let r = render_page(page);
    if pages.len() == 0 {
        assert(all == seq![page]);
    }
    assert(out.subrange(out.len() - r.len(), out.len() as int) == r);
}

/// A line of Markdown begins well: with a heading marker (`# ` or `## `), or
/// with a character that is neither `#` nor whitespace.
pub open spec fn line_start_ok(r: Seq<char>) -> bool {
    ||| text::has_prefix(r, seq!['#', ' '])
    ||| text::has_prefix(r, seq!['#', '#', ' '])
    ||| (r.len() > 0 && r[0] != '#' && !text::is_ws(r[0]))
}

/// Position `k` of `s` begins a line.
pub open spec fn starts_line(s: Seq<char>, k: int) -> bool {
    k == 0 || s[k - 1] == '\n'
}

/// Every non-empty line of `s` begins well.
pub open spec fn well_formed_markdown(s: Seq<char>) -> bool {
    forall|k: int|
        0 <= k < s.len() && #[trigger] starts_line(s, k) && s[k] != '\n' ==> line_start_ok(
            s.subrange(k, s.len() as int),
        )
}

/// Every line that `p` begins, when appended to `out`, begins well.
pub open spec fn piece_ok(out: Seq<char>, p: Seq<char>) -> bool {
    forall|j: int|
        0 <= j < p.len() && p[j] != '\n' && ((j == 0 && (out.len() == 0 || out.last() == '\n')) || (
        j > 0 && p[j - 1] == '\n')) ==> #[trigger] line_start_ok(p.subrange(j, p.len() as int))
}

proof fn lemma_line_start_extends(r: Seq<char>, p: Seq<char>)
    requires
        line_start_ok(r),
    ensures
        line_start_ok(r + p),
{
    let q = r + p;
    if text::has_prefix(r, seq!['#', ' ']) {
        assert(q.subrange(0, 2) == r.subrange(0, 2));
    } else if text::has_prefix(r, seq!['#', '#', ' ']) {
        assert(q.subrange(0, 3) == r.subrange(0, 3));
    } else {
        assert(q[0] == r[0]);
    }
}

/// Appending a piece whose new lines begin well keeps Markdown well formed.
proof fn lemma_append_well_formed(out: Seq<char>, p: Seq<char>)
    requires
        well_formed_markdown(out),
        piece_ok(out, p),
    ensures
        well_formed_markdown(out + p),
{
    let s = out + p;
    assert forall|k: int| 0 <= k < s.len() && #[trigger] starts_line(s, k) && s[k] != '\n' implies line_start_ok(
        s.subrange(k, s.len() as int),
    ) by {
        if k < out.len() {
            assert(starts_line(out, k));
            assert(line_start_ok(out.subrange(k, out.len() as int)));
            lemma_line_start_extends(out.subrange(k, out.len() as int), p);
            assert(s.subrange(k, s.len() as int) == out.subrange(k, out.len() as int) + p);
        } else {
            let j = k - out.len();
            assert(s.subrange(k, s.len() as int) == p.subrange(j, p.len() as int));
            assert(p[j] == s[k]);
            if j > 0 {
                assert(p[j - 1] == s[k - 1]);
            } else if out.len() > 0 {
                assert(out.last() == s[k - 1]);
            }
        }
    }
}

/// Newlines begin nothing that could be malformed.
proof fn lemma_newlines_piece_ok(out: Seq<char>, p: Seq<char>)
    requires
        forall|j: int| 0 <= j < p.len() ==> p[j] == '\n',
    ensures
        piece_ok(out, p),
{
}

/// Rendering lines without newlines keeps the output well formed; an open
/// paragraph leaves the output ending in text, a closed one at a line start.
pub proof fn lemma_render_lines_well_formed(ls: Seq<Seq<char>>)
    requires
        forall|i: int| 0 <= i < ls.len() ==> text::lacks_char(#[trigger] ls[i], '\n'),
    ensures
        well_formed_markdown(render_lines(ls).0),
        render_lines(ls).1 ==> render_lines(ls).0.len() > 0 && render_lines(ls).0.last() != '\n',
        !render_lines(ls).1 ==> render_lines(ls).0.len() == 0 || render_lines(ls).0.last() == '\n',
    decreases ls.len(),
{
    if ls.len() > 0 {
        let p = ls.drop_last();
        assert forall|i: int| 0 <= i < p.len() implies text::lacks_char(#[trigger] p[i], '\n') by {
            assert(p[i] == ls[i]);
        }
        lemma_render_lines_well_formed(p);
        let (out, in_par) = render_lines(p);
        let i = ls.len() - 1;
        let t = text::trim(ls[i]);
        assert(text::lacks_char(ls[i], '\n'));
        text::lemma_trim_lacks(ls[i], '\n');
        text::lemma_trim_shape(ls[i]);
        let closed = if in_par {
            out + paragraph_break()
        } else {
            out
        };
        if in_par {
            lemma_newlines_piece_ok(out, paragraph_break());
            lemma_append_well_formed(out, paragraph_break());
        }
        assert(well_formed_markdown(closed));
        assert(closed.len() == 0 || closed.last() == '\n');
        if t.len() == 0 {
        } else if is_heading_text(t) {
            let piece = heading_marker(t) + t + paragraph_break();
            assert forall|j: int|
                0 <= j < piece.len() && piece[j] != '\n' && ((j == 0 && (closed.len() == 0
                    || closed.last() == '\n')) || (j > 0 && piece[j - 1] == '\n')) implies #[trigger] line_start_ok(
                piece.subrange(j, piece.len() as int),
            ) by {
                let m = heading_marker(t);
                if j == 0 {
                    assert(piece.subrange(0, m.len() as int) == m);
                    assert(piece.subrange(j, piece.len() as int).subrange(0, m.len() as int) == m);
                } else {
                    assert(j - 1 < m.len() + t.len() ==> piece[j - 1] != '\n') by {
                        if j - 1 >= m.len() && j - 1 < m.len() + t.len() {
                            assert(piece[j - 1] == t[j - 1 - m.len()]);
                        }
                    }
                    assert(piece[piece.len() - 2] == '\n');
                    assert(piece[piece.len() - 1] == '\n');
                }
            }
            lemma_append_well_formed(closed, piece);
            assert(render_lines(ls).0 == closed + piece);
        } else {
            let joined = if in_par {
                out.push(' ')
            } else {
                out
            };
            let e = escaped_text(t);
            assert(text::lacks_char(e, '\n')) by {
                if t[0] == '#' {
                    assert forall|j: int| 0 <= j < e.len() implies e[j] != '\n' by {
                        if j > 0 {
                            assert(e[j] == t[j - 1]);
                        }
                    }
                }
            }
            if in_par {
                let piece = seq![' '] + e;
                assert(out.push(' ') == out + seq![' ']);
                assert forall|j: int|
                    0 <= j < piece.len() && piece[j] != '\n' && ((j == 0 && (out.len() == 0
                        || out.last() == '\n')) || (j > 0 && piece[j - 1] == '\n')) implies #[trigger] line_start_ok(
                    piece.subrange(j, piece.len() as int),
                ) by {
                    if j > 0 {
                        if j == 1 {
                            assert(piece[0] == ' ');
                        } else {
                            assert(piece[j - 1] == e[j - 2]);
                        }
                    }
                }
                lemma_append_well_formed(out, piece);
                assert(joined + e == out + piece);
            } else {
                assert forall|j: int|
                    0 <= j < e.len() && e[j] != '\n' && ((j == 0 && (out.len() == 0 || out.last()
                        == '\n')) || (j > 0 && e[j - 1] == '\n')) implies #[trigger] line_start_ok(
                    e.subrange(j, e.len() as int),
                ) by {
                    if j == 0 {
                        assert(e.subrange(0, e.len() as int)[0] == e[0]);
                        if t[0] == '#' {
                            assert(e[0] == '\\');
                        } else {
                            assert(e[0] == t[0]);
                        }
                    }
                }
                lemma_append_well_formed(out, e);
            }
            assert((joined + e).last() == e.last());
        }
    }
}

/// Rendered pages are well formed Markdown: every non-empty line of a rendered
/// document is a heading written with `# ` or `## `, or begins with a character
/// that is neither `#` (a leading `#` of body text is escaped) nor whitespace.
pub proof fn lemma_rendered_markdown_well_formed(pages: Seq<Seq<char>>)
    ensures
        well_formed_markdown(render_pages(pages)),
    decreases pages.len(),
{
    if pages.len() > 0 {
        let page = pages.last();
        text::lemma_lines_lack_newline(page);
        lemma_render_lines_well_formed(text::lines(page));
        let (out, in_par) = render_lines(text::lines(page));
        if in_par {
            lemma_newlines_piece_ok(out, seq!['\n']);
            lemma_append_well_formed(out, seq!['\n']);
            assert(out.push('\n') == out + seq!['\n']);
        }
        let r = render_page(page);
        assert(well_formed_markdown(r));
        if pages.len() == 1 {
            assert(pages[0] == page);
        } else {
            lemma_rendered_markdown_well_formed(pages.drop_last());
            let prev = render_pages(pages.drop_last());
            let sep = page_separator();
            assert forall|j: int|
                0 <= j < sep.len() && sep[j] != '\n' && ((j == 0 && (prev.len() == 0 || prev.last()
                    == '\n')) || (j > 0 && sep[j - 1] == '\n')) implies #[trigger] line_start_ok(
                sep.subrange(j, sep.len() as int),
            ) by {
                assert(sep.subrange(j, sep.len() as int)[0] == sep[j]);
            }
            lemma_append_well_formed(prev, sep);
            let joined = prev + sep;
            assert(joined.last() == '\n');
            assert forall|j: int|
                0 <= j < r.len() && r[j] != '\n' && ((j == 0 && (joined.len() == 0
                    || joined.last() == '\n')) || (j > 0 && r[j - 1] == '\n')) implies #[trigger] line_start_ok(
                r.subrange(j, r.len() as int),
            ) by {
                assert(starts_line(r, j));
            }
            lemma_append_well_formed(joined, r);
        }
    }
}

// ---------------------------------------------------------------------------
// Executable tests of the heading rules
// ---------------------------------------------------------------------------

/// Whether every alphabetic character of `t` is uppercase.
pub fn all_alpha_upper(t: &[char]) -> (r: bool)
    ensures
        r == alpha_all_upper(t@),
{
    let mut i: usize = 0;
    while i < t.len()
        invariant
            i <= t.len(),
            forall|k: int|
                0 <= k < i && text::char_alphabetic(t@[k]) ==> text::char_uppercase(t@[k]),
        decreases t.len() - i,
    {
        if text::is_alphabetic(t[i]) && !text::is_uppercase(t[i]) {
            return false;
        }
        i = i + 1;
    }
    true
}

/// Whether `t` begins like a section title.
pub fn heading_prefix(t: &[char]) -> (r: bool)
    ensures
        r == has_heading_prefix(t@),
{
    text::starts_with_str(t, "Chapter ") || text::starts_with_str(t, "Section ")
        || text::starts_with_str(t, "Part ") || text::starts_with_str(t, "Appendix ")
        || text::starts_with_str(t, "Introduction") || text::starts_with_str(t, "Conclusion")
        || text::starts_with_str(t, "Abstract") || text::starts_with_str(t, "Summary")
}

/// Whether `t` starts with a numbered label.
pub fn numbered_prefix(t: &[char]) -> (r: bool)
    ensures
        r == has_numbered_prefix(t@),
{
    let n = t.len();
    let (s0, _e) = text::trim_bounds(t);
    let ghost u = t@.subrange(s0 as int, n as int);
    let mut k = s0;
    while k < n && !text::is_whitespace(t[k])
        invariant
            s0 <= k <= n == t.len(),
            u == t@.subrange(s0 as int, n as int),
            forall|m: int| 0 <= m < k - s0 ==> !text::is_ws(u[m]),
        decreases n - k,
    {
        k = k + 1;
    }
    proof {
        lemma_index_of_ws_unique(u, k - s0);
    }
    let w = text::copy_range(t, s0, k);
    assert(w@ == first_word(t@));
    if w.len() == 0 || w[w.len() - 1] != '.' {
        return false;
    }
    let mut d: usize = 0;
    while d < w.len() && w[d] != '.'
        invariant
            d <= w.len(),
            forall|m: int| 0 <= m < d ==> w@[m] != '.',
        decreases w.len() - d,
    {
        d = d + 1;
    }
    proof {
        lemma_index_of_char_unique(w@, '.', d as int);
    }
    let ghost b = before_dot(w@);
    assert(b == w@.subrange(0, d as int));
    let mut numeric = true;
    let mut upper = true;
    let mut i: usize = 0;
    while i < d
        invariant
            i <= d <= w.len(),
            b == w@.subrange(0, d as int),
            numeric == forall|m: int| 0 <= m < i ==> text::char_numeric(b[m]) || b[m] == '.',
            upper == forall|m: int| 0 <= m < i ==> text::char_uppercase(b[m]),
        decreases d - i,
    {
        let c = w[i];
        assert(c == b[i as int]);
        if !(text::is_numeric(c) || c == '.') {
            numeric = false;
        }
        if !text::is_uppercase(c) {
            upper = false;
        }
        i = i + 1;
    }
    let short_word = text::utf8_len_capped(w.as_slice(), 5) <= 4;
    numeric || (short_word && upper)
}

/// Whether `t` ends like a sentence.
pub fn sentence_ending(t: &[char]) -> (r: bool)
    ensures
        r == !no_sentence_ending(t@),
{
    if t.len() == 0 {
        return false;
    }
    let c = t[t.len() - 1];
    c == '.' || c == '?' || c == '!'
}

/// Whether the trimmed line `t` is taken for a heading.
pub fn heading_text(t: &[char]) -> (r: bool)
    ensures
        r == is_heading_text(t@),
{
    let len = text::utf8_len_capped(t, 101);
    let upper = all_alpha_upper(t);
    let is_all_caps = 3 <= len && len <= 100 && upper;
    let is_short = len < 60;
    let has_heading_prefix = heading_prefix(t);
    let has_numbered_prefix = numbered_prefix(t);
    let no_sentence_ending = !sentence_ending(t);
    let score: u8 = (if is_all_caps { 1u8 } else { 0u8 }) + (if is_short { 1u8 } else { 0u8 })
        + (if has_heading_prefix { 1u8 } else { 0u8 }) + (if has_numbered_prefix { 1u8 } else { 0u8 })
        + (if no_sentence_ending { 1u8 } else { 0u8 });
    score >= 2 || has_heading_prefix || (is_all_caps && is_short)
}

/// Whether the heading `t` is rendered at the first level.
pub fn major_heading(t: &[char]) -> (r: bool)
    ensures
        r == is_major_heading(t@),
{
    text::utf8_len_capped(t, 101) < 40 && all_alpha_upper(t)
}

} // verus!
