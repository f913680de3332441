use vstd::prelude::*;
use vstd::utf8::encode_utf8;

use crate::domain::NoteId;
use crate::text::{trim, trim_chars, lemma_find_from_result,
    byte_offset, byte_offsets, chars_of, find_bytes, find_from, index_at_byte, index_of_offset,
    lemma_byte_offset_ends, lemma_byte_offset_mono, lemma_index_at_byte, lowered,
    newlines_to_spaces, push_range, push_range_flat, to_lowercase, white_space, is_whitespace,
    sub_chars, string_of, lemma_encode_subrange_len, lemma_index_at_byte_unique, is_ascii_text,
    lemma_ascii_bytes, lemma_ascii_lowered,
};

verus! {

/// `text` with the first case-insensitive match of `query` wrapped in
/// `<m>…</m>`. The match is found in the lowercased texts and its byte position
/// is applied to `text` with `query`'s byte length; `None` where those bytes do
/// not fall on character boundaries of `text` (where slicing would panic).
pub open spec fn highlighted(text: Seq<char>, query: Seq<char>) -> Option<Seq<char>> {
    let qlen = encode_utf8(query).len() as int;
    match find_from(encode_utf8(lowered(text)), encode_utf8(lowered(query)), 0) {
        None => Some(text),
        Some(p) => match (index_at_byte(text, p, 0), index_at_byte(text, p + qlen, 0)) {
            (Some(i), Some(j)) => Some(
                text.take(i) + "<m>"@ + text.subrange(i, j) + "</m>"@ + text.skip(j),
            ),
            _ => None,
        },
    }
}

fn highlight_core(text: &str, query: &str) -> (r: Option<String>)
    ensures
        r matches Some(s) ==> highlighted(text@, query@) == Some(s@),
        r is None ==> highlighted(text@, query@) is None,
{
    let text_lower = to_lowercase(text);
    let query_lower = to_lowercase(query);
    let found = find_bytes(text_lower.as_str().as_bytes(), query_lower.as_str().as_bytes(), 0);
    let tcs = chars_of(text);
    let tb = text.as_bytes();
    let tb_len = tb.len();
    assert(tb@.len() == tb_len);
    assert(encode_utf8(tcs@).len() <= usize::MAX);
    match found {
        None => {
            let mut r = String::new();
            push_range(&mut r, &tcs, 0, tcs.len());
            assert(tcs@.subrange(0, tcs@.len() as int) =~= tcs@);
            Some(r)
        },
        Some(pos) => {
            let qlen = query.as_bytes().len();
            let offs = byte_offsets(&tcs);
            let i = index_of_offset(&tcs, &offs, pos);
            let end = pos.checked_add(qlen);
            match (i, end) {
                (Some(i), Some(end)) => {
                    let j = index_of_offset(&tcs, &offs, end);
                    match j {
                        Some(j) => {
                            proof {
                                lemma_index_at_byte(tcs@, pos as int, 0);
                                lemma_index_at_byte(tcs@, end as int, 0);
                                if j < i {
                                    lemma_byte_offset_mono(tcs@, j as int, i as int);
                                }
                            }
                            let mut r = String::new();
                            push_range(&mut r, &tcs, 0, i);
                            r.append("<m>");
                            push_range(&mut r, &tcs, i, j);
                            r.append("</m>");
                            push_range(&mut r, &tcs, j, tcs.len());
                            assert(tcs@.subrange(0, i as int) =~= tcs@.take(i as int));
                            assert(tcs@.subrange(j as int, tcs@.len() as int) =~= tcs@.skip(
                                j as int,
                            ));
                            Some(r)
                        },
                        None => None,
                    }
                },
                (Some(_), None) => {
                    proof {
                        lemma_index_at_byte(tcs@, pos + qlen, 0);
                        lemma_byte_offset_ends(tcs@);
                        assert forall|k: int| 0 <= k <= tcs@.len() implies byte_offset(tcs@, k)
                            != pos + qlen by {
                            lemma_byte_offset_mono(tcs@, k, tcs@.len() as int);
                        }
                        lemma_index_at_byte(tcs@, pos + qlen, 0);
                        if index_at_byte(tcs@, pos + qlen, 0) is Some {
                            let k = index_at_byte(tcs@, pos + qlen, 0)->0;
                            assert(byte_offset(tcs@, k) == pos + qlen);
                        }
                    }
                    None
                },
                (None, _) => None,
            }
        },
    }
}

/// Highlighting only marks: the highlighted text is the text itself, or the
/// text with one run of its characters wrapped in `<m>` and `</m>`.
pub proof fn lemma_highlight_only_marks(text: Seq<char>, query: Seq<char>)
    ensures
        highlighted(text, query) matches Some(h) ==> (h == text || exists|i: int, j: int|
            0 <= i <= j <= text.len() && h == text.take(i) + "<m>"@ + text.subrange(i, j)
                + "</m>"@ + text.skip(j)),
{
    let qlen = encode_utf8(query).len() as int;
    match find_from(encode_utf8(lowered(text)), encode_utf8(lowered(query)), 0) {
        None => {},
        Some(p) => {
            lemma_index_at_byte(text, p, 0);
            lemma_index_at_byte(text, p + qlen, 0);
            if let (Some(i), Some(j)) = (index_at_byte(text, p, 0), index_at_byte(text, p + qlen, 0)) {
                if j < i {
                    lemma_byte_offset_mono(text, j, i);
                }
                let h = text.take(i) + "<m>"@ + text.subrange(i, j) + "</m>"@ + text.skip(j);
                assert(0 <= i <= j <= text.len() && h == text.take(i) + "<m>"@ + text.subrange(i, j)
                    + "</m>"@ + text.skip(j));
            }
        },
    }
}

/// Highlights the first case-insensitive match of `query` in `text` with
/// `<m>...</m>`; without a match, `text` comes back as it is. The match is
/// found in the lowercased texts and its byte span is cut from `text`, so it
/// must fall on character boundaries of `text` (slicing there would panic
/// otherwise); on ASCII input it always does (`lemma_ascii_highlight_defined`).
pub fn highlight_match(text: &str, query: &str) -> (r: String)
    requires
        highlighted(text@, query@) is Some,
    ensures
        highlighted(text@, query@) == Some(r@),
{
    match highlight_core(text, query) {
        Some(r) => r,
        None => String::new(),
    }
}

/// Highlights as `highlight_match` does where the match falls on character
/// boundaries of `text`, and answers `None` where it does not.
pub fn try_highlight_match(text: &str, query: &str) -> (r: Option<String>)
    ensures
        r matches Some(s) ==> highlighted(text@, query@) == Some(s@),
        r is None ==> highlighted(text@, query@) is None,
{
    if highlight_core(text, query).is_some() {
        Some(highlight_match(text, query))
    } else {
        None
    }
}


/// The first character index at or after `k` whose byte offset is at least `pos`.
pub open spec fn ceil_index(cs: Seq<char>, pos: int, k: int) -> int
    decreases cs.len() - k,
{
    if k >= cs.len() {
        cs.len() as int
    } else if byte_offset(cs, k) >= pos {
        k
    } else {
        ceil_index(cs, pos, k + 1)
    }
}

/// The last character index at or before `k` whose byte offset is at most `pos`.
pub open spec fn floor_index(cs: Seq<char>, pos: int, k: int) -> int
    decreases k,
{
    if k <= 0 {
        0
    } else if byte_offset(cs, k) <= pos {
        k
    } else {
        floor_index(cs, pos, k - 1)
    }
}

/// The character index of the boundary that byte position `pos` snaps to:
/// the end when `pos` is at or past it, else the nearest boundary at or after
/// `pos` (`forward`) or at or before it.
pub open spec fn snap_index(cs: Seq<char>, pos: int, forward: bool) -> int {
    if pos >= encode_utf8(cs).len() {
        cs.len() as int
    } else if forward {
        ceil_index(cs, pos, 0)
    } else {
        floor_index(cs, pos, cs.len() as int)
    }
}

proof fn lemma_ceil_index(cs: Seq<char>, pos: int, k: int)
    requires
        0 <= k <= cs.len(),
    ensures
        k <= ceil_index(cs, pos, k) <= cs.len(),
        ceil_index(cs, pos, k) < cs.len() ==> byte_offset(cs, ceil_index(cs, pos, k)) >= pos,
    decreases cs.len() - k,
{
    if k < cs.len() && byte_offset(cs, k) < pos {
        lemma_ceil_index(cs, pos, k + 1);
    }
}

proof fn lemma_floor_index(cs: Seq<char>, pos: int, k: int)
    requires
        0 <= k <= cs.len(),
        0 <= pos,
    ensures
        0 <= floor_index(cs, pos, k) <= k,
        byte_offset(cs, floor_index(cs, pos, k)) <= pos,
    decreases k,
{
    if k <= 0 {
        lemma_byte_offset_ends(cs);
    } else if byte_offset(cs, k) > pos {
        lemma_floor_index(cs, pos, k - 1);
    }
}

proof fn lemma_snap_index(cs: Seq<char>, pos: int, forward: bool)
    requires
        0 <= pos,
    ensures
        0 <= snap_index(cs, pos, forward) <= cs.len(),
        !forward ==> byte_offset(cs, snap_index(cs, pos, forward)) <= pos,
        forward && pos <= encode_utf8(cs).len() ==> byte_offset(cs, snap_index(cs, pos, forward))
            >= pos,
{
    lemma_byte_offset_ends(cs);
    if pos >= encode_utf8(cs).len() {
    } else if forward {
        lemma_ceil_index(cs, pos, 0);
    } else {
        lemma_floor_index(cs, pos, cs.len() as int);
    }
}

fn snap_index_of(cs: &Vec<char>, offs: &Vec<usize>, pos: usize, forward: bool) -> (r: usize)
    requires
        offs@.len() == cs@.len() + 1,
        forall|k: int| 0 <= k <= cs@.len() ==> offs@[k] == byte_offset(cs@, k),
    ensures
        r == snap_index(cs@, pos as int, forward),
{
    proof {
        lemma_byte_offset_ends(cs@);
    }
    if pos >= offs[cs.len()] {
        return cs.len();
    }
    if forward {
        let mut k: usize = 0;
        while k < cs.len() && offs[k] < pos
            invariant
                k <= cs@.len(),
                offs@.len() == cs@.len() + 1,
                forall|i: int| 0 <= i <= cs@.len() ==> offs@[i] == byte_offset(cs@, i),
                ceil_index(cs@, pos as int, k as int) == ceil_index(cs@, pos as int, 0),
            decreases cs.len() - k,
        {
            k = k + 1;
        }
        k
    } else {
        let mut k: usize = cs.len();
        while k > 0 && offs[k] > pos
            invariant
                k <= cs@.len(),
                offs@.len() == cs@.len() + 1,
                forall|i: int| 0 <= i <= cs@.len() ==> offs@[i] == byte_offset(cs@, i),
                floor_index(cs@, pos as int, k as int) == floor_index(
                    cs@,
                    pos as int,
                    cs@.len() as int,
                ),
            decreases k,
        {
            k = k - 1;
        }
        k
    }
}

/// Snaps byte position `pos` of `s` to a character boundary: to the end of `s`
/// when `pos` is past it, else forward or backward to the nearest boundary.
pub fn snap_char(s: &str, pos: usize, forward: bool) -> (r: usize)
    ensures
        r == byte_offset(s@, snap_index(s@, pos as int, forward)),
{
    let cs = chars_of(s);
    let sb = s.as_bytes();
    let sb_len = sb.len();
    assert(sb@.len() == sb_len);
    let offs = byte_offsets(&cs);
    proof {
        lemma_snap_index(cs@, pos as int, forward);
    }
    let k = snap_index_of(&cs, &offs, pos, forward);
    offs[k]
}

/// The first index at or after `from` whose character is (`ws`) or is not
/// (`!ws`) whitespace.
pub open spec fn first_where(cs: Seq<char>, from: int, ws: bool) -> Option<int>
    decreases cs.len() - from,
{
    if from < 0 || from >= cs.len() {
        None
    } else if white_space(cs[from]) == ws {
        Some(from)
    } else {
        first_where(cs, from + 1, ws)
    }
}

/// The index of the last whitespace character before `to`.
pub open spec fn last_ws_before(cs: Seq<char>, to: int) -> Option<int>
    decreases to,
{
    if to <= 0 || to > cs.len() {
        None
    } else if white_space(cs[to - 1]) {
        Some(to - 1)
    } else {
        last_ws_before(cs, to - 1)
    }
}

/// The character range a snippet keeps when cut at word edges: with
/// `trim_start`, from the first word after the first whitespace; with
/// `trim_end`, up to the last whitespace; the whole snippet if that leaves
/// nothing.
pub open spec fn word_range(cs: Seq<char>, trim_start: bool, trim_end: bool) -> (int, int) {
    let s = start_cut(cs, trim_start);
    let e = end_cut(cs, trim_end);
    if s >= e {
        (0, cs.len() as int)
    } else {
        (s, e)
    }
}

/// Where a snippet starts when its partial first word is dropped: the first
/// word after the first whitespace (0 when there is none, or no cut).
pub open spec fn start_cut(cs: Seq<char>, trim_start: bool) -> int {
    if !trim_start {
        0
    } else {
        match first_where(cs, 0, true) {
            None => 0,
            Some(i) => match first_where(cs, i, false) {
                Some(j) => j,
                None => 0,
            },
        }
    }
}

/// Where a snippet ends when its partial last word is dropped: at its last
/// whitespace (the end when there is none, or no cut).
pub open spec fn end_cut(cs: Seq<char>, trim_end: bool) -> int {
    if !trim_end {
        cs.len() as int
    } else {
        match last_ws_before(cs, cs.len() as int) {
            Some(k) => k,
            None => cs.len() as int,
        }
    }
}

/// The character range a snippet keeps around its match (bytes `ms` to `me`
/// of the snippet): word edges are cut as `word_range` cuts them, except that
/// a cut that would fall inside the match is not made.
pub open spec fn kept_range(cs: Seq<char>, trim_start: bool, trim_end: bool, ms: int, me: int) -> (int, int) {
    let s0 = start_cut(cs, trim_start);
    let e0 = end_cut(cs, trim_end);
    let s = if byte_offset(cs, s0) <= ms {
        s0
    } else {
        0
    };
    let e = if byte_offset(cs, e0) >= me {
        e0
    } else {
        cs.len() as int
    };
    if s >= e {
        (0, cs.len() as int)
    } else {
        (s, e)
    }
}

proof fn lemma_first_where(cs: Seq<char>, from: int, ws: bool)
    requires
        0 <= from,
    ensures
        first_where(cs, from, ws) matches Some(i) ==> from <= i < cs.len(),
    decreases cs.len() - from,
{
    if from < cs.len() && white_space(cs[from]) != ws {
        lemma_first_where(cs, from + 1, ws);
    }
}

proof fn lemma_last_ws_before(cs: Seq<char>, to: int)
    ensures
        last_ws_before(cs, to) matches Some(i) ==> 0 <= i < to,
    decreases to,
{
    if 0 < to <= cs.len() && !white_space(cs[to - 1]) {
        lemma_last_ws_before(cs, to - 1);
    }
}

proof fn lemma_word_range(cs: Seq<char>, trim_start: bool, trim_end: bool)
    ensures
        0 <= word_range(cs, trim_start, trim_end).0 <= word_range(cs, trim_start, trim_end).1
            <= cs.len(),
        0 <= start_cut(cs, trim_start) <= cs.len(),
        0 <= end_cut(cs, trim_end) <= cs.len(),
{
    lemma_first_where(cs, 0, true);
    if let Some(i) = first_where(cs, 0, true) {
        lemma_first_where(cs, i, false);
    }
    lemma_last_ws_before(cs, cs.len() as int);
}

fn find_first_where(cs: &Vec<char>, from: usize, ws: bool) -> (r: Option<usize>)
    ensures
        r matches Some(i) ==> first_where(cs@, from as int, ws) == Some(i as int),
        r is None ==> first_where(cs@, from as int, ws) is None,
{
    let mut k = from;
    while k < cs.len()
        invariant
            from <= k,
            first_where(cs@, k as int, ws) == first_where(cs@, from as int, ws),
        decreases cs.len() - k,
    {
        if is_whitespace(cs[k]) == ws {
            return Some(k);
        }
        k = k + 1;
    }
    None
}

fn cut_bounds(cs: &Vec<char>, trim_start: bool, trim_end: bool) -> (r: (usize, usize))
    ensures
        r.0 as int == start_cut(cs@, trim_start),
        r.1 as int == end_cut(cs@, trim_end),
{
    let s: usize = if !trim_start {
        0
    } else {
        match find_first_where(cs, 0, true) {
            None => 0,
            Some(i) => match find_first_where(cs, i, false) {
                Some(j) => j,
                None => 0,
            },
        }
    };
    let mut e: usize = cs.len();
    if trim_end {
        while e > 0 && !is_whitespace(cs[e - 1])
            invariant
                e <= cs@.len(),
                last_ws_before(cs@, e as int) == last_ws_before(cs@, cs@.len() as int),
            decreases e,
        {
            e = e - 1;
        }
        if e == 0 {
            e = cs.len();
        } else {
            e = e - 1;
        }
    }
    (s, e)
}

fn word_bounds(cs: &Vec<char>, trim_start: bool, trim_end: bool) -> (r: (usize, usize))
    ensures
        r.0 as int == word_range(cs@, trim_start, trim_end).0,
        r.1 as int == word_range(cs@, trim_start, trim_end).1,
{
    let (s, e) = cut_bounds(cs, trim_start, trim_end);
    if s >= e {
        (0, cs.len())
    } else {
        (s, e)
    }
}

/// Cuts a snippet at word edges: drops the partial first word when
/// `trim_start` and the partial last word when `trim_end`. Returns the kept text
/// and its byte offset in the snippet.
pub fn trim_to_words(snippet: &str, trim_start: bool, trim_end: bool) -> (r: (String, usize))
    ensures
        r.0@ == snippet@.subrange(
            word_range(snippet@, trim_start, trim_end).0,
            word_range(snippet@, trim_start, trim_end).1,
        ),
        r.1 == byte_offset(snippet@, word_range(snippet@, trim_start, trim_end).0),
{
    let cs = chars_of(snippet);
    let sb = snippet.as_bytes();
    let sb_len = sb.len();
    assert(sb@.len() == sb_len);
    let offs = byte_offsets(&cs);
    proof {
        lemma_word_range(cs@, trim_start, trim_end);
    }
    let (s, e) = word_bounds(&cs, trim_start, trim_end);
    let mut out = String::new();
    push_range(&mut out, &cs, s, e);
    (out, offs[s])
}

/// The text `…` marks a cut end with.
pub open spec fn ellipsis() -> Seq<char> {
    "…"@
}

/// The snippet shown for a content match: `ctx` bytes of context on each side
/// of the first case-insensitive match of `query`, snapped to character
/// boundaries and cut at word edges (never inside the match), `…` at each cut
/// end, line breaks shown as spaces and the match wrapped in `<m>…</m>`. Empty
/// when nothing matches; `None` where the byte arithmetic overflows or its
/// slicing would panic.
pub open spec fn snippet_of(content: Seq<char>, query: Seq<char>, ctx: int) -> Option<Seq<char>> {
    let blen = encode_utf8(content).len() as int;
    let qlen = encode_utf8(query).len() as int;
    match find_from(encode_utf8(lowered(content)), encode_utf8(lowered(query)), 0) {
        None => Some(seq![]),
        Some(p) => if p + qlen + ctx > usize::MAX {
            None
        } else {
            let raw_start = if p >= ctx {
                p - ctx
            } else {
                0
            };
            let raw_end = if p + qlen + ctx <= blen {
                p + qlen + ctx
            } else {
                blen
            };
            let si = snap_index(content, raw_start, false);
            let ei = snap_index(content, raw_end, true);
            let start = byte_offset(content, si) as int;
            let end = byte_offset(content, ei) as int;
            if si > ei {
                None
            } else {
                let sc = content.subrange(si, ei);
                let kr = kept_range(sc, start > 0, end < blen, p - start, p - start + qlen);
                let off = byte_offset(sc, kr.0) as int;
                marked_snippet(sc.subrange(kr.0, kr.1), p - start, qlen, off, start > 0, end < blen)
            }
        },
    }
}

/// The kept text `tr` of a snippet, shown with line breaks as spaces, `…` at
/// cut ends, and the match at byte `ms` (relative to the snippet, whose kept
/// text starts at byte `off`) wrapped in `<m>…</m>` when it lies within `tr`.
/// `None` where the match edges are not character boundaries of `tr`.
pub open spec fn marked_snippet(
    tr: Seq<char>,
    ms: int,
    qlen: int,
    off: int,
    cut_start: bool,
    cut_end: bool,
) -> Option<Seq<char>> {
    let tlen = encode_utf8(tr).len() as int;
    let prefix = if cut_start {
        ellipsis()
    } else {
        seq![]
    };
    let suffix = if cut_end {
        ellipsis()
    } else {
        seq![]
    };
    let me = ms + qlen;
    if ms < off || me > off + tlen {
        Some(prefix + newlines_to_spaces(tr) + suffix)
    } else {
        match (index_at_byte(tr, ms - off, 0), index_at_byte(tr, me - off, 0)) {
            (Some(a), Some(b)) => Some(
                prefix + newlines_to_spaces(tr.take(a)) + "<m>"@ + newlines_to_spaces(
                    tr.subrange(a, b),
                ) + "</m>"@ + newlines_to_spaces(tr.skip(b)) + suffix,
            ),
            _ => None,
        }
    }
}

fn mark_snippet(
    tr: &Vec<char>,
    ms: usize,
    qlen: usize,
    off: usize,
    cut_start: bool,
    cut_end: bool,
) -> (r: Option<String>)
    requires
        off + encode_utf8(tr@).len() <= usize::MAX,
        ms + qlen <= usize::MAX,
    ensures
        r matches Some(s) ==> marked_snippet(tr@, ms as int, qlen as int, off as int, cut_start, cut_end)
            == Some(s@),
        r is None ==> marked_snippet(tr@, ms as int, qlen as int, off as int, cut_start, cut_end) is None,
{
    let tlen = byte_len_of(tr);
    let me = ms + qlen;
    let mut out = String::new();
    if cut_start {
        out.append("…");
    }
    if ms < off || me > off + tlen {
        push_range_flat(&mut out, tr, 0, tr.len());
        assert(tr@.subrange(0, tr@.len() as int) =~= tr@);
    } else {
        let a = ms - off;
        let b = me - off;
        let tr_offs = byte_offsets(tr);
        let ia = index_of_offset(tr, &tr_offs, a);
        let ib = index_of_offset(tr, &tr_offs, b);
        match (ia, ib) {
            (Some(ia), Some(ib)) => {
                proof {
                    lemma_index_at_byte(tr@, a as int, 0);
                    lemma_index_at_byte(tr@, b as int, 0);
                    if ib < ia {
                        lemma_byte_offset_mono(tr@, ib as int, ia as int);
                    }
                }
                push_range_flat(&mut out, tr, 0, ia);
                out.append("<m>");
                push_range_flat(&mut out, tr, ia, ib);
                out.append("</m>");
                push_range_flat(&mut out, tr, ib, tr.len());
                assert(tr@.subrange(0, ia as int) =~= tr@.take(ia as int));
                assert(tr@.subrange(ib as int, tr@.len() as int) =~= tr@.skip(ib as int));
            },
            _ => {
                return None;
            },
        }
    }
    if cut_end {
        out.append("…");
    }
    Some(out)
}

fn byte_len_of(cs: &Vec<char>) -> (n: usize)
    requires
        encode_utf8(cs@).len() <= usize::MAX,
    ensures
        n == encode_utf8(cs@).len(),
{
    let offs = byte_offsets(cs);
    proof {
        lemma_byte_offset_ends(cs@);
    }
    offs[cs.len()]
}

fn snippet_core(content: &str, query: &str, context_chars: usize) -> (r: Option<String>)
    ensures
        r matches Some(s) ==> snippet_of(content@, query@, context_chars as int) == Some(s@),
        r is None ==> snippet_of(content@, query@, context_chars as int) is None,
{
    let content_lower = to_lowercase(content);
    let query_lower = to_lowercase(query);
    let found = find_bytes(
        content_lower.as_str().as_bytes(),
        query_lower.as_str().as_bytes(),
        0,
    );
    let p = match found {
        None => {
            return Some(String::new());
        },
        Some(p) => p,
    };
    let cs = chars_of(content);
    let cb = content.as_bytes();
    let clen = cb.len();
    assert(cb@.len() == clen);
    let qb = query.as_bytes();
    let qlen = qb.len();
    assert(qb@.len() == qlen);
    let t1 = match p.checked_add(qlen) {
        Some(t) => t,
        None => {
            return None;
        },
    };
    let t2 = match t1.checked_add(context_chars) {
        Some(t) => t,
        None => {
            return None;
        },
    };
    let raw_start = if p >= context_chars {
        p - context_chars
    } else {
        0
    };
    let raw_end = if t2 <= clen {
        t2
    } else {
        clen
    };
    let offs = byte_offsets(&cs);
    proof {
        lemma_byte_offset_ends(cs@);
        lemma_snap_index(cs@, raw_start as int, false);
        lemma_snap_index(cs@, raw_end as int, true);
    }
    let si = snap_index_of(&cs, &offs, raw_start, false);
    let ei = snap_index_of(&cs, &offs, raw_end, true);
    let start = offs[si];
    let end = offs[ei];
    if si > ei {
        return None;
    }
    assert(start <= p) by {
        if raw_start >= clen {
            lemma_byte_offset_ends(cs@);
        }
    }
    let sc = sub_chars(&cs, si, ei);
    let ms = p - start;
    let me = ms + qlen;
    let (s0, e0) = cut_bounds(&sc, start > 0, end < clen);
    proof {
        lemma_word_range(sc@, start > 0, end < clen);
        lemma_byte_offset_ends(sc@);
        lemma_encode_subrange_len(cs@, si as int, ei as int);
        lemma_byte_offset_mono(cs@, ei as int, cs@.len() as int);
    }
    let sc_offs = byte_offsets(&sc);
    let s1 = if sc_offs[s0] <= ms { s0 } else { 0 };
    let e1 = if sc_offs[e0] >= me { e0 } else { sc.len() };
    let (ks, ke) = if s1 >= e1 { (0, sc.len()) } else { (s1, e1) };
    let ghost kr = kept_range(sc@, start > 0, end < clen, ms as int, me as int);
    assert(ks as int == kr.0 && ke as int == kr.1);
    proof {
        lemma_encode_subrange_len(sc@, kr.0, kr.1);
        lemma_byte_offset_mono(sc@, kr.1, sc@.len() as int);
    }
    let tr = sub_chars(&sc, ks, ke);
    let off = sc_offs[ks];
    mark_snippet(&tr, ms, qlen, off, start > 0, end < clen)
}

/// On short content the snippet is the highlighted text: when the context
/// reaches both ends of the content, nothing is cut, and the snippet is the
/// text with its match wrapped in `<m>…</m>` and line breaks shown as spaces.
pub proof fn lemma_short_snippet_is_highlight(content: Seq<char>, query: Seq<char>, ctx: int, p: int)
    requires
        0 <= ctx,
        find_from(encode_utf8(lowered(content)), encode_utf8(lowered(query)), 0) == Some(p),
        highlighted(content, query) is Some,
        p <= ctx,
        p + encode_utf8(query).len() + ctx >= encode_utf8(content).len(),
        p + encode_utf8(query).len() + ctx <= usize::MAX,
    ensures
        snippet_of(content, query, ctx) == Some(newlines_to_spaces(highlighted(content, query)->0)),
{
    let blen = encode_utf8(content).len() as int;
    let qlen = encode_utf8(query).len() as int;
    lemma_find_from_result(encode_utf8(lowered(content)), encode_utf8(lowered(query)), 0);
    lemma_byte_offset_ends(content);
    // the window is the whole content
    lemma_snap_index(content, 0, false);
    let si = snap_index(content, 0, false);
    if si > 0 {
        lemma_byte_offset_mono(content, 0, si);
    }
    assert(si == 0);
    let ei = snap_index(content, blen, true);
    assert(ei == content.len());
    let sc = content.subrange(si, ei);
    assert(sc =~= content);
    assert(start_cut(sc, false) == 0);
    assert(end_cut(sc, false) == sc.len());
    let kr = kept_range(sc, false, false, p, p + qlen);
    assert(kr == (0int, sc.len() as int));
    assert(sc.subrange(0, sc.len() as int) =~= content);
    let i = index_at_byte(content, p, 0)->0;
    let j = index_at_byte(content, p + qlen, 0)->0;
    lemma_index_at_byte(content, p, 0);
    lemma_index_at_byte(content, p + qlen, 0);
    if j < i {
        lemma_byte_offset_mono(content, j, i);
    }
    lemma_byte_offset_mono(content, j, content.len() as int);
    let h = content.take(i) + "<m>"@ + content.subrange(i, j) + "</m>"@ + content.skip(j);
    reveal_strlit("<m>");
    reveal_strlit("</m>");
    assert(newlines_to_spaces(h) =~= newlines_to_spaces(content.take(i)) + "<m>"@
        + newlines_to_spaces(content.subrange(i, j)) + "</m>"@ + newlines_to_spaces(content.skip(j)));
}

/// A snippet never loses its match: whenever the match lies within the
/// content, a snippet that can be cut shows it wrapped in `<m>…</m>`.
pub proof fn lemma_snippet_marks_match(content: Seq<char>, query: Seq<char>, ctx: int, p: int)
    requires
        0 <= ctx,
        find_from(encode_utf8(lowered(content)), encode_utf8(lowered(query)), 0) == Some(p),
        p + encode_utf8(query).len() <= encode_utf8(content).len(),
        snippet_of(content, query, ctx) is Some,
    ensures
        exists|x: Seq<char>, m: Seq<char>, y: Seq<char>|
            snippet_of(content, query, ctx) == Some(x + "<m>"@ + m + "</m>"@ + y),
{
    let blen = encode_utf8(content).len() as int;
    let qlen = encode_utf8(query).len() as int;
    lemma_find_from_result(encode_utf8(lowered(content)), encode_utf8(lowered(query)), 0);
    let raw_start = if p >= ctx { p - ctx } else { 0 };
    let raw_end = if p + qlen + ctx <= blen { p + qlen + ctx } else { blen };
    lemma_snap_index(content, raw_start, false);
    lemma_snap_index(content, raw_end, true);
    let si = snap_index(content, raw_start, false);
    let ei = snap_index(content, raw_end, true);
    let start = byte_offset(content, si) as int;
    let end = byte_offset(content, ei) as int;
    let sc = content.subrange(si, ei);
    lemma_encode_subrange_len(content, si, ei);
    lemma_byte_offset_ends(sc);
    let ms = p - start;
    let me = p - start + qlen;
    let kr = kept_range(sc, start > 0, end < blen, ms, me);
    lemma_word_range(sc, start > 0, end < blen);
    lemma_encode_subrange_len(sc, kr.0, kr.1);
    if kr.0 > 0 {
        lemma_byte_offset_mono(sc, 0, kr.0);
    }
    lemma_byte_offset_mono(sc, kr.1, sc.len() as int);
    let tr = sc.subrange(kr.0, kr.1);
    let off = byte_offset(sc, kr.0) as int;
    assert(off <= ms && me <= off + encode_utf8(tr).len());
    let a = index_at_byte(tr, ms - off, 0)->0;
    let b = index_at_byte(tr, me - off, 0)->0;
    let prefix = if start > 0 { ellipsis() } else { seq![] };
    let suffix = if end < blen { ellipsis() } else { seq![] };
    let x = prefix + newlines_to_spaces(tr.take(a));
    let m = newlines_to_spaces(tr.subrange(a, b));
    let y = newlines_to_spaces(tr.skip(b)) + suffix;
    assert(snippet_of(content, query, ctx) == Some(x + "<m>"@ + m + "</m>"@ + y));
}

/// Extracts a snippet around the first case-insensitive match of `query` in
/// `content`, with about `context_chars` bytes of context on each side and the
/// match highlighted with `<m>...</m>`.
pub fn extract_snippet(content: &str, query: &str, context_chars: usize) -> (r: String)
    requires
        snippet_of(content@, query@, context_chars as int) is Some,
    ensures
        snippet_of(content@, query@, context_chars as int) == Some(r@),
{
    match snippet_core(content, query, context_chars) {
        Some(r) => r,
        None => String::new(),
    }
}

/// Extracts a snippet as `extract_snippet` does where its byte arithmetic stays
/// within character boundaries and `usize`, and answers `None` where it does not.
pub fn try_extract_snippet(content: &str, query: &str, context_chars: usize) -> (r: Option<
    String,
>)
    ensures
        r matches Some(s) ==> snippet_of(content@, query@, context_chars as int) == Some(s@),
        r is None ==> snippet_of(content@, query@, context_chars as int) is None,
{
    if snippet_core(content, query, context_chars).is_some() {
        Some(extract_snippet(content, query, context_chars))
    } else {
        None
    }
}


/// How a search hit matched the query.
#[derive(Clone, Copy, Debug, PartialEq, Eq, Structural)]
pub enum MatchKind {
    Title,
    Content,
    Tag,
}

impl MatchKind {
    /// The label a hit carries: `title`, `content` or `tag`.
    pub fn label(&self) -> (r: String)
        ensures
            r@ == match *self {
                MatchKind::Title => "title"@,
                MatchKind::Content => "content"@,
                MatchKind::Tag => "tag"@,
            },
    {
        match self {
            MatchKind::Title => String::from_str("title"),
            MatchKind::Content => String::from_str("content"),
            MatchKind::Tag => String::from_str("tag"),
        }
    }
}

/// A search hit. Its score is counted in halves: a title match scores 2 (4
/// halves), a content match 1, a tag match 0.5, a hit of an exact tag search 1.
#[derive(Clone, Debug)]
pub struct SearchResult {
    pub note_id: NoteId,
    pub title: String,
    pub excerpt: String,
    pub match_kind: MatchKind,
    pub score_halves: u32,
}

/// What a search query asks for.
#[derive(Clone, Debug)]
pub enum SearchPlan {
    /// The trimmed query is shorter than two bytes: nothing is looked up.
    Nothing,
    /// `#name`: the notes carrying the tag, compared in lowercase.
    ExactTag(String),
    /// A free-text search for the trimmed query, with the SQL `LIKE` pattern
    /// that finds it as a substring (`%` and `_` escaped with `\`).
    Substring { query: String, pattern: String },
}

/// `cs` with `%` and `_` escaped by a backslash, for a `LIKE ... ESCAPE '\'` pattern.
pub open spec fn like_escaped(cs: Seq<char>) -> Seq<char>
    decreases cs.len(),
{
    if cs.len() == 0 {
        seq![]
    } else {
        let c = cs.last();
        like_escaped(cs.drop_last()) + if c == '%' || c == '_' {
            seq!['\\', c]
        } else {
            seq![c]
        }
    }
}

/// The plan for a query: trimmed; nothing below two bytes; an exact tag search
/// for `#name`; otherwise a substring search with pattern `%<escaped query>%`.
pub open spec fn search_plan(query: Seq<char>) -> SearchPlanView {
    let q = trim(query);
    if encode_utf8(q).len() < 2 {
        SearchPlanView::Nothing
    } else if q[0] == '#' && q.len() > 1 {
        SearchPlanView::ExactTag(lowered(q.drop_first()))
    } else {
        SearchPlanView::Substring(q, seq!['%'] + like_escaped(q) + seq!['%'])
    }
}

/// The mathematical form of a `SearchPlan`.
pub enum SearchPlanView {
    Nothing,
    ExactTag(Seq<char>),
    Substring(Seq<char>, Seq<char>),
}

impl SearchPlan {
    /// The plan as mathematical values.
    pub open spec fn view_plan(self) -> SearchPlanView {
        match self {
            SearchPlan::Nothing => SearchPlanView::Nothing,
            SearchPlan::ExactTag(t) => SearchPlanView::ExactTag(t@),
            SearchPlan::Substring { query, pattern } => SearchPlanView::Substring(query@, pattern@),
        }
    }
}

/// Decides what a search query asks for.
pub fn plan_search(query: &str) -> (r: SearchPlan)
    ensures
        r.view_plan() == search_plan(query@),
{
    let cs = chars_of(query);
    let q = trim_chars(&cs);
    let qs = string_of(&q);
    let qb = qs.as_str().as_bytes();
    let qblen = qb.len();
    assert(qb@.len() == qblen);
    if qblen < 2 {
        return SearchPlan::Nothing;
    }
    if q.len() > 1 && q[0] == '#' {
        let rest = sub_chars(&q, 1, q.len());
        assert(rest@ =~= q@.drop_first());
        let rest_s = string_of(&rest);
        let low = to_lowercase(rest_s.as_str());
        return SearchPlan::ExactTag(low);
    }
    let mut pattern = String::new();
    push_char_to(&mut pattern, '%');
    let mut k: usize = 0;
    while k < q.len()
        invariant
            k <= q@.len(),
            pattern@ == seq!['%'] + like_escaped(q@.take(k as int)),
        decreases q.len() - k,
    {
        let c = q[k];
        assert(q@.take(k + 1).drop_last() =~= q@.take(k as int));
        if c == '%' || c == '_' {
            push_char_to(&mut pattern, '\\');
        }
        push_char_to(&mut pattern, c);
        k = k + 1;
        assert(pattern@ =~= seq!['%'] + like_escaped(q@.take(k as int)));
    }
    push_char_to(&mut pattern, '%');
    assert(q@.take(k as int) =~= q@);
    assert(pattern@ =~= seq!['%'] + like_escaped(q@) + seq!['%']);
    SearchPlan::Substring { query: qs, pattern }
}

fn push_char_to(s: &mut String, c: char)
    ensures
        final(s)@ == old(s)@.push(c),
{
    crate::text::push_char(s, c)
}

/// A row that matched a search: the note's id and title, how it matched, and
/// the text the excerpt is cut from (the title, the content, or the tag name).
#[derive(Clone, Debug)]
pub struct Candidate {
    pub id: String,
    pub title: String,
    pub kind: MatchKind,
    pub text: String,
}

/// The score of a hit of a free-text search, in halves.
pub open spec fn kind_score(kind: MatchKind) -> u32 {
    match kind {
        MatchKind::Title => 4,
        MatchKind::Content => 2,
        MatchKind::Tag => 1,
    }
}

/// The excerpt of a candidate: the highlighted title, a snippet of the content
/// with 60 bytes of context, or `<m>#tag</m>`.
pub open spec fn excerpt_of(c: Candidate, query: Seq<char>) -> Option<Seq<char>> {
    match c.kind {
        MatchKind::Title => highlighted(c.text@, query),
        MatchKind::Content => snippet_of(c.text@, query, 60),
        MatchKind::Tag => Some("<m>#"@ + c.text@ + "</m>"@),
    }
}

/// The candidates whose note id has not come up earlier in `cs`.
pub open spec fn first_per_note(cs: Seq<Candidate>) -> Seq<Candidate>
    decreases cs.len(),
{
    if cs.len() == 0 {
        seq![]
    } else {
        let init = first_per_note(cs.drop_last());
        if exists|j: int| 0 <= j < cs.len() - 1 && (#[trigger] cs[j]).id@ == cs.last().id@ {
            init
        } else {
            init.push(cs.last())
        }
    }
}

/// The hit a kept candidate becomes, given its excerpt.
pub open spec fn hit_matches(r: SearchResult, c: Candidate, excerpt: Seq<char>) -> bool {
    &&& r.note_id.0@ == c.id@
    &&& r.title@ == c.title@
    &&& r.excerpt@ == excerpt
    &&& r.match_kind == c.kind
    &&& r.score_halves == kind_score(c.kind)
}

proof fn lemma_first_per_note_step(cs: Seq<Candidate>, k: int)
    requires
        0 <= k < cs.len(),
    ensures
        first_per_note(cs.take(k + 1)) == if exists|j: int|
            0 <= j < k && (#[trigger] cs[j]).id@ == cs[k].id@ {
            first_per_note(cs.take(k))
        } else {
            first_per_note(cs.take(k)).push(cs[k])
        },
{
    let t = cs.take(k + 1);
    assert(t.drop_last() =~= cs.take(k));
    if exists|j: int| 0 <= j < k && (#[trigger] cs[j]).id@ == cs[k].id@ {
        let j = choose|j: int| 0 <= j < k && (#[trigger] cs[j]).id@ == cs[k].id@;
        assert(t[j] == cs[j]);
    } else {
        assert forall|j: int| 0 <= j < t.len() - 1 implies (#[trigger] t[j]).id@ != t.last().id@ by {
            assert(t[j] == cs[j]);
        }
    }
}

fn seen_before(cands: &Vec<Candidate>, k: usize) -> (b: bool)
    requires
        k < cands@.len(),
    ensures
        b == exists|j: int| 0 <= j < k && (#[trigger] cands@[j]).id@ == cands@[k as int].id@,
{
    let mut j: usize = 0;
    while j < k
        invariant
            j <= k < cands@.len(),
            forall|i: int| 0 <= i < j ==> (#[trigger] cands@[i]).id@ != cands@[k as int].id@,
        decreases k - j,
    {
        if cands[j].id == cands[k].id {
            return true;
        }
        j = j + 1;
    }
    false
}

fn excerpt_for(c: &Candidate, query: &str) -> (r: Option<String>)
    ensures
        r matches Some(s) ==> excerpt_of(*c, query@) == Some(s@),
        r is None ==> excerpt_of(*c, query@) is None,
{
    match c.kind {
        MatchKind::Title => try_highlight_match(c.text.as_str(), query),
        MatchKind::Content => try_extract_snippet(c.text.as_str(), query, 60),
        MatchKind::Tag => {
            let mut e = String::from_str("<m>#");
            e.append(c.text.as_str());
            e.append("</m>");
            Some(e)
        },
    }
}

/// The candidates of `cs` that matched as `kind`, in order.
pub open spec fn of_kind(cs: Seq<Candidate>, kind: MatchKind) -> Seq<Candidate>
    decreases cs.len(),
{
    if cs.len() == 0 {
        seq![]
    } else {
        let init = of_kind(cs.drop_last(), kind);
        if cs.last().kind == kind {
            init.push(cs.last())
        } else {
            init
        }
    }
}

/// `cs` ordered by score, best first, keeping the order within each score:
/// title matches, then content matches, then tag matches.
pub open spec fn ranked(cs: Seq<Candidate>) -> Seq<Candidate> {
    of_kind(cs, MatchKind::Title) + of_kind(cs, MatchKind::Content) + of_kind(cs, MatchKind::Tag)
}

/// No two candidates of `s` belong to the same note.
pub open spec fn distinct_notes(s: Seq<Candidate>) -> bool {
    forall|i: int, j: int| 0 <= i < j < s.len() ==> (#[trigger] s[i]).id@ != (#[trigger] s[j]).id@
}

proof fn lemma_first_per_note_members(cs: Seq<Candidate>)
    ensures
        forall|i: int|
            0 <= i < first_per_note(cs).len() ==> exists|j: int|
                0 <= j < cs.len() && cs[j] == #[trigger] first_per_note(cs)[i],
    decreases cs.len(),
{
    if cs.len() > 0 {
        let init = cs.drop_last();
        lemma_first_per_note_members(init);
        let f = first_per_note(cs);
        let fi = first_per_note(init);
        assert forall|i: int| 0 <= i < f.len() implies exists|j: int|
            0 <= j < cs.len() && cs[j] == #[trigger] f[i] by {
            if i < fi.len() {
                assert(f[i] == fi[i]);
                let j = choose|j: int| 0 <= j < init.len() && init[j] == fi[i];
                assert(cs[j] == init[j]);
            } else {
                assert(f[i] == cs[cs.len() - 1]);
            }
        }
    }
}

proof fn lemma_first_per_note_distinct(cs: Seq<Candidate>)
    ensures
        distinct_notes(first_per_note(cs)),
    decreases cs.len(),
{
    if cs.len() > 0 {
        let init = cs.drop_last();
        lemma_first_per_note_distinct(init);
        lemma_first_per_note_members(init);
        let f = first_per_note(cs);
        let fi = first_per_note(init);
        if !(exists|j: int| 0 <= j < cs.len() - 1 && (#[trigger] cs[j]).id@ == cs.last().id@) {
            assert forall|i: int, j: int| 0 <= i < j < f.len() implies (#[trigger] f[i]).id@ != (
            #[trigger] f[j]).id@ by {
                if j == f.len() - 1 {
                    assert(f[i] == fi[i]);
                    let k = choose|k: int| 0 <= k < init.len() && init[k] == fi[i];
                    assert(cs[k] == init[k]);
                } else {
                    assert(f[i] == fi[i]);
                    assert(f[j] == fi[j]);
                }
            }
        }
    }
}

proof fn lemma_of_kind_members(cs: Seq<Candidate>, kind: MatchKind)
    ensures
        forall|i: int|
            0 <= i < of_kind(cs, kind).len() ==> (#[trigger] of_kind(cs, kind)[i]).kind == kind
                && exists|j: int| 0 <= j < cs.len() && cs[j] == of_kind(cs, kind)[i],
    decreases cs.len(),
{
    if cs.len() > 0 {
        let init = cs.drop_last();
        lemma_of_kind_members(init, kind);
        let o = of_kind(cs, kind);
        let oi = of_kind(init, kind);
        assert forall|i: int| 0 <= i < o.len() implies (#[trigger] o[i]).kind == kind && exists|j: int|
            0 <= j < cs.len() && cs[j] == o[i] by {
            if i < oi.len() {
                assert(o[i] == oi[i]);
                let j = choose|j: int| 0 <= j < init.len() && init[j] == oi[i];
                assert(cs[j] == init[j]);
            } else {
                assert(o[i] == cs[cs.len() - 1]);
            }
        }
    }
}

proof fn lemma_of_kind_distinct(cs: Seq<Candidate>, kind: MatchKind)
    requires
        distinct_notes(cs),
    ensures
        distinct_notes(of_kind(cs, kind)),
    decreases cs.len(),
{
    if cs.len() > 0 {
        let init = cs.drop_last();
        assert forall|i: int, j: int| 0 <= i < j < init.len() implies (#[trigger] init[i]).id@ != (
        #[trigger] init[j]).id@ by {
            assert(init[i] == cs[i] && init[j] == cs[j]);
        }
        lemma_of_kind_distinct(init, kind);
        lemma_of_kind_members(init, kind);
        let o = of_kind(cs, kind);
        let oi = of_kind(init, kind);
        assert forall|i: int, j: int| 0 <= i < j < o.len() implies (#[trigger] o[i]).id@ != (
        #[trigger] o[j]).id@ by {
            assert(o[i] == oi[i]);
            if j < oi.len() {
                assert(o[j] == oi[j]);
            } else {
                let k = choose|k: int| 0 <= k < init.len() && init[k] == oi[i];
                assert(cs[k] == init[k]);
                assert(o[j] == cs[cs.len() - 1]);
            }
        }
    }
}

/// A search lists each note at most once: the kept candidates, ranked, belong
/// to distinct notes.
pub proof fn lemma_ranked_notes_distinct(cands: Seq<Candidate>)
    ensures
        distinct_notes(ranked(first_per_note(cands))),
{
    let kept = first_per_note(cands);
    lemma_first_per_note_distinct(cands);
    let a = of_kind(kept, MatchKind::Title);
    let b = of_kind(kept, MatchKind::Content);
    let c = of_kind(kept, MatchKind::Tag);
    lemma_of_kind_distinct(kept, MatchKind::Title);
    lemma_of_kind_distinct(kept, MatchKind::Content);
    lemma_of_kind_distinct(kept, MatchKind::Tag);
    lemma_of_kind_members(kept, MatchKind::Title);
    lemma_of_kind_members(kept, MatchKind::Content);
    lemma_of_kind_members(kept, MatchKind::Tag);
    let r = ranked(kept);
    assert forall|i: int, j: int| 0 <= i < j < r.len() implies (#[trigger] r[i]).id@ != (
    #[trigger] r[j]).id@ by {
        let x = r[i];
        let y = r[j];
        if i < a.len() {
            assert(x == a[i]);
        } else if i < a.len() + b.len() {
            assert(x == b[i - a.len()]);
        } else {
            assert(x == c[i - a.len() - b.len()]);
        }
        if j < a.len() {
            assert(y == a[j]);
        } else if j < a.len() + b.len() {
            assert(y == b[j - a.len()]);
        } else {
            assert(y == c[j - a.len() - b.len()]);
        }
        if x.kind == y.kind {
        } else {
            let p = choose|p: int| 0 <= p < kept.len() && kept[p] == x;
            let q = choose|q: int| 0 <= q < kept.len() && kept[q] == y;
            assert(p != q);
            if p < q {
                assert(kept[p].id@ != kept[q].id@);
            } else {
                assert(kept[q].id@ != kept[p].id@);
            }
        }
    }
}

/// The hits of a free-text search, from the rows that matched in the order the
/// index returned them (title matches, then content matches, then tag
/// matches). Each note is kept once, with its first match; every kept row gets
/// its excerpt; the hits are ordered by score (a stable sort) and at most 50
/// are returned. `None` where building an excerpt would panic (a match whose
/// byte edges are not character boundaries of the text it is cut from).
#[verifier::rlimit(60)]
pub fn assemble_results(query: &str, cands: &Vec<Candidate>) -> (r: Option<Vec<SearchResult>>)
    ensures
        (r is Some) == (forall|i: int|
            0 <= i < first_per_note(cands@).len() ==> (#[trigger] excerpt_of(
                first_per_note(cands@)[i],
                query@,
            )) is Some),
        r matches Some(v) ==> {
            let ordered = ranked(first_per_note(cands@));
            &&& v@.len() == if ordered.len() <= 50 {
                ordered.len() as int
            } else {
                50
            }
            &&& forall|i: int|
                0 <= i < v@.len() ==> hit_matches(
                    #[trigger] v@[i],
                    ordered[i],
                    excerpt_of(ordered[i], query@)->0,
                )
            &&& forall|i: int, j: int|
                0 <= i < j < v@.len() ==> (#[trigger] v@[i]).note_id.0@ != (#[trigger] v@[j]).note_id.0@
        },
{
    let (idxs, exs) = match kept_with_excerpts(query, cands) {
        Some(p) => p,
        None => {
            return None;
        },
    };
    let ghost kept = first_per_note(cands@);
    let mut out: Vec<SearchResult> = Vec::new();
    assert(out@ =~= Seq::<SearchResult>::empty());
    push_kind(&mut out, cands, &idxs, &exs, MatchKind::Title, query);
    let ghost o1 = out@;
    push_kind(&mut out, cands, &idxs, &exs, MatchKind::Content, query);
    let ghost o2 = out@;
    push_kind(&mut out, cands, &idxs, &exs, MatchKind::Tag, query);
    proof {
        lemma_ranked_hits(o1, o2, out@, kept, query@);
        lemma_ranked_notes_distinct(cands@);
    }
    out.truncate(50);
    Some(out)
}

/// `idxs` and `exs` list, in order, the position in `cands` and the excerpt of
/// every candidate kept by `first_per_note`.
#[verifier::opaque]
pub open spec fn kept_table(cands: Seq<Candidate>, idxs: Seq<usize>, exs: Seq<String>, query: Seq<char>) -> bool {
    &&& idxs.len() == first_per_note(cands).len()
    &&& exs.len() == idxs.len()
    &&& forall|i: int|
        0 <= i < idxs.len() ==> #[trigger] idxs[i] < cands.len() && cands[idxs[i] as int]
            == first_per_note(cands)[i]
    &&& forall|i: int|
        0 <= i < idxs.len() ==> excerpt_of(first_per_note(cands)[i], query) == Some(
            (#[trigger] exs[i])@,
        )
}

/// `new` is `old` followed by the hits of the candidates of `kept` that matched as `kind`.
#[verifier::opaque]
pub open spec fn appended_kind(
    old: Seq<SearchResult>,
    new: Seq<SearchResult>,
    kept: Seq<Candidate>,
    kind: MatchKind,
    query: Seq<char>,
) -> bool {
    &&& new.len() == old.len() + of_kind(kept, kind).len()
    &&& forall|i: int| 0 <= i < old.len() ==> #[trigger] new[i] == old[i]
    &&& forall|j: int|
        0 <= j < of_kind(kept, kind).len() ==> hit_matches(
            #[trigger] new[old.len() + j],
            of_kind(kept, kind)[j],
            excerpt_of(of_kind(kept, kind)[j], query)->0,
        )
}

/// The indices of the first candidate per note, with their excerpts; `None`
/// where some kept candidate's excerpt cannot be built.
fn kept_with_excerpts(query: &str, cands: &Vec<Candidate>) -> (r: Option<(Vec<usize>, Vec<String>)>)
    ensures
        (r is Some) == (forall|i: int|
            0 <= i < first_per_note(cands@).len() ==> (#[trigger] excerpt_of(
                first_per_note(cands@)[i],
                query@,
            )) is Some),
        r matches Some(p) ==> kept_table(cands@, p.0@, p.1@, query@),
{
    let mut idxs: Vec<usize> = Vec::new();
    let mut exs: Vec<String> = Vec::new();
    let mut k: usize = 0;
    while k < cands.len()
        invariant
            k <= cands@.len(),
            idxs@.len() == first_per_note(cands@.take(k as int)).len(),
            exs@.len() == idxs@.len(),
            forall|i: int|
                0 <= i < idxs@.len() ==> #[trigger] idxs@[i] < cands@.len() && cands@[idxs@[i] as int]
                    == first_per_note(cands@.take(k as int))[i],
            forall|i: int|
                0 <= i < idxs@.len() ==> excerpt_of(first_per_note(cands@.take(k as int))[i], query@)
                    == Some((#[trigger] exs@[i])@),
        decreases cands.len() - k,
    {
        proof {
            lemma_first_per_note_step(cands@, k as int);
        }
        if !seen_before(cands, k) {
            match excerpt_for(&cands[k], query) {
                Some(e) => {
                    idxs.push(k);
                    exs.push(e);
                },
                None => {
                    proof {
                        let f = first_per_note(cands@.take(k + 1));
                        lemma_first_per_note_prefix(cands@, k + 1);
                        assert(f[f.len() - 1] == first_per_note(cands@)[f.len() - 1]);
                        assert(excerpt_of(first_per_note(cands@)[f.len() - 1], query@) is None);
                    }
                    return None;
                },
            }
        }
        k = k + 1;
    }
    assert(cands@.take(k as int) =~= cands@);
    proof {
        assert forall|i: int| 0 <= i < first_per_note(cands@).len() implies (#[trigger] excerpt_of(
            first_per_note(cands@)[i],
            query@,
        )) is Some by {
            assert(excerpt_of(first_per_note(cands@)[i], query@) == Some(exs@[i]@));
        }
        reveal(kept_table);
    }
    Some((idxs, exs))
}

proof fn lemma_ranked_hits(
    o1: Seq<SearchResult>,
    o2: Seq<SearchResult>,
    o3: Seq<SearchResult>,
    kept: Seq<Candidate>,
    query: Seq<char>,
)
    requires
        appended_kind(Seq::empty(), o1, kept, MatchKind::Title, query),
        appended_kind(o1, o2, kept, MatchKind::Content, query),
        appended_kind(o2, o3, kept, MatchKind::Tag, query),
    ensures
        o3.len() == ranked(kept).len(),
        forall|i: int|
            0 <= i < o3.len() ==> hit_matches(
                #[trigger] o3[i],
                ranked(kept)[i],
                excerpt_of(ranked(kept)[i], query)->0,
            ),
{
    let a = of_kind(kept, MatchKind::Title);
    let b = of_kind(kept, MatchKind::Content);
    let c = of_kind(kept, MatchKind::Tag);
    let ordered = ranked(kept);
    reveal(appended_kind);
    assert forall|i: int| 0 <= i < o3.len() implies hit_matches(
        #[trigger] o3[i],
        ordered[i],
        excerpt_of(ordered[i], query)->0,
    ) by {
        if i < a.len() {
            assert(ordered[i] == a[i]);
            assert(o3[i] == o2[i]);
            assert(o2[i] == o1[i]);
            assert(o1[0 + i] == o1[i]);
        } else if i < a.len() + b.len() {
            assert(ordered[i] == b[i - a.len()]);
            assert(o3[i] == o2[i]);
            assert(o2[o1.len() + (i - a.len())] == o2[i]);
        } else {
            assert(ordered[i] == c[i - a.len() - b.len()]);
            assert(o3[o2.len() + (i - a.len() - b.len())] == o3[i]);
        }
    }
}

/// Appends, in order, the hits of the kept candidates that matched as `kind`.
fn push_kind(
    out: &mut Vec<SearchResult>,
    cands: &Vec<Candidate>,
    idxs: &Vec<usize>,
    exs: &Vec<String>,
    kind: MatchKind,
    query: &str,
)
    requires
        kept_table(cands@, idxs@, exs@, query@),
    ensures
        appended_kind(old(out)@, final(out)@, first_per_note(cands@), kind, query@),
{
    let ghost kept = first_per_note(cands@);
    let ghost base = old(out)@;
    proof {
        reveal(kept_table);
    }
    let mut i: usize = 0;
    while i < idxs.len()
        invariant
            i <= idxs@.len(),
            kept == first_per_note(cands@),
            idxs@.len() == kept.len(),
            exs@.len() == idxs@.len(),
            forall|t: int|
                0 <= t < idxs@.len() ==> #[trigger] idxs@[t] < cands@.len() && cands@[idxs@[t] as int]
                    == kept[t],
            forall|t: int|
                0 <= t < idxs@.len() ==> excerpt_of(kept[t], query@) == Some((#[trigger] exs@[t])@),
            out@.len() == base.len() + of_kind(kept.take(i as int), kind).len(),
            forall|t: int| 0 <= t < base.len() ==> #[trigger] out@[t] == base[t],
            forall|j: int|
                0 <= j < of_kind(kept.take(i as int), kind).len() ==> hit_matches(
                    #[trigger] out@[base.len() + j],
                    of_kind(kept.take(i as int), kind)[j],
                    excerpt_of(of_kind(kept.take(i as int), kind)[j], query@)->0,
                ),
        decreases idxs.len() - i,
    {
        let c = &cands[idxs[i]];
        let ghost cur = of_kind(kept.take(i as int), kind);
        assert(kept.take(i + 1).drop_last() =~= kept.take(i as int));
        assert(kept.take(i + 1).last() == kept[i as int]);
        if c.kind == kind {
            out.push(
                SearchResult {
                    note_id: NoteId(c.id.clone()),
                    title: c.title.clone(),
                    excerpt: exs[i].clone(),
                    match_kind: c.kind,
                    score_halves: match c.kind {
                        MatchKind::Title => 4,
                        MatchKind::Content => 2,
                        MatchKind::Tag => 1,
                    },
                },
            );
            assert(of_kind(kept.take(i + 1), kind) == cur.push(kept[i as int]));
        }
        i = i + 1;
    }
    assert(kept.take(i as int) =~= kept);
    proof {
        reveal(appended_kind);
    }
}

proof fn lemma_first_per_note_prefix(cs: Seq<Candidate>, k: int)
    requires
        0 <= k <= cs.len(),
    ensures
        first_per_note(cs.take(k)).len() <= first_per_note(cs).len(),
        forall|i: int|
            0 <= i < first_per_note(cs.take(k)).len() ==> #[trigger] first_per_note(cs.take(k))[i]
                == first_per_note(cs)[i],
    decreases cs.len() - k,
{
    if k == cs.len() {
        assert(cs.take(k) =~= cs);
    } else {
        lemma_first_per_note_prefix(cs, k + 1);
        lemma_first_per_note_step(cs, k);
        let a = first_per_note(cs.take(k));
        let b = first_per_note(cs.take(k + 1));
        assert forall|i: int| 0 <= i < a.len() implies #[trigger] a[i] == first_per_note(cs)[i] by {
            assert(a[i] == b[i]);
        }
    }
}

/// The hits of an exact tag search: each row becomes a tag hit scored 1,
/// excerpt `<m>#tag</m>`, in the order given.
pub fn tag_search_results(rows: &Vec<Candidate>) -> (r: Vec<SearchResult>)
    ensures
        r@.len() == rows@.len(),
        forall|i: int|
            0 <= i < r@.len() ==> {
                &&& (#[trigger] r@[i]).note_id.0@ == rows@[i].id@
                &&& r@[i].title@ == rows@[i].title@
                &&& r@[i].excerpt@ == "<m>#"@ + rows@[i].text@ + "</m>"@
                &&& r@[i].match_kind == MatchKind::Tag
                &&& r@[i].score_halves == 2
            },
{
    let mut out: Vec<SearchResult> = Vec::new();
    let mut k: usize = 0;
    while k < rows.len()
        invariant
            k <= rows@.len(),
            out@.len() == k,
            forall|i: int|
                0 <= i < k ==> {
                    &&& (#[trigger] out@[i]).note_id.0@ == rows@[i].id@
                    &&& out@[i].title@ == rows@[i].title@
                    &&& out@[i].excerpt@ == "<m>#"@ + rows@[i].text@ + "</m>"@
                    &&& out@[i].match_kind == MatchKind::Tag
                    &&& out@[i].score_halves == 2
                },
        decreases rows.len() - k,
    {
        let mut e = String::from_str("<m>#");
        e.append(rows[k].text.as_str());
        e.append("</m>");
        out.push(
            SearchResult {
                note_id: NoteId(rows[k].id.clone()),
                title: rows[k].title.clone(),
                excerpt: e,
                match_kind: MatchKind::Tag,
                score_halves: 2,
            },
        );
        k = k + 1;
    }
    out
}

/// The first `limit` hits, or all of them when no limit is asked for.
pub fn limit_hits(hits: Vec<SearchResult>, limit: Option<u32>) -> (r: Vec<SearchResult>)
    ensures
        r@ == match limit {
            Some(l) => if (l as int) < hits@.len() {
                hits@.take(l as int)
            } else {
                hits@
            },
            None => hits@,
        },
{
    let mut hits = hits;
    if let Some(l) = limit {
        hits.truncate(l as usize);
    }
    hits
}

/// On ASCII text and query, highlighting is always defined: lowercasing moves
/// no byte, so the first match of the lowercased query lies on character
/// boundaries of the text, and the highlighted text is the text with that run
/// of characters wrapped in `<m>…</m>` (or the text itself without a match).
pub proof fn lemma_ascii_highlight_defined(text: Seq<char>, query: Seq<char>)
    requires
        is_ascii_text(text),
        is_ascii_text(query),
    ensures
        highlighted(text, query) == Some(
            match find_from(encode_utf8(lowered(text)), encode_utf8(lowered(query)), 0) {
                None => text,
                Some(p) => text.take(p) + "<m>"@ + text.subrange(p, p + query.len()) + "</m>"@
                    + text.skip(p + query.len()),
            },
        ),
{
    lemma_ascii_lowered(text);
    lemma_ascii_lowered(query);
    lemma_ascii_bytes(text);
    lemma_ascii_bytes(query);
    lemma_ascii_bytes(lowered(text));
    lemma_ascii_bytes(lowered(query));
    let bt = encode_utf8(lowered(text));
    let bq = encode_utf8(lowered(query));
    lemma_find_from_result(bt, bq, 0);
    if let Some(p) = find_from(bt, bq, 0) {
        assert(index_at_byte(text, p, 0) == Some(p));
        assert(index_at_byte(text, p + query.len(), 0) == Some(p + query.len()));
    }
}

/// On ASCII content and query the snippet needs no guard: without a match it
/// is empty, and when the context reaches both ends of the content (with no
/// overflow) it is the highlighted text with line breaks shown as spaces.
pub proof fn lemma_ascii_short_snippet(content: Seq<char>, query: Seq<char>, ctx: int)
    requires
        is_ascii_text(content),
        is_ascii_text(query),
        0 <= ctx,
    ensures
        highlighted(content, query) is Some,
        find_from(encode_utf8(lowered(content)), encode_utf8(lowered(query)), 0) is None
            ==> snippet_of(content, query, ctx) == Some(Seq::<char>::empty()),
        find_from(encode_utf8(lowered(content)), encode_utf8(lowered(query)), 0) matches Some(p)
            ==> (p <= ctx && p + query.len() + ctx >= content.len() && p + query.len() + ctx
            <= usize::MAX ==> snippet_of(content, query, ctx) == Some(
            newlines_to_spaces(highlighted(content, query)->0),
        )),
{
    lemma_ascii_highlight_defined(content, query);
    lemma_ascii_bytes(content);
    lemma_ascii_bytes(query);
    if let Some(p) = find_from(encode_utf8(lowered(content)), encode_utf8(lowered(query)), 0) {
        if p <= ctx && p + query.len() + ctx >= content.len() && p + query.len() + ctx <= usize::MAX {
            lemma_short_snippet_is_highlight(content, query, ctx, p);
        }
    }
}

} // verus!
