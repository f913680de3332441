use vstd::prelude::*;

use crate::text::{
    ascii_lower, chars_of, insert_sorted_unique, is_ascii_text, lowered, string_of, strictly_sorted, to_lowercase, trim,
    trim_chars,
};

verus! {

/// A letter of the tag alphabet: `[a-z]` matched without regard to case. Under
/// Unicode simple case folding this also takes in `ſ` (U+017F) and the Kelvin
/// sign (U+212A), which fold to `s` and `k`.
pub open spec fn tag_letter(c: char) -> bool {
    ||| ('a' <= c && c <= 'z')
    ||| ('A' <= c && c <= 'Z')
    ||| c == '\u{17F}'
    ||| c == '\u{212A}'
}

/// A character that may open a tag name: a letter or `_`.
pub open spec fn tag_head(c: char) -> bool {
    tag_letter(c) || c == '_'
}

/// A character that may continue a tag name: a letter, a digit, `_` or `-`.
pub open spec fn tag_body(c: char) -> bool {
    tag_letter(c) || ('0' <= c && c <= '9') || c == '_' || c == '-'
}

/// A word character: one that may not stand right before the `#` of a tag.
pub open spec fn word_char(c: char) -> bool {
    tag_letter(c) || ('0' <= c && c <= '9') || c == '_'
}

/// A tag name starts at `q`: an opening character followed by at least one more.
pub open spec fn tag_name_at(cs: Seq<char>, q: int) -> bool {
    0 <= q && q + 1 < cs.len() && tag_head(cs[q]) && tag_body(cs[q + 1])
}

/// The end of the run of tag-body characters that starts at `k`.
pub open spec fn body_end(cs: Seq<char>, k: int) -> int
    decreases cs.len() - k,
{
    if k >= cs.len() || k < 0 {
        k
    } else if tag_body(cs[k]) {
        body_end(cs, k + 1)
    } else {
        k
    }
}

/// A tag written at the very start of the text: `#name`.
pub open spec fn tag_at_start(cs: Seq<char>, p: int) -> bool {
    p == 0 && cs.len() > 0 && cs[0] == '#' && tag_name_at(cs, 1)
}

/// A tag written after a non-word character at `p`: `x#name`.
pub open spec fn tag_after(cs: Seq<char>, p: int) -> bool {
    0 <= p && p + 1 < cs.len() && !word_char(cs[p]) && cs[p + 1] == '#' && tag_name_at(cs, p + 2)
}

/// Where the name of the tag matched at `p` begins.
pub open spec fn tag_name_start(cs: Seq<char>, p: int) -> int {
    if tag_at_start(cs, p) {
        1
    } else {
        p + 2
    }
}

/// The tag names written in `cs[s..]`, as written, in order of appearance.
/// A match consumes the character before `#`; the search for the next tag
/// goes on right after the name of the last one.
pub open spec fn raw_tags_from(cs: Seq<char>, s: int) -> Seq<Seq<char>>
    decreases cs.len() - s,
{
    if s < 0 || s >= cs.len() {
        seq![]
    } else if tag_at_start(cs, s) || tag_after(cs, s) {
        let t = tag_name_start(cs, s);
        let e = body_end(cs, t + 1);
        proof {
            lemma_body_end_bounds(cs, t + 1);
        }
        seq![cs.subrange(t, e)] + raw_tags_from(cs, e)
    } else {
        raw_tags_from(cs, s + 1)
    }
}

/// The tag names written in `text`, in order of appearance.
pub open spec fn raw_tags(text: Seq<char>) -> Seq<Seq<char>> {
    raw_tags_from(text, 0)
}

/// The tags of `text`: each written tag name in lowercase (as
/// `str::to_lowercase` gives it).
pub open spec fn tag_set(text: Seq<char>) -> Set<Seq<char>> {
    raw_tags(text).map_values(|t: Seq<char>| lowered(t)).to_set()
}

/// The end of a run of tag characters lies at or after its start, within the text.
pub proof fn lemma_body_end_bounds(cs: Seq<char>, k: int)
    requires
        0 <= k <= cs.len(),
    ensures
        k <= body_end(cs, k) <= cs.len(),
    decreases cs.len() - k,
{
    if k < cs.len() && tag_body(cs[k]) {
        lemma_body_end_bounds(cs, k + 1);
    }
}

proof fn lemma_body_end_prefix(a: Seq<char>, j: Seq<char>, k: int)
    requires
        j.len() > a.len(),
        j.subrange(0, a.len() as int) == a,
        !tag_body(j[a.len() as int]),
        0 <= k <= a.len(),
    ensures
        body_end(j, k) == body_end(a, k),
    decreases a.len() - k,
{
    if k < a.len() {
        assert(j[k] == j.subrange(0, a.len() as int)[k]);
        if tag_body(a[k]) {
            lemma_body_end_prefix(a, j, k + 1);
        }
    }
}

/// Scanning a text that goes on with a space: up to the space, the tags are
/// those of the text alone.
proof fn lemma_tags_of_prefix(a: Seq<char>, j: Seq<char>, s: int)
    requires
        j.len() > a.len(),
        j.subrange(0, a.len() as int) == a,
        j[a.len() as int] == ' ',
        0 <= s <= a.len(),
    ensures
        raw_tags_from(j, s) == raw_tags_from(a, s) + raw_tags_from(j, a.len() as int),
    decreases a.len() - s,
{
    let n = a.len() as int;
    if s == n {
        assert(raw_tags_from(a, s) =~= Seq::<Seq<char>>::empty());
        assert(raw_tags_from(a, s) + raw_tags_from(j, n) =~= raw_tags_from(j, n));
    } else {
        assert forall|i: int| 0 <= i < n implies j[i] == a[i] by {
            assert(j[i] == j.subrange(0, n)[i]);
        }
        assert(tag_at_start(j, s) == tag_at_start(a, s));
        assert(tag_after(j, s) == tag_after(a, s));
        if tag_at_start(a, s) || tag_after(a, s) {
            let t = tag_name_start(a, s);
            assert(t + 1 < n);
            lemma_body_end_bounds(a, t + 1);
            lemma_body_end_prefix(a, j, t + 1);
            let e = body_end(a, t + 1);
            assert(j.subrange(t, e) =~= a.subrange(t, e));
            lemma_tags_of_prefix(a, j, e);
            assert(raw_tags_from(j, s) == seq![a.subrange(t, e)] + raw_tags_from(j, e));
            assert(raw_tags_from(a, s) == seq![a.subrange(t, e)] + raw_tags_from(a, e));
            assert(seq![a.subrange(t, e)] + (raw_tags_from(a, e) + raw_tags_from(j, n)) =~= (seq![
                a.subrange(t, e),
            ] + raw_tags_from(a, e)) + raw_tags_from(j, n));
        } else {
            lemma_tags_of_prefix(a, j, s + 1);
        }
    }
}

proof fn lemma_body_end_shift(x: Seq<char>, y: Seq<char>, k: int)
    requires
        0 <= k <= y.len(),
    ensures
        body_end(x + y, x.len() + k) == x.len() + body_end(y, k),
    decreases y.len() - k,
{
    let j = x + y;
    if k < y.len() {
        assert(j[x.len() + k] == y[k]);
        if tag_body(y[k]) {
            lemma_body_end_shift(x, y, k + 1);
        }
    }
}

/// Scanning the part of a text after a prefix finds the tags of that part,
/// unless the part opens with a tag that only the start of a text allows.
proof fn lemma_tags_of_suffix(x: Seq<char>, y: Seq<char>, s: int)
    requires
        0 <= s <= y.len(),
        x.len() > 0 ==> (s > 0 || !tag_at_start(y, 0)),
    ensures
        raw_tags_from(x + y, x.len() + s) == raw_tags_from(y, s),
    decreases y.len() - s,
{
    let j = x + y;
    let n = x.len() as int;
    if s < y.len() {
        assert forall|i: int| 0 <= i < y.len() implies j[n + i] == y[i] by {}
        assert(tag_at_start(j, n + s) == tag_at_start(y, s));
        assert(tag_after(j, n + s) == tag_after(y, s));
        if tag_at_start(y, s) || tag_after(y, s) {
            let t = tag_name_start(y, s);
            assert(tag_name_start(j, n + s) == n + t);
            lemma_body_end_bounds(y, t + 1);
            lemma_body_end_shift(x, y, t + 1);
            let e = body_end(y, t + 1);
            assert(j.subrange(n + t, n + e) =~= y.subrange(t, e));
            lemma_tags_of_suffix(x, y, e);
        } else {
            lemma_tags_of_suffix(x, y, s + 1);
        }
    }
}

/// A space before a text changes none of its tags.
proof fn lemma_tags_after_space(b: Seq<char>)
    ensures
        raw_tags_from(seq![' '] + b, 0) == raw_tags(b),
{
    let y = seq![' '] + b;
    assert(!tag_at_start(y, 0));
    if b.len() == 0 {
        assert(!tag_after(y, 0));
        assert(raw_tags_from(y, 0) == raw_tags_from(y, 1));
        assert(raw_tags_from(y, 1) =~= Seq::<Seq<char>>::empty());
        assert(raw_tags(b) =~= Seq::<Seq<char>>::empty());
    } else if tag_at_start(b, 0) {
        assert(y[1] == b[0] && y[2] == b[1]);
        assert(tag_after(y, 0));
        assert(tag_name_start(y, 0) == 2);
        lemma_body_end_bounds(b, 2);
        lemma_body_end_shift(seq![' '], b, 2);
        let e = body_end(b, 2);
        assert(body_end(y, 3) == 1 + e);
        assert(y.subrange(2, 1 + e) =~= b.subrange(1, e));
        lemma_tags_of_suffix(seq![' '], b, e);
        assert(raw_tags_from(y, 0) == seq![y.subrange(2, 1 + e)] + raw_tags_from(y, 1 + e));
        assert(raw_tags(b) == seq![b.subrange(1, e)] + raw_tags_from(b, e));
    } else {
        assert(y[1] == b[0]);
        assert(b.len() > 1 ==> y[2] == b[1]);
        assert(!tag_after(y, 0));
        assert(raw_tags_from(y, 0) == raw_tags_from(y, 1));
        lemma_tags_of_suffix(seq![' '], b, 0);
    }
}

/// The tags of two texts joined by a space are the tags of each, in order:
/// the space ends any tag of the first and lets a tag open the second.
pub proof fn lemma_tags_of_joined(a: Seq<char>, b: Seq<char>)
    ensures
        raw_tags(a + seq![' '] + b) == raw_tags(a) + raw_tags(b),
        tag_set(a + seq![' '] + b) == tag_set(a) + tag_set(b),
{
    let y = seq![' '] + b;
    let j = a + y;
    assert(a + seq![' '] + b =~= j);
    assert(j.subrange(0, a.len() as int) =~= a);
    assert(j[a.len() as int] == ' ');
    lemma_tags_of_prefix(a, j, 0);
    lemma_tags_of_suffix(a, y, 0);
    lemma_tags_after_space(b);
    let f = |t: Seq<char>| lowered(t);
    assert((raw_tags(a) + raw_tags(b)).map_values(f) =~= raw_tags(a).map_values(f) + raw_tags(
        b,
    ).map_values(f));
    vstd::seq_lib::seq_to_set_distributes_over_add(raw_tags(a).map_values(f), raw_tags(b).map_values(f));
}

/// Every character of the run that starts at `k` may continue a tag name.
proof fn lemma_body_end_chars(cs: Seq<char>, k: int)
    requires
        0 <= k <= cs.len(),
    ensures
        forall|j: int| k <= j < body_end(cs, k) ==> tag_body(#[trigger] cs[j]),
    decreases cs.len() - k,
{
    if k < cs.len() && tag_body(cs[k]) {
        lemma_body_end_chars(cs, k + 1);
    }
}

/// Every character of `r` may continue a tag name.
pub open spec fn tag_chars(r: Seq<char>) -> bool {
    forall|k: int| 0 <= k < r.len() ==> tag_body(#[trigger] r[k])
}

/// `s` holds neither `ſ` (U+017F) nor the Kelvin sign (U+212A): the two tag
/// letters outside ASCII.
pub open spec fn fold_free(s: Seq<char>) -> bool {
    forall|k: int| 0 <= k < s.len() ==> #[trigger] s[k] != '\u{17F}' && s[k] != '\u{212A}'
}

/// Every written tag name is made of tag characters taken from the text, so
/// it holds no line break, and it holds neither `ſ` nor the Kelvin sign when
/// the text holds neither.
pub proof fn lemma_raw_tag_chars(cs: Seq<char>, s: int)
    requires
        0 <= s,
    ensures
        forall|i: int|
            0 <= i < raw_tags_from(cs, s).len() ==> {
                &&& tag_chars(#[trigger] raw_tags_from(cs, s)[i])
                &&& fold_free(cs) ==> fold_free(raw_tags_from(cs, s)[i])
            },
    decreases cs.len() - s,
{
    if s < cs.len() {
        if tag_at_start(cs, s) || tag_after(cs, s) {
            let t = tag_name_start(cs, s);
            lemma_body_end_bounds(cs, t + 1);
            lemma_body_end_chars(cs, t + 1);
            let e = body_end(cs, t + 1);
            let name = cs.subrange(t, e);
            lemma_raw_tag_chars(cs, e);
            let rest = raw_tags_from(cs, e);
            let all = raw_tags_from(cs, s);
            assert(all == seq![name] + rest);
            assert(tag_chars(name)) by {
                assert forall|k: int| 0 <= k < name.len() implies tag_body(#[trigger] name[k]) by {
                    assert(name[k] == cs[t + k]);
                }
            }
            assert(fold_free(cs) ==> fold_free(name)) by {
                if fold_free(cs) {
                    assert forall|k: int| 0 <= k < name.len() implies #[trigger] name[k] != '\u{17F}'
                        && name[k] != '\u{212A}' by {
                        assert(name[k] == cs[t + k]);
                    }
                }
            }
            assert forall|i: int| 0 <= i < all.len() implies {
                &&& tag_chars(#[trigger] all[i])
                &&& fold_free(cs) ==> fold_free(all[i])
            } by {
                if i > 0 {
                    assert(all[i] == rest[i - 1]);
                }
            }
            assert(raw_tags_from(cs, s) == all);
        } else {
            lemma_raw_tag_chars(cs, s + 1);
            assert(raw_tags_from(cs, s) == raw_tags_from(cs, s + 1));
        }
    } else {
        assert(raw_tags_from(cs, s).len() == 0);
    }
}

/// The tags of a text that holds neither `ſ` nor the Kelvin sign hold no line
/// break.
pub proof fn lemma_tags_single_line(text: Seq<char>, t: Seq<char>)
    requires
        fold_free(text),
        tag_set(text).contains(t),
    ensures
        forall|k: int| 0 <= k < t.len() ==> t[k] != '\n',
{
    let raws = raw_tags(text);
    let f = |r: Seq<char>| lowered(r);
    let lows = raws.map_values(f);
    assert(lows.contains(t));
    let i = choose|i: int| 0 <= i < lows.len() && lows[i] == t;
    let r = raws[i];
    lemma_raw_tag_chars(text, 0);
    assert(tag_chars(r) && fold_free(r));
    assert(is_ascii_text(r)) by {
        assert forall|k: int| 0 <= k < r.len() implies (#[trigger] r[k] as u32) < 128 by {
            assert(tag_body(r[k]));
        }
    }
    assert(t == r.map_values(|c: char| ascii_lower(c)));
    assert forall|k: int| 0 <= k < t.len() implies t[k] != '\n' by {
        assert(tag_body(r[k]));
        assert(t[k] == ascii_lower(r[k]));
    }
}

fn is_tag_letter(c: char) -> (b: bool)
    ensures
        b == tag_letter(c),
{
    ('a' <= c && c <= 'z') || ('A' <= c && c <= 'Z') || c == '\u{17F}' || c == '\u{212A}'
}

fn is_tag_head(c: char) -> (b: bool)
    ensures
        b == tag_head(c),
{
    is_tag_letter(c) || c == '_'
}

fn is_tag_body(c: char) -> (b: bool)
    ensures
        b == tag_body(c),
{
    is_tag_letter(c) || ('0' <= c && c <= '9') || c == '_' || c == '-'
}

fn is_word_char(c: char) -> (b: bool)
    ensures
        b == word_char(c),
{
    is_tag_letter(c) || ('0' <= c && c <= '9') || c == '_'
}

fn has_tag_name_at(cs: &Vec<char>, q: usize) -> (b: bool)
    ensures
        b == tag_name_at(cs@, q as int),
{
    q < cs.len() && q + 1 < cs.len() && is_tag_head(cs[q]) && is_tag_body(cs[q + 1])
}

fn find_body_end(cs: &Vec<char>, k: usize) -> (e: usize)
    requires
        k <= cs.len(),
    ensures
        e == body_end(cs@, k as int),
{
    let mut e = k;
    while e < cs.len() && is_tag_body(cs[e])
        invariant
            k <= e <= cs.len(),
            body_end(cs@, e as int) == body_end(cs@, k as int),
        decreases cs.len() - e,
    {
        e = e + 1;
    }
    e
}

/// The tag names written in `cs`, as written, in order of appearance.
fn scan_raw_tags(cs: &Vec<char>) -> (r: Vec<Vec<char>>)
    ensures
        r@.map_values(|t: Vec<char>| t@) == raw_tags(cs@),
{
    let mut r: Vec<Vec<char>> = Vec::new();
    let mut s: usize = 0;
    while s < cs.len()
        invariant
            s <= cs.len(),
            r@.map_values(|t: Vec<char>| t@) + raw_tags_from(cs@, s as int) == raw_tags(cs@),
        decreases cs.len() - s,
    {
        let at_start = s == 0 && cs[0] == '#' && has_tag_name_at(cs, 1);
        let after = s + 1 < cs.len() && !is_word_char(cs[s]) && cs[s + 1] == '#'
            && has_tag_name_at(cs, s + 2);
        if at_start || after {
            let t = if at_start { 1 } else { s + 2 };
            proof {
                lemma_body_end_bounds(cs@, t + 1);
            }
            let e = find_body_end(cs, t + 1);
            let mut name: Vec<char> = Vec::new();
            let mut k = t;
            while k < e
                invariant
                    t <= k <= e <= cs.len(),
                    name@ == cs@.subrange(t as int, k as int),
                decreases e - k,
            {
                name.push(cs[k]);
                k = k + 1;
                assert(name@ =~= cs@.subrange(t as int, k as int));
            }
            let ghost before = r@.map_values(|t: Vec<char>| t@);
            r.push(name);
            assert(r@.map_values(|t: Vec<char>| t@) =~= before.push(cs@.subrange(t as int, e as int)));
            assert(before + raw_tags_from(cs@, s as int) =~= r@.map_values(|t: Vec<char>| t@)
                + raw_tags_from(cs@, e as int));
            s = e;
        } else {
            s = s + 1;
        }
    }
    assert(r@.map_values(|t: Vec<char>| t@) + raw_tags_from(cs@, s as int) =~= r@.map_values(
        |t: Vec<char>| t@,
    ));
    r
}

/// Extracts the tags of markdown text: every `#name` that opens the text or
/// follows a non-word character, where the name starts with a letter or `_`
/// and has at least two characters of letters, digits, `_` and `-`. The names
/// are lowercased; the result is sorted and holds each tag once.
pub fn extract_tags(text: &str) -> (r: Vec<String>)
    ensures
        strictly_sorted(r@.map_values(|s: String| s@)),
        r@.map_values(|s: String| s@).to_set() == tag_set(text@),
{
    let cs = chars_of(text);
    let raw = scan_raw_tags(&cs);
    let ghost raws = raw@.map_values(|t: Vec<char>| t@);
    let mut acc: Vec<Vec<char>> = Vec::new();
    let mut i: usize = 0;
    while i < raw.len()
        invariant
            i <= raw.len(),
            raws == raw@.map_values(|t: Vec<char>| t@),
            raws == raw_tags(text@),
            strictly_sorted(acc@.map_values(|x: Vec<char>| x@)),
            acc@.map_values(|x: Vec<char>| x@).to_set() == raws.take(i as int).map_values(
                |t: Seq<char>| lowered(t),
            ).to_set(),
        decreases raw.len() - i,
    {
        let name = string_of(&raw[i]);
        let low = to_lowercase(name.as_str());
        assert(low@ =~= lowered(raws[i as int]));
        let low_cs = chars_of(low.as_str());
        insert_sorted_unique(&mut acc, low_cs);
        proof {
            let lows_i = raws.take(i as int).map_values(|t: Seq<char>| lowered(t));
            let lows_n = raws.take(i + 1).map_values(|t: Seq<char>| lowered(t));
            assert(lows_n =~= lows_i.push(lowered(raws[i as int])));
            lows_i.lemma_push_to_set_commute(lowered(raws[i as int]));
        }
        i = i + 1;
    }
    let mut r: Vec<String> = Vec::new();
    let mut j: usize = 0;
    while j < acc.len()
        invariant
            j <= acc.len(),
            r@.map_values(|s: String| s@) == acc@.map_values(|x: Vec<char>| x@).take(j as int),
        decreases acc.len() - j,
    {
        let s = string_of(&acc[j]);
        let ghost before = r@.map_values(|s: String| s@);
        r.push(s);
        assert(r@.map_values(|s: String| s@) =~= before.push(acc@[j as int]@));
        j = j + 1;
        assert(r@.map_values(|s: String| s@) =~= acc@.map_values(|x: Vec<char>| x@).take(
            j as int,
        ));
    }
    assert(acc@.map_values(|x: Vec<char>| x@).take(j as int) =~= acc@.map_values(
        |x: Vec<char>| x@,
    ));
    assert(raws.take(raw.len() as int) =~= raws);
    r
}


/// `]]` starts at `k`.
pub open spec fn close_at(cs: Seq<char>, k: int) -> bool {
    0 <= k && k + 1 < cs.len() && cs[k] == ']' && cs[k + 1] == ']'
}

/// `[[` starts at `k`.
pub open spec fn open_at(cs: Seq<char>, k: int) -> bool {
    0 <= k && k + 1 < cs.len() && cs[k] == '[' && cs[k + 1] == '['
}

/// Where the first `]]` at or after `k` starts, if no line break comes first.
pub open spec fn link_close(cs: Seq<char>, k: int) -> Option<int>
    decreases cs.len() - k,
{
    if k < 0 || k >= cs.len() {
        None
    } else if close_at(cs, k) {
        Some(k)
    } else if cs[k] == '\n' {
        None
    } else {
        link_close(cs, k + 1)
    }
}

/// A link's closing `]]`, when found, lies at or after the search start.
pub proof fn lemma_link_close_bounds(cs: Seq<char>, k: int)
    ensures
        link_close(cs, k) matches Some(c) ==> k <= c && close_at(cs, c),
    decreases cs.len() - k,
{
    if 0 <= k < cs.len() && !close_at(cs, k) && cs[k] != '\n' {
        lemma_link_close_bounds(cs, k + 1);
    }
}

/// The link targets written as `[[target]]` in `cs[s..]`, untrimmed, in order.
/// A target runs to the first `]]` and may not hold a line break.
pub open spec fn raw_links_from(cs: Seq<char>, s: int) -> Seq<Seq<char>>
    decreases cs.len() - s,
{
    if s < 0 || s >= cs.len() {
        seq![]
    } else if open_at(cs, s) && link_close(cs, s + 2) is Some {
        let k = link_close(cs, s + 2)->0;
        proof {
            lemma_link_close_bounds(cs, s + 2);
        }
        seq![cs.subrange(s + 2, k)] + raw_links_from(cs, k + 2)
    } else {
        raw_links_from(cs, s + 1)
    }
}

/// The link targets written in `text`, untrimmed, in order of appearance.
pub open spec fn raw_links(text: Seq<char>) -> Seq<Seq<char>> {
    raw_links_from(text, 0)
}

/// The links of `text`: each written target with surrounding whitespace
/// removed, empty targets left out.
pub open spec fn link_set(text: Seq<char>) -> Set<Seq<char>> {
    raw_links(text).map_values(|t: Seq<char>| trim(t)).to_set().remove(Seq::<char>::empty())
}

fn find_link_close(cs: &Vec<char>, k: usize) -> (r: Option<usize>)
    requires
        k <= cs.len(),
    ensures
        r matches Some(c) ==> link_close(cs@, k as int) == Some(c as int),
        r is None ==> link_close(cs@, k as int) is None,
{
    let mut j = k;
    while j < cs.len()
        invariant
            k <= j <= cs.len(),
            link_close(cs@, j as int) == link_close(cs@, k as int),
        decreases cs.len() - j,
    {
        if j + 1 < cs.len() && cs[j] == ']' && cs[j + 1] == ']' {
            return Some(j);
        }
        if cs[j] == '\n' {
            return None;
        }
        j = j + 1;
    }
    None
}

/// The link targets written in `cs`, untrimmed, in order of appearance.
fn scan_raw_links(cs: &Vec<char>) -> (r: Vec<Vec<char>>)
    ensures
        r@.map_values(|t: Vec<char>| t@) == raw_links(cs@),
{
    let mut r: Vec<Vec<char>> = Vec::new();
    let mut s: usize = 0;
    while s < cs.len()
        invariant
            s <= cs.len(),
            r@.map_values(|t: Vec<char>| t@) + raw_links_from(cs@, s as int) == raw_links(cs@),
        decreases cs.len() - s,
    {
        let opened = s + 1 < cs.len() && cs[s] == '[' && cs[s + 1] == '[';
        let close = if opened {
            find_link_close(cs, s + 2)
        } else {
            None
        };
        match close {
            Some(k) => {
                proof {
                    lemma_link_close_bounds(cs@, s + 2);
                }
                let mut target: Vec<char> = Vec::new();
                let mut j = s + 2;
                while j < k
                    invariant
                        s + 2 <= j <= k < cs.len(),
                        target@ == cs@.subrange(s + 2, j as int),
                    decreases k - j,
                {
                    target.push(cs[j]);
                    j = j + 1;
                    assert(target@ =~= cs@.subrange(s + 2, j as int));
                }
                let ghost before = r@.map_values(|t: Vec<char>| t@);
                r.push(target);
                assert(r@.map_values(|t: Vec<char>| t@) =~= before.push(
                    cs@.subrange(s + 2, k as int),
                ));
                assert(before + raw_links_from(cs@, s as int) =~= r@.map_values(
                    |t: Vec<char>| t@,
                ) + raw_links_from(cs@, k + 2));
                s = k + 2;
            },
            None => {
                s = s + 1;
            },
        }
    }
    assert(r@.map_values(|t: Vec<char>| t@) + raw_links_from(cs@, s as int) =~= r@.map_values(
        |t: Vec<char>| t@,
    ));
    r
}

/// Extracts wiki-style link targets `[[target]]` from markdown text. Targets
/// are trimmed, empty ones dropped; the result is sorted and holds each
/// target once.
pub fn extract_links(text: &str) -> (r: Vec<String>)
    ensures
        strictly_sorted(r@.map_values(|s: String| s@)),
        r@.map_values(|s: String| s@).to_set() == link_set(text@),
{
    let cs = chars_of(text);
    let raw = scan_raw_links(&cs);
    let ghost raws = raw@.map_values(|t: Vec<char>| t@);
    let mut acc: Vec<Vec<char>> = Vec::new();
    let mut i: usize = 0;
    while i < raw.len()
        invariant
            i <= raw.len(),
            raws == raw@.map_values(|t: Vec<char>| t@),
            raws == raw_links(text@),
            strictly_sorted(acc@.map_values(|x: Vec<char>| x@)),
            acc@.map_values(|x: Vec<char>| x@).to_set() == raws.take(i as int).map_values(
                |t: Seq<char>| trim(t),
            ).to_set().remove(Seq::<char>::empty()),
        decreases raw.len() - i,
    {
        let t = trim_chars(&raw[i]);
        let ghost before = acc@.map_values(|x: Vec<char>| x@).to_set();
        if t.len() > 0 {
            insert_sorted_unique(&mut acc, t);
        }
        proof {
            let ts_i = raws.take(i as int).map_values(|t: Seq<char>| trim(t));
            let ts_n = raws.take(i + 1).map_values(|t: Seq<char>| trim(t));
            assert(ts_n =~= ts_i.push(trim(raws[i as int])));
            ts_i.lemma_push_to_set_commute(trim(raws[i as int]));
            assert(raws[i as int] == raw@[i as int]@);
            assert(t@ == trim(raws[i as int]));
            if t@.len() == 0 {
                assert(t@ =~= Seq::<char>::empty());
            }
            assert(ts_n.to_set().remove(Seq::<char>::empty()) =~= if t@.len() > 0 {
                ts_i.to_set().remove(Seq::<char>::empty()).insert(t@)
            } else {
                ts_i.to_set().remove(Seq::<char>::empty())
            });
        }
        i = i + 1;
    }
    let mut r: Vec<String> = Vec::new();
    let mut j: usize = 0;
    while j < acc.len()
        invariant
            j <= acc.len(),
            r@.map_values(|s: String| s@) == acc@.map_values(|x: Vec<char>| x@).take(j as int),
        decreases acc.len() - j,
    {
        let s = string_of(&acc[j]);
        let ghost before = r@.map_values(|s: String| s@);
        r.push(s);
        assert(r@.map_values(|s: String| s@) =~= before.push(acc@[j as int]@));
        j = j + 1;
    }
    assert(acc@.map_values(|x: Vec<char>| x@).take(j as int) =~= acc@.map_values(
        |x: Vec<char>| x@,
    ));
    assert(raws.take(raw.len() as int) =~= raws);
    r
}

} // verus!
