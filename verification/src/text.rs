use vstd::prelude::*;
use vstd::utf8::{encode_scalar, encode_utf8};

verus! {

broadcast use vstd::string::group_string_axioms;

/// The characters of `s`, in order.
pub fn chars_of(s: &str) -> (r: Vec<char>)
    ensures
        r@ == s@,
{
    let mut r: Vec<char> = Vec::new();
    for c in it: s.chars()
        invariant
            r@ == it.seq().take(it.index() as int),
    {
        r.push(c);
    }
    r
}


/// What `str::to_lowercase` gives for a string with the characters `s`.
pub uninterp spec fn lowercase(s: Seq<char>) -> Seq<char>;

/// What `char::is_alphanumeric` answers for `c`.
pub uninterp spec fn alphanumeric(c: char) -> bool;

/// Every character of `s` is ASCII.
pub open spec fn is_ascii_text(s: Seq<char>) -> bool {
    forall|i: int| 0 <= i < s.len() ==> (#[trigger] s[i] as u32) < 128
}

/// The ASCII lowercase of `c`: `A`–`Z` become `a`–`z`, everything else stays.
pub open spec fn ascii_lower(c: char) -> char {
    if 'A' <= c && c <= 'Z' {
        ((c as u32) + 32) as char
    } else {
        c
    }
}

/// An ASCII letter or digit.
pub open spec fn ascii_alnum(c: char) -> bool {
    ('a' <= c && c <= 'z') || ('A' <= c && c <= 'Z') || ('0' <= c && c <= '9')
}

/// What `str::to_lowercase` gives for `s`: on ASCII text, `A`–`Z` lowercased;
/// otherwise the named result.
pub open spec fn lowered(s: Seq<char>) -> Seq<char> {
    if is_ascii_text(s) {
        s.map_values(|c: char| ascii_lower(c))
    } else {
        lowercase(s)
    }
}

/// Calls `str::to_lowercase`. Claimed: the result is `lowercase` of the argument's
/// characters, and on ASCII text it lowercases `A`–`Z` and keeps every other
/// character (the Unicode lowercase mapping of ASCII); how other text is
/// lowercased is left unsaid.
#[verifier::external_body]
pub(crate) fn to_lowercase(s: &str) -> (r: String)
    ensures
        r@ == lowercase(s@),
        is_ascii_text(s@) ==> r@ == s@.map_values(|c: char| ascii_lower(c)),
{
    s.to_lowercase()
}

/// Calls `char::is_alphanumeric`. Claimed: the answer is `alphanumeric(c)`, and
/// on ASCII characters it holds exactly of letters and digits; which other
/// characters are alphanumeric (Unicode's tables) is left unsaid.
#[verifier::external_body]
pub(crate) fn is_alphanumeric(c: char) -> (b: bool)
    ensures
        b == alphanumeric(c),
        (c as u32) < 128 ==> (b == ascii_alnum(c)),
{
    c.is_alphanumeric()
}

/// Calls `String::push`. Claimed: `c` is appended to the characters of `s`.
#[verifier::external_body]
pub(crate) fn push_char(s: &mut String, c: char)
    ensures
        final(s)@ == old(s)@.push(c),
{
    s.push(c)
}

/// A string holding the characters `cs`.
pub fn string_of(cs: &Vec<char>) -> (r: String)
    ensures
        r@ == cs@,
{
    let mut r = String::new();
    let mut i: usize = 0;
    while i < cs.len()
        invariant
            i <= cs.len(),
            r@ == cs@.take(i as int),
        decreases cs.len() - i,
    {
        push_char(&mut r, cs[i]);
        i = i + 1;
        assert(r@ =~= cs@.take(i as int));
    }
    assert(cs@.take(i as int) =~= cs@);
    r
}


/// Unicode's `White_Space` property, the set that `char::is_whitespace` tests.
pub open spec fn white_space(c: char) -> bool {
    let u = c as u32;
    ||| 0x09 <= u <= 0x0D
    ||| u == 0x20
    ||| u == 0x85
    ||| u == 0xA0
    ||| u == 0x1680
    ||| 0x2000 <= u <= 0x200A
    ||| u == 0x2028
    ||| u == 0x2029
    ||| u == 0x202F
    ||| u == 0x205F
    ||| u == 0x3000
}

/// Whether `c` is a whitespace character, as `char::is_whitespace` decides it.
pub fn is_whitespace(c: char) -> (b: bool)
    ensures
        b == white_space(c),
{
    let u = c as u32;
    (0x09 <= u && u <= 0x0D) || u == 0x20 || u == 0x85 || u == 0xA0 || u == 0x1680 || (0x2000
        <= u && u <= 0x200A) || u == 0x2028 || u == 0x2029 || u == 0x202F || u == 0x205F || u
        == 0x3000
}

/// Index of the first character of `cs` that is not whitespace (or `cs.len()`).
pub open spec fn first_non_ws(cs: Seq<char>, from: int) -> int
    decreases cs.len() - from,
{
    if from >= cs.len() {
        cs.len() as int
    } else if !white_space(cs[from]) {
        from
    } else {
        first_non_ws(cs, from + 1)
    }
}

/// One past the index of the last character of `cs[..to]` that is not whitespace (or 0).
pub open spec fn last_non_ws_end(cs: Seq<char>, to: int) -> int
    decreases to,
{
    if to <= 0 {
        0
    } else if !white_space(cs[to - 1]) {
        to
    } else {
        last_non_ws_end(cs, to - 1)
    }
}

/// `cs` without leading and trailing whitespace, as `str::trim` leaves it.
pub open spec fn trim(cs: Seq<char>) -> Seq<char> {
    let a = first_non_ws(cs, 0);
    let b = last_non_ws_end(cs, cs.len() as int);
    if a < b {
        cs.subrange(a, b)
    } else {
        seq![]
    }
}

proof fn lemma_first_non_ws_bounds(cs: Seq<char>, from: int)
    requires
        0 <= from <= cs.len(),
    ensures
        from <= first_non_ws(cs, from) <= cs.len(),
        first_non_ws(cs, from) < cs.len() ==> !white_space(cs[first_non_ws(cs, from)]),
        forall|k: int| from <= k < first_non_ws(cs, from) ==> white_space(#[trigger] cs[k]),
    decreases cs.len() - from,
{
    if from < cs.len() && white_space(cs[from]) {
        lemma_first_non_ws_bounds(cs, from + 1);
    }
}

proof fn lemma_last_non_ws_bounds(cs: Seq<char>, to: int)
    requires
        0 <= to <= cs.len(),
    ensures
        0 <= last_non_ws_end(cs, to) <= to,
        last_non_ws_end(cs, to) > 0 ==> !white_space(cs[last_non_ws_end(cs, to) - 1]),
        forall|k: int| last_non_ws_end(cs, to) <= k < to ==> white_space(#[trigger] cs[k]),
    decreases to,
{
    if to > 0 && white_space(cs[to - 1]) {
        lemma_last_non_ws_bounds(cs, to - 1);
    }
}

/// The characters of `cs` between the first and the last non-whitespace character.
pub fn trim_chars(cs: &Vec<char>) -> (r: Vec<char>)
    ensures
        r@ == trim(cs@),
{
    let mut a: usize = 0;
    while a < cs.len() && is_whitespace(cs[a])
        invariant
            a <= cs.len(),
            first_non_ws(cs@, a as int) == first_non_ws(cs@, 0),
        decreases cs.len() - a,
    {
        a = a + 1;
    }
    let mut b: usize = cs.len();
    while b > 0 && is_whitespace(cs[b - 1])
        invariant
            b <= cs.len(),
            last_non_ws_end(cs@, b as int) == last_non_ws_end(cs@, cs@.len() as int),
        decreases b,
    {
        b = b - 1;
    }
    let mut r: Vec<char> = Vec::new();
    if a < b {
        let mut k = a;
        while k < b
            invariant
                a <= k <= b <= cs.len(),
                r@ == cs@.subrange(a as int, k as int),
            decreases b - k,
        {
            r.push(cs[k]);
            k = k + 1;
            assert(r@ =~= cs@.subrange(a as int, k as int));
        }
    } else {
        assert(r@ =~= seq![]);
    }
    r
}

/// Lexicographic order of character sequences by code point; for strings this
/// is the order of `String`'s `Ord`, since UTF-8 keeps code point order.
pub open spec fn chars_lt(a: Seq<char>, b: Seq<char>) -> bool
    decreases a.len(),
{
    if a.len() == 0 {
        b.len() > 0
    } else if b.len() == 0 {
        false
    } else if a[0] != b[0] {
        (a[0] as u32) < (b[0] as u32)
    } else {
        chars_lt(a.drop_first(), b.drop_first())
    }
}

/// No text comes before itself.
pub proof fn lemma_chars_lt_irreflexive(a: Seq<char>)
    ensures
        !chars_lt(a, a),
    decreases a.len(),
{
    if a.len() > 0 {
        lemma_chars_lt_irreflexive(a.drop_first());
    }
}

/// Code point order is transitive.
pub proof fn lemma_chars_lt_trans(a: Seq<char>, b: Seq<char>, c: Seq<char>)
    requires
        chars_lt(a, b),
        chars_lt(b, c),
    ensures
        chars_lt(a, c),
    decreases a.len(),
{
    if a.len() > 0 && b.len() > 0 && c.len() > 0 {
        if a[0] == b[0] && b[0] == c[0] {
            lemma_chars_lt_trans(a.drop_first(), b.drop_first(), c.drop_first());
        }
    }
}

/// Of two different texts, one comes before the other.
pub proof fn lemma_chars_lt_total(a: Seq<char>, b: Seq<char>)
    ensures
        chars_lt(a, b) || chars_lt(b, a) || a == b,
    decreases a.len(),
{
    if a.len() > 0 && b.len() > 0 {
        if a[0] == b[0] {
            lemma_chars_lt_total(a.drop_first(), b.drop_first());
            if a.drop_first() == b.drop_first() {
                assert(a =~= seq![a[0]] + a.drop_first());
                assert(b =~= seq![b[0]] + b.drop_first());
            }
        } else {
            vstd::utf8::char_u32_cast(a[0], a[0] as u32);
            vstd::utf8::char_u32_cast(b[0], b[0] as u32);
        }
    } else if a.len() == 0 && b.len() == 0 {
        assert(a =~= b);
    }
}

/// Whether `a` comes strictly before `b` in code point order.
pub fn chars_less(a: &Vec<char>, b: &Vec<char>) -> (r: bool)
    ensures
        r == chars_lt(a@, b@),
{
    let mut i: usize = 0;
    assert(a@.skip(0) =~= a@);
    assert(b@.skip(0) =~= b@);
    while i < a.len() && i < b.len() && a[i] == b[i]
        invariant
            i <= a.len(),
            i <= b.len(),
            chars_lt(a@, b@) == chars_lt(a@.skip(i as int), b@.skip(i as int)),
        decreases a.len() - i,
    {
        assert(a@.skip(i as int).drop_first() =~= a@.skip(i + 1));
        assert(b@.skip(i as int).drop_first() =~= b@.skip(i + 1));
        i = i + 1;
    }
    assert(a@.skip(i as int).len() == a.len() - i);
    assert(b@.skip(i as int).len() == b.len() - i);
    if i == a.len() {
        i < b.len()
    } else if i == b.len() {
        false
    } else {
        assert(a@.skip(i as int)[0] == a@[i as int]);
        assert(b@.skip(i as int)[0] == b@[i as int]);
        (a[i] as u32) < (b[i] as u32)
    }
}

/// `s` holds its elements in strictly increasing code point order.
pub open spec fn strictly_sorted(s: Seq<Seq<char>>) -> bool {
    forall|i: int, j: int| 0 <= i < j < s.len() ==> chars_lt(#[trigger] s[i], #[trigger] s[j])
}

/// Inserts `t` into the strictly sorted `v`, unless it is already there.
pub fn insert_sorted_unique(v: &mut Vec<Vec<char>>, t: Vec<char>)
    requires
        strictly_sorted(old(v)@.map_values(|x: Vec<char>| x@)),
    ensures
        strictly_sorted(final(v)@.map_values(|x: Vec<char>| x@)),
        final(v)@.map_values(|x: Vec<char>| x@).to_set() == old(v)@.map_values(
            |x: Vec<char>| x@,
        ).to_set().insert(t@),
{
    let ghost old_v = v@.map_values(|x: Vec<char>| x@);
    let mut k: usize = 0;
    while k < v.len() && chars_less(&v[k], &t)
        invariant
            k <= v.len(),
            v@.map_values(|x: Vec<char>| x@) == old_v,
            forall|i: int| 0 <= i < k ==> chars_lt(#[trigger] old_v[i], t@),
        decreases v.len() - k,
    {
        k = k + 1;
    }
    if k < v.len() && !chars_less(&t, &v[k]) {
        proof {
            lemma_chars_lt_total(t@, v@[k as int]@);
            assert(old_v[k as int] == t@);
            assert(old_v.to_set().insert(t@) =~= old_v.to_set());
        }
        return;
    }
    proof {
        assert forall|i: int| k <= i < old_v.len() implies chars_lt(t@, #[trigger] old_v[i]) by {
            if i > k {
                lemma_chars_lt_trans(t@, old_v[k as int], old_v[i]);
            }
        }
    }
    v.insert(k, t);
    proof {
        let nv = v@.map_values(|x: Vec<char>| x@);
        assert(nv =~= old_v.insert(k as int, t@));
        assert forall|i: int, j: int| 0 <= i < j < nv.len() implies chars_lt(
            #[trigger] nv[i],
            #[trigger] nv[j],
        ) by {
            if i < k && j == k {
            } else if i < k && j > k {
                assert(nv[j] == old_v[j - 1]);
            } else if i == k {
                assert(nv[j] == old_v[j - 1]);
            } else if i > k {
                assert(nv[i] == old_v[i - 1]);
                assert(nv[j] == old_v[j - 1]);
            }
        }
        assert forall|x: Seq<char>| nv.to_set().contains(x) == old_v.to_set().insert(t@).contains(x) by {
            if nv.to_set().contains(x) {
                let i = choose|i: int| 0 <= i < nv.len() && nv[i] == x;
                if i < k {
                    assert(old_v[i] == x);
                } else if i > k {
                    assert(old_v[i - 1] == x);
                }
            }
            if old_v.to_set().contains(x) {
                let i = choose|i: int| 0 <= i < old_v.len() && old_v[i] == x;
                if i < k {
                    assert(nv[i] == x);
                } else {
                    assert(nv[i + 1] == x);
                }
            }
            if x == t@ {
                assert(nv[k as int] == x);
            }
        }
        assert(nv.to_set() =~= old_v.to_set().insert(t@));
    }
}


/// `s[j..j + p.len()]` is `p`.
pub open spec fn occurs_at<A>(s: Seq<A>, p: Seq<A>, j: int) -> bool {
    0 <= j && j + p.len() <= s.len() && s.subrange(j, j + p.len()) == p
}

/// The first position at or after `from` where `p` occurs in `s`.
pub open spec fn find_from<A>(s: Seq<A>, p: Seq<A>, from: int) -> Option<int>
    decreases s.len() + 1 - from,
{
    if from < 0 || from + p.len() > s.len() {
        None
    } else if occurs_at(s, p, from) {
        Some(from)
    } else {
        find_from(s, p, from + 1)
    }
}

/// `p` occurs nowhere in `s`.
pub open spec fn free_of<A>(s: Seq<A>, p: Seq<A>) -> bool {
    forall|j: int| !occurs_at(s, p, j)
}

/// A first occurrence at or after `from` is what `find_from` finds.
pub proof fn lemma_find_from_first<A>(s: Seq<A>, p: Seq<A>, from: int, k: int)
    requires
        0 <= from <= k,
        occurs_at(s, p, k),
        forall|j: int| from <= j < k ==> !occurs_at(s, p, j),
    ensures
        find_from(s, p, from) == Some(k),
    decreases k - from,
{
    if from < k {
        lemma_find_from_first(s, p, from + 1, k);
    }
}

/// What `find_from` finds is an occurrence, with none before it.
pub proof fn lemma_find_from_result<A>(s: Seq<A>, p: Seq<A>, from: int)
    requires
        0 <= from,
    ensures
        find_from(s, p, from) matches Some(k) ==> from <= k && occurs_at(s, p, k) && forall|j: int|
            from <= j < k ==> !occurs_at(s, p, j),
        find_from(s, p, from) is None ==> forall|j: int| from <= j ==> !occurs_at(s, p, j),
    decreases s.len() + 1 - from,
{
    if from < 0 || from + p.len() > s.len() {
    } else if occurs_at(s, p, from) {
    } else {
        if p.len() == 0 {
            assert(s.subrange(from, from) =~= p);
        }
        lemma_find_from_result(s, p, from + 1);
    }
}

/// Whether `p` occurs in `s` at `j`.
pub fn chars_occur_at(s: &Vec<char>, p: &Vec<char>, j: usize) -> (b: bool)
    ensures
        b == occurs_at(s@, p@, j as int),
{
    if j > s.len() || p.len() > s.len() - j {
        return false;
    }
    let mut k: usize = 0;
    while k < p.len()
        invariant
            j + p.len() <= s.len(),
            k <= p.len(),
            forall|i: int| 0 <= i < k ==> s@[j + i] == p@[i],
        decreases p.len() - k,
    {
        if s[j + k] != p[k] {
            assert(s@.subrange(j as int, j + p.len())[k as int] != p@[k as int]);
            return false;
        }
        k = k + 1;
    }
    assert(s@.subrange(j as int, j + p.len()) =~= p@);
    true
}

/// The first position at or after `from` where `p` occurs in `s`.
pub fn find_chars(s: &Vec<char>, p: &Vec<char>, from: usize) -> (r: Option<usize>)
    ensures
        r matches Some(k) ==> find_from(s@, p@, from as int) == Some(k as int),
        r is None ==> find_from(s@, p@, from as int) is None,
{
    if p.len() == 0 {
        if from <= s.len() {
            assert(s@.subrange(from as int, from as int) =~= p@);
            return Some(from);
        } else {
            return None;
        }
    }
    let mut j = from;
    while j < s.len() && p.len() <= s.len() - j
        invariant
            from <= j,
            p.len() > 0,
            find_from(s@, p@, j as int) == find_from(s@, p@, from as int),
        decreases s.len() - j,
    {
        if chars_occur_at(s, p, j) {
            return Some(j);
        }
        j = j + 1;
    }
    None
}

/// `parts` joined with `sep` between neighbours.
pub open spec fn join_seq(parts: Seq<Seq<char>>, sep: Seq<char>) -> Seq<char>
    decreases parts.len(),
{
    if parts.len() == 0 {
        seq![]
    } else if parts.len() == 1 {
        parts[0]
    } else {
        join_seq(parts.drop_last(), sep) + sep + parts.last()
    }
}


/// The number of UTF-8 bytes before character `k` of `cs`.
pub open spec fn byte_offset(cs: Seq<char>, k: int) -> nat {
    encode_utf8(cs.take(k)).len()
}

/// The character index of `cs` at which byte `b` starts, searching from `k`:
/// `b` is a character boundary of `cs` exactly when this is `Some`.
pub open spec fn index_at_byte(cs: Seq<char>, b: int, k: int) -> Option<int>
    decreases cs.len() + 1 - k,
{
    if k < 0 || k > cs.len() {
        None
    } else if byte_offset(cs, k) == b {
        Some(k)
    } else {
        index_at_byte(cs, b, k + 1)
    }
}

/// Byte `b` starts a character of `cs`, or is its end.
pub open spec fn is_boundary(cs: Seq<char>, b: int) -> bool {
    index_at_byte(cs, b, 0) is Some
}

/// UTF-8 encoding distributes over concatenation.
pub proof fn lemma_encode_concat(a: Seq<char>, b: Seq<char>)
    ensures
        encode_utf8(a + b) == encode_utf8(a) + encode_utf8(b),
    decreases a.len(),
{
    if a.len() == 0 {
        assert(a + b =~= b);
        assert(encode_utf8(a) =~= Seq::<u8>::empty());
        assert(encode_utf8(a) + encode_utf8(b) =~= encode_utf8(b));
    } else {
        assert((a + b).drop_first() =~= a.drop_first() + b);
        assert((a + b)[0] == a[0]);
        lemma_encode_concat(a.drop_first(), b);
        assert(encode_utf8(a + b) =~= encode_scalar(a[0] as u32) + (encode_utf8(a.drop_first())
            + encode_utf8(b)));
    }
}

/// A single character encodes as its scalar's encoding.
pub proof fn lemma_encode_single(c: char)
    ensures
        encode_utf8(seq![c]) == encode_scalar(c as u32),
        1 <= encode_scalar(c as u32).len() <= 4,
{
    assert(seq![c].drop_first() =~= Seq::<char>::empty());
    assert(encode_utf8(Seq::<char>::empty()) =~= Seq::<u8>::empty());
    assert(encode_scalar(c as u32) + Seq::<u8>::empty() =~= encode_scalar(c as u32));
}

/// Each character adds its encoded width to the byte offset.
pub proof fn lemma_byte_offset_step(cs: Seq<char>, k: int)
    requires
        0 <= k < cs.len(),
    ensures
        byte_offset(cs, k + 1) == byte_offset(cs, k) + encode_scalar(cs[k] as u32).len(),
        byte_offset(cs, k) < byte_offset(cs, k + 1),
{
    assert(cs.take(k + 1) =~= cs.take(k) + seq![cs[k]]);
    lemma_encode_concat(cs.take(k), seq![cs[k]]);
    lemma_encode_single(cs[k]);
}

/// Byte offsets grow strictly with character indexes.
pub proof fn lemma_byte_offset_mono(cs: Seq<char>, i: int, j: int)
    requires
        0 <= i <= j <= cs.len(),
    ensures
        byte_offset(cs, i) <= byte_offset(cs, j),
        i < j ==> byte_offset(cs, i) < byte_offset(cs, j),
    decreases j - i,
{
    if i < j {
        lemma_byte_offset_step(cs, j - 1);
        lemma_byte_offset_mono(cs, i, j - 1);
    }
}

/// Byte offsets run from 0 to the encoded length.
pub proof fn lemma_byte_offset_ends(cs: Seq<char>)
    ensures
        byte_offset(cs, 0) == 0,
        byte_offset(cs, cs.len() as int) == encode_utf8(cs).len(),
{
    assert(cs.take(0) =~= Seq::<char>::empty());
    assert(cs.take(cs.len() as int) =~= cs);
}

/// `index_at_byte` finds the index whose byte offset is `b`, if any.
pub proof fn lemma_index_at_byte(cs: Seq<char>, b: int, k: int)
    requires
        0 <= k,
    ensures
        index_at_byte(cs, b, k) matches Some(i) ==> k <= i <= cs.len() && byte_offset(cs, i) == b,
        index_at_byte(cs, b, k) is None ==> forall|i: int|
            k <= i <= cs.len() ==> byte_offset(cs, i) != b,
    decreases cs.len() + 1 - k,
{
    if k <= cs.len() && byte_offset(cs, k) != b {
        lemma_index_at_byte(cs, b, k + 1);
    }
}

/// The index holding byte offset `b`, found from the start.
pub proof fn lemma_index_at_byte_unique(cs: Seq<char>, b: int, i: int)
    requires
        0 <= i <= cs.len(),
        byte_offset(cs, i) == b,
    ensures
        index_at_byte(cs, b, 0) == Some(i),
{
    lemma_index_at_byte(cs, b, 0);
    if index_at_byte(cs, b, 0) is Some {
        let i2 = index_at_byte(cs, b, 0)->0;
        if i2 < i {
            lemma_byte_offset_mono(cs, i2, i);
        } else if i < i2 {
            lemma_byte_offset_mono(cs, i, i2);
        }
    }
}

/// The number of bytes in the UTF-8 encoding of `c`.
pub fn utf8_width(c: char) -> (w: usize)
    ensures
        w == encode_scalar(c as u32).len(),
{
    proof {
        vstd::utf8::char_is_scalar(c);
    }
    let u = c as u32;
    if u <= 0x7F {
        1
    } else if u <= 0x7FF {
        2
    } else if u <= 0xFFFF {
        3
    } else {
        4
    }
}

/// The byte offset of every character index of `cs`, the end included.
pub fn byte_offsets(cs: &Vec<char>) -> (r: Vec<usize>)
    requires
        encode_utf8(cs@).len() <= usize::MAX,
    ensures
        r@.len() == cs@.len() + 1,
        forall|k: int| 0 <= k <= cs@.len() ==> r@[k] == byte_offset(cs@, k),
{
    let mut r: Vec<usize> = Vec::new();
    proof {
        lemma_byte_offset_ends(cs@);
    }
    r.push(0);
    let mut k: usize = 0;
    let mut acc: usize = 0;
    while k < cs.len()
        invariant
            k <= cs.len(),
            encode_utf8(cs@).len() <= usize::MAX,
            r@.len() == k + 1,
            acc == byte_offset(cs@, k as int),
            forall|i: int| 0 <= i <= k ==> r@[i] == byte_offset(cs@, i),
        decreases cs.len() - k,
    {
        proof {
            lemma_byte_offset_step(cs@, k as int);
            lemma_byte_offset_mono(cs@, k + 1, cs@.len() as int);
            lemma_byte_offset_ends(cs@);
        }
        let w = utf8_width(cs[k]);
        acc = acc + w;
        r.push(acc);
        k = k + 1;
    }
    r
}

/// The character index whose byte offset is `b`, given the table of offsets.
pub fn index_of_offset(cs: &Vec<char>, offs: &Vec<usize>, b: usize) -> (r: Option<usize>)
    requires
        offs@.len() == cs@.len() + 1,
        forall|k: int| 0 <= k <= cs@.len() ==> offs@[k] == byte_offset(cs@, k),
    ensures
        r matches Some(i) ==> index_at_byte(cs@, b as int, 0) == Some(i as int),
        r is None ==> index_at_byte(cs@, b as int, 0) is None,
{
    let mut k: usize = 0;
    while k < offs.len()
        invariant
            k <= offs.len(),
            offs@.len() == cs@.len() + 1,
            forall|i: int| 0 <= i <= cs@.len() ==> offs@[i] == byte_offset(cs@, i),
            forall|i: int| 0 <= i < k ==> byte_offset(cs@, i) != b,
        decreases offs.len() - k,
    {
        if offs[k] == b {
            proof {
                lemma_index_at_byte_unique(cs@, b as int, k as int);
            }
            return Some(k);
        }
        k = k + 1;
    }
    proof {
        lemma_index_at_byte(cs@, b as int, 0);
    }
    None
}

/// Whether `p` occurs in `s` at `j`.
pub fn bytes_occur_at(s: &[u8], p: &[u8], j: usize) -> (b: bool)
    ensures
        b == occurs_at(s@, p@, j as int),
{
    if j > s.len() || p.len() > s.len() - j {
        return false;
    }
    let mut k: usize = 0;
    while k < p.len()
        invariant
            j + p@.len() <= s@.len(),
            j + p.len() <= s.len(),
            p.len() == p@.len(),
            k <= p@.len(),
            forall|i: int| 0 <= i < k ==> s@[j + i] == p@[i],
        decreases p@.len() - k,
    {
        if s[j + k] != p[k] {
            assert(s@.subrange(j as int, j + p@.len())[k as int] != p@[k as int]);
            return false;
        }
        k = k + 1;
    }
    assert(s@.subrange(j as int, j + p@.len()) =~= p@);
    true
}

/// The first byte position at or after `from` where `p` occurs in `s`, as
/// `str::find` reports it.
pub fn find_bytes(s: &[u8], p: &[u8], from: usize) -> (r: Option<usize>)
    ensures
        r matches Some(k) ==> find_from(s@, p@, from as int) == Some(k as int),
        r is None ==> find_from(s@, p@, from as int) is None,
{
    if p.len() == 0 {
        if from <= s.len() {
            assert(s@.subrange(from as int, from as int) =~= p@);
            return Some(from);
        } else {
            return None;
        }
    }
    let mut j = from;
    while j < s.len() && p.len() <= s.len() - j
        invariant
            from <= j,
            p@.len() > 0,
            find_from(s@, p@, j as int) == find_from(s@, p@, from as int),
        decreases s@.len() - j,
    {
        if bytes_occur_at(s, p, j) {
            return Some(j);
        }
        j = j + 1;
    }
    None
}


/// `cs` with every line break turned into a space, as `str::replace('\n', " ")` does.
pub open spec fn newlines_to_spaces(cs: Seq<char>) -> Seq<char> {
    cs.map_values(|c: char| if c == '\n' { ' ' } else { c })
}

/// Appends `cs[a..b]` to `out`.
pub fn push_range(out: &mut String, cs: &Vec<char>, a: usize, b: usize)
    requires
        a <= b <= cs@.len(),
    ensures
        final(out)@ == old(out)@ + cs@.subrange(a as int, b as int),
{
    let ghost start = out@;
    let mut k = a;
    while k < b
        invariant
            a <= k <= b <= cs@.len(),
            out@ == start + cs@.subrange(a as int, k as int),
        decreases b - k,
    {
        push_char(out, cs[k]);
        k = k + 1;
        assert(out@ =~= start + cs@.subrange(a as int, k as int));
    }
}

/// Appends `cs[a..b]` to `out` with line breaks turned into spaces.
pub fn push_range_flat(out: &mut String, cs: &Vec<char>, a: usize, b: usize)
    requires
        a <= b <= cs@.len(),
    ensures
        final(out)@ == old(out)@ + newlines_to_spaces(cs@.subrange(a as int, b as int)),
{
    let ghost start = out@;
    let mut k = a;
    while k < b
        invariant
            a <= k <= b <= cs@.len(),
            out@ == start + newlines_to_spaces(cs@.subrange(a as int, k as int)),
        decreases b - k,
    {
        let c = cs[k];
        if c == '\n' {
            push_char(out, ' ');
        } else {
            push_char(out, c);
        }
        k = k + 1;
        assert(out@ =~= start + newlines_to_spaces(cs@.subrange(a as int, k as int)));
    }
}

/// The characters `cs[a..b]`.
pub fn sub_chars(cs: &Vec<char>, a: usize, b: usize) -> (r: Vec<char>)
    requires
        a <= b <= cs@.len(),
    ensures
        r@ == cs@.subrange(a as int, b as int),
{
    let mut r: Vec<char> = Vec::new();
    let mut k = a;
    while k < b
        invariant
            a <= k <= b <= cs@.len(),
            r@ == cs@.subrange(a as int, k as int),
        decreases b - k,
    {
        r.push(cs[k]);
        k = k + 1;
        assert(r@ =~= cs@.subrange(a as int, k as int));
    }
    r
}

/// The encoding of a character range is as long as the difference of its byte offsets.
pub proof fn lemma_encode_subrange_len(cs: Seq<char>, i: int, j: int)
    requires
        0 <= i <= j <= cs.len(),
    ensures
        encode_utf8(cs.subrange(i, j)).len() == byte_offset(cs, j) - byte_offset(cs, i),
{
    assert(cs.take(j) =~= cs.take(i) + cs.subrange(i, j));
    lemma_encode_concat(cs.take(i), cs.subrange(i, j));
}

/// The decimal digits of `n`.
pub open spec fn decimal(n: nat) -> Seq<char>
    decreases n,
{
    let digits = seq!['0', '1', '2', '3', '4', '5', '6', '7', '8', '9'];
    if n < 10 {
        seq![digits[n as int]]
    } else {
        decimal(n / 10).push(digits[(n % 10) as int])
    }
}

/// Writes `n` in decimal, as `format!("{}", n)` does.
pub fn decimal_string(n: u64) -> (r: String)
    ensures
        r@ == decimal(n as nat),
    decreases n,
{
    let digits: Vec<char> = vec!['0', '1', '2', '3', '4', '5', '6', '7', '8', '9'];
    assert(digits@ =~= seq!['0', '1', '2', '3', '4', '5', '6', '7', '8', '9']);
    if n < 10 {
        let mut r = String::new();
        push_char(&mut r, digits[n as usize]);
        assert(r@ =~= decimal(n as nat));
        r
    } else {
        let mut r = decimal_string(n / 10);
        push_char(&mut r, digits[(n % 10) as usize]);
        r
    }
}

/// The decimal form of `i`, with a leading `-` when it is negative.
pub open spec fn signed_decimal(i: int) -> Seq<char> {
    if i < 0 {
        seq!['-'] + decimal((-i) as nat)
    } else {
        decimal(i as nat)
    }
}

/// Writes `i` in decimal, as `format!("{}", i)` does.
pub fn signed_decimal_string(i: i32) -> (r: String)
    ensures
        r@ == signed_decimal(i as int),
{
    let v = i as i64;
    if v < 0 {
        let mut r = String::new();
        push_char(&mut r, '-');
        let d = decimal_string((-v) as u64);
        r.append(d.as_str());
        r
    } else {
        decimal_string(v as u64)
    }
}

/// In ASCII text each character takes one byte: character `k` starts at byte `k`.
pub proof fn lemma_ascii_byte_offset(cs: Seq<char>, k: int)
    requires
        is_ascii_text(cs),
        0 <= k <= cs.len(),
    ensures
        byte_offset(cs, k) == k,
    decreases k,
{
    if k == 0 {
        lemma_byte_offset_ends(cs);
    } else {
        lemma_ascii_byte_offset(cs, k - 1);
        lemma_byte_offset_step(cs, k - 1);
        assert((cs[k - 1] as u32) < 128);
    }
}

/// ASCII text encodes in as many bytes as it has characters, and each byte
/// position up to that length is the boundary of the character with that index.
pub proof fn lemma_ascii_bytes(cs: Seq<char>)
    requires
        is_ascii_text(cs),
    ensures
        encode_utf8(cs).len() == cs.len(),
        forall|b: int| 0 <= b <= cs.len() ==> #[trigger] index_at_byte(cs, b, 0) == Some(b),
{
    lemma_byte_offset_ends(cs);
    lemma_ascii_byte_offset(cs, cs.len() as int);
    assert forall|b: int| 0 <= b <= cs.len() implies #[trigger] index_at_byte(cs, b, 0) == Some(b) by {
        lemma_index_at_byte(cs, b, 0);
        lemma_ascii_byte_offset(cs, b);
        if let Some(i) = index_at_byte(cs, b, 0) {
            lemma_ascii_byte_offset(cs, i);
        }
    }
}

/// Lowercasing ASCII text keeps it ASCII and keeps its length.
pub proof fn lemma_ascii_lowered(s: Seq<char>)
    requires
        is_ascii_text(s),
    ensures
        is_ascii_text(lowered(s)),
        lowered(s).len() == s.len(),
{
    let l = lowered(s);
    assert(l == s.map_values(|c: char| ascii_lower(c)));
    assert forall|i: int| 0 <= i < l.len() implies (#[trigger] l[i] as u32) < 128 by {
        assert(l[i] == ascii_lower(s[i]));
        assert((s[i] as u32) < 128);
    }
}

} // verus!
