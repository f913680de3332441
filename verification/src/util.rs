use vstd::prelude::*;

use crate::text::{
    alphanumeric, ascii_alnum, ascii_lower, chars_of, is_alphanumeric, is_ascii_text, lowered,
    push_char, to_lowercase,
};

verus! {

/// Whether `c` counts as a letter or digit in a slug: what `char::is_alphanumeric`
/// answers, which on ASCII holds exactly of letters and digits.
pub open spec fn word_alnum(c: char) -> bool {
    if (c as u32) < 128 {
        ascii_alnum(c)
    } else {
        alphanumeric(c)
    }
}


/// The maximal runs of alphanumeric characters in `cs`, left to right.
pub open spec fn alnum_runs(cs: Seq<char>) -> Seq<Seq<char>>
    decreases cs.len(),
{
    if cs.len() == 0 {
        seq![]
    } else {
        let init = cs.drop_last();
        let c = cs.last();
        let runs = alnum_runs(init);
        if !word_alnum(c) {
            runs
        } else if init.len() > 0 && word_alnum(init.last()) {
            runs.update(runs.len() - 1, runs.last().push(c))
        } else {
            runs.push(seq![c])
        }
    }
}

/// `parts` joined with `sep` between neighbours.
pub open spec fn join_with(parts: Seq<Seq<char>>, sep: char) -> Seq<char>
    decreases parts.len(),
{
    if parts.len() == 0 {
        seq![]
    } else if parts.len() == 1 {
        parts[0]
    } else {
        join_with(parts.drop_last(), sep).push(sep) + parts.last()
    }
}

/// The slug of already lowercased text: its alphanumeric words joined by `-`.
pub open spec fn slug_of_lowered(lower: Seq<char>) -> Seq<char> {
    join_with(alnum_runs(lower), '-')
}

/// The slug of a title: its lowercase form cut into alphanumeric words,
/// the words joined by `-`.
pub open spec fn slug(title: Seq<char>) -> Seq<char> {
    slug_of_lowered(lowered(title))
}

proof fn lemma_join_extend_last(parts: Seq<Seq<char>>, sep: char, c: char)
    requires
        parts.len() > 0,
    ensures
        join_with(parts.update(parts.len() - 1, parts.last().push(c)), sep)
            == join_with(parts, sep).push(c),
{
    let p2 = parts.update(parts.len() - 1, parts.last().push(c));
    if parts.len() == 1 {
    } else {
        assert(p2.drop_last() =~= parts.drop_last());
        assert(join_with(parts, sep).push(c) =~= join_with(parts.drop_last(), sep).push(sep) + parts.last().push(c));
    }
}

proof fn lemma_join_push(parts: Seq<Seq<char>>, sep: char, c: char)
    requires
        parts.len() > 0,
    ensures
        join_with(parts.push(seq![c]), sep) == join_with(parts, sep).push(sep).push(c),
{
    let p2 = parts.push(seq![c]);
    assert(p2.drop_last() =~= parts);
    assert(join_with(parts, sep).push(sep) + seq![c] =~= join_with(parts, sep).push(sep).push(c));
}

/// Turns a title into a URL- and file-name-friendly slug: lowercase,
/// alphanumeric words joined by single dashes.
pub fn generate_slug(title: &str) -> (r: String)
    ensures
        r@ == slug(title@),
{
    let lower_s = to_lowercase(title);
    assert(lower_s@ =~= lowered(title@));
    slug_from_lowercase(lower_s.as_str())
}

/// The slug of text that is already lowercase: its alphanumeric words joined
/// by single dashes.
pub fn slug_from_lowercase(lower_text: &str) -> (r: String)
    ensures
        r@ == slug_of_lowered(lower_text@),
{
    let lower = chars_of(lower_text);
    let ghost l = lower@;
    let mut out = String::new();
    let mut prev_alnum = false;
    let mut i: usize = 0;
    while i < lower.len()
        invariant
            i <= lower.len(),
            l == lower@,
            l == lower_text@,
            out@ == join_with(alnum_runs(l.take(i as int)), '-'),
            alnum_runs(l.take(i as int)).len() == 0 <==> out@.len() == 0,
            prev_alnum == (i > 0 && word_alnum(l[i - 1])),
            prev_alnum ==> alnum_runs(l.take(i as int)).len() > 0,
        decreases lower.len() - i,
    {
        let c = lower[i];
        let ghost pre = l.take(i as int);
        let ghost next = l.take(i + 1);
        assert(next.drop_last() =~= pre);
        assert(next.last() == c);
        let a = is_alphanumeric(c);
        if a {
            if prev_alnum {
                proof {
                    lemma_join_extend_last(alnum_runs(pre), '-', c);
                }
                push_char(&mut out, c);
            } else {
                if !out.as_str().is_empty() {
                    proof {
                        lemma_join_push(alnum_runs(pre), '-', c);
                    }
                    push_char(&mut out, '-');
                    push_char(&mut out, c);
                } else {
                    push_char(&mut out, c);
                    assert(alnum_runs(next) =~= seq![seq![c]]);
                }
            }
        }
        prev_alnum = a;
        i = i + 1;
    }
    assert(l.take(i as int) =~= l);
    out
}


/// Every part is non-empty and made of alphanumeric characters.
pub open spec fn alnum_words(parts: Seq<Seq<char>>) -> bool {
    forall|i: int|
        0 <= i < parts.len() ==> (#[trigger] parts[i]).len() > 0 && forall|k: int|
            0 <= k < parts[i].len() ==> word_alnum(#[trigger] parts[i][k])
}

proof fn lemma_alnum_runs_words(cs: Seq<char>)
    ensures
        alnum_words(alnum_runs(cs)),
    decreases cs.len(),
{
    if cs.len() > 0 {
        let init = cs.drop_last();
        let c = cs.last();
        lemma_alnum_runs_words(init);
        let runs = alnum_runs(init);
        if !word_alnum(c) {
        } else if init.len() > 0 && word_alnum(init.last()) {
            lemma_alnum_runs_nonempty(init);
            let r2 = runs.update(runs.len() - 1, runs.last().push(c));
            assert forall|i: int| 0 <= i < r2.len() implies (#[trigger] r2[i]).len() > 0 && forall|k: int|
                0 <= k < r2[i].len() ==> word_alnum(#[trigger] r2[i][k]) by {
                if i == runs.len() - 1 {
                    assert forall|k: int| 0 <= k < r2[i].len() implies word_alnum(#[trigger] r2[i][k]) by {
                        if k < runs[i].len() {
                            assert(r2[i][k] == runs[i][k]);
                        }
                    }
                } else {
                    assert(r2[i] == runs[i]);
                }
            }
        } else {
            let r2 = runs.push(seq![c]);
            assert forall|i: int| 0 <= i < r2.len() implies (#[trigger] r2[i]).len() > 0 && forall|k: int|
                0 <= k < r2[i].len() ==> word_alnum(#[trigger] r2[i][k]) by {
                if i < runs.len() {
                    assert(r2[i] == runs[i]);
                }
            }
        }
    }
}

proof fn lemma_alnum_runs_nonempty(cs: Seq<char>)
    requires
        cs.len() > 0,
        word_alnum(cs.last()),
    ensures
        alnum_runs(cs).len() > 0,
    decreases cs.len(),
{
    let init = cs.drop_last();
    if init.len() > 0 && word_alnum(init.last()) {
        lemma_alnum_runs_nonempty(init);
    }
}

/// The shape of `join_with(parts, '-')` for alphanumeric words.
pub open spec fn dash_joined_shape(s: Seq<char>) -> bool {
    &&& s.len() > 0 ==> word_alnum(s[0]) && word_alnum(s[s.len() - 1])
    &&& forall|i: int|
        0 <= i < s.len() && !word_alnum(#[trigger] s[i]) ==> s[i] == '-' && 0 < i < s.len() - 1
            && word_alnum(s[i - 1]) && word_alnum(s[i + 1])
}

proof fn lemma_join_shape(parts: Seq<Seq<char>>)
    requires
        alnum_words(parts),
    ensures
        dash_joined_shape(join_with(parts, '-')),
        parts.len() > 0 ==> join_with(parts, '-').len() > 0,
    decreases parts.len(),
{
    if parts.len() == 1 {
        assert(parts[0].len() > 0);
        assert forall|i: int| 0 <= i < parts[0].len() implies word_alnum(#[trigger] parts[0][i]) by {}
    } else if parts.len() > 1 {
        let init = parts.drop_last();
        assert forall|i: int| 0 <= i < init.len() implies (#[trigger] init[i]).len() > 0 && forall|k: int|
            0 <= k < init[i].len() ==> word_alnum(#[trigger] init[i][k]) by {
            assert(init[i] == parts[i]);
        }
        lemma_join_shape(init);
        let j = join_with(init, '-');
        let last = parts.last();
        let s = join_with(parts, '-');
        assert(last == parts[parts.len() - 1]);
        assert(last.len() > 0);
        assert(s == j.push('-') + last);
        assert forall|i: int|
            0 <= i < s.len() && !word_alnum(#[trigger] s[i]) implies s[i] == '-' && 0 < i < s.len()
                - 1 && word_alnum(s[i - 1]) && word_alnum(s[i + 1]) by {
            if i < j.len() {
                assert(s[i] == j[i]);
                assert(s[i - 1] == j[i - 1]);
                assert(s[i + 1] == j[i + 1]);
            } else if i == j.len() {
                assert(s[i - 1] == j[j.len() - 1]);
                assert(s[i + 1] == last[0]);
            } else {
                assert(s[i] == last[i - j.len() - 1]);
            }
        }
        assert(s[0] == j[0]);
        assert(s[s.len() - 1] == last[last.len() - 1]);
    }
}

/// A slug is alphanumeric words joined by single dashes: it starts and ends
/// with an alphanumeric character, and every other character in it is a dash
/// between two alphanumeric characters.
pub proof fn lemma_slug_shape(title: Seq<char>)
    ensures
        dash_joined_shape(slug(title)),
{
    lemma_alnum_runs_words(lowered(title));
    lemma_join_shape(alnum_runs(lowered(title)));
}

proof fn lemma_runs_append_word(x: Seq<char>, w: Seq<char>)
    requires
        x.len() == 0 || !word_alnum(x.last()),
        w.len() > 0,
        forall|k: int| 0 <= k < w.len() ==> word_alnum(#[trigger] w[k]),
    ensures
        alnum_runs(x + w) == alnum_runs(x).push(w),
    decreases w.len(),
{
    let xw = x + w;
    let c = w.last();
    let w0 = w.drop_last();
    assert(xw.drop_last() =~= x + w0);
    assert(xw.last() == c);
    assert(word_alnum(c));
    if w0.len() == 0 {
        assert(x + w0 =~= x);
        assert(w =~= seq![c]);
    } else {
        assert forall|k: int| 0 <= k < w0.len() implies word_alnum(#[trigger] w0[k]) by {
            assert(w0[k] == w[k]);
        }
        lemma_runs_append_word(x, w0);
        assert((x + w0).last() == w0.last());
        assert(word_alnum(w0.last()));
        let runs = alnum_runs(x).push(w0);
        assert(w0.push(c) =~= w);
        assert(runs.update(runs.len() - 1, runs.last().push(c)) =~= alnum_runs(x).push(w));
    }
}

proof fn lemma_runs_of_join(parts: Seq<Seq<char>>)
    requires
        alnum_words(parts),
    ensures
        alnum_runs(join_with(parts, '-')) == parts,
    decreases parts.len(),
{
    if parts.len() == 0 {
        assert(alnum_runs(seq![]) =~= Seq::<Seq<char>>::empty());
    } else if parts.len() == 1 {
        assert(parts[0].len() > 0);
        assert forall|k: int| 0 <= k < parts[0].len() implies word_alnum(#[trigger] parts[0][k]) by {}
        lemma_runs_append_word(seq![], parts[0]);
        assert(Seq::<char>::empty() + parts[0] =~= parts[0]);
        assert(alnum_runs(Seq::<char>::empty()) =~= Seq::<Seq<char>>::empty());
        assert(Seq::<Seq<char>>::empty().push(parts[0]) =~= parts);
    } else {
        let init = parts.drop_last();
        assert forall|i: int| 0 <= i < init.len() implies (#[trigger] init[i]).len() > 0 && forall|k: int|
            0 <= k < init[i].len() ==> word_alnum(#[trigger] init[i][k]) by {
            assert(init[i] == parts[i]);
        }
        lemma_runs_of_join(init);
        let j = join_with(init, '-');
        let x = j.push('-');
        let last = parts.last();
        assert(last == parts[parts.len() - 1]);
        assert forall|k: int| 0 <= k < last.len() implies word_alnum(#[trigger] last[k]) by {}
        assert(x.drop_last() =~= j);
        assert(alnum_runs(x) == alnum_runs(j));
        lemma_runs_append_word(x, last);
        assert(init.push(last) =~= parts);
    }
}

/// Slugs are stable: the slug of lowercased text, slugged again, is itself.
pub proof fn lemma_slug_idempotent(lower: Seq<char>)
    ensures
        slug_of_lowered(slug_of_lowered(lower)) == slug_of_lowered(lower),
{
    lemma_alnum_runs_words(lower);
    lemma_runs_of_join(alnum_runs(lower));
}

/// An ASCII character that lowercasing leaves as it is.
spec fn settled(c: char) -> bool {
    (c as u32) < 128 && ascii_lower(c) == c
}

proof fn lemma_runs_settled(cs: Seq<char>)
    requires
        forall|i: int| 0 <= i < cs.len() ==> settled(#[trigger] cs[i]),
    ensures
        forall|r: int, k: int|
            0 <= r < alnum_runs(cs).len() && 0 <= k < alnum_runs(cs)[r].len() ==> settled(
                #[trigger] alnum_runs(cs)[r][k],
            ),
    decreases cs.len(),
{
    if cs.len() > 0 {
        let init = cs.drop_last();
        let c = cs.last();
        assert forall|i: int| 0 <= i < init.len() implies settled(#[trigger] init[i]) by {
            assert(init[i] == cs[i]);
        }
        lemma_runs_settled(init);
        let runs = alnum_runs(init);
        assert(settled(c));
        if !word_alnum(c) {
        } else if init.len() > 0 && word_alnum(init.last()) {
            lemma_alnum_runs_nonempty(init);
            let r2 = runs.update(runs.len() - 1, runs.last().push(c));
            assert forall|r: int, k: int| 0 <= r < r2.len() && 0 <= k < r2[r].len() implies settled(
                #[trigger] r2[r][k],
            ) by {
                if r == runs.len() - 1 && k == runs[r].len() {
                    assert(r2[r][k] == c);
                } else if r == runs.len() - 1 {
                    assert(r2[r][k] == runs[r][k]);
                } else {
                    assert(r2[r] == runs[r]);
                }
            }
        } else {
            let r2 = runs.push(seq![c]);
            assert forall|r: int, k: int| 0 <= r < r2.len() && 0 <= k < r2[r].len() implies settled(
                #[trigger] r2[r][k],
            ) by {
                if r < runs.len() {
                    assert(r2[r] == runs[r]);
                }
            }
        }
    }
}

proof fn lemma_join_settled(parts: Seq<Seq<char>>)
    requires
        forall|r: int, k: int|
            0 <= r < parts.len() && 0 <= k < parts[r].len() ==> settled(#[trigger] parts[r][k]),
    ensures
        forall|i: int|
            0 <= i < join_with(parts, '-').len() ==> settled(#[trigger] join_with(parts, '-')[i]),
    decreases parts.len(),
{
    if parts.len() == 1 {
        assert forall|i: int| 0 <= i < parts[0].len() implies settled(#[trigger] parts[0][i]) by {}
    } else if parts.len() > 1 {
        let init = parts.drop_last();
        assert forall|r: int, k: int| 0 <= r < init.len() && 0 <= k < init[r].len() implies settled(
            #[trigger] init[r][k],
        ) by {
            assert(init[r] == parts[r]);
        }
        lemma_join_settled(init);
        let j = join_with(init, '-');
        let last = parts.last();
        let s = join_with(parts, '-');
        assert(s == j.push('-') + last);
        assert forall|i: int| 0 <= i < s.len() implies settled(#[trigger] s[i]) by {
            if i < j.len() {
                assert(s[i] == j[i]);
            } else if i > j.len() {
                assert(s[i] == last[i - j.len() - 1]);
                assert(last == parts[parts.len() - 1]);
            }
        }
    }
}

/// The slug of an ASCII title is stable: slugging it again gives it back.
pub proof fn lemma_ascii_slug_idempotent(title: Seq<char>)
    requires
        is_ascii_text(title),
    ensures
        slug(slug(title)) == slug(title),
{
    let l = lowered(title);
    assert forall|i: int| 0 <= i < l.len() implies settled(#[trigger] l[i]) by {
        assert((title[i] as u32) < 128);
        assert(l[i] == ascii_lower(title[i]));
    }
    lemma_runs_settled(l);
    lemma_join_settled(alnum_runs(l));
    let s = slug(title);
    assert forall|i: int| 0 <= i < s.len() implies (#[trigger] s[i] as u32) < 128 by {
        assert(settled(s[i]));
    }
    assert(lowered(s) =~= s) by {
        assert forall|i: int| 0 <= i < s.len() implies #[trigger] lowered(s)[i] == s[i] by {
            assert(settled(s[i]));
        }
    }
    lemma_slug_idempotent(l);
}

} // verus!
