//! What operations on texts keep.

use vstd::prelude::*;

use crate::text;
use crate::text::Separator;

verus! {

/// Whether all of a text is white space.
pub open spec fn all_white(s: Seq<char>) -> bool {
    forall|i: int| 0 <= i < s.len() ==> text::spec_is_whitespace(#[trigger] s[i])
}

proof fn lemma_trimmed_start(s: Seq<char>) -> (from: int)
    ensures
        0 <= from <= s.len(),
        text::trimmed_start(s) == s.skip(from),
        all_white(s.take(from)),
        from < s.len() ==> !text::spec_is_whitespace(s[from]),
    decreases s.len(),
{
    if s.len() > 0 && text::spec_is_whitespace(s[0]) {
        let rest = s.drop_first();
        let at = lemma_trimmed_start(rest);
        assert(rest.skip(at) =~= s.skip(at + 1));
        assert forall|i: int| 0 <= i < at + 1 implies text::spec_is_whitespace(
            #[trigger] s.take(at + 1)[i],
        ) by {
            if i > 0 {
                assert(rest.take(at)[i - 1] == s[i]);
            }
        }
        at + 1
    } else {
        assert(s.skip(0) =~= s);
        0
    }
}

proof fn lemma_trimmed_end(s: Seq<char>) -> (to: int)
    ensures
        0 <= to <= s.len(),
        text::trimmed_end(s) == s.take(to),
        all_white(s.skip(to)),
        to > 0 ==> !text::spec_is_whitespace(s[to - 1]),
    decreases s.len(),
{
    if s.len() > 0 && text::spec_is_whitespace(s.last()) {
        let rest = s.drop_last();
        let to = lemma_trimmed_end(rest);
        assert(rest.take(to) =~= s.take(to));
        assert forall|i: int| 0 <= i < s.skip(to).len() implies text::spec_is_whitespace(
            #[trigger] s.skip(to)[i],
        ) by {
            if i < rest.skip(to).len() {
                assert(rest.skip(to)[i] == s.skip(to)[i]);
            } else {
                assert(s.skip(to)[i] == s.last());
            }
        }
        to
    } else {
        assert(s.take(s.len() as int) =~= s);
        s.len() as int
    }
}

/// Trimming takes off the white space at both ends, all of it and nothing
/// else: what is left stands between `r.0` and `r.1`.
pub proof fn law_trimming_takes_off_the_ends(s: Seq<char>) -> (r: (int, int))
    ensures
        0 <= r.0 <= r.1 <= s.len(),
        text::trimmed(s) == s.subrange(r.0, r.1),
        all_white(s.take(r.0)),
        all_white(s.skip(r.1)),
        text::trimmed(s).len() > 0 ==> !text::spec_is_whitespace(text::trimmed(s)[0])
            && !text::spec_is_whitespace(text::trimmed(s).last()),
{
    let from = lemma_trimmed_start(s);
    let middle = text::trimmed_start(s);
    let to = lemma_trimmed_end(middle);
    assert(middle.take(to) =~= s.subrange(from, from + to));
    assert(s.skip(from + to) =~= middle.skip(to));
    (from, from + to)
}

/// A text is blank where it holds nothing but white space.
pub proof fn law_blank_is_whitespace_alone(s: Seq<char>)
    ensures
        text::is_blank(s) <==> all_white(s),
        !text::is_blank(s) <==> exists|k: int|
            0 <= k < s.len() && !text::spec_is_whitespace(#[trigger] s[k]),
{
    let (from, to) = law_trimming_takes_off_the_ends(s);
    if text::is_blank(s) {
        assert forall|i: int| 0 <= i < s.len() implies text::spec_is_whitespace(
            #[trigger] s[i],
        ) by {
            if i < from {
                assert(s.take(from)[i] == s[i]);
            } else {
                assert(s.skip(to)[i - to] == s[i]);
            }
        }
    } else {
        assert(text::trimmed(s)[0] == s[from]);
    }
}

/// Trimming a trimmed text changes nothing.
pub proof fn law_trimming_settles(s: Seq<char>)
    ensures
        text::trimmed(text::trimmed(s)) == text::trimmed(s),
{
    let t = text::trimmed(s);
    let _ = law_trimming_takes_off_the_ends(s);
    let _ = lemma_trimmed_start(t);
    let _ = lemma_trimmed_end(t);
}

proof fn lemma_pieces(s: Seq<char>, by: Separator)
    ensures
        text::pieces(s, by).len() > 0,
        forall|p: int, i: int|
            0 <= p < text::pieces(s, by).len() && 0 <= i < text::pieces(s, by)[p].len()
                ==> !by.separates(#[trigger] text::pieces(s, by)[p][i]),
    decreases s.len(),
{
    if s.len() > 0 {
        lemma_pieces(s.drop_last(), by);
        let before = text::pieces(s.drop_last(), by);
        let now = text::pieces(s, by);
        assert forall|p: int, i: int| 0 <= p < now.len() && 0 <= i < now[p].len() implies
            !by.separates(#[trigger] now[p][i]) by {
            if p < before.len() {
                if i < before[p].len() {
                    assert(now[p][i] == before[p][i]);
                }
            }
        }
    }
}

/// The pieces of a text hold no separator, and put back together with the
/// separator they are the text.
pub proof fn law_pieces_make_up_the_text(s: Seq<char>)
    ensures
        text::joined(text::pieces(s, Separator::Slash), seq!['/']) == s,
        forall|p: int, i: int|
            0 <= p < text::pieces(s, Separator::Slash).len() && 0 <= i < text::pieces(
                s,
                Separator::Slash,
            )[p].len() ==> (#[trigger] text::pieces(s, Separator::Slash)[p][i]) != '/',
    decreases s.len(),
{
    lemma_pieces(s, Separator::Slash);
    let by = Separator::Slash;
    let now = text::pieces(s, by);
    if s.len() == 0 {
        assert(now[0] == s);
    } else {
        let rest = s.drop_last();
        law_pieces_make_up_the_text(rest);
        lemma_pieces(rest, by);
        let before = text::pieces(rest, by);
        assert(rest.push(s.last()) =~= s);
        if by.separates(s.last()) {
            assert(now.drop_last() =~= before);
            assert(text::joined(now, seq!['/']) == text::joined(before, seq!['/']) + seq!['/']
                + Seq::<char>::empty());
            assert(text::joined(now, seq!['/']) =~= rest.push('/'));
        } else {
            let head = before.drop_last();
            assert(now.drop_last() =~= head);
            if before.len() == 1 {
                assert(now[0] =~= before[0].push(s.last()));
            } else {
                assert(text::joined(before, seq!['/']) == text::joined(head, seq!['/']) + seq!['/']
                    + before.last());
                assert(text::joined(now, seq!['/']) == text::joined(head, seq!['/']) + seq!['/']
                    + before.last().push(s.last()));
            }
            assert(text::joined(now, seq!['/']) =~= rest.push(s.last()));
        }
    }
}

/// The words of a text are never empty, hold no separator, and together hold
/// every other character of the text in order.
pub proof fn law_words_hold_no_separator(s: Seq<char>, by: Separator)
    ensures
        forall|p: int|
            0 <= p < text::nonempty_pieces(s, by).len() ==> (#[trigger] text::nonempty_pieces(
                s,
                by,
            )[p]).len() > 0 && forall|i: int|
                0 <= i < text::nonempty_pieces(s, by)[p].len() ==> !by.separates(
                    #[trigger] text::nonempty_pieces(s, by)[p][i],
                ),
        text::joined(text::nonempty_pieces(s, by), Seq::empty()) == s.filter(
            |c: char| !by.separates(c),
        ),
{
    lemma_pieces(s, by);
    let all = text::pieces(s, by);
    let filled = |p: Seq<char>| p.len() > 0;
    let words = all.filter(filled);
    assert forall|p: int| 0 <= p < words.len() implies (#[trigger] words[p]).len() > 0 && forall|
        i: int,
    |
        0 <= i < words[p].len() ==> !by.separates(#[trigger] words[p][i]) by {
        all.lemma_filter_pred(filled, p);
        assert(words.contains(words[p]));
        all.lemma_filter_contains_rev(filled, words[p]);
        let q = choose|q: int| 0 <= q < all.len() && all[q] == words[p];
        assert forall|i: int| 0 <= i < words[p].len() implies !by.separates(
            #[trigger] words[p][i],
        ) by {
            assert(words[p][i] == all[q][i]);
        }
    }
    lemma_pieces_filter(s, by);
    lemma_empty_pieces_add_nothing(all);
}

proof fn lemma_joined_push(texts: Seq<Seq<char>>, last: Seq<char>)
    ensures
        text::joined(texts.push(last), Seq::empty()) == text::joined(texts, Seq::empty()) + last,
{
    let none = Seq::<char>::empty();
    let all = texts.push(last);
    assert(all.drop_last() =~= texts);
    if texts.len() == 0 {
        assert(text::joined(texts, none) + last =~= last);
    } else {
        assert(text::joined(all, none) == text::joined(texts, none) + none + last);
        assert(text::joined(texts, none) + none =~= text::joined(texts, none));
    }
}

proof fn lemma_empty_pieces_add_nothing(all: Seq<Seq<char>>)
    ensures
        text::joined(all.filter(|p: Seq<char>| p.len() > 0), Seq::empty()) == text::joined(
            all,
            Seq::empty(),
        ),
    decreases all.len(),
{
    reveal(Seq::filter);
    let filled = |p: Seq<char>| p.len() > 0;
    if all.len() > 0 {
        let rest = all.drop_last();
        lemma_empty_pieces_add_nothing(rest);
        assert(rest.push(all.last()) =~= all);
        lemma_joined_push(rest, all.last());
        if filled(all.last()) {
            lemma_joined_push(rest.filter(filled), all.last());
        } else {
            assert(text::joined(rest, Seq::empty()) + all.last() =~= text::joined(
                rest,
                Seq::empty(),
            ));
        }
    } else {
        assert(all.filter(filled) =~= all);
    }
}

proof fn lemma_pieces_filter(s: Seq<char>, by: Separator)
    ensures
        text::joined(text::pieces(s, by), Seq::empty()) == s.filter(|c: char| !by.separates(c)),
    decreases s.len(),
{
    reveal(Seq::filter);
    let keep = |c: char| !by.separates(c);
    let now = text::pieces(s, by);
    let none = Seq::<char>::empty();
    if s.len() == 0 {
        assert(now[0] == none);
        assert(s.filter(keep) =~= none);
    } else {
        let rest = s.drop_last();
        let before = text::pieces(rest, by);
        lemma_pieces_filter(rest, by);
        lemma_pieces(rest, by);
        if by.separates(s.last()) {
            lemma_joined_push(before, none);
            assert(text::joined(before, none) + none =~= text::joined(before, none));
        } else {
            let head = before.drop_last();
            assert(head.push(before.last()) =~= before);
            lemma_joined_push(head, before.last());
            lemma_joined_push(head, before.last().push(s.last()));
            assert(text::joined(head, none) + before.last().push(s.last()) =~= (text::joined(
                head,
                none,
            ) + before.last()).push(s.last()));
        }
    }
}

/// Whether words stand in a text one behind another, with one space between
/// them and no white space else.
pub open spec fn single_spaced(s: Seq<char>) -> bool {
    &&& forall|i: int| 0 <= i < s.len() && text::spec_is_whitespace(#[trigger] s[i]) ==> s[i] == ' '
    &&& s.len() > 0 ==> !text::spec_is_whitespace(s[0]) && !text::spec_is_whitespace(s.last())
    &&& forall|i: int|
        0 < i < s.len() && text::spec_is_whitespace(#[trigger] s[i]) ==> !text::spec_is_whitespace(
            s[i - 1],
        )
}

proof fn lemma_words_single_spaced(words: Seq<Seq<char>>)
    requires
        forall|p: int|
            0 <= p < words.len() ==> (#[trigger] words[p]).len() > 0 && forall|i: int|
                0 <= i < words[p].len() ==> !text::spec_is_whitespace(#[trigger] words[p][i]),
    ensures
        single_spaced(text::joined(words, seq![' '])),
        words.len() > 0 ==> text::joined(words, seq![' ']).len() > 0,
        text::joined(words, seq![' ']).filter(|c: char| !text::spec_is_whitespace(c))
            == text::joined(words, Seq::empty()),
    decreases words.len(),
{
    let keep = |c: char| !text::spec_is_whitespace(c);
    let none = Seq::<char>::empty();
    if words.len() == 0 {
        reveal(Seq::filter);
        assert(text::joined(words, seq![' ']).filter(keep) =~= none);
    } else {
        let rest = words.drop_last();
        let last = words.last();
        assert(last == words[words.len() - 1]);
        assert forall|p: int| 0 <= p < rest.len() implies (#[trigger] rest[p]).len() > 0
            && forall|i: int|
            0 <= i < rest[p].len() ==> !text::spec_is_whitespace(#[trigger] rest[p][i]) by {
            assert(rest[p] == words[p]);
        }
        lemma_words_single_spaced(rest);
        assert(rest.push(last) =~= words);
        lemma_joined_push(rest, last);
        lemma_filter_all_kept(last, keep);
        let before = text::joined(rest, seq![' ']);
        if words.len() == 1 {
            assert(text::joined(words, seq![' ']) == last);
            assert(rest =~= Seq::<Seq<char>>::empty());
            assert(text::joined(rest, none) + last =~= last);
        } else {
            let whole = before + seq![' '] + last;
            assert(text::joined(words, seq![' ']) == whole);
            assert(whole.last() == last[last.len() - 1]);
            assert(whole[0] == before[0]);
            assert forall|i: int| 0 < i < whole.len() && text::spec_is_whitespace(
                #[trigger] whole[i],
            ) implies !text::spec_is_whitespace(whole[i - 1]) && whole[i] == ' ' by {
                if i < before.len() {
                    assert(whole[i] == before[i] && whole[i - 1] == before[i - 1]);
                } else if i == before.len() {
                    assert(whole[i - 1] == before.last());
                } else {
                    assert(whole[i] == last[i - before.len() - 1]);
                }
            }
            lemma_filter_add(before + seq![' '], last, keep);
            lemma_filter_add(before, seq![' '], keep);
            reveal(Seq::filter);
            assert(seq![' '].drop_last() =~= none);
            assert(none.filter(keep) =~= none);
            assert(seq![' '].filter(keep) =~= none);
            assert(before.filter(keep) + none =~= before.filter(keep));
        }
    }
}

proof fn lemma_filter_all_kept(s: Seq<char>, keep: spec_fn(char) -> bool)
    requires
        forall|i: int| 0 <= i < s.len() ==> keep(#[trigger] s[i]),
    ensures
        s.filter(keep) == s,
    decreases s.len(),
{
    reveal(Seq::filter);
    if s.len() > 0 {
        let rest = s.drop_last();
        assert forall|i: int| 0 <= i < rest.len() implies keep(#[trigger] rest[i]) by {
            assert(rest[i] == s[i]);
        }
        lemma_filter_all_kept(rest, keep);
        assert(keep(s[s.len() - 1]));
        assert(rest.push(s.last()) =~= s);
    }
}

proof fn lemma_filter_add(a: Seq<char>, b: Seq<char>, keep: spec_fn(char) -> bool)
    ensures
        (a + b).filter(keep) == a.filter(keep) + b.filter(keep),
    decreases b.len(),
{
    reveal(Seq::filter);
    if b.len() == 0 {
        assert(a + b =~= a);
        assert(a.filter(keep) + b.filter(keep) =~= a.filter(keep));
    } else {
        lemma_filter_add(a, b.drop_last(), keep);
        assert((a + b).drop_last() =~= a + b.drop_last());
        if keep(b.last()) {
            assert(a.filter(keep) + b.filter(keep) =~= (a.filter(keep) + b.drop_last().filter(
                keep,
            )).push(b.last()));
        }
    }
}

/// A normalized text has its words in order, with one space between them and
/// no white space at its ends.
pub proof fn law_normalized_text_is_single_spaced(s: Seq<char>)
    ensures
        single_spaced(text::normalized(s)),
        text::normalized(s).filter(|c: char| !text::spec_is_whitespace(c)) == s.filter(
            |c: char| !text::spec_is_whitespace(c),
        ),
{
    let by = Separator::Whitespace;
    law_words_hold_no_separator(s, by);
    let words = text::nonempty_pieces(s, by);
    assert forall|p: int| 0 <= p < words.len() implies (#[trigger] words[p]).len() > 0 && forall|
        i: int,
    |
        0 <= i < words[p].len() ==> !text::spec_is_whitespace(#[trigger] words[p][i]) by {
        assert forall|i: int| 0 <= i < words[p].len() implies !text::spec_is_whitespace(
            #[trigger] words[p][i],
        ) by {
            assert(!by.separates(words[p][i]));
        }
    }
    lemma_words_single_spaced(words);
    assert((|c: char| !by.separates(c)) =~= (|c: char| !text::spec_is_whitespace(c)));
}

/// A cut line is the start of the whole one, with an ellipsis in the last
/// place; a line that fits is not cut.
pub proof fn law_lines_are_cut_at_the_end(s: Seq<char>, limit: nat)
    requires
        limit > 0,
    ensures
        ({
            let whole = text::normalized(s);
            let cut = text::truncated_text(s, limit);
            if whole.len() <= limit {
                cut == whole
            } else {
                cut.len() == limit && cut.last() == '…' && cut.drop_last() == whole.take(limit - 1)
            }
        }),
{
    let whole = text::normalized(s);
    if whole.len() > limit {
        assert(text::truncated_text(s, limit).drop_last() =~= whole.take(limit - 1));
    }
}

/// A text within a byte limit is kept whole, and any other keeps as much of
/// its start as fits: one character more would not.
pub proof fn law_byte_limits_keep_what_fits(s: Seq<char>, max: nat)
    ensures
        text::utf8_len(s) <= max ==> text::truncated_utf8(s, max) == s && text::fitting_prefix(
            s,
            max,
        ) == s,
        text::utf8_len(s) > max ==> {
            let kept = text::fitting_prefix(s, max);
            &&& kept.len() < s.len()
            &&& kept == s.take(kept.len() as int)
            &&& text::utf8_len(kept) <= max
            &&& text::utf8_len(s.take(kept.len() as int + 1)) > max
            &&& text::truncated_utf8(s, max) == kept.push('…')
        },
{
    lemma_fitting(s, max);
    assert(s.take(s.len() as int) =~= s);
}

proof fn lemma_fitting(s: Seq<char>, max: nat)
    ensures
        text::fitting_len(s, max) <= s.len(),
        text::utf8_len(s.take(text::fitting_len(s, max) as int)) <= max,
        text::fitting_len(s, max) < s.len() ==> text::utf8_len(
            s.take(text::fitting_len(s, max) as int + 1),
        ) > max,
    decreases s.len(),
{
    assert(s.take(s.len() as int) =~= s);
    if text::utf8_len(s) > max {
        let rest = s.drop_last();
        lemma_fitting(rest, max);
        let k = text::fitting_len(rest, max);
        assert(rest.take(k as int) =~= s.take(k as int));
        if k < rest.len() {
            assert(rest.take(k as int + 1) =~= s.take(k as int + 1));
        } else {
            assert(s.take(k as int + 1) =~= s);
        }
    }
}

/// Lowering the letters of a text leaves no capital of the Latin alphabet,
/// changes nothing but those, and changes nothing the second time.
pub proof fn law_lowered_text_has_no_capitals(s: Seq<char>)
    ensures
        text::ascii_lowered(s).len() == s.len(),
        forall|i: int|
            0 <= i < s.len() ==> !('A' <= (#[trigger] text::ascii_lowered(s)[i]) <= 'Z'),
        forall|i: int|
            0 <= i < s.len() ==> if 'A' <= s[i] <= 'Z' {
                (#[trigger] text::ascii_lowered(s)[i]) as int == s[i] as int + 32
            } else {
                text::ascii_lowered(s)[i] == s[i]
            },
        text::ascii_lowered(text::ascii_lowered(s)) == text::ascii_lowered(s),
{
    let low = text::ascii_lowered(s);
    assert forall|i: int| 0 <= i < s.len() implies (if 'A' <= s[i] <= 'Z' {
        (#[trigger] low[i]) as int == s[i] as int + 32
    } else {
        low[i] == s[i]
    }) && !('A' <= low[i] <= 'Z') by {
        assert(low[i] == text::lowered_char(s[i]));
    }
    assert(text::ascii_lowered(low) =~= low);
}

/// Spelling a symbol with spaces changes its underscores and nothing else.
pub proof fn law_spaced_text_has_no_underscores(s: Seq<char>, i: int)
    requires
        0 <= i < s.len(),
    ensures
        text::spaced(s).len() == s.len(),
        text::spaced(s)[i] == if s[i] == '_' {
            ' '
        } else {
            s[i]
        },
{
}

} // verus!
