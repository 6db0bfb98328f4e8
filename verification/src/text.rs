//! Character-level text operations shared by every tool.
//!
//! A text is modelled as the sequence of its characters. Splitting, trimming,
//! ordering and truncation are stated on that model.

use vstd::prelude::*;
use vstd::relations::*;
use vstd::string::*;

verus! {

/// `String::push` appends the given character to the end of the string.
pub assume_specification[ std::string::String::push ](s: &mut std::string::String, c: char)
    ensures
        final(s)@ == old(s)@.push(c),
;

/// The views of a sequence of strings.
pub open spec fn views(texts: Seq<String>) -> Seq<Seq<char>> {
    texts.map_values(|t: String| t@)
}

/// The view of an optional string.
pub open spec fn opt_view(text: Option<String>) -> Option<Seq<char>> {
    match text {
        Some(t) => Some(t@),
        None => None,
    }
}

/// The view of an optional string slice.
pub open spec fn opt_str_view(text: Option<&str>) -> Option<Seq<char>> {
    match text {
        Some(t) => Some(t@),
        None => None,
    }
}

/// The characters of a text, in order.
pub fn chars_of(s: &str) -> (r: Vec<char>)
    ensures
        r@ == s@,
{
    let mut out: Vec<char> = Vec::new();
    for c in it: s.chars()
        invariant
            out@ == it.seq().take(it.index()),
            it.seq() == s@,
    {
        out.push(c);
        assert(it.seq().take(it.index() + 1) =~= it.seq().take(it.index()).push(c));
    }
    assert(s@.take(s@.len() as int) =~= s@);
    out
}

/// The text made of the characters `chars[from..to]`.
pub fn string_of(chars: &Vec<char>, from: usize, to: usize) -> (r: String)
    requires
        from <= to <= chars.len(),
    ensures
        r@ == chars@.subrange(from as int, to as int),
{
    let mut out = String::new();
    let mut i: usize = from;
    while i < to
        invariant
            from <= i <= to <= chars.len(),
            out@ == chars@.subrange(from as int, i as int),
        decreases to - i,
    {
        out.push(chars[i]);
        assert(chars@.subrange(from as int, i + 1) =~= chars@.subrange(from as int, i as int).push(
            chars@[i as int],
        ));
        i = i + 1;
    }
    out
}

/// Whether two texts hold the same characters.
pub fn same_text(a: &str, b: &str) -> (r: bool)
    ensures
        r == (a@ == b@),
{
    a.to_owned() == b.to_owned()
}

/// `a` followed by `b`.
pub fn concat2(a: &str, b: &str) -> (r: String)
    ensures
        r@ == a@ + b@,
{
    let mut out = a.to_owned();
    out.append(b);
    out
}

/// `a` followed by `b` followed by `c`.
pub fn concat3(a: &str, b: &str, c: &str) -> (r: String)
    ensures
        r@ == a@ + b@ + c@,
{
    let mut out = concat2(a, b);
    out.append(c);
    out
}

/// `a`, `b`, `c` and `d` in a row.
pub fn concat4(a: &str, b: &str, c: &str, d: &str) -> (r: String)
    ensures
        r@ == a@ + b@ + c@ + d@,
{
    let mut out = concat3(a, b, c);
    out.append(d);
    out
}

/// `a`, `b`, `c`, `d` and `e` in a row.
pub fn concat5(a: &str, b: &str, c: &str, d: &str, e: &str) -> (r: String)
    ensures
        r@ == a@ + b@ + c@ + d@ + e@,
{
    let mut out = concat4(a, b, c, d);
    out.append(e);
    out
}

/// `a`, `b`, `c`, `d`, `e` and `f` in a row.
pub fn concat6(a: &str, b: &str, c: &str, d: &str, e: &str, f: &str) -> (r: String)
    ensures
        r@ == a@ + b@ + c@ + d@ + e@ + f@,
{
    let mut out = concat5(a, b, c, d, e);
    out.append(f);
    out
}

/// Unicode's `White_Space` property.
pub open spec fn spec_is_whitespace(c: char) -> bool {
    ||| '\u{9}' <= c <= '\u{d}'
    ||| c == '\u{20}'
    ||| c == '\u{85}'
    ||| c == '\u{a0}'
    ||| c == '\u{1680}'
    ||| '\u{2000}' <= c <= '\u{200a}'
    ||| c == '\u{2028}'
    ||| c == '\u{2029}'
    ||| c == '\u{202f}'
    ||| c == '\u{205f}'
    ||| c == '\u{3000}'
}

pub fn is_whitespace(c: char) -> (r: bool)
    ensures
        r == spec_is_whitespace(c),
{
    ('\u{9}' <= c && c <= '\u{d}') || c == '\u{20}' || c == '\u{85}' || c == '\u{a0}' || c
        == '\u{1680}' || ('\u{2000}' <= c && c <= '\u{200a}') || c == '\u{2028}' || c == '\u{2029}'
        || c == '\u{202f}' || c == '\u{205f}' || c == '\u{3000}'
}

/// `s` without its leading whitespace.
pub open spec fn trimmed_start(s: Seq<char>) -> Seq<char>
    decreases s.len(),
{
    if s.len() > 0 && spec_is_whitespace(s[0]) {
        trimmed_start(s.drop_first())
    } else {
        s
    }
}

/// `s` without its trailing whitespace.
pub open spec fn trimmed_end(s: Seq<char>) -> Seq<char>
    decreases s.len(),
{
    if s.len() > 0 && spec_is_whitespace(s.last()) {
        trimmed_end(s.drop_last())
    } else {
        s
    }
}

/// `s` without whitespace at either end.
pub open spec fn trimmed(s: Seq<char>) -> Seq<char> {
    trimmed_end(trimmed_start(s))
}

/// The text without whitespace at either end.
pub fn trim_text(s: &str) -> (r: String)
    ensures
        r@ == trimmed(s@),
{
    let chars = chars_of(s);
    let n: usize = chars.len();
    let mut start: usize = 0;
    assert(s@.subrange(0, n as int) =~= s@);
    while start < n && is_whitespace(chars[start])
        invariant
            chars@ == s@,
            start <= n == chars.len(),
            trimmed_start(s@) == trimmed_start(s@.subrange(start as int, n as int)),
        decreases n - start,
    {
        assert(s@.subrange(start as int, n as int).drop_first() =~= s@.subrange(
            start + 1,
            n as int,
        ));
        start = start + 1;
    }
    let ghost t = s@.subrange(start as int, n as int);
    assert(trimmed_start(s@) == t);
    let mut end: usize = n;
    while end > start && is_whitespace(chars[end - 1])
        invariant
            chars@ == s@,
            start <= end <= n == chars.len(),
            trimmed_start(s@) == t,
            trimmed_end(t) == trimmed_end(s@.subrange(start as int, end as int)),
        decreases end - start,
    {
        assert(s@.subrange(start as int, end as int).drop_last() =~= s@.subrange(
            start as int,
            end - 1,
        ));
        end = end - 1;
    }
    string_of(&chars, start, end)
}

/// Whether a text holds anything but whitespace.
pub open spec fn is_blank(s: Seq<char>) -> bool {
    trimmed(s).len() == 0
}

pub fn text_is_blank(s: &str) -> (r: bool)
    ensures
        r == is_blank(s@),
{
    let t = trim_text(s);
    t.as_str().is_empty()
}

/// Whether Unicode classes the character as alphabetic or numeric.
pub uninterp spec fn spec_is_alphanumeric(c: char) -> bool;

/// `char::is_alphanumeric`, a function of the character alone.
#[verifier::external_body]
fn is_alphanumeric(c: char) -> (r: bool)
    ensures
        r == spec_is_alphanumeric(c),
{
    c.is_alphanumeric()
}

/// What ends a piece when a text is split.
#[derive(Clone, Copy, PartialEq, Eq, Structural, Debug)]
pub enum Separator {
    /// Unicode whitespace.
    Whitespace,
    /// The character `/`.
    Slash,
    /// Everything but alphanumeric characters and `_`.
    NonWord,
}

impl Separator {
    pub open spec fn separates(self, c: char) -> bool {
        match self {
            Separator::Whitespace => spec_is_whitespace(c),
            Separator::Slash => c == '/',
            Separator::NonWord => !spec_is_alphanumeric(c) && c != '_',
        }
    }

    pub fn is_separator(self, c: char) -> (r: bool)
        ensures
            r == self.separates(c),
    {
        match self {
            Separator::Whitespace => is_whitespace(c),
            Separator::Slash => c == '/',
            Separator::NonWord => !is_alphanumeric(c) && c != '_',
        }
    }
}

/// The pieces between separators, empty pieces included.
pub open spec fn pieces(s: Seq<char>, by: Separator) -> Seq<Seq<char>>
    decreases s.len(),
{
    if s.len() == 0 {
        seq![Seq::<char>::empty()]
    } else {
        let before = pieces(s.drop_last(), by);
        if by.separates(s.last()) {
            before.push(Seq::empty())
        } else {
            before.drop_last().push(before.last().push(s.last()))
        }
    }
}

/// The pieces that are not empty.
pub open spec fn nonempty_pieces(s: Seq<char>, by: Separator) -> Seq<Seq<char>> {
    pieces(s, by).filter(|p: Seq<char>| p.len() > 0)
}

pub proof fn lemma_pieces_nonempty(s: Seq<char>, by: Separator)
    ensures
        pieces(s, by).len() > 0,
    decreases s.len(),
{
    if s.len() > 0 {
        lemma_pieces_nonempty(s.drop_last(), by);
    }
}

/// Splits a text at its separators, keeping empty pieces.
pub fn split_text(s: &str, by: Separator) -> (r: Vec<String>)
    ensures
        views(r@) == pieces(s@, by),
        r@.len() > 0,
{
    let chars = chars_of(s);
    let mut done: Vec<String> = Vec::new();
    let mut current = String::new();
    let mut i: usize = 0;
    proof {
        assert(s@.take(0) =~= Seq::<char>::empty());
        assert(views(done@).push(current@) =~= pieces(s@.take(0), by));
    }
    while i < chars.len()
        invariant
            chars@ == s@,
            i <= chars.len(),
            views(done@).push(current@) == pieces(s@.take(i as int), by),
        decreases chars.len() - i,
    {
        let c = chars[i];
        let ghost before = views(done@).push(current@);
        proof {
            assert(s@.take(i + 1).drop_last() =~= s@.take(i as int));
            assert(before.drop_last() =~= views(done@));
            assert(before.last() == current@);
        }
        if by.is_separator(c) {
            let ghost old_done = done@;
            done.push(current);
            current = String::new();
            proof {
                assert(views(done@) =~= before);
            }
        } else {
            current.push(c);
        }
        i = i + 1;
    }
    assert(s@.take(s@.len() as int) =~= s@);
    let ghost old_done = done@;
    let ghost last = current@;
    done.push(current);
    assert(views(done@) =~= views(old_done).push(last));
    done
}

/// Splits a text at its separators, dropping empty pieces.
pub fn split_nonempty(s: &str, by: Separator) -> (r: Vec<String>)
    ensures
        views(r@) == nonempty_pieces(s@, by),
{
    let all = split_text(s, by);
    let mut out: Vec<String> = Vec::new();
    let mut i: usize = 0;
    let ghost keep = |p: Seq<char>| p.len() > 0;
    assert(views(all@).take(0) =~= Seq::<Seq<char>>::empty());
    assert(views(out@) =~= views(all@).take(0).filter(keep));
    while i < all.len()
        invariant
            i <= all.len(),
            keep == (|p: Seq<char>| p.len() > 0),
            views(out@) == views(all@).take(i as int).filter(keep),
        decreases all.len() - i,
    {
        proof {
            assert(views(all@).take(i + 1) =~= views(all@).take(i as int).push(all@[i as int]@));
            views(all@).take(i as int).lemma_filter_push(all@[i as int]@, keep);
        }
        if !all[i].as_str().is_empty() {
            let ghost before = out@;
            let piece = all[i].clone();
            out.push(piece);
            assert(views(out@) =~= views(before).push(all@[i as int]@));
        }
        i = i + 1;
    }
    assert(views(all@).take(all@.len() as int) =~= views(all@));
    out
}

/// The texts in order with `by` between neighbours.
pub open spec fn joined(texts: Seq<Seq<char>>, by: Seq<char>) -> Seq<char>
    decreases texts.len(),
{
    if texts.len() == 0 {
        Seq::empty()
    } else if texts.len() == 1 {
        texts[0]
    } else {
        joined(texts.drop_last(), by) + by + texts.last()
    }
}

/// Joins texts with a separator.
pub fn join_texts(texts: &Vec<String>, by: &str) -> (r: String)
    ensures
        r@ == joined(views(texts@), by@),
{
    if texts.len() == 0 {
        return String::new();
    }
    let mut out = texts[0].clone();
    let mut i: usize = 1;
    proof {
        assert(views(texts@).take(1).len() == 1);
    }
    while i < texts.len()
        invariant
            1 <= i <= texts.len(),
            out@ == joined(views(texts@).take(i as int), by@),
        decreases texts.len() - i,
    {
        assert(views(texts@).take(i + 1).drop_last() =~= views(texts@).take(i as int));
        out.append(by);
        out.append(texts[i].as_str());
        i = i + 1;
    }
    assert(views(texts@).take(texts@.len() as int) =~= views(texts@));
    out
}

/// Whitespace-separated words with one space between neighbours.
pub open spec fn normalized(s: Seq<char>) -> Seq<char> {
    joined(nonempty_pieces(s, Separator::Whitespace), seq![' '])
}

/// Collapses whitespace runs to single spaces and drops them at both ends.
pub fn normalize_whitespace(s: &str) -> (r: String)
    ensures
        r@ == normalized(s@),
{
    let words = split_nonempty(s, Separator::Whitespace);
    proof {
        reveal_strlit(" ");
        assert(" "@ =~= seq![' ']);
    }
    join_texts(&words, " ")
}

/// `text` on one line, cut to `limit` characters with `…` in the last place.
pub open spec fn truncated_text(text: Seq<char>, limit: nat) -> Seq<char> {
    let whole = normalized(text);
    if whole.len() <= limit {
        whole
    } else {
        whole.take(if limit == 0 { 0 } else { limit - 1 }).push('…')
    }
}

/// Normalizes whitespace and cuts the result to `limit` characters.
pub fn truncate_text(text: &str, limit: usize) -> (r: String)
    ensures
        r@ == truncated_text(text@, limit as nat),
{
    let whole = normalize_whitespace(text);
    let chars = chars_of(whole.as_str());
    if chars.len() <= limit {
        whole
    } else {
        let keep: usize = if limit == 0 { 0 } else { limit - 1 };
        let mut out = string_of(&chars, 0, keep);
        assert(chars@.subrange(0, keep as int) =~= chars@.take(keep as int));
        out.push('…');
        out
    }
}

/// A positive limit bounds the number of characters that truncation keeps.
pub proof fn law_truncated_text_fits(text: Seq<char>, limit: nat)
    requires
        limit > 0,
    ensures
        truncated_text(text, limit).len() <= limit,
        normalized(text).len() <= limit ==> truncated_text(text, limit) == normalized(text),
{
}

/// The number of bytes that UTF-8 takes for a character.
pub open spec fn utf8_width(c: char) -> nat {
    if c <= '\u{7f}' {
        1
    } else if c <= '\u{7ff}' {
        2
    } else if c <= '\u{ffff}' {
        3
    } else {
        4
    }
}

/// The number of bytes that UTF-8 takes for a text.
pub open spec fn utf8_len(s: Seq<char>) -> nat
    decreases s.len(),
{
    if s.len() == 0 {
        0
    } else {
        utf8_len(s.drop_last()) + utf8_width(s.last())
    }
}

pub proof fn lemma_utf8_len_add(a: Seq<char>, b: Seq<char>)
    ensures
        utf8_len(a + b) == utf8_len(a) + utf8_len(b),
    decreases b.len(),
{
    if b.len() == 0 {
        assert(a + b =~= a);
    } else {
        assert((a + b).drop_last() =~= a + b.drop_last());
        lemma_utf8_len_add(a, b.drop_last());
    }
}

proof fn lemma_width_is_encoding_length(c: char)
    ensures
        vstd::utf8::encode_scalar(c as u32).len() == utf8_width(c),
{
    vstd::utf8::char_is_scalar(c);
}

/// The byte count of a text is the length of its UTF-8 encoding.
pub proof fn law_utf8_len_is_encoding_length(s: Seq<char>)
    ensures
        utf8_len(s) == vstd::utf8::encode_utf8(s).len(),
    decreases s.len(),
{
    if s.len() > 0 {
        let first = seq![s[0]];
        assert(first + s.drop_first() =~= s);
        lemma_utf8_len_add(first, s.drop_first());
        assert(first.drop_last() =~= Seq::<char>::empty());
        assert(utf8_len(first.drop_last()) == 0);
        assert(utf8_len(first) == utf8_width(s[0])) by {
            assert(first.last() == s[0]);
        }
        law_utf8_len_is_encoding_length(s.drop_first());
        lemma_width_is_encoding_length(s[0]);
        assert(vstd::utf8::encode_utf8(s) == vstd::utf8::encode_scalar(s[0] as u32)
            + vstd::utf8::encode_utf8(s.drop_first()));
    }
}

pub fn char_width(c: char) -> (r: usize)
    ensures
        r == utf8_width(c),
{
    if c <= '\u{7f}' {
        1
    } else if c <= '\u{7ff}' {
        2
    } else if c <= '\u{ffff}' {
        3
    } else {
        4
    }
}

/// The length in characters of the longest prefix of `s` within `max` bytes.
pub open spec fn fitting_len(s: Seq<char>, max: nat) -> nat
    decreases s.len(),
{
    if utf8_len(s) <= max {
        s.len()
    } else {
        fitting_len(s.drop_last(), max)
    }
}

/// The longest prefix of `s` within `max` bytes.
pub open spec fn fitting_prefix(s: Seq<char>, max: nat) -> Seq<char> {
    s.take(fitting_len(s, max) as int)
}

pub proof fn lemma_fitting_len(s: Seq<char>, max: nat)
    ensures
        fitting_len(s, max) <= s.len(),
        utf8_len(fitting_prefix(s, max)) <= max,
    decreases s.len(),
{
    if utf8_len(s) <= max {
        assert(s.take(s.len() as int) =~= s);
    } else {
        lemma_fitting_len(s.drop_last(), max);
        let k = fitting_len(s.drop_last(), max) as int;
        assert(s.drop_last().take(k) =~= s.take(k));
    }
}

proof fn lemma_fitting_len_is(s: Seq<char>, max: nat, k: int)
    requires
        0 <= k <= s.len(),
        utf8_len(s.take(k)) <= max,
        k < s.len() ==> utf8_len(s.take(k + 1)) > max,
    ensures
        fitting_len(s, max) == k,
    decreases s.len(),
{
    if k == s.len() {
        assert(s.take(k) =~= s);
    } else {
        let rest = s.subrange(k + 1, s.len() as int);
        lemma_utf8_len_add(s.take(k + 1), rest);
        assert(s.take(k + 1) + rest =~= s);
        assert(s.drop_last().take(k) =~= s.take(k));
        if k + 1 < s.len() {
            assert(s.drop_last().take(k + 1) =~= s.take(k + 1));
        }
        lemma_fitting_len_is(s.drop_last(), max, k);
    }
}

/// The longest prefix of the text that takes at most `max` bytes.
pub fn prefix_within(s: &str, max: usize) -> (r: String)
    ensures
        r@ == fitting_prefix(s@, max as nat),
{
    let chars = chars_of(s);
    let mut k: usize = 0;
    let mut used: usize = 0;
    assert(s@.take(0) =~= Seq::<char>::empty());
    while k < chars.len() && char_width(chars[k]) <= max - used
        invariant
            chars@ == s@,
            k <= chars.len(),
            used == utf8_len(s@.take(k as int)),
            used <= max,
        decreases chars.len() - k,
    {
        assert(s@.take(k + 1).drop_last() =~= s@.take(k as int));
        used = used + char_width(chars[k]);
        k = k + 1;
    }
    proof {
        if k < s@.len() {
            assert(s@.take(k + 1).drop_last() =~= s@.take(k as int));
        }
        lemma_fitting_len_is(s@, max as nat, k as int);
        assert(chars@.subrange(0, k as int) =~= s@.take(k as int));
    }
    string_of(&chars, 0, k)
}

/// `s` itself if it fits in `max` bytes, else its longest fitting prefix and `…`.
pub open spec fn truncated_utf8(s: Seq<char>, max: nat) -> Seq<char> {
    if utf8_len(s) <= max {
        s
    } else {
        fitting_prefix(s, max).push('…')
    }
}

/// Cuts a text to `max_bytes` bytes between characters, marking the cut.
pub fn truncate_utf8(value: &str, max_bytes: usize) -> (r: String)
    ensures
        r@ == truncated_utf8(value@, max_bytes as nat),
{
    let prefix = prefix_within(value, max_bytes);
    let kept: usize = prefix.as_str().unicode_len();
    let whole: usize = value.unicode_len();
    proof {
        lemma_fitting_len(value@, max_bytes as nat);
        if kept == whole {
            assert(value@.take(kept as int) =~= value@);
        } else if utf8_len(value@) <= max_bytes {
            assert(fitting_len(value@, max_bytes as nat) == value@.len());
        }
    }
    if kept == whole {
        prefix
    } else {
        let mut out = prefix;
        out.push('…');
        out
    }
}

/// What a byte limit keeps is a prefix of the text, and takes at most the
/// limit and the three bytes of the mark.
pub proof fn law_truncated_utf8_fits(s: Seq<char>, max: nat)
    ensures
        utf8_len(truncated_utf8(s, max)) <= max + 3,
        truncated_utf8(s, max) == s || (truncated_utf8(s, max).last() == '…' && truncated_utf8(
            s,
            max,
        ).drop_last().is_prefix_of(s)),
{
    lemma_fitting_len(s, max);
    let cut = fitting_prefix(s, max);
    assert(cut.push('…').drop_last() =~= cut);
    assert(cut.is_prefix_of(s));
}

/// `s` with ASCII capitals made small.
pub open spec fn ascii_lowered(s: Seq<char>) -> Seq<char> {
    s.map_values(|c: char| lowered_char(c))
}

pub open spec fn lowered_char(c: char) -> char {
    if 'A' <= c <= 'Z' {
        (c as u32 + 32) as char
    } else {
        c
    }
}

fn lower_char(c: char) -> (r: char)
    ensures
        r == lowered_char(c),
{
    if 'A' <= c && c <= 'Z' {
        ((c as u8) + 32) as char
    } else {
        c
    }
}

/// Makes ASCII capitals small and leaves every other character.
pub fn ascii_lowercase(s: &str) -> (r: String)
    ensures
        r@ == ascii_lowered(s@),
{
    let chars = chars_of(s);
    let mut out = String::new();
    let mut i: usize = 0;
    while i < chars.len()
        invariant
            chars@ == s@,
            i <= chars.len(),
            out@ == ascii_lowered(s@.take(i as int)),
        decreases chars.len() - i,
    {
        out.push(lower_char(chars[i]));
        assert(ascii_lowered(s@.take(i + 1)) =~= ascii_lowered(s@.take(i as int)).push(
            lowered_char(s@[i as int]),
        ));
        i = i + 1;
    }
    assert(s@.take(s@.len() as int) =~= s@);
    out
}

/// `s` with every `_` turned into a space.
pub open spec fn spaced(s: Seq<char>) -> Seq<char> {
    s.map_values(|c: char| if c == '_' { ' ' } else { c })
}

/// Turns every `_` into a space.
pub fn space_underscores(s: &str) -> (r: String)
    ensures
        r@ == spaced(s@),
{
    let chars = chars_of(s);
    let mut out = String::new();
    let mut i: usize = 0;
    while i < chars.len()
        invariant
            chars@ == s@,
            i <= chars.len(),
            out@ == spaced(s@.take(i as int)),
        decreases chars.len() - i,
    {
        out.push(if chars[i] == '_' { ' ' } else { chars[i] });
        assert(spaced(s@.take(i + 1)) =~= spaced(s@.take(i as int)).push(
            if s@[i as int] == '_' { ' ' } else { s@[i as int] },
        ));
        i = i + 1;
    }
    assert(s@.take(s@.len() as int) =~= s@);
    out
}

/// The lowercase form of a text by Unicode's mapping.
pub uninterp spec fn spec_lowercase(s: Seq<char>) -> Seq<char>;

/// `str::to_lowercase`, a function of the text alone.
#[verifier::external_body]
pub(crate) fn lowercase(s: &str) -> (r: String)
    ensures
        r@ == spec_lowercase(s@),
{
    s.to_lowercase()
}

/// A text in double quotes, escaped as source code would write it.
pub uninterp spec fn spec_quoted(s: Seq<char>) -> Seq<char>;

/// The `Debug` form of a text, a function of the text alone.
#[verifier::external_body]
pub(crate) fn quoted(s: &str) -> (r: String)
    ensures
        r@ == spec_quoted(s@),
{
    format!("{s:?}")
}

/// Whether `s` begins with `prefix`.
pub fn starts_with_text(s: &str, prefix: &str) -> (r: bool)
    ensures
        r == prefix@.is_prefix_of(s@),
{
    let a = chars_of(s);
    let b = chars_of(prefix);
    if b.len() > a.len() {
        return false;
    }
    let mut i: usize = 0;
    while i < b.len()
        invariant
            a@ == s@,
            b@ == prefix@,
            i <= b.len() <= a.len(),
            forall|j: int| 0 <= j < i ==> a@[j] == b@[j],
        decreases b.len() - i,
    {
        if a[i] != b[i] {
            assert(s@.subrange(0, b@.len() as int)[i as int] == s@[i as int]);
            return false;
        }
        i = i + 1;
    }
    assert(prefix@ =~= s@.subrange(0, prefix@.len() as int));
    true
}

/// Whether `s` ends with `suffix`.
pub fn ends_with_text(s: &str, suffix: &str) -> (r: bool)
    ensures
        r == suffix@.is_suffix_of(s@),
{
    let a = chars_of(s);
    let b = chars_of(suffix);
    if b.len() > a.len() {
        return false;
    }
    let from: usize = a.len() - b.len();
    let mut i: usize = 0;
    while i < b.len()
        invariant
            a@ == s@,
            b@ == suffix@,
            i <= b.len() <= a.len(),
            from == a.len() - b.len(),
            forall|j: int| 0 <= j < i ==> a@[from + j] == b@[j],
        decreases b.len() - i,
    {
        if a[from + i] != b[i] {
            assert(s@.subrange(from as int, s@.len() as int)[i as int] == s@[from + i]);
            return false;
        }
        i = i + 1;
    }
    assert(suffix@ =~= s@.subrange(from as int, s@.len() as int));
    true
}

} // verus!
