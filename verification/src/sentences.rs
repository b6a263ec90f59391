//! Dividing a text into sentences: full stops of abbreviations and decimal
//! numbers are hidden, the text is cut after each sentence end, and the
//! pieces are trimmed.
use vstd::prelude::*;
use vstd::utf8::encode_utf8;
use crate::patterns::{match_spans, ordered_spans, regex_compiles, Pattern};
use crate::text::{
    chars_of, lemma_encode_utf8_concat, lemma_trim_end_drops_white, lemma_trim_ends_not_white,
    lemma_trim_of_trimmed, lemma_trim_start_keeps_tail, push_char, trim, trim_bounds, trim_end, trim_start,
    unicode_white_space, utf8_len,
};

verus! {

broadcast use vstd::string::group_string_axioms;

/// Stands in for a full stop that does not end a sentence while the text is split.
pub const PLACEHOLDER: char = '\u{FFFC}';

/// Abbreviations whose full stop does not end a sentence.
pub const ABBREV_PATTERN: &'static str = r"(?i)\b(Mr|Mrs|Ms|Dr|Prof|Sr|Jr|St|Gen|Gov|Sgt|Cpl|Pvt|e\.g|i\.e|vs|etc|al|approx|dept|est|inc|ltd|co|corp|no|vol|rev|Jan|Feb|Mar|Apr|Jun|Jul|Aug|Sep|Oct|Nov|Dec)\.";

/// A decimal point between two digits.
pub const NUM_PATTERN: &'static str = r"(\d)\.(\d)";

/// The end of a sentence: a run of `.`, `!` or `?` and the whitespace after it.
pub const SPLIT_PATTERN: &'static str = r"[.!?]+\s*";

/// Whether some span holds the byte offset `b`.
pub open spec fn in_some_span(spans: Seq<(usize, usize)>, b: int) -> bool {
    exists|i: int| #![trigger spans[i]] 0 <= i < spans.len() && spans[i].0 <= b < spans[i].1
}

/// `s` with every full stop that starts inside a span replaced by the placeholder.
pub open spec fn protect(s: Seq<char>, spans: Seq<(usize, usize)>) -> Seq<char> {
    Seq::new(
        s.len(),
        |k: int|
            if s[k] == '.' && in_some_span(spans, utf8_len(s.take(k)) as int) {
                PLACEHOLDER
            } else {
                s[k]
            },
    )
}

/// Whether `c` ends a sentence.
pub open spec fn ends_sentence(c: char) -> bool {
    c == '.' || c == '!' || c == '?'
}

/// Whether every character of `s` ends a sentence.
pub open spec fn all_sentence_ends(s: Seq<char>) -> bool {
    forall|i: int| 0 <= i < s.len() ==> ends_sentence(#[trigger] s[i])
}

/// Whether every character of `s` is whitespace.
pub open spec fn all_white_space(s: Seq<char>) -> bool {
    forall|i: int| 0 <= i < s.len() ==> unicode_white_space(#[trigger] s[i])
}

/// What a match of `SPLIT_PATTERN` covers: one or more of `.`, `!` and `?`,
/// then whitespace only.
pub open spec fn sentence_end_run(m: Seq<char>) -> bool {
    exists|k: int| 1 <= k <= m.len() && #[trigger] all_sentence_ends(m.take(k)) && all_white_space(m.skip(k))
}

/// Whether each of `spans` covers a sentence end run of `s`.
pub open spec fn spans_cover_sentence_ends(s: Seq<char>, spans: Seq<(usize, usize)>) -> bool {
    forall|i: int| #![trigger spans[i]] 0 <= i < spans.len() ==> sentence_end_run(
        chars_between(s, spans[i].0 as int, spans[i].1 as int),
    )
}

/// Whether each of `spans` covers text of `s` that ends with a full stop:
/// what a match of `ABBREV_PATTERN` covers.
pub open spec fn spans_end_with_full_stop(s: Seq<char>, spans: Seq<(usize, usize)>) -> bool {
    forall|i: int| #![trigger spans[i]] 0 <= i < spans.len() ==> {
        let m = chars_between(s, spans[i].0 as int, spans[i].1 as int);
        m.len() > 0 && m.last() == '.'
    }
}

/// Whether each of `spans` covers three characters of `s`, the middle one a
/// full stop: what a match of `NUM_PATTERN` covers.
pub open spec fn spans_hold_decimal_points(s: Seq<char>, spans: Seq<(usize, usize)>) -> bool {
    forall|i: int| #![trigger spans[i]] 0 <= i < spans.len() ==> {
        let m = chars_between(s, spans[i].0 as int, spans[i].1 as int);
        m.len() == 3 && m[1] == '.'
    }
}

/// `s` with every placeholder turned back into a full stop.
pub open spec fn restore(s: Seq<char>) -> Seq<char> {
    s.map_values(|c: char| if c == PLACEHOLDER { '.' } else { c })
}

/// The characters of `s` whose encoding starts at a byte offset in `[lo, hi)`.
pub open spec fn chars_between(s: Seq<char>, lo: int, hi: int) -> Seq<char>
    decreases s.len(),
{
    if s.len() == 0 {
        seq![]
    } else {
        let rest = chars_between(s.drop_last(), lo, hi);
        let p = utf8_len(s.drop_last()) as int;
        if lo <= p < hi {
            rest.push(s.last())
        } else {
            rest
        }
    }
}

/// The pieces of `s` that end at the end of each span, and the rest after the last one.
pub open spec fn chunks(s: Seq<char>, spans: Seq<(usize, usize)>) -> Seq<Seq<char>> {
    Seq::new(
        spans.len() + 1,
        |i: int|
            chars_between(
                s,
                if i == 0 {
                    0
                } else {
                    spans[i - 1].1 as int
                },
                if i < spans.len() {
                    spans[i].1 as int
                } else {
                    utf8_len(s) as int
                },
            ),
    )
}

/// The sentences that the pieces hold: each trimmed, the empty ones left
/// out, and the placeholders turned back into full stops.
pub open spec fn sentences_from(pieces: Seq<Seq<char>>) -> Seq<Seq<char>>
    decreases pieces.len(),
{
    if pieces.len() == 0 {
        seq![]
    } else {
        let rest = sentences_from(pieces.drop_last());
        let t = trim(pieces.last());
        if t.len() == 0 {
            rest
        } else {
            rest.push(restore(t))
        }
    }
}

/// The text with the full stops of abbreviations, then those of decimal
/// numbers, replaced by the placeholder.
pub open spec fn protected_text(text: Seq<char>) -> Seq<char> {
    let first = abbreviations_protected(text);
    protect(first, match_spans(NUM_PATTERN@, first))
}

/// The text with the full stops of abbreviations replaced by the placeholder.
pub open spec fn abbreviations_protected(text: Seq<char>) -> Seq<char> {
    protect(text, match_spans(ABBREV_PATTERN@, text))
}

/// The sentences of `text`.
pub open spec fn sentences_of(text: Seq<char>) -> Seq<Seq<char>> {
    let p = protected_text(text);
    sentences_from(chunks(p, match_spans(SPLIT_PATTERN@, p)))
}

/// `char::len_utf8`: the number of bytes of the UTF-8 encoding of `c`,
/// between 1 and 4.
#[verifier::external_body]
fn utf8_width(c: char) -> (r: usize)
    ensures
        r == utf8_len(seq![c]),
        1 <= r <= 4,
{
    c.len_utf8()
}

/// The byte offset of a character is that of the one before it plus the width of that one.
proof fn lemma_utf8_len_step(s: Seq<char>, k: int)
    requires
        0 <= k < s.len(),
    ensures
        utf8_len(s.take(k + 1)) == utf8_len(s.take(k)) + utf8_len(seq![s[k]]),
{
    lemma_encode_utf8_concat(s.take(k), seq![s[k]]);
    assert(s.take(k + 1) =~= s.take(k) + seq![s[k]]);
}

/// Byte offsets grow with the number of characters before them.
proof fn lemma_utf8_len_grows(s: Seq<char>, i: int, k: int)
    requires
        0 <= i < k <= s.len(),
        forall|c: char| #[trigger] utf8_len(seq![c]) >= 1,
    ensures
        utf8_len(s.take(i)) < utf8_len(s.take(k)),
    decreases k - i,
{
    lemma_utf8_len_step(s, k - 1);
    assert(utf8_len(seq![s[k - 1]]) >= 1);
    if i < k - 1 {
        lemma_utf8_len_grows(s, i, k - 1);
    }
}

/// A character encodes to at least one byte.
proof fn lemma_utf8_len_single(c: char)
    ensures
        utf8_len(seq![c]) >= 1,
{
    reveal_with_fuel(encode_utf8, 2);
    assert(seq![c].drop_first() =~= Seq::<char>::empty());
}

/// No character of `t` starts at or after `lo` where the last one starts before it.
proof fn lemma_chars_between_none(t: Seq<char>, lo: int, hi: int)
    requires
        t.len() == 0 || utf8_len(t.drop_last()) < lo,
    ensures
        chars_between(t, lo, hi) == Seq::<char>::empty(),
    decreases t.len(),
{
    if t.len() > 0 {
        let u = t.drop_last();
        if u.len() > 0 {
            lemma_utf8_len_step(u, u.len() - 1);
            lemma_utf8_len_single(u[u.len() - 1]);
            assert(u.take(u.len() - 1) =~= u.drop_last());
            assert(u.take(u.len() as int) =~= u);
        }
        lemma_chars_between_none(u, lo, hi);
    }
}

/// The characters of `s` in `[lo, hi)` are those of a prefix that reaches `hi`.
proof fn lemma_chars_between_prefix(s: Seq<char>, k: int, lo: int, hi: int)
    requires
        0 <= k <= s.len(),
        hi <= utf8_len(s.take(k)),
    ensures
        chars_between(s, lo, hi) == chars_between(s.take(k), lo, hi),
    decreases s.len() - k,
{
    if k == s.len() {
        assert(s.take(k) =~= s);
    } else {
        let u = s.drop_last();
        assert(u.take(k) =~= s.take(k));
        if k < u.len() {
            assert forall|c: char| #[trigger] utf8_len(seq![c]) >= 1 by {
                lemma_utf8_len_single(c);
            }
            lemma_utf8_len_grows(u, k, u.len() as int);
        }
        assert(u.take(u.len() as int) =~= u);
        lemma_chars_between_prefix(u, k, lo, hi);
    }
}

/// Builds `v[a..b]` with every placeholder turned back into a full stop.
fn restored_string(v: &Vec<char>, a: usize, b: usize) -> (r: String)
    requires
        a <= b <= v.len(),
    ensures
        r@ == restore(v@.subrange(a as int, b as int)),
{
    let mut r = String::new();
    let mut i = a;
    while i < b
        invariant
            a <= i <= b <= v.len(),
            r@ == restore(v@.subrange(a as int, i as int)),
        decreases b - i,
    {
        let c = v[i];
        if c == PLACEHOLDER {
            push_char(&mut r, '.');
        } else {
            push_char(&mut r, c);
        }
        assert(restore(v@.subrange(a as int, i + 1)) =~= restore(v@.subrange(a as int, i as int)).push(
            if c == PLACEHOLDER { '.' } else { c },
        ));
        i += 1;
    }
    r
}

/// `text` with every full stop that starts inside one of `spans` replaced by the placeholder.
#[verifier::loop_isolation(false)]
pub fn protect_spans(text: &str, spans: &Vec<(usize, usize)>) -> (r: String)
    requires
        ordered_spans(spans@, utf8_len(text@)),
    ensures
        r@ == protect(text@, spans@),
{
    let v = chars_of(text);
    let ghost s = text@;
    let ghost goal = protect(s, spans@);
    let mut out = String::new();
    let mut b: u128 = 0;
    let mut j: usize = 0;
    let mut k: usize = 0;
    assert(s.take(0) =~= Seq::<char>::empty());
    assert(utf8_len(Seq::<char>::empty()) == 0) by {
        assert(encode_utf8(Seq::<char>::empty()) =~= Seq::<u8>::empty());
    }
    while k < v.len()
        invariant
            k <= v@.len(),
            j <= spans@.len(),
            b == utf8_len(s.take(k as int)),
            b <= 4 * k,
            forall|i: int| 0 <= i < j ==> spans@[i].1 <= b,
            out@ == goal.take(k as int),
        decreases v@.len() - k,
    {
        while j < spans.len() && (spans[j].1 as u128) <= b
            invariant
                j <= spans@.len(),
                forall|i: int| 0 <= i < j ==> spans@[i].1 <= b,
            decreases spans@.len() - j,
        {
            j += 1;
        }
        let inside = j < spans.len() && (spans[j].0 as u128) <= b;
        assert(inside == in_some_span(spans@, b as int)) by {
            if !inside && in_some_span(spans@, b as int) {
                let i = choose|i: int| #![trigger spans@[i]] 0 <= i < spans@.len() && spans@[i].0 <= b < spans@[i].1;
                if i > j {
                    assert(spans@[j as int].1 <= spans@[i].0);
                }
            }
        }
        let c = v[k];
        if c == '.' && inside {
            push_char(&mut out, PLACEHOLDER);
        } else {
            push_char(&mut out, c);
        }
        assert(goal.take(k + 1) =~= goal.take(k as int).push(goal[k as int]));
        proof {
            lemma_utf8_len_step(s, k as int);
        }
        let w = utf8_width(c);
        b = b + w as u128;
        k += 1;
    }
    assert(goal.take(v@.len() as int) =~= goal);
    out
}

/// The sentences that the pieces of `text` ending at the end of each span hold.
#[verifier::loop_isolation(false)]
#[verifier::rlimit(40)]
pub fn sentences_in(text: &str, spans: &Vec<(usize, usize)>) -> (r: Vec<String>)
    requires
        ordered_spans(spans@, utf8_len(text@)),
    ensures
        r@.map_values(|x: String| x@) == sentences_from(chunks(text@, spans@)),
{
    let v = chars_of(text);
    let ghost s = text@;
    let ghost pieces = chunks(s, spans@);
    let m = spans.len();
    let mut out: Vec<String> = Vec::new();
    let mut cur: Vec<char> = Vec::new();
    let mut b: u128 = 0;
    let mut j: usize = 0;
    let mut k: usize = 0;
    assert(s.take(0) =~= Seq::<char>::empty());
    assert(utf8_len(Seq::<char>::empty()) == 0) by {
        assert(encode_utf8(Seq::<char>::empty()) =~= Seq::<u8>::empty());
    }
    assert(pieces.take(0) =~= Seq::<Seq<char>>::empty());
    assert forall|c: char| #[trigger] utf8_len(seq![c]) >= 1 by {
        lemma_utf8_len_single(c);
    }
    loop
        invariant
            k <= v@.len(),
            j <= m,
            m == spans@.len(),
            b == utf8_len(s.take(k as int)),
            b <= 4 * k,
            forall|i: int| 0 <= i < j ==> spans@[i].1 <= b,
            k > 0 && j < m ==> utf8_len(s.take(k - 1)) < spans@[j as int].1,
            cur@ == chars_between(
                s.take(k as int),
                if j == 0 {
                    0
                } else {
                    spans@[j - 1].1 as int
                },
                if j < m {
                    spans@[j as int].1 as int
                } else {
                    utf8_len(s) as int
                },
            ),
            out@.map_values(|x: String| x@) == sentences_from(pieces.take(j as int)),
        decreases v@.len() - k, m - j,
    {
        while j < m && (spans[j].1 as u128) <= b
            invariant
                j <= m,
                forall|i: int| 0 <= i < j ==> spans@[i].1 <= b,
                k > 0 && j < m ==> utf8_len(s.take(k - 1)) < spans@[j as int].1,
                cur@ == chars_between(
                    s.take(k as int),
                    if j == 0 {
                        0
                    } else {
                        spans@[j - 1].1 as int
                    },
                    if j < m {
                        spans@[j as int].1 as int
                    } else {
                        utf8_len(s) as int
                    },
                ),
                out@.map_values(|x: String| x@) == sentences_from(pieces.take(j as int)),
            decreases m - j,
        {
            let ghost lo = if j == 0 { 0 } else { spans@[j - 1].1 as int };
            proof {
                lemma_chars_between_prefix(s, k as int, lo, spans@[j as int].1 as int);
            }
            assert(pieces[j as int] == cur@);
            assert(pieces.take(j + 1).drop_last() =~= pieces.take(j as int));
            let (a, c) = trim_bounds(&cur, 0, cur.len());
            assert(cur@.subrange(0, cur@.len() as int) =~= cur@);
            if a < c {
                let ghost before = out@;
                let sentence = restored_string(&cur, a, c);
                out.push(sentence);
                assert(out@.map_values(|x: String| x@) =~= before.map_values(|x: String| x@).push(sentence@));
            }
            cur = Vec::new();
            proof {
                if k > 0 {
                    assert(s.take(k as int).drop_last() =~= s.take(k - 1));
                }
                if j + 1 < m {
                    assert(spans@[j as int].1 <= spans@[j + 1].0);
                }
                lemma_chars_between_none(
                    s.take(k as int),
                    spans@[j as int].1 as int,
                    if j + 1 < m {
                        spans@[j + 1].1 as int
                    } else {
                        utf8_len(s) as int
                    },
                );
            }
            j += 1;
        }
        if k == v.len() {
            break;
        }
        let ch = v[k];
        proof {
            lemma_utf8_len_step(s, k as int);
            assert(s.take(k + 1).drop_last() =~= s.take(k as int));
            if j == m {
                lemma_utf8_len_grows(s, k as int, s.len() as int);
                assert(s.take(s.len() as int) =~= s);
            }
        }
        cur.push(ch);
        let w = utf8_width(ch);
        b = b + w as u128;
        k += 1;
    }
    assert(s.take(k as int) =~= s);
    assert(pieces.take(m as int + 1).drop_last() =~= pieces.take(m as int));
    assert(pieces[m as int] == cur@);
    let (a, c) = trim_bounds(&cur, 0, cur.len());
    assert(cur@.subrange(0, cur@.len() as int) =~= cur@);
    if a < c {
        let ghost before = out@;
        let sentence = restored_string(&cur, a, c);
        out.push(sentence);
        assert(out@.map_values(|x: String| x@) =~= before.map_values(|x: String| x@).push(sentence@));
    }
    assert(pieces.take(m as int + 1) =~= pieces);
    out
}

/// The three patterns that divide a text into sentences.
struct SentenceSplitter {
    abbrev_re: Pattern,
    num_re: Pattern,
    split_re: Pattern,
}

impl SentenceSplitter {
    /// Each pattern is compiled from its own source.
    #[verifier::type_invariant]
    spec fn compiled_from_sources(&self) -> bool {
        &&& self.abbrev_re.source() == ABBREV_PATTERN@
        &&& self.num_re.source() == NUM_PATTERN@
        &&& self.split_re.source() == SPLIT_PATTERN@
    }

    fn new() -> (r: Result<Self, regex::Error>)
        ensures
            r is Ok <==> regex_compiles(ABBREV_PATTERN@) && regex_compiles(NUM_PATTERN@)
                && regex_compiles(SPLIT_PATTERN@),
    {
        let abbrev_re = Pattern::compile(ABBREV_PATTERN)?;
        let num_re = Pattern::compile(NUM_PATTERN)?;
        let split_re = Pattern::compile(SPLIT_PATTERN)?;
        Ok(SentenceSplitter { abbrev_re, num_re, split_re })
    }

    fn split(&self, text: &str) -> (r: Vec<String>)
        ensures
            r@.map_values(|x: String| x@) == sentences_of(text@),
    {
        proof {
            use_type_invariant(self);
        }
        let abbreviations = self.abbrev_re.find_spans(text);
        let first = protect_spans(text, &abbreviations);
        let decimal_points = self.num_re.find_spans(first.as_str());
        let protected = protect_spans(first.as_str(), &decimal_points);
        let ends = self.split_re.find_spans(protected.as_str());
        sentences_in(protected.as_str(), &ends)
    }
}

/// Divides `text` into sentences: after each run of `.`, `!` or `?` and the
/// whitespace after it, except at the full stop of a common abbreviation or
/// a decimal point; each sentence trimmed, the empty ones left out. The
/// error is that of compiling the patterns.
pub fn split_sentences(text: &str) -> (r: Result<Vec<String>, regex::Error>)
    ensures
        r is Ok <==> regex_compiles(ABBREV_PATTERN@) && regex_compiles(NUM_PATTERN@) && regex_compiles(
            SPLIT_PATTERN@,
        ),
        r matches Ok(v) ==> v@.map_values(|x: String| x@) == sentences_of(text@),
{
    let splitter = SentenceSplitter::new()?;
    Ok(splitter.split(text))
}

/// Every sentence that splitting yields holds at least one character, no
/// placeholder, and no whitespace at either end: placeholders never leak into
/// the result, and each sentence is its own trim.
pub proof fn law_sentences_are_clean(text: Seq<char>)
    ensures
        forall|i: int| 0 <= i < sentences_of(text).len() ==> (#[trigger] sentences_of(text)[i]).len() > 0,
        forall|i: int|
            0 <= i < sentences_of(text).len() ==> trim(#[trigger] sentences_of(text)[i]) == sentences_of(text)[i],
        forall|i: int, k: int|
            0 <= i < sentences_of(text).len() && 0 <= k < sentences_of(text)[i].len() ==> #[trigger] sentences_of(
                text,
            )[i][k] != PLACEHOLDER,
{
    let p = protected_text(text);
    lemma_sentences_clean(chunks(p, match_spans(SPLIT_PATTERN@, p)));
}

/// A trimmed, non-empty text with its placeholders restored is still trimmed.
proof fn lemma_restore_trimmed(piece: Seq<char>)
    requires
        trim(piece).len() > 0,
    ensures
        trim(restore(trim(piece))) == restore(trim(piece)),
{
    let t = trim(piece);
    lemma_trim_ends_not_white(piece);
    let r = restore(t);
    assert(r[0] == (if t[0] == PLACEHOLDER { '.' } else { t[0] }));
    assert(r.last() == (if t.last() == PLACEHOLDER { '.' } else { t.last() }));
    lemma_trim_of_trimmed(r);
}

proof fn lemma_sentences_clean(pieces: Seq<Seq<char>>)
    ensures
        forall|i: int| 0 <= i < sentences_from(pieces).len() ==> (#[trigger] sentences_from(pieces)[i]).len() > 0,
        forall|i: int|
            0 <= i < sentences_from(pieces).len() ==> trim(#[trigger] sentences_from(pieces)[i])
                == sentences_from(pieces)[i],
        forall|i: int, k: int|
            0 <= i < sentences_from(pieces).len() && 0 <= k < sentences_from(pieces)[i].len()
                ==> #[trigger] sentences_from(pieces)[i][k] != PLACEHOLDER,
    decreases pieces.len(),
{
    if pieces.len() > 0 {
        lemma_sentences_clean(pieces.drop_last());
        let rest = sentences_from(pieces.drop_last());
        let t = trim(pieces.last());
        if t.len() > 0 {
            lemma_restore_trimmed(pieces.last());
            assert forall|i: int| 0 <= i < sentences_from(pieces).len() implies trim(
                #[trigger] sentences_from(pieces)[i],
            ) == sentences_from(pieces)[i] by {
                if i < rest.len() {
                    assert(sentences_from(pieces)[i] == rest[i]);
                }
            }
            assert forall|i: int, k: int|
                0 <= i < sentences_from(pieces).len() && 0 <= k < sentences_from(pieces)[i].len()
                implies #[trigger] sentences_from(pieces)[i][k] != PLACEHOLDER by {
                if i < rest.len() {
                    assert(sentences_from(pieces)[i] == rest[i]);
                } else {
                    assert(sentences_from(pieces)[i] == restore(t));
                }
            }
        }
    }
}

/// Protecting full stops and restoring the placeholders gives back the text
/// with its own placeholders turned into full stops: protection only ever
/// hides full stops.
pub proof fn law_restore_undoes_protect(s: Seq<char>, spans: Seq<(usize, usize)>)
    ensures
        restore(protect(s, spans)) == restore(s),
{
    assert(restore(protect(s, spans)) =~= restore(s));
}

/// The pieces one after the other.
pub open spec fn concat_all(pieces: Seq<Seq<char>>) -> Seq<char>
    decreases pieces.len(),
{
    if pieces.len() == 0 {
        seq![]
    } else {
        concat_all(pieces.drop_last()) + pieces.last()
    }
}

proof fn lemma_chars_between_split(s: Seq<char>, lo: int, mid: int, hi: int)
    requires
        lo <= mid <= hi,
    ensures
        chars_between(s, lo, mid) + chars_between(s, mid, hi) == chars_between(s, lo, hi),
    decreases s.len(),
{
    if s.len() == 0 {
        assert(Seq::<char>::empty() + Seq::<char>::empty() =~= Seq::<char>::empty());
    } else {
        let d = s.drop_last();
        let c = s.last();
        let p = utf8_len(d) as int;
        lemma_chars_between_split(d, lo, mid, hi);
        let a = chars_between(d, lo, mid);
        let b = chars_between(d, mid, hi);
        if lo <= p < mid {
            if d.len() > 0 {
                lemma_utf8_len_step(d, d.len() - 1);
                lemma_utf8_len_single(d.last());
                assert(d.take(d.len() - 1) =~= d.drop_last());
                assert(d.take(d.len() as int) =~= d);
            }
            lemma_chars_between_none(d, mid, hi);
            assert(a.push(c) + b =~= (a + b).push(c));
        } else if mid <= p < hi {
            assert(a + b.push(c) =~= (a + b).push(c));
        }
    }
}

proof fn lemma_chars_between_all(s: Seq<char>, hi: int)
    requires
        utf8_len(s) <= hi,
    ensures
        chars_between(s, 0, hi) == s,
    decreases s.len(),
{
    if s.len() > 0 {
        let u = s.drop_last();
        lemma_utf8_len_step(s, s.len() - 1);
        lemma_utf8_len_single(s.last());
        assert(s.take(s.len() - 1) =~= u);
        assert(s.take(s.len() as int) =~= s);
        lemma_chars_between_all(u, hi);
        assert(u.push(s.last()) =~= s);
    }
}

/// Cutting a text at the ends of ordered spans loses nothing: the pieces,
/// before they are trimmed, make up the text exactly.
pub proof fn law_pieces_make_up_text(s: Seq<char>, spans: Seq<(usize, usize)>)
    requires
        ordered_spans(spans, utf8_len(s)),
    ensures
        concat_all(chunks(s, spans)) == s,
{
    let pieces = chunks(s, spans);
    let m = spans.len() as int;
    assert forall|i: int| 0 <= i <= m implies concat_all(#[trigger] pieces.take(i + 1)) == chars_between(
        s,
        0,
        if i < m {
            spans[i].1 as int
        } else {
            utf8_len(s) as int
        },
    ) by {
        lemma_prefix_pieces(s, spans, i);
    }
    assert(pieces.take(m + 1) =~= pieces);
    lemma_chars_between_all(s, utf8_len(s) as int);
}

proof fn lemma_prefix_pieces(s: Seq<char>, spans: Seq<(usize, usize)>, i: int)
    requires
        ordered_spans(spans, utf8_len(s)),
        0 <= i <= spans.len(),
    ensures
        concat_all(chunks(s, spans).take(i + 1)) == chars_between(
            s,
            0,
            if i < spans.len() {
                spans[i].1 as int
            } else {
                utf8_len(s) as int
            },
        ),
    decreases i,
{
    let pieces = chunks(s, spans);
    let hi = if i < spans.len() {
        spans[i].1 as int
    } else {
        utf8_len(s) as int
    };
    assert(pieces.take(i + 1).drop_last() =~= pieces.take(i));
    assert(pieces.take(i + 1).last() == pieces[i]);
    if i == 0 {
        assert(pieces.take(0) =~= Seq::<Seq<char>>::empty());
        assert(concat_all(pieces.take(0)) == Seq::<char>::empty());
        assert(Seq::<char>::empty() + pieces[0] =~= pieces[0]);
        assert(pieces[0] == chars_between(s, 0, hi));
    } else {
        lemma_prefix_pieces(s, spans, i - 1);
        let lo = spans[i - 1].1 as int;
        assert(spans[i - 1].0 <= spans[i - 1].1 && spans[i - 1].1 <= utf8_len(s));
        if i < spans.len() {
            assert(spans[i - 1].1 <= spans[i].0);
            assert(spans[i].0 <= spans[i].1);
        }
        assert(pieces[i] == chars_between(s, lo, hi));
        lemma_chars_between_split(s, 0, lo, hi);
    }
}

/// Dividing a text into sentences loses nothing but whitespace around them:
/// the pieces it is cut into make up the text again once the placeholders
/// are turned back into full stops (for a text without placeholders, the
/// text itself). The spans are those that `Regex::find_iter` yields.
pub proof fn law_sentence_pieces_make_up_text(text: Seq<char>)
    requires
        ordered_spans(match_spans(SPLIT_PATTERN@, protected_text(text)), utf8_len(protected_text(text))),
    ensures
        restore(concat_all(chunks(protected_text(text), match_spans(SPLIT_PATTERN@, protected_text(text)))))
            == restore(text),
        (forall|k: int| 0 <= k < text.len() ==> text[k] != PLACEHOLDER) ==> restore(text) == text,
{
    let first = protect(text, match_spans(ABBREV_PATTERN@, text));
    let p = protected_text(text);
    law_pieces_make_up_text(p, match_spans(SPLIT_PATTERN@, p));
    law_restore_undoes_protect(first, match_spans(NUM_PATTERN@, first));
    law_restore_undoes_protect(text, match_spans(ABBREV_PATTERN@, text));
    assert(restore(first) == restore(text));
    if forall|k: int| 0 <= k < text.len() ==> text[k] != PLACEHOLDER {
        assert(restore(text) =~= text);
    }
}

/// A piece that closes with a sentence end run, once trimmed, is not empty
/// and ends with the last sentence end of that run.
proof fn lemma_trim_before_run(x: Seq<char>, m: Seq<char>)
    requires
        sentence_end_run(m),
    ensures
        trim(x + m).len() > 0,
        ends_sentence(trim(x + m).last()),
{
    let k = choose|k: int| 1 <= k <= m.len() && #[trigger] all_sentence_ends(m.take(k)) && all_white_space(m.skip(k));
    let e = m.take(k);
    let w = m.skip(k);
    let q = x + e;
    assert(x + m =~= q + w);
    assert(q.last() == e[k - 1]);
    assert(ends_sentence(e[k - 1]));
    lemma_trim_start_keeps_tail(q, w);
    let t = trim_start(q);
    lemma_trim_end_drops_white(t, w);
    assert(trim_end(t) == t);
}

/// Each piece that a span closes, once trimmed, is not empty and ends with a
/// sentence end.
proof fn lemma_closed_piece_ends_sentence(s: Seq<char>, spans: Seq<(usize, usize)>, i: int)
    requires
        ordered_spans(spans, utf8_len(s)),
        spans_cover_sentence_ends(s, spans),
        0 <= i < spans.len(),
    ensures
        trim(chunks(s, spans)[i]).len() > 0,
        ends_sentence(trim(chunks(s, spans)[i]).last()),
{
    let lo = if i == 0 {
        0
    } else {
        spans[i - 1].1 as int
    };
    if i > 0 {
        assert(spans[i - 1].1 <= spans[i].0);
    }
    assert(spans[i].0 <= spans[i].1);
    lemma_chars_between_split(s, lo, spans[i].0 as int, spans[i].1 as int);
    assert(chunks(s, spans)[i] == chars_between(s, lo, spans[i].1 as int));
    lemma_trim_before_run(
        chars_between(s, lo, spans[i].0 as int),
        chars_between(s, spans[i].0 as int, spans[i].1 as int),
    );
}

/// Where the first `j` pieces are not blank, each of them gives one sentence.
proof fn lemma_sentences_of_full_pieces(pieces: Seq<Seq<char>>, j: int)
    requires
        0 <= j <= pieces.len(),
        forall|i: int| 0 <= i < j ==> trim(#[trigger] pieces[i]).len() > 0,
    ensures
        sentences_from(pieces.take(j)) == Seq::new(j as nat, |i: int| restore(trim(pieces[i]))),
    decreases j,
{
    if j == 0 {
        assert(pieces.take(0) =~= Seq::<Seq<char>>::empty());
        assert(Seq::new(0, |i: int| restore(trim(pieces[i]))) =~= Seq::<Seq<char>>::empty());
    } else {
        lemma_sentences_of_full_pieces(pieces, j - 1);
        assert(pieces.take(j).drop_last() =~= pieces.take(j - 1));
        assert(pieces.take(j).last() == pieces[j - 1]);
        assert(sentences_from(pieces.take(j)) =~= Seq::new(j as nat, |i: int| restore(trim(pieces[i]))));
    }
}

/// A text is cut only after a sentence end: every sentence but the last
/// ends with `.`, `!` or `?`, and each sentence end found closes a sentence
/// of its own. The spans are those that `Regex::find_iter` yields.
pub proof fn law_sentences_end_at_sentence_ends(text: Seq<char>)
    requires
        ordered_spans(match_spans(SPLIT_PATTERN@, protected_text(text)), utf8_len(protected_text(text))),
        spans_cover_sentence_ends(protected_text(text), match_spans(SPLIT_PATTERN@, protected_text(text))),
    ensures
        sentences_of(text).len() >= match_spans(SPLIT_PATTERN@, protected_text(text)).len(),
        forall|i: int|
            0 <= i < sentences_of(text).len() - 1 ==> ends_sentence((#[trigger] sentences_of(text)[i]).last()),
{
    let p = protected_text(text);
    let spans = match_spans(SPLIT_PATTERN@, p);
    let pieces = chunks(p, spans);
    let n = spans.len() as int;
    assert forall|i: int| 0 <= i < n implies trim(#[trigger] pieces[i]).len() > 0 && ends_sentence(
        trim(pieces[i]).last(),
    ) by {
        lemma_closed_piece_ends_sentence(p, spans, i);
    }
    lemma_sentences_of_full_pieces(pieces, n);
    assert(pieces.drop_last() =~= pieces.take(n));
    let front = sentences_from(pieces.take(n));
    assert forall|i: int| 0 <= i < sentences_of(text).len() - 1 implies ends_sentence(
        (#[trigger] sentences_of(text)[i]).last(),
    ) by {
        assert(sentences_of(text)[i] == front[i]);
        let t = trim(pieces[i]);
        assert(ends_sentence(t.last()));
        assert(restore(t).last() == t.last());
    }
}

/// Each character that `chars_between` keeps is a character of `t` whose
/// byte offset lies in `[lo, hi)`.
proof fn lemma_chars_between_source(t: Seq<char>, lo: int, hi: int, j: int) -> (k: int)
    requires
        0 <= j < chars_between(t, lo, hi).len(),
    ensures
        0 <= k < t.len(),
        t[k] == chars_between(t, lo, hi)[j],
        lo <= utf8_len(t.take(k)) < hi,
    decreases t.len(),
{
    let u = t.drop_last();
    let rest = chars_between(u, lo, hi);
    let p = utf8_len(u) as int;
    if lo <= p < hi && j == rest.len() {
        assert(t.take(t.len() - 1) =~= u);
        t.len() - 1
    } else {
        let k = lemma_chars_between_source(u, lo, hi, j);
        assert(u.take(k) =~= t.take(k));
        k
    }
}

/// A character of `t` whose byte offset lies in `[lo, hi)` is kept by `chars_between`.
proof fn lemma_chars_between_keeps(t: Seq<char>, lo: int, hi: int, k: int) -> (j: int)
    requires
        0 <= k < t.len(),
        lo <= utf8_len(t.take(k)) < hi,
    ensures
        0 <= j < chars_between(t, lo, hi).len(),
        chars_between(t, lo, hi)[j] == t[k],
    decreases t.len(),
{
    let u = t.drop_last();
    let rest = chars_between(u, lo, hi);
    if k == t.len() - 1 {
        assert(t.take(k) =~= u);
        rest.len() as int
    } else {
        assert(u.take(k) =~= t.take(k));
        lemma_chars_between_keeps(u, lo, hi, k)
    }
}

/// A placeholder lies in no sentence-end match: such a match covers only
/// sentence ends and whitespace.
proof fn lemma_placeholder_not_cut(p: Seq<char>, spans: Seq<(usize, usize)>, k: int)
    requires
        spans_cover_sentence_ends(p, spans),
        0 <= k < p.len(),
        p[k] == PLACEHOLDER,
    ensures
        !in_some_span(spans, utf8_len(p.take(k)) as int),
{
    let b = utf8_len(p.take(k)) as int;
    if in_some_span(spans, b) {
        let i = choose|i: int| #![trigger spans[i]] 0 <= i < spans.len() && spans[i].0 <= b < spans[i].1;
        let m = chars_between(p, spans[i].0 as int, spans[i].1 as int);
        let j = lemma_chars_between_keeps(p, spans[i].0 as int, spans[i].1 as int, k);
        assert(sentence_end_run(m));
        let k0 = choose|k0: int| 1 <= k0 <= m.len() && #[trigger] all_sentence_ends(m.take(k0)) && all_white_space(
            m.skip(k0),
        );
        if j < k0 {
            assert(m.take(k0)[j] == m[j]);
        } else {
            assert(m.skip(k0)[j - k0] == m[j]);
        }
    }
}

/// Whether the byte offset `b` lies in `span`.
pub open spec fn in_span(span: (usize, usize), b: int) -> bool {
    span.0 <= b < span.1
}

/// A full stop inside an abbreviation or a decimal number never ends a
/// sentence: it is a placeholder while the text is cut and lies in no
/// sentence-end match, so it comes back as a full stop inside its sentence.
/// The spans are those that `Regex::find_iter` yields.
pub proof fn law_protected_full_stops_never_cut(text: Seq<char>)
    requires
        spans_cover_sentence_ends(protected_text(text), match_spans(SPLIT_PATTERN@, protected_text(text))),
    ensures
        forall|k: int|
            #![trigger text[k]]
            0 <= k < text.len() && text[k] == '.' && in_some_span(
                match_spans(ABBREV_PATTERN@, text),
                utf8_len(text.take(k)) as int,
            ) ==> protected_text(text)[k] == PLACEHOLDER && !in_some_span(
                match_spans(SPLIT_PATTERN@, protected_text(text)),
                utf8_len(protected_text(text).take(k)) as int,
            ),
        forall|k: int|
            #![trigger abbreviations_protected(text)[k]]
            0 <= k < text.len() && abbreviations_protected(text)[k] == '.' && in_some_span(
                match_spans(NUM_PATTERN@, abbreviations_protected(text)),
                utf8_len(abbreviations_protected(text).take(k)) as int,
            ) ==> protected_text(text)[k] == PLACEHOLDER && !in_some_span(
                match_spans(SPLIT_PATTERN@, protected_text(text)),
                utf8_len(protected_text(text).take(k)) as int,
            ),
{
    let abbrev = match_spans(ABBREV_PATTERN@, text);
    let first = abbreviations_protected(text);
    let num = match_spans(NUM_PATTERN@, first);
    let p = protected_text(text);
    let split = match_spans(SPLIT_PATTERN@, p);
    assert(first.len() == text.len());
    assert(p.len() == text.len());
    assert forall|k: int|
        #![trigger text[k]]
        0 <= k < text.len() && text[k] == '.' && in_some_span(abbrev, utf8_len(text.take(k)) as int) implies p[k]
        == PLACEHOLDER && !in_some_span(split, utf8_len(p.take(k)) as int) by {
        assert(first[k] == PLACEHOLDER);
        assert(p[k] == PLACEHOLDER);
        lemma_placeholder_not_cut(p, split, k);
    }
    assert forall|k: int|
        #![trigger first[k]]
        0 <= k < text.len() && first[k] == '.' && in_some_span(num, utf8_len(first.take(k)) as int) implies p[k]
        == PLACEHOLDER && !in_some_span(split, utf8_len(p.take(k)) as int) by {
        assert(p[k] == PLACEHOLDER);
        lemma_placeholder_not_cut(p, split, k);
    }
}

/// The full stop that ends the `i`-th abbreviation match of `text` never
/// ends a sentence: it is the character `k` of `text`, a placeholder while
/// the text is cut, in no sentence-end match. The spans are those that
/// `Regex::find_iter` yields.
pub proof fn law_abbreviation_full_stop_never_cut(text: Seq<char>, i: int) -> (k: int)
    requires
        spans_end_with_full_stop(text, match_spans(ABBREV_PATTERN@, text)),
        spans_cover_sentence_ends(protected_text(text), match_spans(SPLIT_PATTERN@, protected_text(text))),
        0 <= i < match_spans(ABBREV_PATTERN@, text).len(),
    ensures
        0 <= k < text.len(),
        text[k] == '.',
        in_span(match_spans(ABBREV_PATTERN@, text)[i], utf8_len(text.take(k)) as int),
        protected_text(text)[k] == PLACEHOLDER,
        !in_some_span(match_spans(SPLIT_PATTERN@, protected_text(text)), utf8_len(protected_text(text).take(k)) as int),
{
    let abbrev = match_spans(ABBREV_PATTERN@, text);
    let m = chars_between(text, abbrev[i].0 as int, abbrev[i].1 as int);
    let k = lemma_chars_between_source(text, abbrev[i].0 as int, abbrev[i].1 as int, m.len() - 1);
    assert(in_some_span(abbrev, utf8_len(text.take(k)) as int));
    law_protected_full_stops_never_cut(text);
    k
}

/// The full stop in the middle of the `i`-th decimal match never ends a
/// sentence: it is the character `k` of the text, a placeholder while the
/// text is cut, in no sentence-end match. The decimal matches are searched in
/// the text whose abbreviations are already protected; the spans are those
/// that `Regex::find_iter` yields.
pub proof fn law_decimal_point_never_cut(text: Seq<char>, i: int) -> (k: int)
    requires
        spans_hold_decimal_points(
            abbreviations_protected(text),
            match_spans(NUM_PATTERN@, abbreviations_protected(text)),
        ),
        spans_cover_sentence_ends(protected_text(text), match_spans(SPLIT_PATTERN@, protected_text(text))),
        0 <= i < match_spans(NUM_PATTERN@, abbreviations_protected(text)).len(),
    ensures
        0 <= k < text.len(),
        abbreviations_protected(text)[k] == '.',
        in_span(
            match_spans(NUM_PATTERN@, abbreviations_protected(text))[i],
            utf8_len(abbreviations_protected(text).take(k)) as int,
        ),
        protected_text(text)[k] == PLACEHOLDER,
        !in_some_span(match_spans(SPLIT_PATTERN@, protected_text(text)), utf8_len(protected_text(text).take(k)) as int),
{
    let first = abbreviations_protected(text);
    let num = match_spans(NUM_PATTERN@, first);
    let k = lemma_chars_between_source(first, num[i].0 as int, num[i].1 as int, 1);
    assert(in_some_span(num, utf8_len(first.take(k)) as int));
    law_protected_full_stops_never_cut(text);
    k
}

} // verus!
