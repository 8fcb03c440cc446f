//! Cleaning up generated text: ASCII only, whole sentences only.
use vstd::prelude::*;
use vstd::std_specs::iter::IteratorSpec;
use vstd::string::{StrSliceExecFns, StringExecFns};

verus! {

broadcast use vstd::string::group_string_axioms;

/// Handles text processing and ASCII normalization.
pub struct TextProcessor;

/// The ASCII text that stands in for a character, for the characters that
/// have one.
pub open spec fn replacement(c: char) -> Option<&'static str> {
    match c {
        '«' | '»' => Some("\""),
        '`' | '´' => Some("'"),
        '—' | '–' | '−' | '‒' | '―' => Some("-"),
        '…' => Some("..."),
        'á' | 'à' | 'â' | 'ä' | 'ã' | 'å' | 'ā' => Some("a"),
        'æ' => Some("ae"),
        'ç' | 'č' | '¢' => Some("c"),
        'é' | 'è' | 'ê' | 'ë' | 'ē' => Some("e"),
        'í' | 'ì' | 'î' | 'ï' | 'ī' => Some("i"),
        'ñ' => Some("n"),
        'ó' | 'ò' | 'ô' | 'ö' | 'õ' | 'ø' | 'ō' => Some("o"),
        'œ' => Some("oe"),
        'ú' | 'ù' | 'û' | 'ü' | 'ū' => Some("u"),
        'ý' | 'ÿ' => Some("y"),
        'ß' => Some("ss"),
        '€' => Some("EUR"),
        '£' => Some("GBP"),
        '¥' => Some("JPY"),
        '₹' => Some("INR"),
        '₩' => Some("KRW"),
        '©' => Some("(c)"),
        '®' => Some("(r)"),
        '™' => Some("(tm)"),
        '°' => Some(" deg"),
        '±' => Some("+/-"),
        '×' => Some("x"),
        '÷' => Some("/"),
        '•' | '●' | '‣' | '·' => Some("*"),
        '→' => Some("->"),
        '←' => Some("<-"),
        '↑' => Some("^"),
        '↓' => Some("v"),
        _ => None,
    }
}

/// What is left of one character: its replacement if it has one, itself if
/// it is ASCII, and nothing otherwise.
pub open spec fn ascii_form(c: char) -> Seq<char> {
    match replacement(c) {
        Some(text) => text@,
        None => if c <= '\u{7f}' {
            seq![c]
        } else {
            Seq::empty()
        },
    }
}

/// A text with every character in its ASCII form.
pub open spec fn enforced(text: Seq<char>) -> Seq<char>
    decreases text.len(),
{
    if text.len() == 0 {
        Seq::empty()
    } else {
        enforced(text.drop_last()) + ascii_form(text.last())
    }
}

/// White space, as Unicode defines it.
pub open spec fn is_whitespace(c: char) -> bool {
    ||| '\u{9}' <= c <= '\u{d}'
    ||| c == ' '
    ||| c == '\u{85}'
    ||| c == '\u{a0}'
    ||| c == '\u{1680}'
    ||| '\u{2000}' <= c <= '\u{200a}'
    ||| c == '\u{2028}'
    ||| c == '\u{2029}'
    ||| c == '\u{202f}'
    ||| c == '\u{205f}'
    ||| c == '\u{3000}'
}

/// The length of a text without the white space at its end.
pub open spec fn trimmed_len(text: Seq<char>) -> nat
    decreases text.len(),
{
    if text.len() == 0 || !is_whitespace(text.last()) {
        text.len()
    } else {
        trimmed_len(text.drop_last())
    }
}

/// The number of white space characters at the start of a text.
pub open spec fn leading_whitespace(text: Seq<char>) -> nat
    decreases text.len(),
{
    if text.len() == 0 || !is_whitespace(text.first()) {
        0
    } else {
        1 + leading_whitespace(text.drop_first())
    }
}

/// A text without the white space at its start and at its end.
pub open spec fn trimmed(text: Seq<char>) -> Seq<char> {
    let end = trimmed_len(text) as int;
    let start = leading_whitespace(text) as int;
    if start < end {
        text.subrange(start, end)
    } else {
        Seq::empty()
    }
}

/// The number of characters up to and including the last full stop of a
/// text; zero if it has none.
pub open spec fn through_last_period(text: Seq<char>) -> nat
    decreases text.len(),
{
    if text.len() == 0 || text.last() == '.' {
        text.len()
    } else {
        through_last_period(text.drop_last())
    }
}

/// A character that ends a sentence.
pub open spec fn ends_sentence(c: char) -> bool {
    c == '.' || c == '!' || c == '?'
}

/// A text without the white space at its end and, where it then does not end
/// a sentence, without what follows its last full stop. A text without any
/// full stop that does not end a sentence comes to nothing.
pub open spec fn whole_sentences(text: Seq<char>) -> Seq<char> {
    let trimmed = text.take(trimmed_len(text) as int);
    if trimmed.len() > 0 && ends_sentence(trimmed.last()) {
        trimmed
    } else {
        trimmed.take(through_last_period(trimmed) as int)
    }
}

fn replacement_of(c: char) -> (text: Option<&'static str>)
    ensures
        text == replacement(c),
{
    match c {
        '«' | '»' => Some("\""),
        '`' | '´' => Some("'"),
        '—' | '–' | '−' | '‒' | '―' => Some("-"),
        '…' => Some("..."),
        'á' | 'à' | 'â' | 'ä' | 'ã' | 'å' | 'ā' => Some("a"),
        'æ' => Some("ae"),
        'ç' | 'č' | '¢' => Some("c"),
        'é' | 'è' | 'ê' | 'ë' | 'ē' => Some("e"),
        'í' | 'ì' | 'î' | 'ï' | 'ī' => Some("i"),
        'ñ' => Some("n"),
        'ó' | 'ò' | 'ô' | 'ö' | 'õ' | 'ø' | 'ō' => Some("o"),
        'œ' => Some("oe"),
        'ú' | 'ù' | 'û' | 'ü' | 'ū' => Some("u"),
        'ý' | 'ÿ' => Some("y"),
        'ß' => Some("ss"),
        '€' => Some("EUR"),
        '£' => Some("GBP"),
        '¥' => Some("JPY"),
        '₹' => Some("INR"),
        '₩' => Some("KRW"),
        '©' => Some("(c)"),
        '®' => Some("(r)"),
        '™' => Some("(tm)"),
        '°' => Some(" deg"),
        '±' => Some("+/-"),
        '×' => Some("x"),
        '÷' => Some("/"),
        '•' | '●' | '‣' | '·' => Some("*"),
        '→' => Some("->"),
        '←' => Some("<-"),
        '↑' => Some("^"),
        '↓' => Some("v"),
        _ => None,
    }
}

pub(crate) fn is_whitespace_char(c: char) -> (white: bool)
    ensures
        white == is_whitespace(c),
{
    ('\u{9}' <= c && c <= '\u{d}') || c == ' ' || c == '\u{85}' || c == '\u{a0}' || c
        == '\u{1680}' || ('\u{2000}' <= c && c <= '\u{200a}') || c == '\u{2028}' || c == '\u{2029}'
        || c == '\u{202f}' || c == '\u{205f}' || c == '\u{3000}'
}

/// White space at the end of a text holds no full stop: the last full stop
/// of a text is the last full stop of the text without that white space.
pub proof fn lemma_trimmed_keeps_periods(text: Seq<char>)
    ensures
        trimmed_len(text) <= text.len(),
        through_last_period(text) <= trimmed_len(text),
        through_last_period(text.take(trimmed_len(text) as int)) == through_last_period(text),
    decreases text.len(),
{
    if text.len() > 0 && is_whitespace(text.last()) {
        let shorter = text.drop_last();
        lemma_trimmed_keeps_periods(shorter);
        assert(text.take(trimmed_len(text) as int) =~= shorter.take(trimmed_len(shorter) as int));
    } else {
        assert(text.take(text.len() as int) =~= text);
        lemma_through_last_period_bound(text);
    }
}

proof fn lemma_through_last_period_bound(text: Seq<char>)
    ensures
        through_last_period(text) <= text.len(),
    decreases text.len(),
{
    if text.len() > 0 && text.last() != '.' {
        lemma_through_last_period_bound(text.drop_last());
    }
}

/// The white space at the start of a text ends within the text, at its
/// first character that is none.
pub proof fn lemma_leading_whitespace(text: Seq<char>)
    ensures
        leading_whitespace(text) <= text.len(),
        forall|i: int| 0 <= i < leading_whitespace(text) ==> is_whitespace(text[i]),
        leading_whitespace(text) < text.len() ==> !is_whitespace(
            text[leading_whitespace(text) as int],
        ),
    decreases text.len(),
{
    if text.len() > 0 && is_whitespace(text.first()) {
        let rest = text.drop_first();
        lemma_leading_whitespace(rest);
        assert forall|i: int| 0 <= i < leading_whitespace(text) implies is_whitespace(text[i]) by {
            if i > 0 {
                assert(text[i] == rest[i - 1]);
            }
        }
        if leading_whitespace(text) < text.len() {
            assert(text[leading_whitespace(text) as int] == rest[leading_whitespace(rest) as int]);
        }
    }
}

/// What is cut from the end of a text is white space, and what is left does
/// not end in any.
pub proof fn lemma_trimmed_len(text: Seq<char>)
    ensures
        trimmed_len(text) <= text.len(),
        forall|i: int| trimmed_len(text) <= i < text.len() ==> is_whitespace(text[i]),
        trimmed_len(text) > 0 ==> !is_whitespace(text[trimmed_len(text) - 1]),
    decreases text.len(),
{
    if text.len() > 0 && is_whitespace(text.last()) {
        let rest = text.drop_last();
        lemma_trimmed_len(rest);
        assert forall|i: int| trimmed_len(text) <= i < text.len() implies is_whitespace(
            text[i],
        ) by {
            if i < text.len() - 1 {
                assert(text[i] == rest[i]);
            }
        }
        if trimmed_len(text) > 0 {
            assert(text[trimmed_len(text) - 1] == rest[trimmed_len(rest) - 1]);
        }
    }
}

/// The first position of `text` from `start` up to `end` that holds no
/// white space, or `end` itself.
pub(crate) fn skip_whitespace(text: &Vec<char>, start: usize, end: usize) -> (at: usize)
    requires
        start <= end <= text@.len(),
    ensures
        at == start + leading_whitespace(text@.subrange(start as int, end as int)),
        start <= at <= end,
{
    let ghost line = text@.subrange(start as int, end as int);
    let mut at = start;
    proof {
        lemma_leading_whitespace(line);
    }
    while at < end && is_whitespace_char(text[at])
        invariant
            start <= at <= end <= text@.len(),
            line == text@.subrange(start as int, end as int),
            at - start <= leading_whitespace(line),
            forall|i: int| 0 <= i < leading_whitespace(line) ==> is_whitespace(line[i]),
            leading_whitespace(line) < line.len() ==> !is_whitespace(
                line[leading_whitespace(line) as int],
            ),
            leading_whitespace(line) <= line.len(),
        decreases end - at,
    {
        assert(line[at - start] == text@[at as int]);
        at += 1;
    }
    proof {
        if at < end {
            assert(line[at - start] == text@[at as int]);
        }
    }
    at
}

/// The position after the last character of `text` from `start` up to `end`
/// that is no white space, or `start` itself.
pub(crate) fn skip_whitespace_back(text: &Vec<char>, start: usize, end: usize) -> (at: usize)
    requires
        start <= end <= text@.len(),
    ensures
        at == start + trimmed_len(text@.subrange(start as int, end as int)),
        start <= at <= end,
{
    let ghost line = text@.subrange(start as int, end as int);
    let mut at = end;
    proof {
        lemma_trimmed_len(line);
    }
    while at > start && is_whitespace_char(text[at - 1])
        invariant
            start <= at <= end <= text@.len(),
            line == text@.subrange(start as int, end as int),
            at - start >= trimmed_len(line),
            forall|i: int| trimmed_len(line) <= i < line.len() ==> is_whitespace(line[i]),
            trimmed_len(line) > 0 ==> !is_whitespace(line[trimmed_len(line) - 1]),
            trimmed_len(line) <= line.len(),
        decreases at - start,
    {
        assert(line[at - 1 - start] == text@[at - 1]);
        at -= 1;
    }
    proof {
        if at > start {
            assert(line[at - 1 - start] == text@[at - 1]);
        }
    }
    at
}

/// The characters of a text.
pub(crate) fn chars_of(text: &str) -> (chars: Vec<char>)
    ensures
        chars@ == text@,
{
    let mut chars: Vec<char> = Vec::new();
    let mut rest = text.chars();
    assert(text@.skip(0) =~= text@);
    loop
        invariant
            rest.obeys_prophetic_iter_laws(),
            chars@.len() <= text@.len(),
            rest.remaining() == text@.skip(chars@.len() as int),
            chars@ == text@.take(chars@.len() as int),
        ensures
            chars@ == text@,
        decreases text@.len() - chars@.len(),
    {
        let ghost seen = chars@.len() as int;
        match rest.next() {
            Some(c) => {
                chars.push(c);
                proof {
                    assert(c == text@[seen]);
                    assert(text@.skip(seen).drop_first() =~= text@.skip(seen + 1));
                    assert(text@.take(seen + 1) =~= text@.take(seen).push(c));
                }
            },
            None => {
                assert(text@.take(seen) =~= text@);
                break ;
            },
        }
    }
    chars
}

/// A reply as it comes from a text generator, made fit for use as a prompt:
/// the white space around it is cut off, every character is put in its
/// ASCII form, and a last sentence that is not complete is left out.
pub fn clean_prompt(raw: &str) -> (result: String)
    ensures
        result@ == whole_sentences(enforced(trimmed(raw@))),
{
    let chars = chars_of(raw);
    let first = skip_whitespace(&chars, 0, chars.len());
    let last = skip_whitespace_back(&chars, 0, chars.len());
    assert(chars@.subrange(0, chars@.len() as int) =~= raw@);
    let kept = if first < last {
        raw.substring_char(first, last)
    } else {
        ""
    };
    proof {
        reveal_strlit("");
        assert(""@ =~= Seq::<char>::empty());
    }
    let ascii = TextProcessor::enforce_ascii(kept);
    TextProcessor::remove_incomplete_last_sentence(ascii.as_str())
}

impl TextProcessor {
    /// The text without the white space at its end and without a last
    /// sentence that is not complete: a text that ends in `.`, `!` or `?`
    /// stays as it is, any other is cut after its last full stop, and comes
    /// to nothing if it has none.
    pub fn remove_incomplete_last_sentence(text: &str) -> (result: String)
        ensures
            result@ == whole_sentences(text@),
    {
        let len = text.unicode_len();
        let mut chars = text.chars();
        let mut seen: usize = 0;
        let mut end: usize = 0;
        let mut period: usize = 0;
        let mut last = ' ';
        assert(text@.take(0) =~= Seq::<char>::empty());
        assert(text@.skip(0) =~= text@);
        loop
            invariant
                len == text@.len(),
                seen <= len,
                chars.obeys_prophetic_iter_laws(),
                chars.remaining() == text@.skip(seen as int),
                end == trimmed_len(text@.take(seen as int)),
                period == through_last_period(text@.take(seen as int)),
                end <= seen,
                period <= seen,
                end > 0 ==> last == text@[end - 1],
            ensures
                end == trimmed_len(text@),
                period == through_last_period(text@),
                end > 0 ==> last == text@[end - 1],
                end <= len,
                period <= len,
                len == text@.len(),
            decreases len - seen,
        {
            match chars.next() {
                Some(c) => {
                    proof {
                        assert(c == text@[seen as int]);
                        assert(text@.take(seen + 1).drop_last() =~= text@.take(seen as int));
                        assert(text@.skip(seen as int).drop_first() =~= text@.skip(seen + 1));
                    }
                    seen += 1;
                    if !is_whitespace_char(c) {
                        end = seen;
                        last = c;
                    }
                    if c == '.' {
                        period = seen;
                    }
                },
                None => {
                    assert(text@.take(seen as int) =~= text@);
                    break ;
                },
            }
        }
        proof {
            lemma_trimmed_keeps_periods(text@);
            assert(text@.take(end as int).take(period as int) =~= text@.take(period as int));
        }
        let keep = if end > 0 && (last == '.' || last == '!' || last == '?') {
            end
        } else {
            period
        };
        text.substring_char(0, keep).to_owned()
    }


    /// The text with every character that has an ASCII replacement replaced
    /// by it, and every other character that is not ASCII left out.
    pub fn enforce_ascii(text: &str) -> (result: String)
        ensures
            result@ == enforced(text@),
    {
        let mut result = String::new();
        let mut chars = text.chars();
        let ghost mut seen: int = 0;
        assert(text@.take(0) =~= Seq::<char>::empty());
        assert(text@.skip(0) =~= text@);
        loop
            invariant
                0 <= seen <= text@.len(),
                chars.obeys_prophetic_iter_laws(),
                chars.remaining() == text@.skip(seen),
                result@ == enforced(text@.take(seen)),
            ensures
                result@ == enforced(text@),
            decreases text@.len() - seen,
        {
            match chars.next() {
                Some(c) => {
                    proof {
                        assert(c == text@[seen]);
                        assert(text@.take(seen + 1).drop_last() =~= text@.take(seen));
                        assert(text@.skip(seen).drop_first() =~= text@.skip(seen + 1));
                        seen = seen + 1;
                    }
                    match replacement_of(c) {
                        Some(replacement) => {
                            result.append(replacement);
                        },
                        None => {
                            if c <= '\u{7f}' {
                                result.push(c);
                            }
                        },
                    }
                },
                None => {
                    assert(text@.take(seen) =~= text@);
                    break ;
                },
            }
        }
        result
    }
}

} // verus!
