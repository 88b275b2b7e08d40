//! Character data: entity escaping, the CDATA carve-out and line splitting.
//!
//! Text inside an element is escaped so that it cannot be mistaken for
//! markup. One `<![CDATA[` ... `]]>` section per text is passed through as it
//! stands. Pretty printing cuts rendered blocks into lines.

use vstd::prelude::*;
use crate::chars::{append_chars, append_range, chars_of, string_of, string_of_range};

verus! {

/// `&amp;`
pub open spec fn amp() -> Seq<char> {
    seq!['&', 'a', 'm', 'p', ';']
}

/// `&lt;`
pub open spec fn lt() -> Seq<char> {
    seq!['&', 'l', 't', ';']
}

/// `&gt;`
pub open spec fn gt() -> Seq<char> {
    seq!['&', 'g', 't', ';']
}

/// `&apos;`
pub open spec fn apos() -> Seq<char> {
    seq!['&', 'a', 'p', 'o', 's', ';']
}

/// `&quot;`
pub open spec fn quot() -> Seq<char> {
    seq!['&', 'q', 'u', 'o', 't', ';']
}

/// `s` with every occurrence of the character `c` replaced by `by`.
pub open spec fn substitute(s: Seq<char>, c: char, by: Seq<char>) -> Seq<char>
    decreases s.len(),
{
    if s.len() == 0 {
        Seq::empty()
    } else {
        substitute(s.drop_last(), c, by) + if s.last() == c {
            by
        } else {
            seq![s.last()]
        }
    }
}

/// Escaped character data: five substitutions, applied one after the other.
/// The ampersand goes first, so that the ampersands which the later
/// substitutions bring in are not escaped a second time.
pub open spec fn escape(s: Seq<char>) -> Seq<char> {
    let s1 = substitute(s, '&', amp());
    let s2 = substitute(s1, '<', lt());
    let s3 = substitute(s2, '>', gt());
    let s4 = substitute(s3, '\'', apos());
    substitute(s4, '"', quot())
}

/// Whether `c` is one of the five characters that escaping replaces.
pub open spec fn is_special(c: char) -> bool {
    c == '&' || c == '<' || c == '>' || c == '\'' || c == '"'
}

/// What stands for the single character `c` in escaped text.
pub open spec fn entity(c: char) -> Seq<char> {
    if c == '&' {
        amp()
    } else if c == '<' {
        lt()
    } else if c == '>' {
        gt()
    } else if c == '\'' {
        apos()
    } else if c == '"' {
        quot()
    } else {
        seq![c]
    }
}

/// Every character of `s` replaced by its `entity`, in one pass.
pub open spec fn escape_each(s: Seq<char>) -> Seq<char>
    decreases s.len(),
{
    if s.len() == 0 {
        Seq::empty()
    } else {
        escape_each(s.drop_last()) + entity(s.last())
    }
}

/// Substitution works piece by piece.
pub proof fn lemma_substitute_concat(a: Seq<char>, b: Seq<char>, c: char, by: Seq<char>)
    ensures
        substitute(a + b, c, by) == substitute(a, c, by) + substitute(b, c, by),
    decreases b.len(),
{
    if b.len() == 0 {
        assert(a + b =~= a);
        assert(substitute(a, c, by) + substitute(b, c, by) =~= substitute(a, c, by));
    } else {
        lemma_substitute_concat(a, b.drop_last(), c, by);
        assert((a + b).drop_last() =~= a + b.drop_last());
        assert((a + b).last() == b.last());
        let tail = if b.last() == c { by } else { seq![b.last()] };
        assert(substitute(a + b, c, by) =~= substitute(a, c, by) + (substitute(
            b.drop_last(),
            c,
            by,
        ) + tail));
    }
}

/// Substituting a character that does not occur changes nothing.
pub proof fn lemma_substitute_absent(s: Seq<char>, c: char, by: Seq<char>)
    requires
        forall|i: int| 0 <= i < s.len() ==> s[i] != c,
    ensures
        substitute(s, c, by) == s,
    decreases s.len(),
{
    if s.len() == 0 {
        assert(substitute(s, c, by) =~= s);
    } else {
        lemma_substitute_absent(s.drop_last(), c, by);
        assert(s.drop_last() + seq![s.last()] =~= s);
    }
}

/// A single character escapes to its entity, whatever the character.
proof fn lemma_escape_single(x: char)
    ensures
        escape(seq![x]) == entity(x),
{
    let s = seq![x];
    assert(s.drop_last() =~= Seq::<char>::empty());
    assert(s.last() == x);
    reveal_with_fuel(substitute, 2);
    let s1 = substitute(s, '&', amp());
    assert(s1 =~= if x == '&' { amp() } else { s });
    let s2 = substitute(s1, '<', lt());
    let s3 = substitute(s2, '>', gt());
    let s4 = substitute(s3, '\'', apos());
    let s5 = substitute(s4, '"', quot());
    if x == '&' {
        lemma_substitute_absent(amp(), '<', lt());
        lemma_substitute_absent(amp(), '>', gt());
        lemma_substitute_absent(amp(), '\'', apos());
        lemma_substitute_absent(amp(), '"', quot());
    } else if x == '<' {
        assert(s2 =~= lt());
        lemma_substitute_absent(lt(), '>', gt());
        lemma_substitute_absent(lt(), '\'', apos());
        lemma_substitute_absent(lt(), '"', quot());
    } else if x == '>' {
        assert(s2 =~= s);
        assert(s3 =~= gt());
        lemma_substitute_absent(gt(), '\'', apos());
        lemma_substitute_absent(gt(), '"', quot());
    } else if x == '\'' {
        assert(s2 =~= s);
        assert(s3 =~= s);
        assert(s4 =~= apos());
        lemma_substitute_absent(apos(), '"', quot());
    } else if x == '"' {
        assert(s2 =~= s);
        assert(s3 =~= s);
        assert(s4 =~= s);
        assert(s5 =~= quot());
    } else {
        assert(s2 =~= s);
        assert(s3 =~= s);
        assert(s4 =~= s);
        assert(s5 =~= s);
    }
}

/// Escaping works piece by piece.
pub proof fn lemma_escape_concat(a: Seq<char>, b: Seq<char>)
    ensures
        escape(a + b) == escape(a) + escape(b),
{
    lemma_substitute_concat(a, b, '&', amp());
    let a1 = substitute(a, '&', amp());
    let b1 = substitute(b, '&', amp());
    lemma_substitute_concat(a1, b1, '<', lt());
    let a2 = substitute(a1, '<', lt());
    let b2 = substitute(b1, '<', lt());
    lemma_substitute_concat(a2, b2, '>', gt());
    let a3 = substitute(a2, '>', gt());
    let b3 = substitute(b2, '>', gt());
    lemma_substitute_concat(a3, b3, '\'', apos());
    let a4 = substitute(a3, '\'', apos());
    let b4 = substitute(b3, '\'', apos());
    lemma_substitute_concat(a4, b4, '"', quot());
}

/// No double escaping: the five substitutions in their order amount to
/// replacing each character of the input, once, by its entity.
pub proof fn lemma_escape_is_charwise(s: Seq<char>)
    ensures
        escape(s) == escape_each(s),
    decreases s.len(),
{
    if s.len() == 0 {
        assert(escape(s) =~= Seq::<char>::empty());
    } else {
        lemma_escape_is_charwise(s.drop_last());
        lemma_escape_single(s.last());
        lemma_escape_concat(s.drop_last(), seq![s.last()]);
        assert(s.drop_last() + seq![s.last()] =~= s);
    }
}

/// Whether `pat` stands in `s` at position `i`.
pub open spec fn occurs_at(s: Seq<char>, pat: Seq<char>, i: int) -> bool {
    &&& 0 <= i
    &&& i + pat.len() <= s.len()
    &&& s.subrange(i, i + pat.len()) == pat
}

/// Whether one of the five entity references stands in `s` at position `i`.
pub open spec fn entity_at(s: Seq<char>, i: int) -> bool {
    ||| occurs_at(s, amp(), i)
    ||| occurs_at(s, lt(), i)
    ||| occurs_at(s, gt(), i)
    ||| occurs_at(s, apos(), i)
    ||| occurs_at(s, quot(), i)
}

/// An occurrence in `a` is still there when `b` is written behind `a`.
proof fn lemma_occurs_at_extends(a: Seq<char>, b: Seq<char>, pat: Seq<char>, i: int)
    requires
        occurs_at(a, pat, i),
    ensures
        occurs_at(a + b, pat, i),
{
    assert((a + b).subrange(i, i + pat.len()) =~= a.subrange(i, i + pat.len()));
}

/// Text without any of the five special characters is its own escaped form.
pub proof fn lemma_escape_plain(s: Seq<char>)
    requires
        forall|i: int| 0 <= i < s.len() ==> !is_special(#[trigger] s[i]),
    ensures
        escape(s) == s,
    decreases s.len(),
{
    lemma_escape_is_charwise(s);
    if s.len() == 0 {
        assert(escape_each(s) =~= s);
    } else {
        let init = s.drop_last();
        assert forall|i: int| 0 <= i < init.len() implies !is_special(#[trigger] init[i]) by {
            assert(init[i] == s[i]);
        }
        lemma_escape_plain(init);
        lemma_escape_is_charwise(init);
        assert(!is_special(s[s.len() - 1]));
        assert(init + seq![s.last()] =~= s);
    }
}

/// In escaped text the characters `<`, `>`, `'` and `"` do not occur at all,
/// and an ampersand occurs only as the first character of one of the five
/// entity references.
pub proof fn lemma_escape_leaves_only_entities(s: Seq<char>)
    ensures
        forall|i: int|
            0 <= i < escape(s).len() ==> {
                let c = #[trigger] escape(s)[i];
                &&& c != '<'
                &&& c != '>'
                &&& c != '\''
                &&& c != '"'
                &&& c == '&' ==> entity_at(escape(s), i)
            },
    decreases s.len(),
{
    lemma_escape_is_charwise(s);
    if s.len() > 0 {
        let init = s.drop_last();
        let x = s.last();
        lemma_escape_leaves_only_entities(init);
        lemma_escape_is_charwise(init);
        let head = escape(init);
        let tail = entity(x);
        let out = escape(s);
        assert(out == head + tail);
        assert forall|i: int| 0 <= i < out.len() implies ({
            let c = #[trigger] out[i];
            &&& c != '<'
            &&& c != '>'
            &&& c != '\''
            &&& c != '"'
            &&& c == '&' ==> entity_at(out, i)
        }) by {
            if i < head.len() {
                assert(out[i] == head[i]);
                if head[i] == '&' {
                    if occurs_at(head, amp(), i) {
                        lemma_occurs_at_extends(head, tail, amp(), i);
                    } else if occurs_at(head, lt(), i) {
                        lemma_occurs_at_extends(head, tail, lt(), i);
                    } else if occurs_at(head, gt(), i) {
                        lemma_occurs_at_extends(head, tail, gt(), i);
                    } else if occurs_at(head, apos(), i) {
                        lemma_occurs_at_extends(head, tail, apos(), i);
                    } else {
                        lemma_occurs_at_extends(head, tail, quot(), i);
                    }
                }
            } else {
                let k = i - head.len();
                assert(out[i] == tail[k]);
                if out[i] == '&' {
                    assert(k == 0);
                    assert(out.subrange(i, i + tail.len()) =~= tail);
                    assert(occurs_at(out, tail, i));
                }
            }
        }
    }
}

/// The least position at or after `from` at which `pat` stands in `s`, if
/// there is one.
pub open spec fn first_occurrence(s: Seq<char>, pat: Seq<char>, from: int) -> Option<int>
    decreases 1 + s.len() - from,
{
    if from < 0 || from + pat.len() > s.len() {
        None
    } else if occurs_at(s, pat, from) {
        Some(from)
    } else {
        first_occurrence(s, pat, from + 1)
    }
}

/// `first_occurrence` finds an occurrence, the earliest one, and finds
/// nothing only where there is nothing to find.
pub proof fn lemma_first_occurrence(s: Seq<char>, pat: Seq<char>, from: int)
    requires
        0 <= from,
    ensures
        match first_occurrence(s, pat, from) {
            Some(i) => {
                &&& from <= i
                &&& occurs_at(s, pat, i)
                &&& forall|j: int| from <= j < i ==> !occurs_at(s, pat, j)
            },
            None => forall|j: int| from <= j ==> !occurs_at(s, pat, j),
        },
    decreases 1 + s.len() - from,
{
    if from + pat.len() <= s.len() && !occurs_at(s, pat, from) {
        lemma_first_occurrence(s, pat, from + 1);
    }
}

/// `<![CDATA[`, which opens a CDATA section.
pub open spec fn cdata_start() -> Seq<char> {
    seq!['<', '!', '[', 'C', 'D', 'A', 'T', 'A', '[']
}

/// `]]>`, which closes a CDATA section.
pub open spec fn cdata_end() -> Seq<char> {
    seq![']', ']', '>']
}

/// Where the CDATA section of `text` begins and where it ends (the position
/// just behind its closing marker): from the first opening marker to the
/// first closing marker behind it. `None` where either marker is missing.
pub open spec fn cdata_span(text: Seq<char>) -> Option<(int, int)> {
    match first_occurrence(text, cdata_start(), 0) {
        Some(start) => match first_occurrence(text, cdata_end(), start) {
            Some(end) => Some((start, end + cdata_end().len())),
            None => None,
        },
        None => None,
    }
}

/// `text` cut into what stands before its CDATA section, the section with
/// both markers, and what stands behind it. Text without a section is left
/// whole.
pub open spec fn cdata_parts(text: Seq<char>) -> (Seq<char>, Option<(Seq<char>, Seq<char>)>) {
    match cdata_span(text) {
        Some((start, end)) => (
            text.subrange(0, start),
            Some((text.subrange(start, end), text.subrange(end, text.len() as int))),
        ),
        None => (text, None),
    }
}

/// The rendered form of an element's text: the CDATA section as it stands,
/// the text on either side of it escaped.
pub open spec fn char_data(text: Seq<char>) -> Seq<char> {
    match cdata_parts(text) {
        (before, Some((section, after))) => escape(before) + section + escape(after),
        (all, None) => escape(all),
    }
}

/// The bounds that `cdata_span` gives lie inside the text, in order.
pub proof fn lemma_cdata_span_bounds(text: Seq<char>)
    ensures
        cdata_span(text) matches Some((start, end)) ==> 0 <= start < end <= text.len(),
{
    lemma_first_occurrence(text, cdata_start(), 0);
    if let Some(start) = first_occurrence(text, cdata_start(), 0) {
        lemma_first_occurrence(text, cdata_end(), start);
    }
}

/// The CDATA section of a text stands in the rendered text as it is, behind
/// the escaped form of what stands before it. A text that is a CDATA section
/// and nothing else renders as itself.
pub proof fn lemma_cdata_section_is_kept(text: Seq<char>)
    ensures
        cdata_span(text) matches Some((start, end)) ==> {
            &&& occurs_at(
                char_data(text),
                text.subrange(start, end),
                escape(text.subrange(0, start)).len() as int,
            )
            &&& start == 0 && end == text.len() ==> char_data(text) == text
        },
{
    if let Some((start, end)) = cdata_span(text) {
        lemma_cdata_span_bounds(text);
        let before = escape(text.subrange(0, start));
        let section = text.subrange(start, end);
        let after = escape(text.subrange(end, text.len() as int));
        let out = before + section + after;
        let at = before.len() as int;
        assert(out.subrange(at, at + section.len()) =~= section);
        if start == 0 && end == text.len() {
            assert(text.subrange(0, 0) =~= Seq::<char>::empty());
            assert(text.subrange(end, text.len() as int) =~= Seq::<char>::empty());
            assert(substitute(Seq::<char>::empty(), '&', amp()) =~= Seq::<char>::empty());
            assert(out =~= text);
        }
    }
}

/// Text that holds none of the five special characters renders as itself:
/// it has no CDATA section either, since the opening marker holds a `<`.
pub proof fn lemma_char_data_plain(text: Seq<char>)
    requires
        forall|i: int| 0 <= i < text.len() ==> !is_special(#[trigger] text[i]),
    ensures
        char_data(text) == text,
{
    lemma_escape_plain(text);
    lemma_first_occurrence(text, cdata_start(), 0);
    if let Some(start) = first_occurrence(text, cdata_start(), 0) {
        assert(text.subrange(start, start + cdata_start().len())[0] == '<');
        assert(is_special(text[start]));
    }
}

/// In the rendered form of a text without a CDATA section the characters
/// `<`, `>`, `'` and `"` do not occur, and an ampersand occurs only as the
/// first character of one of the five entity references. A CDATA section is
/// rendered as it stands and may hold any of them.
pub proof fn lemma_char_data_leaves_only_entities(text: Seq<char>)
    requires
        cdata_span(text) is None,
    ensures
        forall|i: int|
            0 <= i < char_data(text).len() ==> {
                let c = #[trigger] char_data(text)[i];
                &&& c != '<'
                &&& c != '>'
                &&& c != '\''
                &&& c != '"'
                &&& c == '&' ==> entity_at(char_data(text), i)
            },
{
    lemma_escape_leaves_only_entities(text);
}

/// Whether `pat` stands in `s` at position `i`.
fn stands_at(s: &Vec<char>, pat: &Vec<char>, i: usize) -> (r: bool)
    requires
        i + pat.len() <= s.len(),
    ensures
        r == occurs_at(s@, pat@, i as int),
{
    let mut k: usize = 0;
    while k < pat.len()
        invariant
            k <= pat.len(),
            i + pat.len() <= s.len(),
            forall|j: int| 0 <= j < k ==> s@[i + j] == pat@[j],
        decreases pat.len() - k,
    {
        if s[i + k] != pat[k] {
            assert(s@.subrange(i as int, i + pat.len())[k as int] != pat@[k as int]);
            return false;
        }
        k += 1;
    }
    assert(s@.subrange(i as int, i + pat.len()) =~= pat@);
    true
}

/// The first position at or after `from` at which `pat` stands in `s`.
fn find(s: &Vec<char>, pat: &Vec<char>, from: usize) -> (r: Option<usize>)
    ensures
        match r {
            Some(i) => first_occurrence(s@, pat@, from as int) == Some(i as int),
            None => first_occurrence(s@, pat@, from as int) is None,
        },
{
    if pat.len() > s.len() || from > s.len() - pat.len() {
        return None;
    }
    let last: usize = s.len() - pat.len();
    let mut i: usize = from;
    loop
        invariant
            from <= i <= last,
            last == s.len() - pat.len(),
            first_occurrence(s@, pat@, from as int) == first_occurrence(s@, pat@, i as int),
        decreases last - i,
    {
        if stands_at(s, pat, i) {
            return Some(i);
        }
        if i == last {
            return None;
        }
        i += 1;
    }
}

/// The bounds of the CDATA section of `text`.
fn find_cdata(text: &Vec<char>) -> (r: Option<(usize, usize)>)
    ensures
        match r {
            Some((start, end)) => cdata_span(text@) == Some((start as int, end as int)),
            None => cdata_span(text@) is None,
        },
{
    let opening: Vec<char> = vec!['<', '!', '[', 'C', 'D', 'A', 'T', 'A', '['];
    let closing: Vec<char> = vec![']', ']', '>'];
    assert(opening@ =~= cdata_start());
    assert(closing@ =~= cdata_end());
    match find(text, &opening, 0) {
        Some(start) => match find(text, &closing, start) {
            Some(end) => {
                proof {
                    lemma_first_occurrence(text@, cdata_end(), start as int);
                    assert(cdata_end().len() == 3);
                    assert(end + 3 <= text.len());
                }
                Some((start, end + 3))
            },
            None => None,
        },
        None => None,
    }
}

/// What `split_cdata` returns, as sequences of characters.
pub open spec fn parts_view(parts: (String, Option<(String, String)>)) -> (
    Seq<char>,
    Option<(Seq<char>, Seq<char>)>,
) {
    (
        parts.0@,
        match parts.1 {
            Some((section, after)) => Some((section@, after@)),
            None => None,
        },
    )
}

/// Cuts `text` at its CDATA section: the text before it, and, where there is a
/// section, the section with both markers and the text behind it. Only the
/// first opening marker and the first closing marker behind it count.
pub fn split_cdata(text: &str) -> (r: (String, Option<(String, String)>))
    ensures
        parts_view(r) == cdata_parts(text@),
{
    let chars = chars_of(text);
    let n: usize = chars.len();
    match find_cdata(&chars) {
        Some((start, end)) => {
            proof {
                lemma_cdata_span_bounds(chars@);
            }
            let before = string_of_range(&chars, 0, start);
            let section = string_of_range(&chars, start, end);
            let after = string_of_range(&chars, end, n);
            (before, Some((section, after)))
        },
        None => (string_of(&chars), None),
    }
}

/// Appends the escaped form of `chars[from..to]` to `out`.
fn escape_into(out: &mut Vec<char>, chars: &Vec<char>, from: usize, to: usize)
    requires
        from <= to <= chars.len(),
    ensures
        final(out)@ == old(out)@ + escape(chars@.subrange(from as int, to as int)),
{
    let mut i: usize = from;
    proof {
        assert(escape_each(chars@.subrange(from as int, i as int)) =~= Seq::<char>::empty());
    }
    while i < to
        invariant
            from <= i <= to <= chars.len(),
            out@ == old(out)@ + escape_each(chars@.subrange(from as int, i as int)),
        decreases to - i,
    {
        let c = chars[i];
        let ghost before = out@;
        if c == '&' {
            out.push('&');
            out.push('a');
            out.push('m');
            out.push('p');
            out.push(';');
        } else if c == '<' {
            out.push('&');
            out.push('l');
            out.push('t');
            out.push(';');
        } else if c == '>' {
            out.push('&');
            out.push('g');
            out.push('t');
            out.push(';');
        } else if c == '\'' {
            out.push('&');
            out.push('a');
            out.push('p');
            out.push('o');
            out.push('s');
            out.push(';');
        } else if c == '"' {
            out.push('&');
            out.push('q');
            out.push('u');
            out.push('o');
            out.push('t');
            out.push(';');
        } else {
            out.push(c);
        }
        i += 1;
        proof {
            let done = chars@.subrange(from as int, i as int);
            assert(done.drop_last() =~= chars@.subrange(from as int, i - 1));
            assert(done.last() == c);
            assert(out@ =~= before + entity(c));
            assert(out@ =~= old(out)@ + escape_each(done));
        }
    }
    proof {
        lemma_escape_is_charwise(chars@.subrange(from as int, to as int));
    }
}

/// Appends the rendered form of an element's text to `out`.
pub fn char_data_into(out: &mut Vec<char>, text: &str)
    ensures
        final(out)@ == old(out)@ + char_data(text@),
{
    let chars = chars_of(text);
    let n: usize = chars.len();
    match find_cdata(&chars) {
        Some((start, end)) => {
            proof {
                lemma_cdata_span_bounds(chars@);
            }
            escape_into(out, &chars, 0, start);
            append_range(out, &chars, start, end);
            escape_into(out, &chars, end, n);
            assert(out@ =~= old(out)@ + char_data(text@));
        },
        None => {
            escape_into(out, &chars, 0, n);
            assert(chars@.subrange(0, n as int) =~= chars@);
        },
    }
}

/// How many characters stand before the first line feed of `s`; all of
/// them, where `s` has no line feed.
pub open spec fn line_len(s: Seq<char>) -> nat
    decreases s.len(),
{
    if s.len() == 0 || s.first() == '\n' {
        0
    } else {
        1 + line_len(s.drop_first())
    }
}

/// `line` without the carriage return at its end, if it has one there.
pub open spec fn trim_carriage_return(line: Seq<char>) -> Seq<char> {
    if line.len() > 0 && line.last() == '\r' {
        line.drop_last()
    } else {
        line
    }
}

/// The lines of `s`. A line ends at a line feed, or at a carriage return
/// directly followed by a line feed; neither belongs to the line. The last
/// line needs no line ending, and a line ending at the very end of `s` opens
/// no further, empty line. A carriage return that no line feed follows is an
/// ordinary character.
pub open spec fn lines(s: Seq<char>) -> Seq<Seq<char>>
    decreases s.len(),
{
    if s.len() == 0 {
        Seq::empty()
    } else {
        let n = line_len(s) as int;
        if n < s.len() {
            seq![trim_carriage_return(s.take(n))] + lines(s.skip(n + 1))
        } else {
            seq![s]
        }
    }
}

/// Each of `ls` with `newline` and `indent` written in front of it, one
/// behind the other.
pub open spec fn prefixed(ls: Seq<Seq<char>>, newline: Seq<char>, indent: Seq<char>) -> Seq<char>
    decreases ls.len(),
{
    if ls.len() == 0 {
        Seq::empty()
    } else {
        prefixed(ls.drop_last(), newline, indent) + newline + indent + ls.last()
    }
}

/// `body` with every one of its lines moved onto a line of its own, one
/// indent unit deeper.
pub open spec fn indent_block(body: Seq<char>, newline: Seq<char>, indent: Seq<char>) -> Seq<char> {
    prefixed(lines(body), newline, indent)
}

/// `line_len` stops at the first line feed, or at the end.
pub proof fn lemma_line_len(s: Seq<char>)
    ensures
        line_len(s) <= s.len(),
        line_len(s) < s.len() ==> s[line_len(s) as int] == '\n',
        forall|i: int| 0 <= i < line_len(s) ==> s[i] != '\n',
    decreases s.len(),
{
    if s.len() != 0 && s.first() != '\n' {
        let rest = s.drop_first();
        lemma_line_len(rest);
        assert forall|i: int| 0 <= i < line_len(s) implies s[i] != '\n' by {
            if i > 0 {
                assert(s[i] == rest[i - 1]);
            }
        }
    }
}

/// Appends `indent_block(body, newline, indent)` to `out`.
pub fn indent_into(
    out: &mut Vec<char>,
    body: &Vec<char>,
    newline: &Vec<char>,
    indent: &Vec<char>,
)
    ensures
        final(out)@ == old(out)@ + indent_block(body@, newline@, indent@),
{
    let n: usize = body.len();
    let mut p: usize = 0;
    let ghost mut done: Seq<Seq<char>> = Seq::empty();
    proof {
        assert(body@.skip(0) =~= body@);
        assert(out@ =~= old(out)@ + prefixed(done, newline@, indent@));
    }
    while p < n
        invariant
            p <= n == body.len(),
            lines(body@) == done + lines(body@.skip(p as int)),
            out@ == old(out)@ + prefixed(done, newline@, indent@),
        decreases n - p,
    {
        let ghost rest = body@.skip(p as int);
        let mut j: usize = p;
        while j < n && body[j] != '\n'
            invariant
                p <= j <= n == body.len(),
                line_len(body@.skip(p as int)) == (j - p) + line_len(body@.skip(j as int)),
            decreases n - j,
        {
            assert(body@.skip(j as int).drop_first() =~= body@.skip(j + 1));
            j += 1;
        }
        assert(line_len(rest) == j - p);
        let ghost before = out@;
        append_chars(out, newline);
        append_chars(out, indent);
        let ghost line: Seq<char>;
        if j < n {
            let end: usize = if j > p && body[j - 1] == '\r' { j - 1 } else { j };
            append_range(out, body, p, end);
            proof {
                let whole = rest.take(j - p);
                assert(whole =~= body@.subrange(p as int, j as int));
                line = trim_carriage_return(whole);
                assert(line =~= body@.subrange(p as int, end as int));
                assert(rest.skip(j - p + 1) =~= body@.skip(j + 1));
                assert(lines(rest) == seq![line] + lines(body@.skip(j + 1)));
            }
            p = j + 1;
        } else {
            append_range(out, body, p, n);
            proof {
                line = rest;
                assert(rest =~= body@.subrange(p as int, n as int));
                assert(body@.skip(n as int) =~= Seq::<char>::empty());
                assert(lines(rest) =~= seq![line] + lines(body@.skip(n as int)));
            }
            p = n;
        }
        proof {
            let grown = done.push(line);
            assert(grown.drop_last() =~= done);
            assert(out@ =~= before + newline@ + indent@ + line);
            assert(lines(body@) =~= grown + lines(body@.skip(p as int)));
            done = grown;
        }
    }
    proof {
        assert(body@.skip(n as int) =~= Seq::<char>::empty());
        assert(lines(body@) =~= done);
    }
}

/// Whether `c` is a character of the padding that pretty printing works
/// with: a character of `newline` or of `indent`, a line feed or a carriage
/// return.
pub open spec fn is_padding(c: char, newline: Seq<char>, indent: Seq<char>) -> bool {
    c == '\n' || c == '\r' || newline.contains(c) || indent.contains(c)
}

/// `s` without its padding characters.
pub open spec fn unpadded(s: Seq<char>, newline: Seq<char>, indent: Seq<char>) -> Seq<char>
    decreases s.len(),
{
    if s.len() == 0 {
        Seq::empty()
    } else {
        unpadded(s.drop_last(), newline, indent) + if is_padding(s.last(), newline, indent) {
            Seq::empty()
        } else {
            seq![s.last()]
        }
    }
}

/// Padding is taken out piece by piece.
pub proof fn lemma_unpadded_concat(
    a: Seq<char>,
    b: Seq<char>,
    newline: Seq<char>,
    indent: Seq<char>,
)
    ensures
        unpadded(a + b, newline, indent) == unpadded(a, newline, indent) + unpadded(
            b,
            newline,
            indent,
        ),
    decreases b.len(),
{
    if b.len() == 0 {
        assert(a + b =~= a);
        assert(unpadded(a, newline, indent) + unpadded(b, newline, indent) =~= unpadded(
            a,
            newline,
            indent,
        ));
    } else {
        lemma_unpadded_concat(a, b.drop_last(), newline, indent);
        assert((a + b).drop_last() =~= a + b.drop_last());
        assert((a + b).last() == b.last());
        let tail = if is_padding(b.last(), newline, indent) {
            Seq::<char>::empty()
        } else {
            seq![b.last()]
        };
        assert(unpadded(a + b, newline, indent) =~= unpadded(a, newline, indent) + (unpadded(
            b.drop_last(),
            newline,
            indent,
        ) + tail));
    }
}

/// Nothing is left of a sequence that is padding throughout.
pub proof fn lemma_unpadded_of_padding(s: Seq<char>, newline: Seq<char>, indent: Seq<char>)
    requires
        forall|i: int| 0 <= i < s.len() ==> is_padding(#[trigger] s[i], newline, indent),
    ensures
        unpadded(s, newline, indent) == Seq::<char>::empty(),
    decreases s.len(),
{
    if s.len() > 0 {
        let init = s.drop_last();
        assert forall|i: int| 0 <= i < init.len() implies is_padding(
            #[trigger] init[i],
            newline,
            indent,
        ) by {
            assert(init[i] == s[i]);
        }
        lemma_unpadded_of_padding(init, newline, indent);
        assert(is_padding(s[s.len() - 1], newline, indent));
    }
}

/// A sequence without padding characters stays as it is.
pub proof fn lemma_unpadded_of_plain(s: Seq<char>, newline: Seq<char>, indent: Seq<char>)
    requires
        forall|i: int| 0 <= i < s.len() ==> !is_padding(#[trigger] s[i], newline, indent),
    ensures
        unpadded(s, newline, indent) == s,
    decreases s.len(),
{
    if s.len() == 0 {
        assert(unpadded(s, newline, indent) =~= s);
    } else {
        let init = s.drop_last();
        assert forall|i: int| 0 <= i < init.len() implies !is_padding(
            #[trigger] init[i],
            newline,
            indent,
        ) by {
            assert(init[i] == s[i]);
        }
        lemma_unpadded_of_plain(init, newline, indent);
        assert(!is_padding(s[s.len() - 1], newline, indent));
        assert(init + seq![s.last()] =~= s);
    }
}

/// Lines are prefixed one by one.
pub proof fn lemma_prefixed_concat(
    a: Seq<Seq<char>>,
    b: Seq<Seq<char>>,
    newline: Seq<char>,
    indent: Seq<char>,
)
    ensures
        prefixed(a + b, newline, indent) == prefixed(a, newline, indent) + prefixed(
            b,
            newline,
            indent,
        ),
    decreases b.len(),
{
    if b.len() == 0 {
        assert(a + b =~= a);
        assert(prefixed(a, newline, indent) + prefixed(b, newline, indent) =~= prefixed(
            a,
            newline,
            indent,
        ));
    } else {
        lemma_prefixed_concat(a, b.drop_last(), newline, indent);
        assert((a + b).drop_last() =~= a + b.drop_last());
        assert((a + b).last() == b.last());
        assert(prefixed(a + b, newline, indent) =~= prefixed(a, newline, indent) + (prefixed(
            b.drop_last(),
            newline,
            indent,
        ) + newline + indent + b.last()));
    }
}

/// Indenting a block adds padding and takes out line endings, nothing else:
/// without the padding characters the block is what it was.
pub proof fn lemma_unpadded_indent_block(body: Seq<char>, newline: Seq<char>, indent: Seq<char>)
    ensures
        unpadded(indent_block(body, newline, indent), newline, indent) == unpadded(
            body,
            newline,
            indent,
        ),
    decreases body.len(),
{
    assert forall|i: int| 0 <= i < newline.len() implies is_padding(
        #[trigger] newline[i],
        newline,
        indent,
    ) by {
        assert(newline.contains(newline[i]));
    }
    assert forall|i: int| 0 <= i < indent.len() implies is_padding(
        #[trigger] indent[i],
        newline,
        indent,
    ) by {
        assert(indent.contains(indent[i]));
    }
    lemma_unpadded_of_padding(newline, newline, indent);
    lemma_unpadded_of_padding(indent, newline, indent);
    if body.len() == 0 {
    } else {
        let n = line_len(body) as int;
        lemma_line_len(body);
        if n < body.len() {
            let whole = body.take(n);
            let line = trim_carriage_return(whole);
            let rest = body.skip(n + 1);
            lemma_unpadded_indent_block(rest, newline, indent);
            // the block: the first line behind its prefix, then the other lines
            lemma_prefixed_concat(seq![line], lines(rest), newline, indent);
            assert(prefixed(seq![line], newline, indent) =~= newline + indent + line) by {
                reveal_with_fuel(prefixed, 2);
                assert(seq![line].drop_last() =~= Seq::<Seq<char>>::empty());
            }
            lemma_unpadded_concat(
                newline + indent + line,
                prefixed(lines(rest), newline, indent),
                newline,
                indent,
            );
            lemma_unpadded_concat(newline + indent, line, newline, indent);
            lemma_unpadded_concat(newline, indent, newline, indent);
            // the first line with or without its carriage return
            if whole.len() > 0 && whole.last() == '\r' {
                assert(whole =~= line + seq!['\r']);
                lemma_unpadded_concat(line, seq!['\r'], newline, indent);
                lemma_unpadded_of_padding(seq!['\r'], newline, indent);
            }
            assert(unpadded(whole, newline, indent) =~= unpadded(line, newline, indent));
            // the body: the first line, the line feed, the rest
            assert(body =~= whole + seq!['\n'] + rest);
            lemma_unpadded_concat(whole + seq!['\n'], rest, newline, indent);
            lemma_unpadded_concat(whole, seq!['\n'], newline, indent);
            lemma_unpadded_of_padding(seq!['\n'], newline, indent);
            assert(unpadded(indent_block(body, newline, indent), newline, indent) =~= unpadded(
                body,
                newline,
                indent,
            ));
        } else {
            assert(prefixed(seq![body], newline, indent) =~= newline + indent + body) by {
                reveal_with_fuel(prefixed, 2);
                assert(seq![body].drop_last() =~= Seq::<Seq<char>>::empty());
            }
            lemma_unpadded_concat(newline + indent, body, newline, indent);
            lemma_unpadded_concat(newline, indent, newline, indent);
            assert(unpadded(indent_block(body, newline, indent), newline, indent) =~= unpadded(
                body,
                newline,
                indent,
            ));
        }
    }
}

} // verus!
