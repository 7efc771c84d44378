//! Text operations on `str`, each stated over the characters of the text.

use vstd::prelude::*;
use vstd::string::*;
use vstd::utf8::*;

verus! {

/// The characters with the Unicode property `White_Space`.
pub open spec fn is_space(c: char) -> bool {
    ||| '\u{9}' <= c <= '\u{d}'
    ||| c == ' '
    ||| c == '\u{85}'
    ||| c == '\u{a0}'
    ||| c == '\u{1680}'
    ||| '\u{2000}' <= c <= '\u{200a}'
    ||| c == '\u{2028}'
    ||| c == '\u{2029}'
    ||| c == '\u{202f}'
    ||| c == '\u{205f}'
    ||| c == '\u{3000}'
}

/// `s` without white space at either end.
pub open spec fn trimmed(s: Seq<char>) -> Seq<char>
    decreases s.len(),
{
    if s.len() > 0 && is_space(s.first()) {
        trimmed(s.drop_first())
    } else if s.len() > 0 && is_space(s.last()) {
        trimmed(s.drop_last())
    } else {
        s
    }
}

/// Whether `c` is white space.
pub fn is_whitespace(c: char) -> (r: bool)
    ensures
        r == is_space(c),
{
    ('\u{9}' <= c && c <= '\u{d}') || c == ' ' || c == '\u{85}' || c == '\u{a0}' || c
        == '\u{1680}' || ('\u{2000}' <= c && c <= '\u{200a}') || c == '\u{2028}' || c == '\u{2029}'
        || c == '\u{202f}' || c == '\u{205f}' || c == '\u{3000}'
}

/// The characters of `s`.
pub fn chars_of(s: &str) -> (r: Vec<char>)
    ensures
        r@ == s@,
{
    let mut out: Vec<char> = Vec::new();
    for c in it: s.chars()
        invariant
            it.seq() == s@,
            out@ == s@.take(it.index()),
    {
        out.push(c);
    }
    out
}

/// `s` without white space at either end.
pub fn trim(s: &str) -> (r: &str)
    ensures
        r@ == trimmed(s@),
{
    let chars = chars_of(s);
    let mut from: usize = 0;
    let mut to: usize = chars.len();
    assert(s@.subrange(0, to as int) == s@);
    while from < to && is_whitespace(chars[from])
        invariant
            from <= to == chars@.len(),
            chars@ == s@,
            trimmed(s@) == trimmed(s@.subrange(from as int, to as int)),
        decreases to - from,
    {
        assert(s@.subrange(from as int, to as int).drop_first() == s@.subrange(
            from + 1,
            to as int,
        ));
        from = from + 1;
    }
    while from < to && is_whitespace(chars[to - 1])
        invariant
            from <= to <= chars@.len(),
            chars@ == s@,
            from < to ==> !is_space(chars@[from as int]),
            trimmed(s@) == trimmed(s@.subrange(from as int, to as int)),
        decreases to - from,
    {
        assert(s@.subrange(from as int, to as int).drop_last() == s@.subrange(from as int, to - 1));
        to = to - 1;
    }
    s.substring_char(from, to)
}

/// `String::push`, which appends one character.
pub assume_specification[ String::push ](s: &mut String, c: char)
    ensures
        final(s)@ == old(s)@.push(c),
;

/// The text made of `chars`.
pub fn string_of(chars: &Vec<char>) -> (r: String)
    ensures
        r@ == chars@,
{
    let mut out = String::new();
    for i in 0..chars.len()
        invariant
            out@ == chars@.take(i as int),
    {
        out.push(chars[i]);
        assert(chars@.take(i + 1) == chars@.take(i as int).push(chars@[i as int]));
    }
    assert(chars@.take(chars@.len() as int) == chars@);
    out
}

/// Whether two texts have the same characters.
pub fn same_text(a: &str, b: &str) -> (r: bool)
    ensures
        r == (a@ == b@),
{
    a.to_owned() == b.to_owned()
}

/// Whether `pattern` stands in `s` at index `i`.
pub open spec fn occurs_at(s: Seq<char>, pattern: Seq<char>, i: int) -> bool {
    &&& 0 <= i <= s.len() - pattern.len()
    &&& s.subrange(i, i + pattern.len()) == pattern
}

/// Whether `pattern` stands somewhere in `s`.
pub open spec fn has_text(s: Seq<char>, pattern: Seq<char>) -> bool {
    exists|i: int| occurs_at(s, pattern, i)
}

/// Whether `pattern` stands at index `at` of `chars`.
fn matches_at(chars: &Vec<char>, pattern: &Vec<char>, at: usize) -> (r: bool)
    requires
        at <= chars@.len(),
    ensures
        r == occurs_at(chars@, pattern@, at as int),
{
    if pattern.len() > chars.len() - at {
        return false;
    }
    for k in 0..pattern.len()
        invariant
            at + pattern@.len() <= chars@.len() <= usize::MAX,
            forall|j: int| 0 <= j < k ==> chars@[at + j] == pattern@[j],
    {
        if chars[at + k] != pattern[k] {
            assert(chars@.subrange(at as int, at + pattern@.len())[k as int] == chars@[at + k]);
            return false;
        }
    }
    assert(chars@.subrange(at as int, at + pattern@.len()) =~= pattern@);
    true
}

/// Whether `pattern` stands somewhere in `s`.
pub fn contains(s: &str, pattern: &str) -> (r: bool)
    ensures
        r == has_text(s@, pattern@),
{
    let chars = chars_of(s);
    let wanted = chars_of(pattern);
    let mut at: usize = 0;
    while at <= chars.len()
        invariant
            chars@ == s@,
            wanted@ == pattern@,
            at <= chars@.len() + 1,
            forall|j: int| 0 <= j < at ==> !occurs_at(s@, pattern@, j),
        decreases chars@.len() + 1 - at,
    {
        if matches_at(&chars, &wanted, at) {
            return true;
        }
        if at == chars.len() {
            return false;
        }
        at = at + 1;
    }
    false
}

/// Whether `s` begins with `pattern`.
pub fn starts_with(s: &str, pattern: &str) -> (r: bool)
    ensures
        r == occurs_at(s@, pattern@, 0),
{
    let chars = chars_of(s);
    let wanted = chars_of(pattern);
    matches_at(&chars, &wanted, 0)
}

/// The lower-case form of an ASCII letter; any other character as it is.
pub open spec fn lower_char(c: char) -> char {
    if 'A' <= c <= 'Z' {
        (c as u32 + 32) as char
    } else {
        c
    }
}

/// `s` with its ASCII letters in lower case.
pub open spec fn lowered(s: Seq<char>) -> Seq<char> {
    Seq::new(s.len(), |i: int| lower_char(s[i]))
}

/// `s` with its ASCII letters in lower case.
pub fn to_ascii_lowercase(s: &str) -> (r: String)
    ensures
        r@ == lowered(s@),
{
    let chars = chars_of(s);
    let mut out = String::new();
    for i in 0..chars.len()
        invariant
            chars@ == s@,
            out@ == lowered(s@).take(i as int),
    {
        let c = chars[i];
        let lower = if 'A' <= c && c <= 'Z' {
            ((c as u8) + 32u8) as char
        } else {
            c
        };
        assert(lower == lowered(s@)[i as int]);
        assert(lowered(s@).take(i + 1) == lowered(s@).take(i as int).push(lower));
        out.push(lower);
    }
    assert(lowered(s@).take(s@.len() as int) == lowered(s@));
    out
}

/// A line without the carriage return before its line feed.
pub open spec fn without_cr(line: Seq<char>) -> Seq<char> {
    if line.len() > 0 && line.last() == '\r' {
        line.drop_last()
    } else {
        line
    }
}

/// The lines of `rest`, the first of which begins with `begun`.
pub open spec fn lines_after(begun: Seq<char>, rest: Seq<char>) -> Seq<Seq<char>>
    decreases rest.len(),
{
    if rest.len() == 0 {
        if begun.len() == 0 {
            Seq::empty()
        } else {
            seq![begun]
        }
    } else if rest.first() == '\n' {
        seq![without_cr(begun)] + lines_after(Seq::empty(), rest.drop_first())
    } else {
        lines_after(begun.push(rest.first()), rest.drop_first())
    }
}

/// The lines of `s`: each ends at a line feed, which a carriage return may precede; the last one
/// may end with the text.
pub open spec fn lines_of(s: Seq<char>) -> Seq<Seq<char>> {
    lines_after(Seq::empty(), s)
}

/// The lines of `s`.
pub fn lines(s: &str) -> (r: Vec<String>)
    ensures
        r.deep_view() == lines_of(s@),
{
    let chars = chars_of(s);
    let mut out: Vec<String> = Vec::new();
    let mut line: Vec<char> = Vec::new();
    assert(s@.skip(0) == s@);
    for i in 0..chars.len()
        invariant
            chars@ == s@,
            lines_of(s@) =~= out.deep_view() + lines_after(line@, s@.skip(i as int)),
    {
        let c = chars[i];
        assert(s@.skip(i as int).drop_first() == s@.skip(i + 1));
        let ghost before = out.deep_view();
        if c == '\n' {
            if line.len() > 0 && line[line.len() - 1] == '\r' {
                line.pop();
            }
            let text = string_of(&line);
            out.push(text);
            line = Vec::new();
            assert(out.deep_view() =~= before.push(text@));
        } else {
            line.push(c);
        }
    }
    assert(s@.skip(s@.len() as int) =~= Seq::empty());
    if line.len() > 0 {
        let ghost before = out.deep_view();
        let text = string_of(&line);
        out.push(text);
        assert(out.deep_view() =~= before.push(text@));
    }
    out
}

/// `s` with every `pattern` in it replaced by `with`, from the left, without overlap.
pub open spec fn replaced(s: Seq<char>, pattern: Seq<char>, with: Seq<char>) -> Seq<char>
    decreases s.len(),
{
    if pattern.len() == 0 || s.len() == 0 {
        s
    } else if occurs_at(s, pattern, 0) {
        with + replaced(s.skip(pattern.len() as int), pattern, with)
    } else {
        seq![s.first()] + replaced(s.drop_first(), pattern, with)
    }
}

/// `s` with every `pattern` in it replaced by `with`.
pub fn replace(s: &str, pattern: &str, with: &str) -> (r: String)
    requires
        pattern@.len() > 0,
    ensures
        r@ == replaced(s@, pattern@, with@),
{
    let chars = chars_of(s);
    let wanted = chars_of(pattern);
    let mut out = String::new();
    let mut at: usize = 0;
    assert(s@.skip(0) == s@);
    while at < chars.len()
        invariant
            chars@ == s@,
            wanted@ == pattern@,
            pattern@.len() > 0,
            at <= chars@.len(),
            replaced(s@, pattern@, with@) =~= out@ + replaced(
                s@.skip(at as int),
                pattern@,
                with@,
            ),
        decreases chars@.len() - at,
    {
        let ghost rest = s@.skip(at as int);
        let found = matches_at(&chars, &wanted, at);
        assert(found == occurs_at(rest, pattern@, 0)) by {
            if pattern@.len() <= rest.len() {
                assert(rest.subrange(0, pattern@.len() as int) =~= s@.subrange(
                    at as int,
                    at + pattern@.len(),
                ));
            }
        }
        if found {
            out.append(with);
            assert(rest.skip(pattern@.len() as int) == s@.skip(at + pattern@.len()));
            at = at + wanted.len();
        } else {
            out.push(chars[at]);
            assert(rest.drop_first() == s@.skip(at + 1));
            at = at + 1;
        }
    }
    assert(s@.skip(at as int) =~= Seq::empty());
    out
}

/// `parts` one after the other, with `separator` between two of them.
pub open spec fn joined(parts: Seq<Seq<char>>, separator: Seq<char>) -> Seq<char>
    decreases parts.len(),
{
    if parts.len() == 0 {
        Seq::empty()
    } else if parts.len() == 1 {
        parts.last()
    } else {
        joined(parts.drop_last(), separator) + separator + parts.last()
    }
}

/// `parts` one after the other, with `separator` between two of them.
pub fn join(parts: &Vec<String>, separator: &str) -> (r: String)
    ensures
        r@ == joined(parts.deep_view(), separator@),
{
    let mut out = String::new();
    let ghost texts = parts.deep_view();
    for i in 0..parts.len()
        invariant
            texts == parts.deep_view(),
            out@ == joined(texts.take(i as int), separator@),
    {
        assert(texts.take(i + 1).drop_last() == texts.take(i as int));
        assert(texts.take(i + 1).last() == parts@[i as int]@);
        if i > 0 {
            out.append(separator);
        }
        out.append(parts[i].as_str());
    }
    assert(texts.take(texts.len() as int) == texts);
    out
}

/// The decimal digit `d`.
pub open spec fn digit(d: nat) -> char {
    ('0' as u32 + d) as char
}

/// `n` in decimal.
pub open spec fn decimal_of(n: nat) -> Seq<char>
    decreases n,
{
    if n < 10 {
        seq![digit(n)]
    } else {
        decimal_of(n / 10).push(digit(n % 10))
    }
}

/// `n` in decimal.
pub fn decimal(n: usize) -> (r: String)
    ensures
        r@ == decimal_of(n as nat),
    decreases n,
{
    let last = (48u8 + (n % 10) as u8) as char;
    if n < 10 {
        let mut out = String::new();
        out.push(last);
        assert(out@ =~= decimal_of(n as nat));
        out
    } else {
        let mut out = decimal(n / 10);
        out.push(last);
        out
    }
}

/// The number of bytes of `s` in UTF-8.
pub open spec fn byte_len(s: Seq<char>) -> nat {
    encode_utf8(s).len()
}

/// The UTF-8 form of two texts in a row is the two UTF-8 forms in a row.
pub proof fn lemma_encode_concat(a: Seq<char>, b: Seq<char>)
    ensures
        encode_utf8(a + b) == encode_utf8(a) + encode_utf8(b),
    decreases a.len(),
{
    if a.len() == 0 {
        assert(a + b == b);
        assert(encode_utf8(a) + encode_utf8(b) == encode_utf8(b));
    } else {
        assert((a + b).drop_first() == a.drop_first() + b);
        lemma_encode_concat(a.drop_first(), b);
        assert(encode_scalar(a[0] as u32) + (encode_utf8(a.drop_first()) + encode_utf8(b)) == (
        encode_scalar(a[0] as u32) + encode_utf8(a.drop_first())) + encode_utf8(b));
    }
}

/// The number of bytes of `s` in UTF-8.
pub fn byte_length(s: &str) -> (r: usize)
    ensures
        r == byte_len(s@),
{
    s.as_bytes().len()
}

/// The number of bytes of `c` in UTF-8.
fn char_width(c: char) -> (r: usize)
    ensures
        r == byte_len(seq![c]),
        1 <= r <= 4,
{
    proof {
        assert(seq![c].drop_first() == Seq::<char>::empty());
        assert(encode_utf8(seq![c]) == encode_scalar(c as u32) + encode_utf8(seq![c].drop_first()));
    }
    let code = c as u32;
    if code <= 0x7f {
        1
    } else if code <= 0x7ff {
        2
    } else if code <= 0xffff {
        3
    } else {
        4
    }
}

/// The longest beginning of `s` that takes at most `max` bytes in UTF-8.
pub open spec fn fitting(s: Seq<char>, max: nat) -> Seq<char>
    decreases s.len(),
{
    if s.len() == 0 || byte_len(s) <= max {
        s
    } else {
        fitting(s.drop_last(), max)
    }
}

/// A beginning of `s` that is over `max` bytes has the same longest fitting beginning as `s`.
proof fn lemma_fitting_stops(s: Seq<char>, k: int, max: nat)
    requires
        0 <= k < s.len(),
        byte_len(s.take(k)) <= max,
        byte_len(s.take(k + 1)) > max,
    ensures
        fitting(s, max) == s.take(k),
    decreases s.len(),
{
    if s.len() == k + 1 {
        assert(s.take(k + 1) == s);
        assert(s.drop_last() == s.take(k));
        assert(fitting(s.take(k), max) == s.take(k));
    } else {
        let shorter = s.drop_last();
        assert(shorter.take(k) == s.take(k));
        assert(shorter.take(k + 1) == s.take(k + 1));
        lemma_fitting_stops(shorter, k, max);
        assert(s == s.take(k + 1) + s.skip(k + 1));
        lemma_encode_concat(s.take(k + 1), s.skip(k + 1));
    }
}

/// The longest beginning of `s` that takes at most `max` bytes and ends between two characters.
pub fn truncate_str(s: &str, max: usize) -> (r: &str)
    ensures
        r@ == fitting(s@, max as nat),
{
    let chars = chars_of(s);
    let mut left: usize = max;
    for i in 0..chars.len()
        invariant
            chars@ == s@,
            left <= max,
            byte_len(s@.take(i as int)) == max - left,
    {
        let width = char_width(chars[i]);
        proof {
            assert(s@.take(i + 1) == s@.take(i as int) + seq![s@[i as int]]);
            lemma_encode_concat(s@.take(i as int), seq![s@[i as int]]);
        }
        if width > left {
            proof {
                lemma_fitting_stops(s@, i as int, max as nat);
            }
            return s.substring_char(0, i);
        }
        left = left - width;
    }
    assert(s@.take(s@.len() as int) == s@);
    s
}

/// `s`, or its first `max` characters and a mark that something was cut off.
pub open spec fn shortened(s: Seq<char>, max: nat) -> Seq<char> {
    if s.len() <= max {
        s
    } else {
        s.take(max as int) + " …[truncated]"@
    }
}

/// `s`, or its first `max` characters and a mark that something was cut off.
pub fn shorten(s: &str, max: usize) -> (r: String)
    ensures
        r@ == shortened(s@, max as nat),
{
    let count = s.unicode_len();
    if count <= max {
        return s.to_owned();
    }
    s.substring_char(0, max).to_owned().concat(" …[truncated]")
}

/// What stands in a text stands in every text around it.
pub proof fn lemma_has_text_around(
    before: Seq<char>,
    s: Seq<char>,
    after: Seq<char>,
    pattern: Seq<char>,
)
    requires
        has_text(s, pattern),
    ensures
        has_text(before + s + after, pattern),
{
    let i = choose|i: int| occurs_at(s, pattern, i);
    let whole = before + s + after;
    let at = before.len() + i;
    assert(whole.subrange(at, at + pattern.len()) == s.subrange(i, i + pattern.len()));
    assert(occurs_at(whole, pattern, at));
}

/// A text stands in itself.
pub proof fn lemma_has_itself(s: Seq<char>)
    ensures
        has_text(s, s),
{
    assert(s.subrange(0, s.len() as int) == s);
    assert(occurs_at(s, s, 0));
}

/// A shortened text is at most `max` characters and the mark long, and begins as the text does.
pub proof fn shortened_is_bounded(s: Seq<char>, max: nat)
    ensures
        shortened(s, max).len() <= max + 13,
        s.len() <= max ==> shortened(s, max) == s,
        s.len() > max ==> shortened(s, max) == s.take(max as int) + " …[truncated]"@,
        s.len() > max ==> shortened(s, max).take(max as int) == s.take(max as int),
{
    reveal_strlit(" …[truncated]");
}

/// What fits of a text is its longest beginning of at most `max` bytes.
pub proof fn fitting_is_longest(s: Seq<char>, max: nat)
    ensures
        fitting(s, max).len() <= s.len(),
        fitting(s, max) == s.take(fitting(s, max).len() as int),
        byte_len(fitting(s, max)) <= max,
        forall|k: int|
            fitting(s, max).len() < k <= s.len() ==> byte_len(#[trigger] s.take(k)) > max,
    decreases s.len(),
{
    if s.len() == 0 || byte_len(s) <= max {
        assert(s.take(s.len() as int) == s);
    } else {
        let shorter = s.drop_last();
        fitting_is_longest(shorter, max);
        assert(shorter.take(fitting(shorter, max).len() as int) == s.take(
            fitting(shorter, max).len() as int,
        ));
        assert forall|k: int| fitting(s, max).len() < k <= s.len() implies byte_len(
            #[trigger] s.take(k),
        ) > max by {
            if k == s.len() {
                assert(s.take(k) == s);
            } else {
                assert(shorter.take(k) == s.take(k));
            }
        }
    }
}

/// No line holds a line feed.
proof fn lemma_lines_after(begun: Seq<char>, rest: Seq<char>)
    requires
        !begun.contains('\n'),
    ensures
        forall|i: int|
            0 <= i < lines_after(begun, rest).len() ==> !(#[trigger] lines_after(
                begun,
                rest,
            )[i]).contains('\n'),
    decreases rest.len(),
{
    if rest.len() > 0 && rest.first() == '\n' {
        let tail = lines_after(Seq::empty(), rest.drop_first());
        lemma_lines_after(Seq::empty(), rest.drop_first());
        assert(!without_cr(begun).contains('\n'));
        assert forall|i: int| 0 <= i < lines_after(begun, rest).len() implies !(
        #[trigger] lines_after(begun, rest)[i]).contains('\n') by {
            if i > 0 {
                assert(lines_after(begun, rest)[i] == tail[i - 1]);
            }
        }
    } else if rest.len() > 0 {
        let next = begun.push(rest.first());
        assert(!next.contains('\n')) by {
            assert forall|i: int| 0 <= i < next.len() implies next[i] != '\n' by {
                if i < begun.len() {
                    assert(begun.contains(begun[i]));
                }
            }
        }
        lemma_lines_after(next, rest.drop_first());
        assert(lines_after(begun, rest) == lines_after(next, rest.drop_first()));
    } else {
        assert(begun.len() > 0 ==> lines_after(begun, rest) == seq![begun]);
    }
}

/// No line holds a line feed.
pub proof fn lines_hold_no_feed(s: Seq<char>)
    ensures
        forall|i: int|
            0 <= i < lines_of(s).len() ==> !(#[trigger] lines_of(s)[i]).contains('\n'),
{
    lemma_lines_after(Seq::empty(), s);
}

/// Lower case stays lower case.
pub proof fn lowered_is_stable(s: Seq<char>)
    ensures
        lowered(lowered(s)) == lowered(s),
{
    assert(lowered(lowered(s)) =~= lowered(s));
}

/// A text without the pattern stays as it is.
pub proof fn replaced_without_pattern(s: Seq<char>, pattern: Seq<char>, with: Seq<char>)
    requires
        !has_text(s, pattern),
    ensures
        replaced(s, pattern, with) == s,
    decreases s.len(),
{
    if s.len() > 0 && pattern.len() > 0 {
        assert(!occurs_at(s, pattern, 0));
        let rest = s.drop_first();
        if has_text(rest, pattern) {
            assert(seq![s.first()] + rest + Seq::empty() == s);
            lemma_has_text_around(seq![s.first()], rest, Seq::empty(), pattern);
        }
        replaced_without_pattern(rest, pattern, with);
        assert(seq![s.first()] + rest == s);
    }
}

/// A text without white space at its ends has none there.
pub proof fn trimmed_is_stable(s: Seq<char>)
    ensures
        trimmed(trimmed(s)) == trimmed(s),
        trimmed(s).len() <= s.len(),
        trimmed(s).len() > 0 ==> !is_space(trimmed(s).first()) && !is_space(trimmed(s).last()),
    decreases s.len(),
{
    if s.len() > 0 && is_space(s.first()) {
        trimmed_is_stable(s.drop_first());
    } else if s.len() > 0 && is_space(s.last()) {
        trimmed_is_stable(s.drop_last());
    }
}

/// White space is what Unicode calls so: these characters and no others.
pub proof fn spaces_by_code(c: char)
    ensures
        is_space(c) <==> (9 <= c as u32 <= 13 || c as u32 == 32 || c as u32 == 0x85 || c as u32
            == 0xa0 || c as u32 == 0x1680 || 0x2000 <= c as u32 <= 0x200a || c as u32 == 0x2028
            || c as u32 == 0x2029 || c as u32 == 0x202f || c as u32 == 0x205f || c as u32
            == 0x3000),
{
}

/// A trimmed text is the part of the text between two places: all before and all after is white
/// space, and the part itself neither begins nor ends with white space.
pub proof fn trimmed_is_the_middle(s: Seq<char>) -> (r: (int, int))
    ensures
        0 <= r.0 <= r.1 <= s.len(),
        trimmed(s) == s.subrange(r.0, r.1),
        forall|i: int| 0 <= i < r.0 ==> is_space(#[trigger] s[i]),
        forall|i: int| r.1 <= i < s.len() ==> is_space(#[trigger] s[i]),
        r.0 < r.1 ==> !is_space(s[r.0]) && !is_space(s[r.1 - 1]),
    decreases s.len(),
{
    if s.len() > 0 && is_space(s.first()) {
        let rest = s.drop_first();
        let (from, to) = trimmed_is_the_middle(rest);
        assert(rest.subrange(from, to) == s.subrange(from + 1, to + 1));
        assert forall|i: int| 0 <= i < from + 1 implies is_space(#[trigger] s[i]) by {
            if i > 0 {
                assert(rest[i - 1] == s[i]);
            }
        }
        assert forall|i: int| to + 1 <= i < s.len() implies is_space(#[trigger] s[i]) by {
            assert(rest[i - 1] == s[i]);
        }
        (from + 1, to + 1)
    } else if s.len() > 0 && is_space(s.last()) {
        let rest = s.drop_last();
        let (from, to) = trimmed_is_the_middle(rest);
        assert(rest.subrange(from, to) == s.subrange(from, to));
        assert forall|i: int| 0 <= i < from implies is_space(#[trigger] s[i]) by {
            assert(rest[i] == s[i]);
        }
        assert forall|i: int| to <= i < s.len() implies is_space(#[trigger] s[i]) by {
            if i < s.len() - 1 {
                assert(rest[i] == s[i]);
            }
        }
        (from, to)
    } else {
        assert(s.subrange(0, s.len() as int) == s);
        (0, s.len() as int)
    }
}

/// A pattern stands in a text where the text is something, the pattern and something more.
pub proof fn has_text_by_parts(s: Seq<char>, pattern: Seq<char>)
    ensures
        has_text(s, pattern) <==> exists|before: Seq<char>, after: Seq<char>|
            s == #[trigger] (before + pattern + after),
{
    if has_text(s, pattern) {
        let i = choose|i: int| occurs_at(s, pattern, i);
        assert(s == s.take(i) + pattern + s.skip(i + pattern.len()));
    }
    if exists|before: Seq<char>, after: Seq<char>| s == #[trigger] (before + pattern + after) {
        let (before, after) = choose|before: Seq<char>, after: Seq<char>|
            s == #[trigger] (before + pattern + after);
        lemma_has_itself(pattern);
        lemma_has_text_around(before, pattern, after, pattern);
    }
}

/// Each letter from `A` to `Z` becomes the one from `a` to `z`, and nothing else changes.
pub proof fn lowered_letter_by_letter(s: Seq<char>, i: int)
    requires
        0 <= i < s.len(),
    ensures
        lowered(s).len() == s.len(),
        65 <= s[i] as u32 <= 90 ==> lowered(s)[i] as u32 == s[i] as u32 + 32,
        !(65 <= s[i] as u32 <= 90) ==> lowered(s)[i] == s[i],
{
}

/// Joined texts are those of the first parts, the separator and those of the others; a single part
/// is joined to itself.
pub proof fn joined_part_by_part(
    first: Seq<Seq<char>>,
    others: Seq<Seq<char>>,
    separator: Seq<char>,
)
    ensures
        joined(Seq::empty(), separator) == Seq::<char>::empty(),
        first.len() == 1 ==> joined(first, separator) == first[0],
        first.len() > 0 && others.len() > 0 ==> joined(first + others, separator) == joined(
            first,
            separator,
        ) + separator + joined(others, separator),
    decreases others.len(),
{
    if first.len() > 0 && others.len() > 0 {
        let all = first + others;
        assert(all.drop_last() == first + others.drop_last());
        assert(all.last() == others.last());
        if others.len() == 1 {
            assert(first + others.drop_last() == first);
        } else {
            joined_part_by_part(first, others.drop_last(), separator);
            assert(joined(all, separator) == joined(first, separator) + separator + joined(
                others.drop_last(),
                separator,
            ) + separator + others.last());
        }
    }
}

/// The rest of a line up to its line feed.
proof fn lemma_lines_after_feed(begun: Seq<char>, line: Seq<char>, rest: Seq<char>)
    requires
        !line.contains('\n'),
    ensures
        lines_after(begun, line + seq!['\n'] + rest) == seq![without_cr(begun + line)] + lines_of(
            rest,
        ),
    decreases line.len(),
{
    let all = line + seq!['\n'] + rest;
    if line.len() == 0 {
        assert(all.first() == '\n');
        assert(all.drop_first() == rest);
        assert(begun + line == begun);
    } else {
        assert(line.contains(line[0]));
        assert(all.first() == line[0]);
        assert(all.drop_first() == line.drop_first() + seq!['\n'] + rest);
        assert forall|i: int| 0 <= i < line.drop_first().len() implies line.drop_first()[i]
            != '\n' by {
            assert(line.contains(line[i + 1]));
        }
        lemma_lines_after_feed(begun.push(line[0]), line.drop_first(), rest);
        assert(begun.push(line[0]) + line.drop_first() == begun + line);
    }
}

/// A text without a line feed after what is begun.
proof fn lemma_lines_after_end(begun: Seq<char>, line: Seq<char>)
    requires
        !line.contains('\n'),
    ensures
        lines_after(begun, line) == if begun.len() + line.len() == 0 {
            Seq::empty()
        } else {
            seq![begun + line]
        },
    decreases line.len(),
{
    if line.len() > 0 {
        assert(line.contains(line[0]));
        assert forall|i: int| 0 <= i < line.drop_first().len() implies line.drop_first()[i]
            != '\n' by {
            assert(line.contains(line[i + 1]));
        }
        lemma_lines_after_end(begun.push(line[0]), line.drop_first());
        assert(begun.push(line[0]) + line.drop_first() == begun + line);
    } else {
        assert(begun + line == begun);
    }
}

/// The lines of a text are what stands before its first line feed, without a carriage return at
/// its end, and the lines after it. A text without a line feed is one line, or none if it is empty.
pub proof fn lines_feed_by_feed(line: Seq<char>, rest: Seq<char>)
    requires
        !line.contains('\n'),
    ensures
        lines_of(line + seq!['\n'] + rest) == seq![
            if line.len() > 0 && line.last() == '\r' {
                line.drop_last()
            } else {
                line
            },
        ] + lines_of(rest),
        lines_of(line) == if line.len() == 0 {
            Seq::empty()
        } else {
            seq![line]
        },
{
    lemma_lines_after_feed(Seq::empty(), line, rest);
    lemma_lines_after_end(Seq::empty(), line);
    assert(Seq::empty() + line == line);
}

/// The first place where a pattern stands is replaced, what is before it stays, and the same is
/// done to what is after it.
pub proof fn replaced_place_by_place(
    before: Seq<char>,
    pattern: Seq<char>,
    after: Seq<char>,
    with: Seq<char>,
)
    requires
        pattern.len() > 0,
        forall|i: int|
            0 <= i < before.len() ==> !#[trigger] occurs_at(before + pattern + after, pattern, i),
    ensures
        replaced(before + pattern + after, pattern, with) == before + with + replaced(
            after,
            pattern,
            with,
        ),
    decreases before.len(),
{
    let all = before + pattern + after;
    if before.len() == 0 {
        assert(all.subrange(0, pattern.len() as int) == pattern);
        assert(occurs_at(all, pattern, 0));
        assert(all.skip(pattern.len() as int) == after);
        assert(before + with == with);
    } else {
        assert(!occurs_at(all, pattern, 0));
        let rest = before.drop_first();
        assert(all.drop_first() == rest + pattern + after);
        assert forall|i: int| 0 <= i < rest.len() implies !#[trigger] occurs_at(
            rest + pattern + after,
            pattern,
            i,
        ) by {
            if occurs_at(rest + pattern + after, pattern, i) {
                assert(all.subrange(i + 1, i + 1 + pattern.len()) == (rest + pattern
                    + after).subrange(i, i + pattern.len()));
                assert(occurs_at(all, pattern, i + 1));
            }
        }
        replaced_place_by_place(rest, pattern, after, with);
        assert(seq![all.first()] + (rest + with + replaced(after, pattern, with)) == before + with
            + replaced(after, pattern, with));
    }
}

/// The number that decimal digits write.
pub open spec fn number_of_digits(digits: Seq<char>) -> nat
    decreases digits.len(),
{
    if digits.len() == 0 {
        0
    } else {
        (number_of_digits(digits.drop_last()) * 10 + (digits.last() as u32 - 48)) as nat
    }
}

/// A number in decimal consists of digits, writes that number and has no needless zero in front.
pub proof fn decimal_writes_the_number(n: nat)
    ensures
        number_of_digits(decimal_of(n)) == n,
        forall|i: int|
            0 <= i < decimal_of(n).len() ==> 48 <= #[trigger] decimal_of(n)[i] as u32 <= 57,
        decimal_of(n).len() > 0,
        n > 0 ==> decimal_of(n)[0] != '0',
    decreases n,
{
    if n < 10 {
        reveal_with_fuel(number_of_digits, 2);
        assert(seq![digit(n)].drop_last() == Seq::<char>::empty());
    } else {
        decimal_writes_the_number(n / 10);
        let digits = decimal_of(n / 10);
        assert(digits.push(digit(n % 10)).drop_last() == digits);
    }
}

/// The bytes of a text are those of its characters: one for ASCII, and up to four for others.
pub proof fn bytes_char_by_char(a: Seq<char>, b: Seq<char>, c: char)
    ensures
        byte_len(a + b) == byte_len(a) + byte_len(b),
        byte_len(Seq::empty()) == 0,
        byte_len(seq![c]) == if c as u32 <= 0x7f {
            1nat
        } else if c as u32 <= 0x7ff {
            2
        } else if c as u32 <= 0xffff {
            3
        } else {
            4
        },
{
    lemma_encode_concat(a, b);
    assert(seq![c].drop_first() == Seq::<char>::empty());
    assert(encode_utf8(seq![c]) == encode_scalar(c as u32) + encode_utf8(seq![c].drop_first()));
}

} // verus!
