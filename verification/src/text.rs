//! Text helpers shared by the whole crate: decimal rendering of integers,
//! the dictionary order of texts, and searching one text in another.

use vstd::prelude::*;
use vstd::std_specs::iter::IteratorSpec;
use vstd::string::StringSliceAdditionalSpecFns;
use crate::trusted::push_char;

verus! {

/// The characters of `s`, in order.
pub fn to_chars(s: &str) -> (chars: Vec<char>)
    ensures
        chars@ == s@,
{
    broadcast use vstd::string::group_string_axioms;

    let mut rest = s.chars();
    let mut chars: Vec<char> = Vec::new();
    assert(rest.remaining() == s@);
    loop
        invariant
            rest.obeys_prophetic_iter_laws(),
            chars@ + rest.remaining() == s@,
        ensures
            chars@ == s@,
        decreases s@.len() - chars@.len(),
    {
        match rest.next() {
            Some(c) => {
                chars.push(c);
                assert(chars@ + rest.remaining() =~= s@);
            },
            None => {
                assert(chars@ =~= s@);
                break;
            },
        }
    }
    chars
}

/// Whether two string slices hold the same characters.
pub fn str_eq(a: &str, b: &str) -> (same: bool)
    ensures
        same == (a@ == b@),
{
    let x = a.as_bytes();
    let y = b.as_bytes();
    proof {
        vstd::utf8::encode_utf8_decode_utf8(a@);
        vstd::utf8::encode_utf8_decode_utf8(b@);
    }
    if x.len() != y.len() {
        return false;
    }
    let mut i: usize = 0;
    while i < x.len()
        invariant
            i <= x@.len(),
            x@.len() == y@.len(),
            x@ == a.spec_bytes(),
            y@ == b.spec_bytes(),
            forall|j: int| 0 <= j < i ==> x@[j] == y@[j],
        decreases x.len() - i,
    {
        if x[i] != y[i] {
            assert(x@[i as int] != y@[i as int]);
            return false;
        }
        i += 1;
    }
    assert(x@ =~= y@);
    true
}

/// The character for a single decimal digit.
pub open spec fn digit_char(d: int) -> char
    recommends
        0 <= d < 10,
{
    ((48 + d) as u8) as char
}

/// Decimal text of a natural number, most significant digit first, without
/// leading zeros.
pub open spec fn nat_text(n: nat) -> Seq<char>
    decreases n,
{
    if n < 10 {
        seq![digit_char(n as int)]
    } else {
        nat_text(n / 10).push(digit_char((n % 10) as int))
    }
}

/// Decimal text of an integer: a minus sign for negative numbers, then the
/// digits of the magnitude.
pub open spec fn int_text(i: int) -> Seq<char> {
    if i < 0 {
        seq!['-'] + nat_text((-i) as nat)
    } else {
        nat_text(i as nat)
    }
}

/// Appends the decimal digits of `n` to `s`.
pub fn push_nat(s: &mut String, n: u64)
    ensures
        final(s)@ == old(s)@ + nat_text(n as nat),
    decreases n,
{
    if n >= 10 {
        push_nat(s, n / 10);
    }
    let d: u8 = (n % 10) as u8;
    push_char(s, (48u8 + d) as char);
}

/// Appends the decimal text of `i` to `s`.
pub fn push_int(s: &mut String, i: i64)
    ensures
        final(s)@ == old(s)@ + int_text(i as int),
{
    if i < 0 {
        push_char(s, '-');
        let magnitude: u64 = ((-(i + 1)) as u64) + 1;
        push_nat(s, magnitude);
    } else {
        push_nat(s, i as u64);
    }
}

/// The string made of `chars[from..to]`.
pub(crate) fn string_of(chars: &Vec<char>, from: usize, to: usize) -> (s: String)
    requires
        from <= to <= chars@.len(),
    ensures
        s@ == chars@.subrange(from as int, to as int),
{
    let mut s = String::new();
    let mut i: usize = from;
    while i < to
        invariant
            from <= i <= to <= chars@.len(),
            s@ == chars@.subrange(from as int, i as int),
        decreases to - i,
    {
        push_char(&mut s, chars[i]);
        assert(chars@.subrange(from as int, i as int).push(chars@[i as int]) =~= chars@.subrange(
            from as int,
            i + 1,
        ));
        i += 1;
    }
    s
}

/// Whether `a` comes before `b` or equals it in dictionary order, comparing
/// character by character by code point. This is the order of `str` and
/// `String`.
pub open spec fn text_le(a: Seq<char>, b: Seq<char>) -> bool
    decreases a.len(),
{
    if a.len() == 0 {
        true
    } else if b.len() == 0 {
        false
    } else if a[0] != b[0] {
        (a[0] as u32) < (b[0] as u32)
    } else {
        text_le(a.subrange(1, a.len() as int), b.subrange(1, b.len() as int))
    }
}

/// Of any two texts, one comes before the other or they are the same.
pub proof fn text_le_total(a: Seq<char>, b: Seq<char>)
    ensures
        text_le(a, b) || text_le(b, a),
    decreases a.len(),
{
    if a.len() > 0 && b.len() > 0 {
        if a[0] == b[0] {
            text_le_total(a.subrange(1, a.len() as int), b.subrange(1, b.len() as int));
        } else {
            vstd::utf8::char_u32_cast(a[0], a[0] as u32);
            vstd::utf8::char_u32_cast(b[0], b[0] as u32);
        }
    }
}

/// Dictionary order is transitive.
pub proof fn text_le_transitive(a: Seq<char>, b: Seq<char>, c: Seq<char>)
    requires
        text_le(a, b),
        text_le(b, c),
    ensures
        text_le(a, c),
    decreases a.len(),
{
    if a.len() > 0 && b.len() > 0 && c.len() > 0 && a[0] == b[0] && b[0] == c[0] {
        text_le_transitive(
            a.subrange(1, a.len() as int),
            b.subrange(1, b.len() as int),
            c.subrange(1, c.len() as int),
        );
    }
}

/// Whether `a` comes before `b` or equals it in dictionary order.
pub fn chars_le(a: &Vec<char>, b: &Vec<char>) -> (r: bool)
    ensures
        r == text_le(a@, b@),
{
    let mut i: usize = 0;
    assert(a@.subrange(0, a@.len() as int) =~= a@);
    assert(b@.subrange(0, b@.len() as int) =~= b@);
    while i < a.len() && i < b.len()
        invariant
            i <= a@.len(),
            i <= b@.len(),
            text_le(a@, b@) == text_le(
                a@.subrange(i as int, a@.len() as int),
                b@.subrange(i as int, b@.len() as int),
            ),
        decreases a.len() - i,
    {
        let ghost ra = a@.subrange(i as int, a@.len() as int);
        let ghost rb = b@.subrange(i as int, b@.len() as int);
        assert(ra[0] == a@[i as int] && rb[0] == b@[i as int]);
        if a[i] != b[i] {
            return (a[i] as u32) < (b[i] as u32);
        }
        assert(ra.subrange(1, ra.len() as int) =~= a@.subrange(i + 1, a@.len() as int));
        assert(rb.subrange(1, rb.len() as int) =~= b@.subrange(i + 1, b@.len() as int));
        i += 1;
    }
    i >= a.len()
}


/// Whether `needle` stands in `s` at position `at`.
pub open spec fn occurs_at(s: Seq<char>, needle: Seq<char>, at: int) -> bool {
    0 <= at && at + needle.len() <= s.len() && s.subrange(at, at + needle.len()) == needle
}

/// Whether `s` starts with `needle`.
pub open spec fn starts_with(s: Seq<char>, needle: Seq<char>) -> bool {
    occurs_at(s, needle, 0)
}

/// Whether `s` ends with `needle`.
pub open spec fn ends_with(s: Seq<char>, needle: Seq<char>) -> bool {
    occurs_at(s, needle, s.len() - needle.len())
}

/// Whether `needle` stands somewhere in `s`.
pub open spec fn contains_text(s: Seq<char>, needle: Seq<char>) -> bool {
    exists|at: int| occurs_at(s, needle, at)
}

/// Whether `needle` stands in `s` at position `at`.
pub fn chars_occur_at(s: &Vec<char>, needle: &Vec<char>, at: usize) -> (r: bool)
    ensures
        r == occurs_at(s@, needle@, at as int),
{
    if at > s.len() || needle.len() > s.len() - at {
        return false;
    }
    let mut i: usize = 0;
    while i < needle.len()
        invariant
            i <= needle@.len(),
            at + needle@.len() <= s@.len() <= usize::MAX,
            forall|j: int| 0 <= j < i ==> s@[at + j] == needle@[j],
        decreases needle.len() - i,
    {
        if s[at + i] != needle[i] {
            assert(s@.subrange(at as int, at + needle@.len())[i as int] != needle@[i as int]);
            return false;
        }
        i += 1;
    }
    assert(s@.subrange(at as int, at + needle@.len()) =~= needle@);
    true
}

/// Whether `s` starts with `needle`.
pub fn str_starts_with(s: &str, needle: &str) -> (r: bool)
    ensures
        r == starts_with(s@, needle@),
{
    let s = to_chars(s);
    let needle = to_chars(needle);
    chars_occur_at(&s, &needle, 0)
}

/// Whether `s` ends with `needle`.
pub fn str_ends_with(s: &str, needle: &str) -> (r: bool)
    ensures
        r == ends_with(s@, needle@),
{
    let s = to_chars(s);
    let needle = to_chars(needle);
    if needle.len() > s.len() {
        return false;
    }
    chars_occur_at(&s, &needle, s.len() - needle.len())
}

/// Whether `needle` stands somewhere in `s`.
pub fn str_contains(s: &str, needle: &str) -> (r: bool)
    ensures
        r == contains_text(s@, needle@),
{
    let text = to_chars(s);
    let wanted = to_chars(needle);
    if wanted.len() > text.len() {
        return false;
    }
    if wanted.len() == 0 {
        assert(text@.subrange(0, 0) =~= wanted@);
        assert(occurs_at(text@, wanted@, 0));
        return true;
    }
    let last: usize = text.len() - wanted.len();
    let mut at: usize = 0;
    while at <= last
        invariant
            at <= last + 1,
            last == text@.len() - wanted@.len(),
            last < text@.len() <= usize::MAX,
            text@ == s@,
            wanted@ == needle@,
            forall|j: int| 0 <= j < at ==> !occurs_at(text@, wanted@, j),
        decreases last + 1 - at,
    {
        if chars_occur_at(&text, &wanted, at) {
            assert(occurs_at(s@, needle@, at as int));
            return true;
        }
        at += 1;
    }
    false
}


/// Whether the character is whitespace: whether it has the Unicode property
/// White_Space. These are the tab, the line feed, the vertical tab, the form
/// feed, the carriage return, the space, the next-line character, the
/// no-break space, the Ogham space mark, the spaces from the en quad to the
/// hair space, the line and paragraph separators, the narrow no-break space,
/// the medium mathematical space and the ideographic space.
pub open spec fn white_space(c: char) -> bool {
    let u = c as u32;
    ||| 0x09 <= u <= 0x0d
    ||| u == 0x20
    ||| u == 0x85
    ||| u == 0xa0
    ||| u == 0x1680
    ||| 0x2000 <= u <= 0x200a
    ||| u == 0x2028
    ||| u == 0x2029
    ||| u == 0x202f
    ||| u == 0x205f
    ||| u == 0x3000
}

/// Whether the character is whitespace.
pub fn is_whitespace(c: char) -> (r: bool)
    ensures
        r == white_space(c),
{
    let u: u32 = c as u32;
    (0x09 <= u && u <= 0x0d) || u == 0x20 || u == 0x85 || u == 0xa0 || u == 0x1680 || (0x2000 <= u
        && u <= 0x200a) || u == 0x2028 || u == 0x2029 || u == 0x202f || u == 0x205f || u == 0x3000
}

/// The text with every match of `from` replaced by `to`. Matches are found
/// from the left and do not overlap. An empty `from` matches in front of every
/// character and behind the last.
pub open spec fn replaced(s: Seq<char>, from: Seq<char>, to: Seq<char>) -> Seq<char>
    decreases s.len(),
{
    if s.len() == 0 {
        if from.len() == 0 {
            to
        } else {
            Seq::empty()
        }
    } else if from.len() == 0 {
        to + seq![s[0]] + replaced(s.subrange(1, s.len() as int), from, to)
    } else if occurs_at(s, from, 0) {
        to + replaced(s.subrange(from.len() as int, s.len() as int), from, to)
    } else {
        seq![s[0]] + replaced(s.subrange(1, s.len() as int), from, to)
    }
}

/// Appends the characters `chars[from..to]` to `out`.
fn push_chars(out: &mut String, chars: &Vec<char>, from: usize, to: usize)
    requires
        from <= to <= chars@.len(),
    ensures
        final(out)@ == old(out)@ + chars@.subrange(from as int, to as int),
{
    let ghost start = out@;
    let mut i: usize = from;
    assert(chars@.subrange(from as int, from as int) =~= Seq::empty());
    while i < to
        invariant
            from <= i <= to <= chars@.len(),
            out@ == start + chars@.subrange(from as int, i as int),
        decreases to - i,
    {
        push_char(out, chars[i]);
        assert(start + chars@.subrange(from as int, i + 1) =~= (start + chars@.subrange(
            from as int,
            i as int,
        )).push(chars@[i as int]));
        i += 1;
    }
}

/// `s` with every match of `from` replaced by `to`.
pub fn replace(s: &str, from: &str, to: &str) -> (r: String)
    ensures
        r@ == replaced(s@, from@, to@),
{
    let text = to_chars(s);
    let wanted = to_chars(from);
    let mut out = String::new();
    let mut i: usize = 0;
    assert(text@.subrange(0, text@.len() as int) =~= text@);
    while i < text.len()
        invariant
            i <= text@.len(),
            text@ == s@,
            wanted@ == from@,
            replaced(s@, from@, to@) == out@ + replaced(
                text@.subrange(i as int, text@.len() as int),
                from@,
                to@,
            ),
        decreases text.len() - i,
    {
        let ghost rest = text@.subrange(i as int, text@.len() as int);
        let ghost before = out@;
        assert(rest[0] == text@[i as int]);
        if wanted.len() == 0 {
            out.append(to);
            push_char(&mut out, text[i]);
            assert(rest.subrange(1, rest.len() as int) =~= text@.subrange(
                i + 1,
                text@.len() as int,
            ));
            assert(out@ =~= before + (to@ + seq![rest[0]]));
            i += 1;
        } else if chars_occur_at(&text, &wanted, i) {
            assert(occurs_at(rest, wanted@, 0)) by {
                assert(rest.subrange(0, wanted@.len() as int) =~= text@.subrange(
                    i as int,
                    i + wanted@.len(),
                ));
            }
            out.append(to);
            assert(rest.subrange(wanted@.len() as int, rest.len() as int) =~= text@.subrange(
                i + wanted@.len(),
                text@.len() as int,
            ));
            i += wanted.len();
        } else {
            assert(!occurs_at(rest, wanted@, 0)) by {
                if occurs_at(rest, wanted@, 0) {
                    assert(rest.subrange(0, wanted@.len() as int) =~= text@.subrange(
                        i as int,
                        i + wanted@.len(),
                    ));
                }
            }
            push_char(&mut out, text[i]);
            assert(rest.subrange(1, rest.len() as int) =~= text@.subrange(
                i + 1,
                text@.len() as int,
            ));
            assert(out@ =~= before + seq![rest[0]]);
            i += 1;
        }
    }
    if wanted.len() == 0 {
        out.append(to);
    }
    out
}

/// Whether `pattern` stands in `s` at position `at` and nowhere before.
pub open spec fn first_occurs_at(s: Seq<char>, pattern: Seq<char>, at: int) -> bool {
    occurs_at(s, pattern, at) && forall|j: int| 0 <= j < at ==> !occurs_at(s, pattern, j)
}

/// The parts of a text between the matches of a pattern that is not empty.
/// Matches are found from the left and do not overlap; a text without a
/// match is its own single part.
pub open spec fn parts_between(s: Seq<char>, pattern: Seq<char>) -> Seq<Seq<char>>
    decreases s.len(),
{
    if pattern.len() > 0 && exists|at: int| first_occurs_at(s, pattern, at) {
        let at = choose|at: int| first_occurs_at(s, pattern, at);
        seq![s.subrange(0, at)] + parts_between(
            s.subrange(at + pattern.len(), s.len() as int),
            pattern,
        )
    } else {
        seq![s]
    }
}

/// The parts of a text between the matches of a pattern. An empty pattern
/// matches in front of every character and behind the last, so that the
/// parts are an empty text, then each character, then an empty text.
pub open spec fn split_parts(s: Seq<char>, pattern: Seq<char>) -> Seq<Seq<char>> {
    if pattern.len() == 0 {
        seq![Seq::empty()] + Seq::new(s.len(), |i: int| seq![s[i]]) + seq![Seq::empty()]
    } else {
        parts_between(s, pattern)
    }
}

/// The texts of the strings.
pub open spec fn texts_of(strings: Seq<String>) -> Seq<Seq<char>> {
    Seq::new(strings.len(), |i: int| strings[i]@)
}

/// The parts of `s` between the matches of `pattern`.
pub fn split(s: &str, pattern: &str) -> (parts: Vec<String>)
    ensures
        texts_of(parts@) == split_parts(s@, pattern@),
{
    let text = to_chars(s);
    let wanted = to_chars(pattern);
    let mut parts: Vec<String> = Vec::new();
    if wanted.len() == 0 {
        parts.push(String::new());
        let mut i: usize = 0;
        while i < text.len()
            invariant
                i <= text@.len(),
                parts@.len() == i + 1,
                parts@[0]@ == Seq::<char>::empty(),
                forall|j: int| 0 <= j < i ==> (#[trigger] parts@[j + 1])@ == seq![text@[j]],
            decreases text.len() - i,
        {
            let mut one = String::new();
            push_char(&mut one, text[i]);
            parts.push(one);
            i += 1;
        }
        parts.push(String::new());
        assert(texts_of(parts@) =~= split_parts(s@, pattern@)) by {
            let expected = split_parts(s@, pattern@);
            assert(expected.len() == text@.len() + 2);
            assert forall|j: int| 0 <= j < expected.len() implies texts_of(parts@)[j]
                == expected[j] by {
                if 0 < j <= text@.len() {
                    assert(parts@[(j - 1) + 1]@ == seq![text@[j - 1]]);
                }
            }
        }
        return parts;
    }
    let mut start: usize = 0;
    let mut i: usize = 0;
    let ghost mut done: Seq<Seq<char>> = Seq::empty();
    assert(text@.subrange(0, text@.len() as int) =~= text@);
    while i < text.len()
        invariant
            start <= i <= text@.len(),
            text@ == s@,
            wanted@ == pattern@,
            wanted@.len() > 0,
            texts_of(parts@) == done,
            split_parts(s@, pattern@) == done + parts_between(
                text@.subrange(start as int, text@.len() as int),
                wanted@,
            ),
            forall|j: int|
                0 <= j < i - start ==> !occurs_at(
                    text@.subrange(start as int, text@.len() as int),
                    wanted@,
                    j,
                ),
        decreases text.len() - i,
    {
        let ghost rest = text@.subrange(start as int, text@.len() as int);
        if chars_occur_at(&text, &wanted, i) {
            proof {
                assert(occurs_at(rest, wanted@, i - start)) by {
                    assert(rest.subrange(i - start, i - start + wanted@.len()) =~= text@.subrange(
                        i as int,
                        i + wanted@.len(),
                    ));
                }
                assert(first_occurs_at(rest, wanted@, i - start));
                let at = choose|at: int| first_occurs_at(rest, wanted@, at);
                assert(at == i - start);
                assert(rest.subrange(0, at) =~= text@.subrange(start as int, i as int));
                assert(rest.subrange(at + wanted@.len(), rest.len() as int) =~= text@.subrange(
                    i + wanted@.len(),
                    text@.len() as int,
                ));
            }
            let part = string_of(&text, start, i);
            parts.push(part);
            proof {
                done = done.push(text@.subrange(start as int, i as int));
                assert(texts_of(parts@) =~= done);
            }
            i += wanted.len();
            start = i;
        } else {
            proof {
                if occurs_at(rest, wanted@, i - start) {
                    assert(rest.subrange(i - start, i - start + wanted@.len()) =~= text@.subrange(
                        i as int,
                        i + wanted@.len(),
                    ));
                }
            }
            i += 1;
        }
    }
    proof {
        let rest = text@.subrange(start as int, text@.len() as int);
        assert forall|at: int| !first_occurs_at(rest, wanted@, at) by {
            if occurs_at(rest, wanted@, at) {
                assert(at + wanted@.len() <= rest.len());
            }
        }
        assert(parts_between(rest, wanted@) == seq![rest]);
    }
    let last = string_of(&text, start, text.len());
    parts.push(last);
    assert(texts_of(parts@) =~= done.push(text@.subrange(start as int, text@.len() as int)));
    parts
}

} // verus!
