//! Filters operating on strings.

use vstd::prelude::*;
use vstd::string::{StrSliceExecFns, StringExecFns};
use vstd::utf8::{decode_utf8, encode_utf8};
use crate::builtins::args::required;
use crate::builtins::filters::common::count_value;
use crate::errors::{agrees, failure_of, message_about, Error, ErrorKind, Failure};
use crate::text::{
    is_whitespace, replaced, split_parts, string_of, texts_of, to_chars, white_space,
};
use crate::trusted::{
    char_to_uppercase, char_uppercased, grapheme_offsets, grapheme_starts, lowercased, push_char,
    regex_recase, regex_recased, regex_replace_all, regex_replaced, slug_of, to_lowercase,
    to_uppercase, uppercased,
};
use crate::value::{contents, lookup, Data, Object, Value};

verus! {

/// The failure of a filter applied to a value of the wrong type.
pub open spec fn value_failure(filter_name: Seq<char>, value: Data, expected: Seq<char>) -> Failure {
    (
        ErrorKind::TypeMismatch,
        message_about(
            "Filter `"@ + filter_name + "` was called on an incorrect value: got `"@,
            value,
            "` but expected a "@ + expected,
        ),
    )
}

/// The failure of a filter given an argument of the wrong type.
pub open spec fn arg_failure(
    filter_name: Seq<char>,
    arg_name: Seq<char>,
    value: Data,
    expected: Seq<char>,
) -> Failure {
    (
        ErrorKind::TypeMismatch,
        message_about(
            "Filter `"@ + filter_name + "` received an incorrect type for arg `"@ + arg_name
                + "`: got `"@,
            value,
            "` but expected a "@ + expected,
        ),
    )
}

/// The error of a filter applied to a value of the wrong type.
fn filter_value_error(filter_name: &str, value: &Value, expected_type: &str) -> (e: Error)
    ensures
        failure_of(e) == value_failure(filter_name@, value@, expected_type@),
{
    let mut prefix = String::from_str("Filter `");
    prefix.append(filter_name);
    prefix.append("` was called on an incorrect value: got `");
    let mut suffix = String::from_str("` but expected a ");
    suffix.append(expected_type);
    Error::about(ErrorKind::TypeMismatch, prefix.as_str(), value, suffix.as_str())
}

/// The error of a filter given an argument of the wrong type.
fn filter_arg_error(filter_name: &str, arg_name: &str, value: &Value, expected_type: &str) -> (e:
    Error)
    ensures
        failure_of(e) == arg_failure(filter_name@, arg_name@, value@, expected_type@),
{
    let mut prefix = String::from_str("Filter `");
    prefix.append(filter_name);
    prefix.append("` received an incorrect type for arg `");
    prefix.append(arg_name);
    prefix.append("`: got `");
    let mut suffix = String::from_str("` but expected a ");
    suffix.append(expected_type);
    Error::about(ErrorKind::TypeMismatch, prefix.as_str(), value, suffix.as_str())
}

/// The text of a string value, or the failure of the named filter for any
/// other value.
pub open spec fn text_for(filter_name: Seq<char>, value: Data) -> Result<Seq<char>, Failure> {
    match value {
        Data::String(s) => Ok(s),
        _ => Err(value_failure(filter_name, value, "String"@)),
    }
}

/// The text of a string value, for the named filter.
fn text_of<'a>(filter_name: &str, value: &'a Value) -> (r: Result<&'a str, Error>)
    ensures
        match r {
            Ok(s) => text_for(filter_name@, value@) == Ok::<Seq<char>, Failure>(s@),
            Err(e) => text_for(filter_name@, value@) == Err::<Seq<char>, Failure>(failure_of(e)),
        },
{
    match value {
        Value::String(s) => Ok(s.as_str()),
        _ => Err(filter_value_error(filter_name, value, "String")),
    }
}

/// What a filter returns that turns the text of a string into a value.
pub open spec fn on_text(
    filter_name: Seq<char>,
    value: Data,
    result: spec_fn(Seq<char>) -> Data,
) -> Result<Data, Failure> {
    match text_for(filter_name, value) {
        Ok(s) => Ok(result(s)),
        Err(f) => Err(f),
    }
}

/// The string in uppercase.
pub fn upper(value: &Value, _args: &Object) -> (r: Result<Value, Error>)
    ensures
        agrees(r, on_text("upper"@, value@, |s: Seq<char>| Data::String(uppercased(s)))),
{
    let s = text_of("upper", value)?;
    Ok(Value::String(to_uppercase(s)))
}

/// The string in lowercase.
pub fn lower(value: &Value, _args: &Object) -> (r: Result<Value, Error>)
    ensures
        agrees(r, on_text("lower"@, value@, |s: Seq<char>| Data::String(lowercased(s)))),
{
    let s = text_of("lower", value)?;
    Ok(Value::String(to_lowercase(s)))
}

/// The text without the whitespace at its start.
pub open spec fn trim_front(s: Seq<char>) -> Seq<char>
    decreases s.len(),
{
    if s.len() > 0 && white_space(s[0]) {
        trim_front(s.subrange(1, s.len() as int))
    } else {
        s
    }
}

/// The text without the whitespace at its end.
pub open spec fn trim_back(s: Seq<char>) -> Seq<char>
    decreases s.len(),
{
    if s.len() > 0 && white_space(s.last()) {
        trim_back(s.drop_last())
    } else {
        s
    }
}

/// The text without the whitespace at its start and at its end.
pub open spec fn trimmed(s: Seq<char>) -> Seq<char> {
    trim_back(trim_front(s))
}

/// The string without the whitespace at its start and at its end.
pub fn trim(value: &Value, _args: &Object) -> (r: Result<Value, Error>)
    ensures
        agrees(r, on_text("trim"@, value@, |s: Seq<char>| Data::String(trimmed(s)))),
{
    let s = text_of("trim", value)?;
    let chars = to_chars(s);
    let mut from: usize = 0;
    assert(chars@.subrange(0, chars@.len() as int) =~= chars@);
    while from < chars.len() && is_whitespace(chars[from])
        invariant
            from <= chars@.len(),
            trim_front(chars@) == trim_front(chars@.subrange(from as int, chars@.len() as int)),
        decreases chars.len() - from,
    {
        let ghost rest = chars@.subrange(from as int, chars@.len() as int);
        assert(rest[0] == chars@[from as int]);
        assert(rest.subrange(1, rest.len() as int) =~= chars@.subrange(
            from + 1,
            chars@.len() as int,
        ));
        from += 1;
    }
    let ghost front = chars@.subrange(from as int, chars@.len() as int);
    assert(trim_front(chars@) == front) by {
        if from < chars@.len() {
            assert(front[0] == chars@[from as int]);
        }
    }
    let mut to: usize = chars.len();
    assert(front =~= chars@.subrange(from as int, to as int));
    while to > from && is_whitespace(chars[to - 1])
        invariant
            from <= to <= chars@.len(),
            trim_back(front) == trim_back(chars@.subrange(from as int, to as int)),
        decreases to,
    {
        let ghost rest = chars@.subrange(from as int, to as int);
        assert(rest.last() == chars@[to - 1]);
        assert(rest.drop_last() =~= chars@.subrange(from as int, to - 1));
        to -= 1;
    }
    let ghost kept = chars@.subrange(from as int, to as int);
    assert(trim_back(front) == kept) by {
        if to > from {
            assert(kept.last() == chars@[to - 1]);
        }
    }
    Ok(Value::String(string_of(&chars, from, to)))
}

/// The number of words that start among the first `n` characters: the number
/// of characters there that are no whitespace and follow whitespace or
/// nothing.
pub open spec fn word_starts(s: Seq<char>, n: nat) -> nat
    decreases n,
{
    if n == 0 || n > s.len() {
        0
    } else {
        let before = word_starts(s, (n - 1) as nat);
        if !white_space(s[n - 1]) && (n == 1 || white_space(s[n - 2])) {
            before + 1
        } else {
            before
        }
    }
}

/// The number of words in the string: of runs of characters that are no
/// whitespace.
pub fn wordcount(value: &Value, _args: &Object) -> (r: Result<Value, Error>)
    ensures
        agrees(
            r,
            on_text("wordcount"@, value@, |s: Seq<char>| count_value(word_starts(s, s.len()))),
        ),
{
    let s = text_of("wordcount", value)?;
    let chars = to_chars(s);
    let mut words: usize = 0;
    let mut in_word = false;
    let mut i: usize = 0;
    while i < chars.len()
        invariant
            i <= chars@.len(),
            words <= i,
            words == word_starts(chars@, i as nat),
            in_word == (i > 0 && !white_space(chars@[i - 1])),
        decreases chars.len() - i,
    {
        let space = is_whitespace(chars[i]);
        if !space && !in_word {
            words += 1;
        }
        in_word = !space;
        i += 1;
    }
    if words as u128 <= i64::MAX as u128 {
        Ok(Value::Integer(words as i64))
    } else {
        Ok(Value::Integer(i64::MAX))
    }
}

/// What [`replace`] returns.
pub open spec fn replace_of(value: Data, args: Seq<(Seq<char>, Data)>) -> Result<Data, Failure> {
    match text_for("replace"@, value) {
        Err(f) => Err(f),
        Ok(s) => match lookup(args, "from"@) {
            None => Err((ErrorKind::MissingArgument, "Filter `replace` expected an arg called `from`"@)),
            Some(Data::String(from)) => match lookup(args, "to"@) {
                None => Err(
                    (ErrorKind::MissingArgument, "Filter `replace` expected an arg called `to`"@),
                ),
                Some(Data::String(to)) => Ok(Data::String(replaced(s, from, to))),
                Some(d) => Err(arg_failure("replace"@, "to"@, d, "String"@)),
            },
            Some(d) => Err(arg_failure("replace"@, "from"@, d, "String"@)),
        },
    }
}

/// The string with every match of the `from` argument replaced by the `to`
/// argument.
pub fn replace(value: &Value, args: &Object) -> (r: Result<Value, Error>)
    ensures
        agrees(r, replace_of(value@, args@)),
{
    let s = text_of("replace", value)?;
    let from = required(args, "from", "Filter `replace` expected an arg called `from`")?;
    let from = match from {
        Value::String(t) => t.as_str(),
        _ => {
            return Err(filter_arg_error("replace", "from", from, "String"));
        },
    };
    let to = required(args, "to", "Filter `replace` expected an arg called `to`")?;
    let to = match to {
        Value::String(t) => t.as_str(),
        _ => {
            return Err(filter_arg_error("replace", "to", to, "String"));
        },
    };
    Ok(Value::String(crate::text::replace(s, from, to)))
}

/// The text with its first character in uppercase and the rest in lowercase.
pub open spec fn capitalized(s: Seq<char>) -> Seq<char> {
    if s.len() == 0 {
        Seq::empty()
    } else {
        char_uppercased(s[0]) + lowercased(s.subrange(1, s.len() as int))
    }
}

/// The string with its first character in uppercase and the rest in
/// lowercase.
pub fn capitalize(value: &Value, _args: &Object) -> (r: Result<Value, Error>)
    ensures
        agrees(r, on_text("capitalize"@, value@, |s: Seq<char>| Data::String(capitalized(s)))),
{
    let s = text_of("capitalize", value)?;
    let chars = to_chars(s);
    if chars.len() == 0 {
        return Ok(Value::String(String::new()));
    }
    let mut res = char_to_uppercase(chars[0]);
    let rest = string_of(&chars, 1, chars.len());
    let lowered = to_lowercase(rest.as_str());
    res.append(lowered.as_str());
    Ok(Value::String(res))
}

/// What a character becomes when quotes are escaped: a backslash, a double
/// quote and a single quote each get a backslash in front.
pub open spec fn slashed(c: char) -> Seq<char> {
    if c == '\\' || c == '"' || c == '\'' {
        seq!['\\', c]
    } else {
        seq![c]
    }
}

/// The first `n` characters, each replaced by what `each` makes of it.
pub open spec fn expanded(s: Seq<char>, each: spec_fn(char) -> Seq<char>, n: nat) -> Seq<char>
    decreases n,
{
    if n == 0 || n > s.len() {
        Seq::empty()
    } else {
        expanded(s, each, (n - 1) as nat) + each(s[n - 1])
    }
}

/// The string with a backslash in front of every backslash, double quote and
/// single quote.
pub fn addslashes(value: &Value, _args: &Object) -> (r: Result<Value, Error>)
    ensures
        agrees(
            r,
            on_text(
                "addslashes"@,
                value@,
                |s: Seq<char>| Data::String(expanded(s, |c: char| slashed(c), s.len())),
            ),
        ),
{
    let s = text_of("addslashes", value)?;
    let chars = to_chars(s);
    let mut out = String::new();
    let mut i: usize = 0;
    while i < chars.len()
        invariant
            i <= chars@.len(),
            out@ == expanded(chars@, |c: char| slashed(c), i as nat),
        decreases chars.len() - i,
    {
        let c = chars[i];
        let ghost before = out@;
        if c == '\\' || c == '"' || c == '\'' {
            push_char(&mut out, '\\');
        }
        push_char(&mut out, c);
        assert(out@ =~= before + slashed(c));
        i += 1;
    }
    Ok(Value::String(out))
}

/// What a character becomes in HTML: the ampersand, the angle brackets, the
/// quotes and the slash become character references.
pub open spec fn html_escaped(c: char) -> Seq<char> {
    if c == '&' {
        "&amp;"@
    } else if c == '<' {
        "&lt;"@
    } else if c == '>' {
        "&gt;"@
    } else if c == '"' {
        "&quot;"@
    } else if c == '\'' {
        "&#x27;"@
    } else if c == '/' {
        "&#x2F;"@
    } else {
        seq![c]
    }
}

/// The string with ampersands, angle brackets, quotes and slashes encoded
/// for use in HTML.
pub fn escape_html(value: &Value, _args: &Object) -> (r: Result<Value, Error>)
    ensures
        agrees(
            r,
            on_text(
                "escape_html"@,
                value@,
                |s: Seq<char>| Data::String(expanded(s, |c: char| html_escaped(c), s.len())),
            ),
        ),
{
    let s = text_of("escape_html", value)?;
    let chars = to_chars(s);
    let mut out = String::new();
    let mut i: usize = 0;
    while i < chars.len()
        invariant
            i <= chars@.len(),
            out@ == expanded(chars@, |c: char| html_escaped(c), i as nat),
        decreases chars.len() - i,
    {
        let c = chars[i];
        let ghost before = out@;
        if c == '&' {
            out.append("&amp;");
        } else if c == '<' {
            out.append("&lt;");
        } else if c == '>' {
            out.append("&gt;");
        } else if c == '"' {
            out.append("&quot;");
        } else if c == '\'' {
            out.append("&#x27;");
        } else if c == '/' {
            out.append("&#x2F;");
        } else {
            push_char(&mut out, c);
        }
        assert(out@ =~= before + html_escaped(c));
        i += 1;
    }
    Ok(Value::String(out))
}

/// The string as a slug.
pub fn slugify(value: &Value, _args: &Object) -> (r: Result<Value, Error>)
    ensures
        agrees(r, on_text("slugify"@, value@, |s: Seq<char>| Data::String(slug_of(s)))),
{
    let s = text_of("slugify", value)?;
    Ok(Value::String(crate::trusted::slugify(s)))
}

/// The texts as string values.
pub open spec fn strings(texts: Seq<Seq<char>>) -> Seq<Data> {
    Seq::new(texts.len(), |i: int| Data::String(texts[i]))
}

/// What [`split`] returns.
pub open spec fn split_of(value: Data, args: Seq<(Seq<char>, Data)>) -> Result<Data, Failure> {
    match text_for("split"@, value) {
        Err(f) => Err(f),
        Ok(s) => match lookup(args, "pat"@) {
            None => Err((ErrorKind::MissingArgument, "Filter `split` expected an arg called `pat`"@)),
            Some(Data::String(pat)) => Ok(Data::Array(strings(split_parts(s, pat)))),
            Some(d) => Err(arg_failure("split"@, "pat"@, d, "String"@)),
        },
    }
}

/// The parts of the string between the matches of the `pat` argument, as an
/// array of strings.
pub fn split(value: &Value, args: &Object) -> (r: Result<Value, Error>)
    ensures
        agrees(r, split_of(value@, args@)),
{
    let s = text_of("split", value)?;
    let pat = required(args, "pat", "Filter `split` expected an arg called `pat`")?;
    let pat = match pat {
        Value::String(t) => t.as_str(),
        _ => {
            return Err(filter_arg_error("split", "pat", pat, "String"));
        },
    };
    let parts = crate::text::split(s, pat);
    let mut out: Vec<Value> = Vec::new();
    let mut i: usize = 0;
    while i < parts.len()
        invariant
            i <= parts@.len(),
            out@.len() == i,
            texts_of(parts@) == split_parts(s@, pat@),
            forall|j: int| 0 <= j < i ==> (#[trigger] out@[j])@ == Data::String(parts@[j]@),
        decreases parts.len() - i,
    {
        out.push(Value::String(parts[i].clone()));
        i += 1;
    }
    assert(contents(out@) =~= strings(split_parts(s@, pat@))) by {
        assert forall|j: int| 0 <= j < parts@.len() implies parts@[j]@ == split_parts(s@, pat@)[j] by {
            assert(texts_of(parts@)[j] == parts@[j]@);
        }
    }
    Ok(Value::Array(out))
}


/// A word with its first part in uppercase and the rest in lowercase.
pub fn recased(first: &str, rest: &str) -> (r: String)
    ensures
        r@ == uppercased(first@) + lowercased(rest@),
{
    let mut r = to_uppercase(first);
    let lowered = to_lowercase(rest);
    r.append(lowered.as_str());
    r
}

/// What a filter makes of the text that a regular expression gave: the text
/// as a string value, or a failure if the expression did not compile.
pub open spec fn rewritten(filter_name: Seq<char>, text: Option<Seq<char>>) -> Result<
    Data,
    Failure,
> {
    match text {
        Some(t) => Ok(Data::String(t)),
        None => Err(
            (
                ErrorKind::InvalidArgumentValue,
                "Filter `"@ + filter_name + "` could not compile its regular expression"@,
            ),
        ),
    }
}

/// The text that a regular expression gave as a string value, or the failure
/// of the named filter if there is none.
pub fn rewritten_value(filter_name: &str, text: Option<String>) -> (r: Result<Value, Error>)
    ensures
        agrees(
            r,
            rewritten(
                filter_name@,
                match text {
                    Some(t) => Some(t@),
                    None => None,
                },
            ),
        ),
{
    match text {
        Some(t) => Ok(Value::String(t)),
        None => {
            let mut message = String::from_str("Filter `");
            message.append(filter_name);
            message.append("` could not compile its regular expression");
            Err(Error { kind: ErrorKind::InvalidArgumentValue, message })
        },
    }
}

/// What [`title`] returns.
pub open spec fn title_of(value: Data) -> Result<Data, Failure> {
    match text_for("title"@, value) {
        Err(f) => Err(f),
        Ok(s) => rewritten(
            "title"@,
            regex_recased("\\b(?P<first>\\w)(?P<rest>\\w*)\\b"@, "first"@, "rest"@, s),
        ),
    }
}

/// The string with every word capitalized: its first character in uppercase
/// and the rest in lowercase.
pub fn title(value: &Value, _args: &Object) -> (r: Result<Value, Error>)
    ensures
        agrees(r, title_of(value@)),
{
    let s = text_of("title", value)?;
    rewritten_value(
        "title",
        regex_recase("\\b(?P<first>\\w)(?P<rest>\\w*)\\b", "first", "rest", s),
    )
}

/// What [`striptags`] returns.
pub open spec fn striptags_of(value: Data) -> Result<Data, Failure> {
    match text_for("striptags"@, value) {
        Err(f) => Err(f),
        Ok(s) => rewritten("striptags"@, regex_replaced("(<!--.*?-->|<[^>]*>)"@, s, ""@)),
    }
}

/// The string without HTML tags and comments.
pub fn striptags(value: &Value, _args: &Object) -> (r: Result<Value, Error>)
    ensures
        agrees(r, striptags_of(value@)),
{
    let s = text_of("striptags", value)?;
    rewritten_value("striptags", regex_replace_all("(<!--.*?-->|<[^>]*>)", s, ""))
}

/// What truncating a text to `length` grapheme clusters gives: the text
/// itself if it has no more than that, and else its first `length` clusters
/// followed by `end`.
pub open spec fn truncated(s: Seq<char>, length: int, end: Seq<char>) -> Seq<char> {
    let offsets = grapheme_offsets(s);
    if length < 0 || length >= offsets.len() {
        s
    } else {
        decode_utf8(encode_utf8(s).subrange(0, offsets[length])) + end
    }
}

/// What [`truncate`] returns.
pub open spec fn truncate_of(value: Data, args: Seq<(Seq<char>, Data)>) -> Result<Data, Failure> {
    match text_for("truncate"@, value) {
        Err(f) => Err(f),
        Ok(s) => match (match lookup(args, "length"@) {
            None => Ok(255int),
            Some(Data::Integer(l)) => if l >= 0 {
                Ok(l)
            } else {
                Err(arg_failure("truncate"@, "length"@, Data::Integer(l), "usize"@))
            },
            Some(d) => Err(arg_failure("truncate"@, "length"@, d, "usize"@)),
        }) {
            Err(f) => Err(f),
            Ok(length) => match lookup(args, "end"@) {
                None => Ok(Data::String(truncated(s, length, "…"@))),
                Some(Data::String(end)) => Ok(Data::String(truncated(s, length, end))),
                Some(d) => Err(arg_failure("truncate"@, "end"@, d, "String"@)),
            },
        },
    }
}

/// The string cut down to the number of grapheme clusters that the `length`
/// argument gives (default 255), with the `end` argument (default `…`)
/// behind it if anything was cut off.
pub fn truncate(value: &Value, args: &Object) -> (r: Result<Value, Error>)
    ensures
        agrees(r, truncate_of(value@, args@)),
{
    let s = text_of("truncate", value)?;
    let length: u64 = match args.get("length") {
        Some(l) => match l {
            Value::Integer(i) => {
                if *i >= 0 {
                    *i as u64
                } else {
                    return Err(filter_arg_error("truncate", "length", l, "usize"));
                }
            },
            _ => {
                return Err(filter_arg_error("truncate", "length", l, "usize"));
            },
        },
        None => 255,
    };
    let end = match args.get("end") {
        Some(l) => match l {
            Value::String(t) => t.as_str(),
            _ => {
                return Err(filter_arg_error("truncate", "end", l, "String"));
            },
        },
        None => "…",
    };
    let offsets = grapheme_starts(s);
    if length >= offsets.len() as u64 {
        return Ok(Value::String(s.to_owned()));
    }
    let offset = offsets[length as usize];
    let (front, _) = s.split_at(offset);
    proof {
        vstd::utf8::encode_utf8_decode_utf8(front@);
    }
    let mut result = front.to_owned();
    result.append(end);
    Ok(Value::String(result))
}

/// The set of bytes that percent-encoding leaves as they are: ASCII letters
/// and digits, `-`, `.`, `_`, and the bytes of the characters declared safe.
pub struct UrlEncodeSet<'u>(pub &'u str);

/// Whether a byte is to be percent-encoded when `safe` holds the bytes
/// declared safe: it is no ASCII letter or digit, none of `-`, `.` and `_`,
/// and not among the safe bytes.
pub open spec fn in_encode_set(safe: Seq<u8>, byte: u8) -> bool {
    !(48 <= byte <= 57) && !(65 <= byte <= 90) && !(97 <= byte <= 122) && byte != 45 && byte != 46
        && byte != 95 && !safe.contains(byte)
}

impl<'u> UrlEncodeSet<'u> {
    /// The bytes of the characters declared safe.
    pub fn safe_bytes(&self) -> (bytes: &[u8])
        ensures
            bytes@ == encode_utf8(self.0@),
    {
        self.0.as_bytes()
    }

    /// Whether the byte is to be percent-encoded.
    pub fn contains(&self, byte: u8) -> (r: bool)
        ensures
            r == in_encode_set(encode_utf8(self.0@), byte),
    {
        if byte >= 48 && byte <= 57 {
            // digit
            false
        } else if byte >= 65 && byte <= 90 {
            // uppercase character
            false
        } else if byte >= 97 && byte <= 122 {
            // lowercase character
            false
        } else if byte == 45 || byte == 46 || byte == 95 {
            // -, . or _
            false
        } else {
            let safe = self.safe_bytes();
            let mut i: usize = 0;
            while i < safe.len()
                invariant
                    i <= safe@.len(),
                    safe@ == encode_utf8(self.0@),
                    forall|j: int| 0 <= j < i ==> safe@[j] != byte,
                decreases safe.len() - i,
            {
                if safe[i] == byte {
                    assert(safe@[i as int] == byte);
                    return false;
                }
                i += 1;
            }
            true
        }
    }
}

/// The character for a hexadecimal digit, in uppercase.
pub open spec fn hex_char(d: int) -> char {
    if d < 10 {
        ((48 + d) as u8) as char
    } else {
        ((55 + d) as u8) as char
    }
}

/// What a byte becomes under percent-encoding: a percent sign and its two
/// hexadecimal digits if it is in the encode set or not ASCII, and else the
/// ASCII character that it is.
pub open spec fn percent_encoded_byte(safe: Seq<u8>, byte: u8) -> Seq<char> {
    if in_encode_set(safe, byte) || byte >= 128 {
        seq!['%', hex_char(byte as int / 16), hex_char(byte as int % 16)]
    } else {
        seq![byte as char]
    }
}

/// The first `n` bytes, percent-encoded.
pub open spec fn percent_encoded(bytes: Seq<u8>, safe: Seq<u8>, n: nat) -> Seq<char>
    decreases n,
{
    if n == 0 || n > bytes.len() {
        Seq::empty()
    } else {
        percent_encoded(bytes, safe, (n - 1) as nat) + percent_encoded_byte(safe, bytes[n - 1])
    }
}

/// What [`urlencode`] returns.
pub open spec fn urlencode_of(value: Data, args: Seq<(Seq<char>, Data)>) -> Result<Data, Failure> {
    match text_for("urlencode"@, value) {
        Err(f) => Err(f),
        Ok(s) => match lookup(args, "safe"@) {
            None => Ok(
                Data::String(
                    percent_encoded(encode_utf8(s), encode_utf8("/"@), encode_utf8(s).len()),
                ),
            ),
            Some(Data::String(safe)) => Ok(
                Data::String(percent_encoded(encode_utf8(s), encode_utf8(safe), encode_utf8(s).len())),
            ),
            Some(d) => Err(arg_failure("urlencode"@, "safe"@, d, "String"@)),
        },
    }
}

/// The character for a hexadecimal digit, in uppercase.
fn hex_digit(d: u8) -> (c: char)
    requires
        d < 16,
    ensures
        c == hex_char(d as int),
{
    if d < 10 {
        (48 + d) as char
    } else {
        (55 + d) as char
    }
}

/// The string with the bytes of its UTF-8 encoding percent-encoded, but for
/// ASCII letters and digits, `-`, `.`, `_` and the characters of the `safe`
/// argument (default `/`).
pub fn urlencode(value: &Value, args: &Object) -> (r: Result<Value, Error>)
    ensures
        agrees(r, urlencode_of(value@, args@)),
{
    let s = text_of("urlencode", value)?;
    let safe = match args.get("safe") {
        Some(l) => match l {
            Value::String(t) => t.as_str(),
            _ => {
                return Err(filter_arg_error("urlencode", "safe", l, "String"));
            },
        },
        None => "/",
    };
    let set = UrlEncodeSet(safe);
    let bytes = s.as_bytes();
    let mut encoded = String::new();
    let mut i: usize = 0;
    while i < bytes.len()
        invariant
            i <= bytes@.len(),
            set.0@ == safe@,
            encoded@ == percent_encoded(bytes@, encode_utf8(safe@), i as nat),
        decreases bytes.len() - i,
    {
        let byte = bytes[i];
        let ghost before = encoded@;
        if set.contains(byte) || byte >= 128 {
            push_char(&mut encoded, '%');
            push_char(&mut encoded, hex_digit(byte / 16));
            push_char(&mut encoded, hex_digit(byte % 16));
        } else {
            push_char(&mut encoded, byte as char);
        }
        assert(encoded@ =~= before + percent_encoded_byte(encode_utf8(safe@), byte));
        i += 1;
    }
    Ok(Value::String(encoded))
}

} // verus!
