//! Reading a request line and finding the file that its target asks for.
use crate::outside::{
    clean_path, hex_value, opens_with_escape, percent_decoded, url_decode,
};
use crate::paths::{
    cleaned, components, entries, here, is_absolute, is_clean, is_entry, law_cleaned_form,
    law_simplest_paths, law_slashes_and_dots_are_no_components, lemma_clean_entries,
    lemma_pushed_components, parent, pushed, resolved, root_component, slash, starts_with, FsPath,
};
use crate::split::{
    kept, lemma_kept_members, lemma_split_pieces, lemma_strip_start, split, strip_start,
};
use crate::text::{
    chars_of, is_whitespace, law_trimming_keeps_words, law_word_is_itself, law_words_of_two_texts,
    lemma_no_words, same_text, split_words, texts, trim, trimmed, words,
};
use vstd::prelude::*;
use vstd::string::*;
use vstd::utf8::*;

verus! {

// ---------------------------------------------------------------------------------------------
// The request line
// ---------------------------------------------------------------------------------------------
/// The only version that is served.
pub open spec fn served_version() -> Seq<char> {
    "HTTP/1.1"@
}

/// What a request line comes to.
#[derive(Debug)]
pub enum RequestLine {
    /// It has not three words.
    Malformed,
    /// Its third word is not the version that is served.
    WrongVersion {
        /// The third word.
        version: String,
    },
    /// It asks for something.
    Accepted {
        /// The first word.
        method: String,
        /// The second word.
        target: String,
    },
}

impl RequestLine {
    /// Tells whether this is what `line` comes to: three words of which the third is the version
    /// are accepted, three other words are of the wrong version, and anything else is malformed.
    pub open spec fn describes(self, line: Seq<char>) -> bool {
        let parts = words(trimmed(line));
        match self {
            RequestLine::Malformed => parts.len() != 3,
            RequestLine::WrongVersion { version } => {
                &&& parts.len() == 3
                &&& parts[2] != served_version()
                &&& version@ == parts[2]
            },
            RequestLine::Accepted { method, target } => {
                &&& parts.len() == 3
                &&& parts[2] == served_version()
                &&& method@ == parts[0]
                &&& target@ == parts[1]
            },
        }
    }
}

/// Reads a request line.
pub fn parse_request_line(line: &str) -> (r: RequestLine)
    ensures
        r.describes(line@),
{
    let parts = split_words(trim(line));
    let ghost wanted = words(trimmed(line@));
    assert(texts(parts@) == wanted);
    assert(parts@.len() == wanted.len());
    if parts.len() != 3 {
        return RequestLine::Malformed;
    }
    assert(forall|i: int| 0 <= i < 3 ==> texts(parts@)[i] == #[trigger] parts@[i]@);
    if !same_text(parts[2].as_str(), "HTTP/1.1") {
        return RequestLine::WrongVersion { version: parts[2].clone() };
    }
    RequestLine::Accepted { method: parts[0].clone(), target: parts[1].clone() }
}

/// What the first word of a request line asks for.
#[derive(Clone, Copy, PartialEq, Eq, Debug, Structural)]
pub enum Method {
    /// The head and the body of a response.
    Get,
    /// The head of a response.
    Head,
    /// Something else.
    Other,
}

impl Method {
    /// The method with a given name.
    pub open spec fn named(name: Seq<char>) -> Method {
        if name == "GET"@ {
            Method::Get
        } else if name == "HEAD"@ {
            Method::Head
        } else {
            Method::Other
        }
    }

    /// The method with a given name.
    pub fn from_name(name: &str) -> (r: Method)
        ensures
            r == Method::named(name@),
    {
        if same_text(name, "GET") {
            Method::Get
        } else if same_text(name, "HEAD") {
            Method::Head
        } else {
            Method::Other
        }
    }
}

// ---------------------------------------------------------------------------------------------
// The target
// ---------------------------------------------------------------------------------------------
/// Holds for the character `/`.
pub open spec fn slash_char() -> spec_fn(char) -> bool {
    |c: char| c == '/'
}

/// A target with its percent escapes decoded, or as it is if they do not stand for UTF-8.
pub open spec fn decoded_target(target: Seq<char>) -> Seq<char> {
    let bytes = percent_decoded(encode_utf8(target));
    if valid_utf8(bytes) {
        decode_utf8(bytes)
    } else {
        target
    }
}

/// The path that a target asks for, seen from the root directory: decoded, without slashes at its
/// front, and cleaned.
pub open spec fn relative_path(target: Seq<char>) -> Seq<u8> {
    cleaned(encode_utf8(strip_start(decoded_target(target), slash_char())))
}

/// The path that a target asks for under a root directory.
pub open spec fn requested_path(root: Seq<u8>, target: Seq<char>) -> Seq<u8> {
    pushed(root, relative_path(target))
}

/// Decodes the percent escapes of a target; one that cannot be decoded stays as it is.
pub fn decode_target(target: &str) -> (r: String)
    ensures
        r@ == decoded_target(target@),
{
    match url_decode(target) {
        Ok(text) => {
            proof {
                encode_utf8_valid_utf8(text@);
                encode_utf8_decode_utf8(text@);
            }
            text
        },
        Err(_) => target.to_owned(),
    }
}

/// A text without slashes at its front.
pub fn without_leading_slashes(text: &str) -> (r: &str)
    ensures
        r@ == strip_start(text@, slash_char()),
{
    let cs = chars_of(text);
    let mut from: usize = 0;
    while from < cs.len() && cs[from] == '/'
        invariant
            cs@ == text@,
            from <= cs@.len(),
            forall|j: int| 0 <= j < from ==> slash_char()(#[trigger] cs@[j]),
        decreases cs@.len() - from,
    {
        from += 1;
    }
    proof {
        lemma_strip_start(text@, slash_char(), from as int);
        assert(text@.skip(from as int) == text@.subrange(from as int, text@.len() as int));
    }
    text.substring_char(from, cs.len())
}

/// Finds the path that a target asks for under a root directory.
pub fn locate(root: &FsPath, target: &str) -> (r: FsPath)
    ensures
        r@ == requested_path(root@, target@),
{
    let decoded = decode_target(target);
    let relative = clean_path(without_leading_slashes(decoded.as_str()));
    root.join(relative.as_slice())
}

// ---------------------------------------------------------------------------------------------
// Laws
// ---------------------------------------------------------------------------------------------
/// Tells whether a text can stand as a word in a request line.
pub open spec fn is_word(w: Seq<char>) -> bool {
    &&& w.len() > 0
    &&& forall|i: int| 0 <= i < w.len() ==> !is_whitespace(#[trigger] w[i])
}

/// A request line as a client writes it: three words with a blank between them, and a line end.
pub open spec fn written_line(method: Seq<char>, target: Seq<char>, version: Seq<char>) -> Seq<
    char,
> {
    method.push(' ') + (target.push(' ') + (version.push('\r') + seq!['\n']))
}

/// A request line is read as it was written.
pub proof fn law_request_line_is_read_back(
    method: Seq<char>,
    target: Seq<char>,
    version: Seq<char>,
)
    requires
        is_word(method),
        is_word(target),
        is_word(version),
    ensures
        words(trimmed(written_line(method, target, version))) == seq![method, target, version],
{
    let end = seq!['\n'];
    let none = Seq::<char>::empty();
    law_trimming_keeps_words(written_line(method, target, version));
    law_words_of_two_texts(none, '\n', none);
    lemma_no_words();
    assert(none.push('\n') + none =~= end);
    law_words_of_two_texts(version, '\r', end);
    law_words_of_two_texts(target, ' ', version.push('\r') + end);
    law_words_of_two_texts(method, ' ', target.push(' ') + (version.push('\r') + end));
    law_word_is_itself(method);
    law_word_is_itself(target);
    law_word_is_itself(version);
    assert(words(written_line(method, target, version)) =~= seq![method, target, version]);
}

/// A text whose encoding begins with a slash begins with one.
proof fn lemma_leading_slash(s: Seq<char>)
    requires
        s.len() > 0,
        s[0] != '/',
    ensures
        encode_utf8(s).len() > 0,
        encode_utf8(s)[0] != 0x2f,
{
    encode_utf8_first_scalar(s);
    let bytes = encode_utf8(s);
    assert(0x2fu8 & 0x7f == 0x2f) by (bit_vector);
    if bytes[0] == 0x2f {
        char_u32_cast(s[0], 0x2f);
        assert(0x2fu32 as char == '/');
    }
}

/// Stripping leaves nothing to strip.
proof fn lemma_stripped_start<T>(s: Seq<T>, drop: spec_fn(T) -> bool)
    ensures
        strip_start(s, drop).len() > 0 ==> !drop(strip_start(s, drop)[0]),
    decreases s.len(),
{
    if s.len() > 0 && drop(s[0]) {
        lemma_stripped_start(s.skip(1), drop);
    }
}

/// The path that any target asks for is relative and not empty: it never replaces the root
/// directory.
pub proof fn law_target_is_relative(target: Seq<char>)
    ensures
        !is_absolute(relative_path(target)),
        relative_path(target).len() > 0,
{
    let text = strip_start(decoded_target(target), slash_char());
    lemma_stripped_start(decoded_target(target), slash_char());
    if text.len() > 0 {
        lemma_leading_slash(text);
    }
    law_cleaned_form(encode_utf8(text));
}

/// The path that a target asks for is the root directory with the cleaned components of the target
/// behind it: nothing of the root directory is lost, and a `..` stands only in front of the other
/// components of the target.
pub proof fn law_requested_path_extends_the_root(root: Seq<u8>, target: Seq<char>)
    requires
        root.len() > 0,
    ensures
        ({
            let text = strip_start(decoded_target(target), slash_char());
            let parts = resolved(components(encode_utf8(text)));
            &&& components(requested_path(root, target)) == components(root) + parts
            &&& is_clean(parts)
        }),
        starts_with(requested_path(root, target), root),
{
    let text = strip_start(decoded_target(target), slash_char());
    let path = encode_utf8(text);
    let parts = resolved(components(path));
    law_target_is_relative(target);
    law_cleaned_form(path);
    lemma_pushed_components(root, relative_path(target));
    lemma_stripped_start(decoded_target(target), slash_char());
    if text.len() > 0 {
        lemma_leading_slash(text);
    }
    lemma_clean_entries(path);
    let all = components(requested_path(root, target));
    let base = components(root);
    assert(all == base + parts);
    assert(base =~= all.subrange(0, base.len() as int));
}

/// An ASCII character is encoded as its own byte.
proof fn lemma_ascii_in_front(c: char, byte: u8, rest: Seq<char>)
    requires
        c as u32 == byte as u32,
        byte < 0x80,
    ensures
        encode_utf8(seq![c] + rest) == seq![byte] + encode_utf8(rest),
{
    let u = c as u32;
    assert((seq![c] + rest).drop_first() =~= rest);
    assert(u < 0x80 ==> (u & 0x7f) as u8 as u32 == u) by (bit_vector);
    assert(encode_scalar(u) =~= seq![byte]);
}

/// A slash in front of some bytes stands for itself, and leaves the others what they are.
proof fn lemma_slash_in_front(rest: Seq<u8>)
    ensures
        valid_utf8(seq![0x2fu8] + rest) == valid_utf8(rest),
        valid_utf8(rest) ==> decode_utf8(seq![0x2fu8] + rest) == seq!['/'] + decode_utf8(rest),
        percent_decoded(seq![0x2fu8] + rest) == seq![0x2fu8] + percent_decoded(rest),
{
    let bytes = seq![0x2fu8] + rest;
    assert(0x2fu8 & 0x7f == 0x2f && 0x2fu8 & 0x80 == 0) by (bit_vector);
    assert(bytes[0] == 0x2f);
    assert(length_of_first_scalar(bytes) == 1);
    assert(pop_first_scalar(bytes) =~= rest);
    assert(valid_first_scalar(bytes));
    assert(0x2fu32 as char == '/');
    assert(bytes.skip(1) =~= rest);
}

/// A text with a slash in front asks for the same path as the text itself.
proof fn lemma_slash_is_stripped(text: Seq<char>)
    ensures
        strip_start(seq!['/'] + text, slash_char()) == strip_start(text, slash_char()),
{
    assert((seq!['/'] + text)[0] == '/');
    assert((seq!['/'] + text).skip(1) =~= text);
}

/// Slashes at the front of a target make no difference.
pub proof fn law_leading_slashes_make_no_difference(
    root: Seq<u8>,
    slashes: Seq<char>,
    target: Seq<char>,
)
    requires
        forall|i: int| 0 <= i < slashes.len() ==> #[trigger] slashes[i] == '/',
    ensures
        requested_path(root, slashes + target) == requested_path(root, target),
    decreases slashes.len(),
{
    if slashes.len() == 0 {
        assert(slashes + target =~= target);
    } else {
        let rest = slashes.skip(1) + target;
        assert(slashes[0] == '/');
        assert(slashes + target =~= seq!['/'] + rest);
        assert forall|i: int| 0 <= i < slashes.skip(1).len() implies #[trigger] slashes.skip(1)[i]
            == '/' by {
            assert(slashes.skip(1)[i] == slashes[i + 1]);
        }
        law_leading_slashes_make_no_difference(root, slashes.skip(1), target);
        lemma_ascii_in_front('/', 0x2f, rest);
        lemma_slash_in_front(encode_utf8(rest));
        lemma_slash_in_front(percent_decoded(encode_utf8(rest)));
        assert(decoded_target(slashes + target) == seq!['/'] + decoded_target(rest));
        lemma_slash_is_stripped(decoded_target(rest));
    }
}

/// An escaped slash at the front of a target makes no difference, if the target can be decoded.
pub proof fn law_escaped_slash_makes_no_difference(root: Seq<u8>, digit: char, target: Seq<char>)
    requires
        digit == 'F' || digit == 'f',
        valid_utf8(percent_decoded(encode_utf8(target))),
    ensures
        requested_path(root, seq!['%', '2', digit] + target) == requested_path(root, target),
{
    let whole = seq!['%', '2', digit] + target;
    let byte: u8 = if digit == 'F' {
        0x46
    } else {
        0x66
    };
    let plain = encode_utf8(target);
    lemma_ascii_in_front(digit, byte, target);
    lemma_ascii_in_front('2', 0x32, seq![digit] + target);
    lemma_ascii_in_front('%', 0x25, seq!['2'] + (seq![digit] + target));
    assert(whole =~= seq!['%'] + (seq!['2'] + (seq![digit] + target)));
    let bytes = encode_utf8(whole);
    assert(bytes =~= seq![0x25u8, 0x32, byte] + plain);
    assert(opens_with_escape(bytes));
    assert(bytes.skip(3) =~= plain);
    assert((hex_value(0x32u8)->0 * 16 + hex_value(byte)->0) as u8 == 0x2f);
    lemma_slash_in_front(percent_decoded(plain));
    assert(decoded_target(whole) == seq!['/'] + decoded_target(target));
    lemma_slash_is_stripped(decoded_target(target));
}

/// However its characters are escaped, a target asks for the same path.
pub proof fn law_escapes_make_no_difference(root: Seq<u8>, a: Seq<char>, b: Seq<char>)
    requires
        percent_decoded(encode_utf8(a)) == percent_decoded(encode_utf8(b)),
        valid_utf8(percent_decoded(encode_utf8(a))),
    ensures
        requested_path(root, a) == requested_path(root, b),
{
}

/// Only the percent sign is encoded with the byte of the percent sign.
proof fn lemma_no_percent(s: Seq<char>)
    requires
        forall|i: int| 0 <= i < s.len() ==> #[trigger] s[i] != '%',
    ensures
        forall|i: int| 0 <= i < encode_utf8(s).len() ==> #[trigger] encode_utf8(s)[i] != 0x25,
    decreases s.len(),
{
    if s.len() > 0 {
        let c = s[0] as u32;
        let rest = s.drop_first();
        assert(s[0] != '%');
        assert(c != 0x25) by {
            char_u32_cast(s[0], c);
            assert(0x25u32 as char == '%');
        }
        char_is_scalar(s[0]);
        assert forall|i: int| 0 <= i < rest.len() implies #[trigger] rest[i] != '%' by {
            assert(rest[i] == s[i + 1]);
        }
        lemma_no_percent(rest);
        assert(c <= 0x7f && c != 0x25 ==> (c & 0x7f) as u8 != 0x25) by (bit_vector);
        assert(0xC0u8 | ((c >> 6) & 0x1F) as u8 != 0x25) by (bit_vector);
        assert(0xE0u8 | ((c >> 12) & 0x0F) as u8 != 0x25) by (bit_vector);
        assert(0xF0u8 | ((c >> 18) & 0x7) as u8 != 0x25) by (bit_vector);
        assert(0x80u8 | (c & 0x3F) as u8 != 0x25) by (bit_vector);
        assert(0x80u8 | ((c >> 6) & 0x3F) as u8 != 0x25) by (bit_vector);
        assert(0x80u8 | ((c >> 12) & 0x3F) as u8 != 0x25) by (bit_vector);
        let head = encode_scalar(c);
        assert(forall|i: int| 0 <= i < head.len() ==> #[trigger] head[i] != 0x25);
        assert forall|i: int| 0 <= i < encode_utf8(s).len() implies #[trigger] encode_utf8(s)[i]
            != 0x25 by {
            if i < head.len() {
                assert(encode_utf8(s)[i] == head[i]);
            } else {
                assert(encode_utf8(s)[i] == encode_utf8(rest)[i - head.len()]);
            }
        }
    }
}

/// Bytes without a percent sign stand for themselves.
proof fn lemma_plain_bytes(bytes: Seq<u8>)
    requires
        forall|i: int| 0 <= i < bytes.len() ==> #[trigger] bytes[i] != 0x25,
    ensures
        percent_decoded(bytes) == bytes,
    decreases bytes.len(),
{
    if bytes.len() > 0 {
        let rest = bytes.skip(1);
        assert(bytes[0] != 0x25);
        assert forall|i: int| 0 <= i < rest.len() implies #[trigger] rest[i] != 0x25 by {
            assert(rest[i] == bytes[i + 1]);
        }
        lemma_plain_bytes(rest);
        assert(seq![bytes[0]] + rest =~= bytes);
    }
}

/// A target without percent signs stands for itself.
pub proof fn law_plain_target_is_itself(target: Seq<char>)
    requires
        forall|i: int| 0 <= i < target.len() ==> #[trigger] target[i] != '%',
    ensures
        decoded_target(target) == target,
{
    lemma_no_percent(target);
    lemma_plain_bytes(encode_utf8(target));
    encode_utf8_valid_utf8(target);
    encode_utf8_decode_utf8(target);
}

// ---------------------------------------------------------------------------------------------
// What a request line comes to
// ---------------------------------------------------------------------------------------------
/// A request line that a client writes with three words is accepted, with its method and its
/// target, if the third word is `HTTP/1.1`, and is of the wrong version, which is told, if not.
pub proof fn law_written_line_is_understood(
    r: RequestLine,
    method: Seq<char>,
    target: Seq<char>,
    version: Seq<char>,
)
    requires
        is_word(method),
        is_word(target),
        is_word(version),
        r.describes(written_line(method, target, version)),
    ensures
        if version == "HTTP/1.1"@ {
            r matches RequestLine::Accepted { method: m, target: t } && m@ == method && t@ == target
        } else {
            r matches RequestLine::WrongVersion { version: v } && v@ == version
        },
{
    law_request_line_is_read_back(method, target, version);
}

/// Just the lines that have not three words are malformed.
pub proof fn law_malformed_lines(r: RequestLine, line: Seq<char>)
    requires
        r.describes(line),
    ensures
        r is Malformed <==> words(line).len() != 3,
{
    law_trimming_keeps_words(line);
}

/// Just `GET` and `HEAD` are methods that are known.
pub proof fn law_known_methods(name: Seq<char>)
    ensures
        Method::named(name) == Method::Get <==> name == "GET"@,
        Method::named(name) == Method::Head <==> name == "HEAD"@,
        Method::named(name) == Method::Other <==> name != "GET"@ && name != "HEAD"@,
{
    reveal_strlit("GET");
    reveal_strlit("HEAD");
    assert("GET"@.len() == 3);
    assert("HEAD"@.len() == 4);
}

// ---------------------------------------------------------------------------------------------
// What a target means
// ---------------------------------------------------------------------------------------------
/// Tells whether `escaped` is `plain` with some of its bytes escaped: a percent sign always, every
/// other byte or not, and the hexadecimal digits in either case.
pub open spec fn is_escaping(escaped: Seq<u8>, plain: Seq<u8>) -> bool
    decreases plain.len(),
{
    if plain.len() == 0 {
        escaped.len() == 0
    } else {
        ||| escaped.len() >= 1 && escaped[0] == plain[0] && plain[0] != 0x25 && is_escaping(
            escaped.skip(1),
            plain.skip(1),
        )
        ||| escaped.len() >= 3 && escaped[0] == 0x25 && hex_value(escaped[1]) == Some(
            plain[0] as int / 16,
        ) && hex_value(escaped[2]) == Some(plain[0] as int % 16) && is_escaping(
            escaped.skip(3),
            plain.skip(1),
        )
    }
}

proof fn lemma_escaping_is_undone(escaped: Seq<u8>, plain: Seq<u8>)
    requires
        is_escaping(escaped, plain),
    ensures
        percent_decoded(escaped) == plain,
    decreases plain.len(),
{
    if plain.len() == 0 {
        assert(escaped =~= plain);
    } else {
        let rest = plain.skip(1);
        if escaped[0] == plain[0] && plain[0] != 0x25 && is_escaping(escaped.skip(1), rest) {
            lemma_escaping_is_undone(escaped.skip(1), rest);
        } else {
            lemma_escaping_is_undone(escaped.skip(3), rest);
            let b = plain[0] as int;
            assert(b / 16 * 16 + b % 16 == b);
        }
        assert(seq![plain[0]] + rest =~= plain);
    }
}

/// A text that is escaped, in part or as a whole, is read back.
pub proof fn law_escaped_target_is_read_back(target: Seq<char>, text: Seq<char>)
    requires
        is_escaping(encode_utf8(target), encode_utf8(text)),
    ensures
        decoded_target(target) == text,
{
    lemma_escaping_is_undone(encode_utf8(target), encode_utf8(text));
    encode_utf8_valid_utf8(text);
    encode_utf8_decode_utf8(text);
}

/// A target whose escapes do not stand for UTF-8 is taken as it is written.
pub proof fn law_undecodable_target_is_itself(target: Seq<char>)
    requires
        !valid_utf8(percent_decoded(encode_utf8(target))),
    ensures
        decoded_target(target) == target,
{
}

proof fn lemma_encode_concat(x: Seq<char>, y: Seq<char>)
    ensures
        encode_utf8(x + y) == encode_utf8(x) + encode_utf8(y),
    decreases x.len(),
{
    if x.len() == 0 {
        assert(x + y =~= y);
        assert(encode_utf8(x) + encode_utf8(y) =~= encode_utf8(y));
    } else {
        lemma_encode_concat(x.drop_first(), y);
        assert((x + y).drop_first() =~= x.drop_first() + y);
        assert(encode_utf8(x + y) =~= encode_utf8(x) + encode_utf8(y));
    }
}

proof fn lemma_decode_concat(a: Seq<u8>, b: Seq<u8>)
    requires
        valid_utf8(a),
        valid_utf8(b),
    ensures
        valid_utf8(a + b),
        decode_utf8(a + b) == decode_utf8(a) + decode_utf8(b),
{
    let x = decode_utf8(a);
    let y = decode_utf8(b);
    decode_utf8_encode_utf8(a);
    decode_utf8_encode_utf8(b);
    lemma_encode_concat(x, y);
    encode_utf8_valid_utf8(x + y);
    encode_utf8_decode_utf8(x + y);
}

/// No escape goes across a slash.
proof fn lemma_decoded_at_slash(a: Seq<u8>, b: Seq<u8>)
    ensures
        percent_decoded(a + (seq![0x2fu8] + b)) == percent_decoded(a) + (seq![0x2fu8]
            + percent_decoded(b)),
    decreases a.len(),
{
    let all = a + (seq![0x2fu8] + b);
    if a.len() == 0 {
        lemma_slash_in_front(b);
        assert(all =~= seq![0x2fu8] + b);
        assert(percent_decoded(a) + (seq![0x2fu8] + percent_decoded(b)) =~= seq![0x2fu8]
            + percent_decoded(b));
    } else {
        assert(all[a.len() as int] == 0x2f);
        assert(hex_value(0x2f) is None);
        assert(opens_with_escape(all) == opens_with_escape(a)) by {
            assert(all[0] == a[0]);
            if a.len() >= 2 {
                assert(all[1] == a[1]);
            }
            if a.len() >= 3 {
                assert(all[2] == a[2]);
            }
        }
        let n: int = if opens_with_escape(a) {
            3
        } else {
            1
        };
        lemma_decoded_at_slash(a.skip(n), b);
        assert(all.skip(n) =~= a.skip(n) + (seq![0x2fu8] + b));
        if opens_with_escape(a) {
            assert(all[1] == a[1] && all[2] == a[2]);
        }
        assert(percent_decoded(all) =~= percent_decoded(a) + (seq![0x2fu8] + percent_decoded(b)));
    }
}

/// Tells whether a target can be decoded.
pub open spec fn is_decodable(target: Seq<char>) -> bool {
    valid_utf8(percent_decoded(encode_utf8(target)))
}

/// Two targets with a slash between them.
pub open spec fn below(target: Seq<char>, name: Seq<char>) -> Seq<char> {
    target + (seq!['/'] + name)
}

proof fn lemma_decoded_below(target: Seq<char>, name: Seq<char>)
    requires
        is_decodable(target),
        is_decodable(name),
    ensures
        is_decodable(below(target, name)),
        decoded_target(below(target, name)) == below(decoded_target(target), decoded_target(name)),
{
    lemma_encode_concat(target, seq!['/'] + name);
    lemma_ascii_in_front('/', 0x2f, name);
    lemma_decoded_at_slash(encode_utf8(target), encode_utf8(name));
    let a = percent_decoded(encode_utf8(target));
    let b = percent_decoded(encode_utf8(name));
    lemma_slash_in_front(b);
    lemma_decode_concat(a, seq![0x2fu8] + b);
}

/// A text without a character is encoded without its byte.
proof fn lemma_no_slash_byte(s: Seq<char>)
    requires
        forall|i: int| 0 <= i < s.len() ==> #[trigger] s[i] != '/',
    ensures
        forall|i: int| 0 <= i < encode_utf8(s).len() ==> #[trigger] encode_utf8(s)[i] != 0x2f,
    decreases s.len(),
{
    if s.len() > 0 {
        let c = s[0] as u32;
        let rest = s.drop_first();
        assert(s[0] != '/');
        assert(c != 0x2f) by {
            char_u32_cast(s[0], c);
            assert(0x2fu32 as char == '/');
        }
        char_is_scalar(s[0]);
        assert forall|i: int| 0 <= i < rest.len() implies #[trigger] rest[i] != '/' by {
            assert(rest[i] == s[i + 1]);
        }
        lemma_no_slash_byte(rest);
        assert(c <= 0x7f && c != 0x2f ==> (c & 0x7f) as u8 != 0x2f) by (bit_vector);
        assert(0xC0u8 | ((c >> 6) & 0x1F) as u8 != 0x2f) by (bit_vector);
        assert(0xE0u8 | ((c >> 12) & 0x0F) as u8 != 0x2f) by (bit_vector);
        assert(0xF0u8 | ((c >> 18) & 0x7) as u8 != 0x2f) by (bit_vector);
        assert(0x80u8 | (c & 0x3F) as u8 != 0x2f) by (bit_vector);
        assert(0x80u8 | ((c >> 6) & 0x3F) as u8 != 0x2f) by (bit_vector);
        assert(0x80u8 | ((c >> 12) & 0x3F) as u8 != 0x2f) by (bit_vector);
        let head = encode_scalar(c);
        assert(forall|i: int| 0 <= i < head.len() ==> #[trigger] head[i] != 0x2f);
        assert forall|i: int| 0 <= i < encode_utf8(s).len() implies #[trigger] encode_utf8(s)[i]
            != 0x2f by {
            if i < head.len() {
                assert(encode_utf8(s)[i] == head[i]);
            } else {
                assert(encode_utf8(s)[i] == encode_utf8(rest)[i - head.len()]);
            }
        }
    }
}

/// Stripping the front of two texts with a slash between them.
proof fn lemma_strip_below(text: Seq<char>, name: Seq<char>)
    requires
        forall|i: int| 0 <= i < name.len() ==> #[trigger] name[i] != '/',
    ensures
        strip_start(below(text, name), slash_char()) == if strip_start(text, slash_char()).len()
            == 0 {
            name
        } else {
            below(strip_start(text, slash_char()), name)
        },
    decreases text.len(),
{
    let all = below(text, name);
    if text.len() == 0 {
        lemma_slash_is_stripped(name);
        assert(all =~= seq!['/'] + name);
        if name.len() > 0 {
            assert(name[0] != '/');
        }
    } else if text[0] == '/' {
        assert(all[0] == '/');
        assert(all.skip(1) =~= below(text.skip(1), name));
        lemma_strip_below(text.skip(1), name);
    } else {
        assert(all[0] == text[0]);
    }
}

/// The path that a target with a name below it means, by its components.
proof fn lemma_path_below(root: Seq<u8>, target: Seq<char>, name: Seq<char>)
    requires
        root.len() > 0,
        is_decodable(target),
        is_decodable(name),
        forall|i: int|
            0 <= i < decoded_target(name).len() ==> #[trigger] decoded_target(name)[i] != '/',
    ensures
        ({
            let done = resolved(
                components(encode_utf8(strip_start(decoded_target(target), slash_char()))),
            );
            let entry = encode_utf8(decoded_target(name));
            &&& components(requested_path(root, target)) == components(root) + done
            &&& forall|k: int| 0 <= k < done.len() ==> is_entry(#[trigger] done[k])
            &&& components(requested_path(root, below(target, name))) == components(root) + if entry
                == seq![0x2eu8] || entry.len() == 0 {
                done
            } else if entry != parent() || done.len() == 0 || done.last() == parent() {
                done.push(entry)
            } else {
                done.drop_last()
            }
        }),
{
    let text = strip_start(decoded_target(target), slash_char());
    let plain = decoded_target(name);
    let entry = encode_utf8(plain);
    let front = encode_utf8(text);
    let done = resolved(components(front));
    law_requested_path_extends_the_root(root, target);
    law_requested_path_extends_the_root(root, below(target, name));
    lemma_decoded_below(target, name);
    lemma_strip_below(decoded_target(target), plain);
    lemma_no_slash_byte(plain);
    lemma_stripped_start(decoded_target(target), slash_char());
    if text.len() > 0 {
        lemma_leading_slash(text);
    }
    assert(root_component()[0] == 0x2f);
    lemma_resolved_entries(front);
    let none = Seq::<u8>::empty();
    if entry.len() > 0 && entry != here() {
        assert(is_entry(entry));
    }
    let dummy = lemma_some_entry();
    if text.len() == 0 {
        assert(front =~= none);
        law_simplest_paths(dummy);
        assert(done =~= Seq::<Seq<u8>>::empty());
        if entry.len() == 0 {
            assert(entry =~= none);
        } else if entry == here() {
            lemma_resolved_push(Seq::empty(), here());
        } else {
            law_simplest_paths(entry);
            lemma_resolved_push(Seq::empty(), entry);
        }
        assert(Seq::<Seq<u8>>::empty().push(entry) =~= seq![entry]);
    } else {
        lemma_encode_concat(text, seq!['/'] + plain);
        lemma_ascii_in_front('/', 0x2f, plain);
        let whole = encode_utf8(below(text, plain));
        assert(whole =~= front.push(0x2f) + entry);
        if entry.len() == 0 {
            law_slashes_and_dots_are_no_components(front, dummy);
            assert(whole =~= front.push(0x2f));
        } else if entry == here() {
            law_slashes_and_dots_are_no_components(front, dummy);
            assert(whole =~= front.push(0x2f).push(0x2e));
        } else {
            law_slashes_and_dots_are_no_components(front, entry);
            lemma_resolved_push(components(front), entry);
        }
    }
}

/// There are entries.
proof fn lemma_some_entry() -> (entry: Seq<u8>)
    ensures
        is_entry(entry),
{
    let entry = seq![0x41u8];
    assert(entry[0] != here()[0]);
    entry
}

/// One more component.
proof fn lemma_resolved_push(parts: Seq<Seq<u8>>, part: Seq<u8>)
    ensures
        ({
            let done = resolved(parts);
            resolved(parts.push(part)) == if part == here() {
                done
            } else if part != parent() || done.len() == 0 || done.last() == parent() {
                done.push(part)
            } else if done.last() == root_component() {
                done
            } else {
                done.drop_last()
            }
        }),
{
    assert(parts.push(part).drop_last() =~= parts);
}

/// What is left of the components of a relative path are entries.
proof fn lemma_resolved_entries(path: Seq<u8>)
    requires
        !is_absolute(path),
    ensures
        forall|k: int|
            0 <= k < resolved(components(path)).len() ==> is_entry(
                #[trigger] resolved(components(path))[k],
            ),
        resolved(components(path)).len() > 0 ==> resolved(components(path)).last()
            != root_component(),
{
    let parts = resolved(components(path));
    law_cleaned_form(path);
    assert(root_component()[0] == 0x2f);
    if parts.len() > 0 && parts[0] == root_component() {
        let text = cleaned(path);
        lemma_clean_entries(path);
        let names = kept(split(text, slash()), entries());
        lemma_split_pieces(text, slash());
        lemma_kept_members(split(text, slash()), entries());
        let j = choose|j: int| 0 <= j < split(text, slash()).len() && split(text, slash())[j] == names[0];
        assert(!slash()(split(text, slash())[j][0]));
    }
    assert forall|k: int| 0 <= k < parts.len() implies is_entry(#[trigger] parts[k]) by {
        assert(is_entry(parts[k]) || (k == 0 && parts[k] == root_component()));
    }
    if parts.len() > 0 {
        assert(is_entry(parts[parts.len() - 1]));
    }
}

/// A slash alone, or nothing, means the root directory itself.
pub proof fn law_slash_means_the_root(root: Seq<u8>)
    requires
        root.len() > 0,
    ensures
        components(requested_path(root, seq!['/'])) == components(root),
        components(requested_path(root, Seq::empty())) == components(root),
{
    let none = Seq::<char>::empty();
    assert(forall|i: int| 0 <= i < none.len() ==> #[trigger] none[i] != '%');
    law_plain_target_is_itself(none);
    lemma_no_percent(none);
    lemma_plain_bytes(encode_utf8(none));
    encode_utf8_valid_utf8(none);
    assert(forall|i: int| 0 <= i < none.len() ==> #[trigger] none[i] != '/');
    lemma_path_below(root, none, none);
    let entry = lemma_some_entry();
    law_simplest_paths(entry);
    assert(encode_utf8(strip_start(none, slash_char())) =~= Seq::<u8>::empty());
    assert(below(none, none) =~= seq!['/']);
    assert(components(root) + Seq::<Seq<u8>>::empty() =~= components(root));
}

/// A name below a target means the entry with that name in what the target means: with its escapes
/// decoded it is one more component.
pub proof fn law_name_below_a_target_is_one_more_component(
    root: Seq<u8>,
    target: Seq<char>,
    name: Seq<char>,
)
    requires
        root.len() > 0,
        is_decodable(target),
        is_decodable(name),
        is_entry(encode_utf8(decoded_target(name))),
        encode_utf8(decoded_target(name)) != seq![0x2eu8, 0x2eu8],
        forall|i: int|
            0 <= i < decoded_target(name).len() ==> #[trigger] decoded_target(name)[i] != '/',
    ensures
        components(requested_path(root, below(target, name))) == components(
            requested_path(root, target),
        ).push(encode_utf8(decoded_target(name))),
{
    lemma_path_below(root, target, name);
    let done = resolved(
        components(encode_utf8(strip_start(decoded_target(target), slash_char()))),
    );
    let entry = encode_utf8(decoded_target(name));
    assert(components(root) + done.push(entry) =~= (components(root) + done).push(entry));
}

/// `..` below a target means the directory that holds what the target means, as long as that is
/// below the root directory; at the root directory or above it, it stays.
pub proof fn law_parent_below_a_target(root: Seq<u8>, target: Seq<char>, name: Seq<char>)
    requires
        root.len() > 0,
        is_decodable(target),
        is_decodable(name),
        decoded_target(name) == seq!['.', '.'],
    ensures
        ({
            let before = components(requested_path(root, target));
            let after = components(requested_path(root, below(target, name)));
            if before.len() > components(root).len() && before.last() != seq![0x2eu8, 0x2eu8] {
                after == before.drop_last()
            } else {
                after == before.push(seq![0x2eu8, 0x2eu8])
            }
        }),
{
    let two = seq!['.', '.'];
    lemma_ascii_in_front('.', 0x2e, Seq::empty());
    lemma_ascii_in_front('.', 0x2e, seq!['.'] + Seq::<char>::empty());
    assert(seq!['.'] + (seq!['.'] + Seq::<char>::empty()) =~= two);
    let entry = encode_utf8(two);
    assert(entry =~= seq![0x2eu8, 0x2eu8]);
    lemma_path_below(root, target, name);
    let base = components(root);
    let done = resolved(
        components(encode_utf8(strip_start(decoded_target(target), slash_char()))),
    );
    assert(base + done.push(entry) =~= (base + done).push(entry));
    if done.len() > 0 {
        assert((base + done).last() == done.last());
        assert(base + done.drop_last() =~= (base + done).drop_last());
    }
}

/// A slash at the end of a target, or a `.` below it, makes no difference.
pub proof fn law_trailing_slash_makes_no_difference(
    root: Seq<u8>,
    target: Seq<char>,
    name: Seq<char>,
)
    requires
        root.len() > 0,
        is_decodable(target),
        is_decodable(name),
        decoded_target(name).len() == 0 || decoded_target(name) == seq!['.'],
    ensures
        components(requested_path(root, below(target, name))) == components(
            requested_path(root, target),
        ),
{
    lemma_ascii_in_front('.', 0x2e, Seq::empty());
    assert(seq!['.'] + Seq::<char>::empty() =~= seq!['.']);
    assert(seq![0x2eu8] + encode_utf8(Seq::<char>::empty()) =~= seq![0x2eu8]);
    lemma_path_below(root, target, name);
}

/// A target that can be decoded stands for the bytes that its escapes stand for, and no others.
pub proof fn law_decoded_target_has_the_decoded_bytes(target: Seq<char>)
    requires
        is_decodable(target),
    ensures
        encode_utf8(decoded_target(target)) == percent_decoded(encode_utf8(target)),
{
    decode_utf8_encode_utf8(percent_decoded(encode_utf8(target)));
}

} // verus!
