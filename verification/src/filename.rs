//! Guessing a track's language and flags from the chain of suffixes at the
//! end of a file name, as in `movie.en.hi.mkv`.

use crate::bstr::{
    bytes_equal, lemma_ascii_byte_ends_char, lemma_ascii_byte_starts_char, lemma_str_bytes_valid,
    lemma_str_view_from_bytes, Bstr,
};
use crate::iso639::{iso639_language, resolve_iso639};
use crate::tag::{canonical_or_same, parsed_tag, LangTag};
use crate::track_flags::{DEFAULT, FORCED, HEARING_IMPAIRED, NONE};
use vstd::prelude::*;
use vstd::string::StringSliceAdditionalSpecFns;
use vstd::utf8::*;

verus! {

/// The byte `.`.
pub const DOT: u8 = 0x2e;

/// The byte `[`.
pub const OPEN_BRACKET: u8 = 0x5b;

/// The byte `]`.
pub const CLOSE_BRACKET: u8 = 0x5d;

/// The byte `(`.
pub const OPEN_PAREN: u8 = 0x28;

/// The byte `)`.
pub const CLOSE_PAREN: u8 = 0x29;

/// What introduces a token in a file name.
#[derive(Clone, Copy, Debug, PartialEq, Eq, Structural)]
pub enum Delimiter {
    /// A `.`; the token runs up to the next delimiter.
    Dot,
    /// A `[`; the token must end in `]`.
    Bracket,
    /// A `(`; the token must end in `)`.
    Paren,
}

impl Delimiter {
    /// The byte that a token must end in and that is no part of it, if the
    /// delimiter asks for one.
    pub open spec fn closing(self) -> Option<u8> {
        match self {
            Delimiter::Dot => None,
            Delimiter::Bracket => Some(CLOSE_BRACKET),
            Delimiter::Paren => Some(CLOSE_PAREN),
        }
    }

    /// The number of bytes that the delimiter takes in the name.
    pub fn len(self) -> (n: usize)
        ensures
            n == 1,
    {
        1
    }
}

/// The delimiter that the byte `b` is, if it is one.
pub open spec fn delimiter_of(b: u8) -> Option<Delimiter> {
    if b == DOT {
        Some(Delimiter::Dot)
    } else if b == OPEN_BRACKET {
        Some(Delimiter::Bracket)
    } else if b == OPEN_PAREN {
        Some(Delimiter::Paren)
    } else {
        None
    }
}

/// A token of a file name: the place of its delimiter, the delimiter, and
/// its text without the delimiter and without a closing bracket.
pub struct Token {
    pub pos: int,
    pub text: Seq<u8>,
    pub delimiter: Delimiter,
}

/// The place of the last delimiter of `name` before `end`, or -1 where
/// there is none.
pub open spec fn last_delimiter(name: Seq<u8>, end: int) -> int
    decreases end,
{
    if end <= 0 {
        -1
    } else if delimiter_of(name[end - 1]) is Some {
        end - 1
    } else {
        last_delimiter(name, end - 1)
    }
}

/// What `last_delimiter` finds: a delimiter before `end` with none between
/// it and `end`, or -1 with no delimiter before `end` at all.
pub proof fn lemma_last_delimiter(name: Seq<u8>, end: int)
    requires
        0 <= end <= name.len(),
    ensures
        -1 <= last_delimiter(name, end) < end,
        last_delimiter(name, end) >= 0 ==> delimiter_of(name[last_delimiter(name, end)]) is Some,
        forall|k: int| last_delimiter(name, end) < k < end ==> delimiter_of(#[trigger] name[k]) is None,
    decreases end,
{
    if end > 0 && delimiter_of(name[end - 1]) is None {
        lemma_last_delimiter(name, end - 1);
    }
}

/// The token that ends at `end`: it starts behind the last delimiter before
/// `end`. There is none where no delimiter is left, or where a bracket or
/// parenthesis is not closed right at `end`.
pub open spec fn token_before(name: Seq<u8>, end: int) -> Option<Token> {
    let pos = last_delimiter(name, end);
    if pos < 0 {
        None
    } else {
        let raw = name.subrange(pos + 1, end);
        match delimiter_of(name[pos]) {
            None => None,
            Some(Delimiter::Dot) => Some(Token { pos, text: raw, delimiter: Delimiter::Dot }),
            Some(delimiter) => if raw.len() > 0 && Some(raw.last()) == delimiter.closing() {
                Some(Token { pos, text: raw.drop_last(), delimiter })
            } else {
                None
            },
        }
    }
}

/// Whether `text` is the part of `name` right behind the delimiter at
/// `pos`, with whole characters before, in and behind it.
pub open spec fn token_in_place(name: Seq<u8>, pos: usize, text: Seq<u8>) -> bool {
    &&& pos + 1 + text.len() <= name.len()
    &&& text == name.subrange(pos + 1, pos + 1 + text.len())
    &&& is_char_boundary(name, pos as int)
    &&& is_char_boundary(name, pos + 1)
    &&& is_char_boundary(name, pos + 1 + text.len())
}

/// Which delimiter the byte `b` is, if it is one.
pub fn classify_delimiter(b: u8) -> (delimiter: Option<Delimiter>)
    ensures
        delimiter == delimiter_of(b),
{
    if b == DOT {
        Some(Delimiter::Dot)
    } else if b == OPEN_BRACKET {
        Some(Delimiter::Bracket)
    } else if b == OPEN_PAREN {
        Some(Delimiter::Paren)
    } else {
        None
    }
}

/// Takes the token of `s` that ends at byte `end`: finds the last delimiter
/// before `end` and returns its place, the text between it and `end`
/// without a closing bracket, and the delimiter. The text is borrowed from
/// `s`.
pub fn extract_tag<'a>(s: &'a str, end: usize) -> (token: Option<(usize, &'a str, Delimiter)>)
    requires
        end <= s.spec_bytes().len(),
        is_char_boundary(s.spec_bytes(), end as int),
    ensures
        match token {
            Some((pos, text, delimiter)) => token_before(s.spec_bytes(), end as int) == Some(
                Token { pos: pos as int, text: text.spec_bytes(), delimiter },
            ),
            None => token_before(s.spec_bytes(), end as int) is None,
        },
        token matches Some(found) ==> token_in_place(s.spec_bytes(), found.0, found.1.spec_bytes())
            && found.0 + 1 + found.1.spec_bytes().len() <= end,
{
    let bytes = s.as_bytes();
    let mut i: usize = end;
    let mut found: Option<Delimiter> = None;
    while i > 0 && found.is_none()
        invariant
            bytes@ == s.spec_bytes(),
            0 <= i <= end <= bytes@.len(),
            found is None ==> last_delimiter(bytes@, end as int) == last_delimiter(bytes@, i as int),
            found is Some ==> i < end && last_delimiter(bytes@, end as int) == i && delimiter_of(
                bytes@[i as int],
            ) == found,
        decreases i + (if found is None { 1int } else { 0int }),
    {
        found = classify_delimiter(bytes[i - 1]);
        i -= 1;
        proof {
            if found is None {
                assert(last_delimiter(bytes@, (i + 1) as int) == last_delimiter(bytes@, i as int));
            }
        }
    }
    let delimiter = match found {
        Some(delimiter) => delimiter,
        None => {
            return None;
        },
    };
    let pos = i;
    proof {
        lemma_str_bytes_valid(s);
        lemma_ascii_byte_starts_char(bytes@, pos as int);
        lemma_ascii_byte_ends_char(bytes@, pos as int);
    }
    let stop = match delimiter {
        Delimiter::Dot => end,
        Delimiter::Bracket => {
            if pos + 1 < end && bytes[end - 1] == CLOSE_BRACKET {
                end - 1
            } else {
                return None;
            }
        },
        Delimiter::Paren => {
            if pos + 1 < end && bytes[end - 1] == CLOSE_PAREN {
                end - 1
            } else {
                return None;
            }
        },
    };
    proof {
        if stop < end {
            lemma_ascii_byte_starts_char(bytes@, stop as int);
        }
        let raw = bytes@.subrange(pos + 1, end as int);
        if stop < end {
            assert(raw.drop_last() =~= bytes@.subrange(pos + 1, stop as int));
        }
    }
    let text = Bstr::new(s).splice(pos + 1, stop).as_str();
    Some((pos, text, delimiter))
}

/// The flag that a token's text stands for, if it is one of the flag words.
/// The words are matched as they are written, in lower case only.
pub open spec fn flag_of(text: Seq<u8>) -> Option<i32> {
    if text == "hi".spec_bytes() || text == "sdh".spec_bytes() || text == "cc".spec_bytes() {
        Some(HEARING_IMPAIRED)
    } else if text == "forced".spec_bytes() {
        Some(FORCED)
    } else if text == "default".spec_bytes() {
        Some(DEFAULT)
    } else {
        None
    }
}

/// Whether `text` is a well-formed language tag whose primary language, in
/// the tag's canonical form, is a language of ISO 639.
pub open spec fn language_known(text: Seq<char>) -> bool {
    match parsed_tag(text) {
        None => false,
        Some(tag) => iso639_language(canonical_or_same(tag).language) is Some,
    }
}

/// The scan from `end` leftward with `flags` already seen: flag words add
/// their flag and the scan goes on; the first other token ends it, as the
/// tag found where its language is known and as nothing found where it is
/// not; the scan also ends, with nothing found, where no token is left.
pub open spec fn scan_from(name: Seq<u8>, end: int, flags: i32) -> (Option<Token>, i32)
    decreases end,
    via scan_from_decreases
{
    match token_before(name, end) {
        None => (None, flags),
        Some(token) => match flag_of(token.text) {
            Some(flag) => scan_from(name, token.pos, flags | flag),
            None => if language_known(decode_utf8(token.text)) {
                (Some(token), flags)
            } else {
                (None, flags)
            },
        },
    }
}

#[via_fn]
proof fn scan_from_decreases(name: Seq<u8>, end: int, flags: i32) {
    lemma_token_before(name, end);
}

/// A token before `end` starts at a place from 0 up to `end`, not
/// included.
pub proof fn lemma_token_before(name: Seq<u8>, end: int)
    ensures
        token_before(name, end) matches Some(token) ==> 0 <= token.pos < end,
{
    lemma_last_delimiter_before(name, end);
}

/// The last delimiter before `end`, where there is one, stands before
/// `end`.
pub proof fn lemma_last_delimiter_before(name: Seq<u8>, end: int)
    ensures
        last_delimiter(name, end) >= 0 ==> last_delimiter(name, end) < end,
    decreases end,
{
    if end > 0 && delimiter_of(name[end - 1]) is None {
        lemma_last_delimiter_before(name, end - 1);
    }
}

/// The scan of a whole file name: the last token must be introduced by a
/// `.` and is passed over as the extension; the tokens before it are
/// scanned from right to left.
pub open spec fn scan(name: Seq<u8>) -> (Option<Token>, i32) {
    match token_before(name, name.len() as int) {
        Some(token) => if token.delimiter == Delimiter::Dot {
            scan_from(name, token.pos, NONE)
        } else {
            (None, NONE)
        },
        None => (None, NONE),
    }
}

/// Which flag the token `text` stands for, if it is one of the flag words.
pub fn classify_flag(text: &str) -> (flag: Option<i32>)
    ensures
        flag == flag_of(text.spec_bytes()),
{
    let bytes = text.as_bytes();
    if bytes_equal(bytes, "hi".as_bytes()) || bytes_equal(bytes, "sdh".as_bytes()) || bytes_equal(
        bytes,
        "cc".as_bytes(),
    ) {
        Some(HEARING_IMPAIRED)
    } else if bytes_equal(bytes, "forced".as_bytes()) {
        Some(FORCED)
    } else if bytes_equal(bytes, "default".as_bytes()) {
        Some(DEFAULT)
    } else {
        None
    }
}

/// Whether `text` is a well-formed language tag whose primary language, in
/// the tag's canonical form, is a language of ISO 639.
pub fn is_known_language(text: &str) -> (known: bool)
    ensures
        known == language_known(text@),
{
    match LangTag::parse(text) {
        None => false,
        Some(tag) => {
            let canonical = tag.canonicalize();
            let tag = match &canonical {
                Some(canonical) => canonical,
                None => &tag,
            };
            resolve_iso639(tag.primary_language()).is_some()
        },
    }
}

/// Scans the suffixes of `name` from right to left for flag words and a
/// language tag. Returns the tag found, as the place of its delimiter, its
/// text borrowed from `name`, and its delimiter, and the flags seen.
pub fn guess_lang<'a>(name: &Bstr<'a>) -> (found: (Option<(usize, &'a str, Delimiter)>, i32))
    ensures
        found.1 == scan(name@).1,
        match found.0 {
            Some((pos, text, delimiter)) => scan(name@).0 == Some(
                Token { pos: pos as int, text: text.spec_bytes(), delimiter },
            ),
            None => scan(name@).0 is None,
        },
        found.0 matches Some(tag) ==> token_in_place(name@, tag.0, tag.1.spec_bytes()),
{
    let s = name.as_str();
    proof {
        lemma_str_bytes_valid(s);
        is_char_boundary_start_end_of_seq(name@);
    }
    let mut pos: usize = match extract_tag(s, name.len()) {
        Some((pos, _, Delimiter::Dot)) => pos,
        _ => {
            return (None, NONE);
        },
    };
    let mut flags: i32 = NONE;
    loop
        invariant
            s.spec_bytes() == name@,
            pos <= name@.len(),
            is_char_boundary(name@, pos as int),
            scan(name@) == scan_from(name@, pos as int, flags),
        decreases pos,
    {
        proof {
            lemma_token_before(name@, pos as int);
        }
        match extract_tag(s, pos) {
            None => {
                return (None, flags);
            },
            Some((cur, text, delimiter)) => {
                match classify_flag(text) {
                    Some(flag) => {
                        flags = flags | flag;
                        pos = cur;
                    },
                    None => {
                        proof {
                            lemma_str_view_from_bytes(text);
                        }
                        if is_known_language(text) {
                            return (Some((cur, text, delimiter)), flags);
                        } else {
                            return (None, flags);
                        }
                    },
                }
            },
        }
    }
}

/// What is reported of a file name: the language tag found in it, as a
/// view into the name, the place where the tag's delimiter stands, and the
/// flags seen.
#[derive(Clone, Copy, Debug)]
pub struct LangGuess<'a> {
    /// The tag, without its delimiter; empty where none was found.
    pub tag: Bstr<'a>,
    /// The place of the tag's delimiter in the name, or -1 where no tag
    /// was found.
    pub start: i64,
    /// The flags seen, whether or not a tag was found.
    pub flags: i32,
}

/// Cuts the tag that a scan found out of `name`. The tag is reported from
/// its delimiter on, and its text as a view into `name` that starts behind
/// the delimiter. Nothing is matched or copied here.
pub fn splice_tag<'a>(
    name: &Bstr<'a>,
    found: Option<(usize, &'a str, Delimiter)>,
    flags: i32,
) -> (report: LangGuess<'a>)
    requires
        found matches Some(tag) ==> tag.0 <= i64::MAX && tag.0 + 1 + tag.1.spec_bytes().len()
            <= name@.len() && is_char_boundary(name@, tag.0 + 1) && is_char_boundary(
            name@,
            tag.0 + 1 + tag.1.spec_bytes().len(),
        ),
    ensures
        report.flags == flags,
        match found {
            Some((pos, text, delimiter)) => report.start == pos && report.tag@ == name@.subrange(
                pos + 1,
                pos + 1 + text.spec_bytes().len(),
            ),
            None => report.start == -1 && report.tag@ == Seq::<u8>::empty(),
        },
{
    match found {
        Some((pos, text, delimiter)) => {
            let limit = name.len();
            let start = pos + delimiter.len();
            let end = start + text.as_bytes().len();
            assert(end <= limit);
            LangGuess { tag: name.splice(start, end), start: pos as i64, flags }
        },
        None => LangGuess { tag: Bstr::empty(), start: -1, flags },
    }
}

/// Guesses the language and the flags of a track from its file name, as in
/// `movie.en.hi.mkv`: reports the language tag among the suffixes of
/// `name`, the place where it starts, its delimiter included, and the
/// flags that the suffixes to its right stand for.
pub fn mp_guess_lang_from_filename<'a>(name: Bstr<'a>) -> (report: LangGuess<'a>)
    requires
        name@.len() <= i64::MAX,
    ensures
        report.flags == scan(name@).1,
        match scan(name@).0 {
            Some(token) => report.start == token.pos && report.tag@ == token.text && token.text
                == name@.subrange(token.pos + 1, token.pos + 1 + token.text.len()),
            None => report.start == -1 && report.tag@ == Seq::<u8>::empty(),
        },
{
    let (found, flags) = guess_lang(&name);
    splice_tag(&name, found, flags)
}

/// Scanning has no memory: names that hold the same bytes give the same
/// result, so scanning one name again changes nothing.
pub proof fn lemma_scan_repeats(first: Seq<u8>, second: Seq<u8>)
    requires
        first == second,
    ensures
        scan(first) == scan(second),
{
}

/// An empty name holds no tag and no flag.
pub proof fn lemma_scan_empty(name: Seq<u8>)
    requires
        name.len() == 0,
    ensures
        scan(name) == (None::<Token>, NONE),
{
}

/// A token lies in the name right behind its delimiter and before `end`.
pub proof fn lemma_token_lies_in_name(name: Seq<u8>, end: int)
    requires
        0 <= end <= name.len(),
    ensures
        token_before(name, end) matches Some(token) ==> 0 <= token.pos && token.pos + 1
            + token.text.len() <= end && delimiter_of(name[token.pos]) == Some(token.delimiter)
            && token.text == name.subrange(token.pos + 1, token.pos + 1 + token.text.len()),
{
    lemma_last_delimiter(name, end);
    let pos = last_delimiter(name, end);
    if pos >= 0 {
        let raw = name.subrange(pos + 1, end);
        if raw.len() > 0 {
            assert(raw.drop_last() =~= name.subrange(pos + 1, end - 1));
        }
    }
}

/// The tag that a scan from `end` finds lies in the name before `end`,
/// right behind its delimiter.
pub proof fn lemma_scan_from_lies_in_name(name: Seq<u8>, end: int, flags: i32)
    requires
        0 <= end <= name.len(),
    ensures
        scan_from(name, end, flags).0 matches Some(token) ==> 0 <= token.pos && token.pos + 1
            + token.text.len() <= end && delimiter_of(name[token.pos]) == Some(token.delimiter)
            && token.text == name.subrange(token.pos + 1, token.pos + 1 + token.text.len()),
    decreases end,
{
    lemma_token_lies_in_name(name, end);
    match token_before(name, end) {
        None => {},
        Some(token) => match flag_of(token.text) {
            Some(flag) => {
                lemma_scan_from_lies_in_name(name, token.pos, flags | flag);
            },
            None => {},
        },
    }
}

/// The tag that a scan finds lies in the name right behind its delimiter,
/// and before the extension.
pub proof fn lemma_scan_lies_in_name(name: Seq<u8>)
    ensures
        scan(name).0 matches Some(token) ==> 0 <= token.pos && token.pos + 1 + token.text.len()
            < name.len() && delimiter_of(name[token.pos]) == Some(token.delimiter) && token.text
            == name.subrange(token.pos + 1, token.pos + 1 + token.text.len()),
{
    lemma_token_lies_in_name(name, name.len() as int);
    match token_before(name, name.len() as int) {
        Some(token) => {
            lemma_scan_from_lies_in_name(name, token.pos, NONE);
        },
        None => {},
    }
}

/// A name whose last delimiter is no `.`, or that holds no delimiter,
/// gives nothing: there is no extension to look behind.
pub proof fn lemma_scan_needs_extension(name: Seq<u8>)
    requires
        last_delimiter(name, name.len() as int) < 0 || name[last_delimiter(
            name,
            name.len() as int,
        )] != DOT,
    ensures
        scan(name) == (None::<Token>, NONE),
{
}

/// A scan sets no other flags than the three that the flag words stand for.
pub proof fn lemma_scan_flags(name: Seq<u8>)
    ensures
        scan(name).1 & !(HEARING_IMPAIRED | FORCED | DEFAULT) == 0,
{
    assert(NONE & !(HEARING_IMPAIRED | FORCED | DEFAULT) == 0) by (bit_vector);
    match token_before(name, name.len() as int) {
        Some(token) => {
            lemma_scan_from_flags(name, token.pos, NONE);
        },
        None => {},
    }
}

/// A scan that starts with only flags of the three keeps to them.
pub proof fn lemma_scan_from_flags(name: Seq<u8>, end: int, flags: i32)
    requires
        flags & !(HEARING_IMPAIRED | FORCED | DEFAULT) == 0,
    ensures
        scan_from(name, end, flags).1 & !(HEARING_IMPAIRED | FORCED | DEFAULT) == 0,
    decreases end,
{
    match token_before(name, end) {
        None => {},
        Some(token) => match flag_of(token.text) {
            Some(flag) => {
                lemma_token_before(name, end);
                assert((flags | flag) & !(HEARING_IMPAIRED | FORCED | DEFAULT) == 0)
                    by (bit_vector)
                    requires
                        flags & !(HEARING_IMPAIRED | FORCED | DEFAULT) == 0,
                        flag == HEARING_IMPAIRED || flag == FORCED || flag == DEFAULT,
                ;
                lemma_scan_from_flags(name, token.pos, flags | flag);
            },
            None => {},
        },
    }
}

/// How far to the left a scan from `end` looks: down to the delimiter of
/// the token at which it stops, or over all of the name where it runs out
/// of delimiters.
pub open spec fn scan_reach(name: Seq<u8>, end: int) -> int
    decreases end,
    via scan_reach_decreases
{
    match token_before(name, end) {
        None => if last_delimiter(name, end) < 0 {
            0
        } else {
            last_delimiter(name, end)
        },
        Some(token) => if flag_of(token.text) is Some {
            scan_reach(name, token.pos)
        } else {
            token.pos
        },
    }
}

#[via_fn]
proof fn scan_reach_decreases(name: Seq<u8>, end: int) {
    lemma_token_before(name, end);
}

/// Names that hold the same bytes from `from` up to `end` have their last
/// delimiter before `end` at the same place, where one of them has it at
/// `from` or behind it, and also where `from` is the start of the names.
pub proof fn lemma_last_delimiter_local(a: Seq<u8>, b: Seq<u8>, from: int, end: int)
    requires
        0 <= from <= end,
        end <= a.len(),
        end <= b.len(),
        forall|k: int| from <= k < end ==> a[k] == b[k],
    ensures
        last_delimiter(a, end) >= from ==> last_delimiter(b, end) == last_delimiter(a, end),
        from == 0 ==> last_delimiter(b, end) == last_delimiter(a, end),
    decreases end,
{
    if end > from && delimiter_of(a[end - 1]) is None {
        lemma_last_delimiter_local(a, b, from, end - 1);
    }
    if end == from {
        lemma_last_delimiter_before(a, end);
    }
}

/// A scan from `end` looks at nothing behind `end`, and at nothing before
/// the start of the name.
pub proof fn lemma_scan_reach_before(name: Seq<u8>, end: int)
    requires
        0 <= end,
    ensures
        0 <= scan_reach(name, end) <= end,
    decreases end,
{
    lemma_token_before(name, end);
    lemma_last_delimiter_before(name, end);
    match token_before(name, end) {
        None => {},
        Some(token) => {
            if flag_of(token.text) is Some {
                lemma_scan_reach_before(name, token.pos);
            }
        },
    }
}

/// A scan stops at the first token that is no flag word, and what stands
/// to the left of that token plays no part: names that hold the same bytes
/// from where the scan of one of them stops up to `end` give the same
/// result.
pub proof fn lemma_scan_from_ignores_the_rest(a: Seq<u8>, b: Seq<u8>, end: int, flags: i32)
    requires
        0 <= end <= a.len(),
        end <= b.len(),
        forall|k: int| scan_reach(a, end) <= k < end ==> a[k] == b[k],
    ensures
        scan_from(a, end, flags) == scan_from(b, end, flags),
    decreases end,
{
    lemma_token_before(a, end);
    lemma_last_delimiter_before(a, end);
    let pos = last_delimiter(a, end);
    if pos < 0 {
        lemma_last_delimiter_local(a, b, 0, end);
    } else {
        match token_before(a, end) {
            None => {},
            Some(token) => {
                if flag_of(token.text) is Some {
                    lemma_scan_reach_before(a, pos);
                }
            },
        }
        lemma_last_delimiter_local(a, b, pos, end);
        assert(a.subrange(pos + 1, end) =~= b.subrange(pos + 1, end));
        match token_before(a, end) {
            None => {},
            Some(token) => match flag_of(token.text) {
                Some(flag) => {
                    lemma_scan_from_ignores_the_rest(a, b, pos, flags | flag);
                },
                None => {},
            },
        }
    }
}

} // verus!
