//! A borrowed byte-string view and the facts about UTF-8 boundaries that
//! slicing such a view needs.

use vstd::prelude::*;
use vstd::string::StringSliceAdditionalSpecFns;
use vstd::utf8::*;

verus! {

/// A non-owning view of text, measured in bytes. It borrows from the buffer
/// it was made from and never copies it.
#[derive(Clone, Copy, Debug)]
pub struct Bstr<'a> {
    pub text: &'a str,
}

impl<'a> View for Bstr<'a> {
    type V = Seq<u8>;

    /// The bytes that the view covers.
    open spec fn view(&self) -> Seq<u8> {
        self.text.spec_bytes()
    }
}

/// An ASCII byte of well-formed UTF-8 starts a character.
pub proof fn lemma_ascii_byte_starts_char(bytes: Seq<u8>, i: int)
    requires
        valid_utf8(bytes),
        0 <= i < bytes.len(),
        bytes[i] < 0x80,
    ensures
        is_char_boundary(bytes, i),
{
    is_char_boundary_iff_not_is_continuation_byte(bytes, i);
}

/// An ASCII byte of well-formed UTF-8 is a whole character: the next one
/// starts right behind it.
pub proof fn lemma_ascii_byte_ends_char(bytes: Seq<u8>, i: int)
    requires
        valid_utf8(bytes),
        0 <= i < bytes.len(),
        bytes[i] < 0x80,
    ensures
        is_char_boundary(bytes, i + 1),
{
    if i + 1 == bytes.len() {
        is_char_boundary_start_end_of_seq(bytes);
    } else {
        lemma_ascii_byte_starts_char(bytes, i);
        valid_utf8_split(bytes, i);
        let suffix = bytes.subrange(i, bytes.len() as int);
        assert(suffix[0] == bytes[i]);
        assert(length_of_first_scalar(suffix) == 1);
        let tail = pop_first_scalar(suffix);
        assert(valid_utf8(tail));
        assert(tail.len() > 0);
        assert(tail[0] == bytes[i + 1]);
        is_char_boundary_start_end_of_seq(tail);
        is_char_boundary_iff_not_is_continuation_byte(tail, 0);
        is_char_boundary_iff_not_is_continuation_byte(bytes, i + 1);
    }
}

/// The bytes of any `str` are well-formed UTF-8.
pub proof fn lemma_str_bytes_valid(s: &str)
    ensures
        valid_utf8(s.spec_bytes()),
{
    encode_utf8_valid_utf8(s@);
}

/// A `str` is determined by its bytes.
pub proof fn lemma_str_view_from_bytes(s: &str)
    ensures
        s@ == decode_utf8(s.spec_bytes()),
{
    encode_utf8_decode_utf8(s@);
}

/// Whether two byte slices hold the same bytes.
pub fn bytes_equal(a: &[u8], b: &[u8]) -> (same: bool)
    ensures
        same == (a@ == b@),
{
    if a.len() != b.len() {
        return false;
    }
    let mut i: usize = 0;
    while i < a.len()
        invariant
            a@.len() == b@.len(),
            0 <= i <= a@.len(),
            forall|k: int| 0 <= k < i ==> a@[k] == b@[k],
        decreases a@.len() - i,
    {
        if a[i] != b[i] {
            return false;
        }
        i += 1;
    }
    assert(a@ =~= b@);
    true
}

/// Whether two strings hold the same text.
pub fn str_equal(a: &str, b: &str) -> (same: bool)
    ensures
        same == (a@ == b@),
{
    proof {
        lemma_str_view_from_bytes(a);
        lemma_str_view_from_bytes(b);
    }
    bytes_equal(a.as_bytes(), b.as_bytes())
}

impl<'a> Bstr<'a> {
    /// A view of the whole of `text`.
    pub fn new(text: &'a str) -> (view: Bstr<'a>)
        ensures
            view.text == text,
            view@ == text.spec_bytes(),
    {
        Bstr { text }
    }

    /// The view that covers nothing.
    pub fn empty() -> (view: Bstr<'static>)
        ensures
            view@ == Seq::<u8>::empty(),
    {
        let view = Bstr { text: "" };
        proof {
            reveal_strlit("");
            assert(""@ =~= Seq::<char>::empty());
            assert(encode_utf8(Seq::<char>::empty()) =~= Seq::<u8>::empty());
        }
        view
    }

    /// The text under the view.
    pub fn as_str(&self) -> (text: &'a str)
        ensures
            text == self.text,
            text.spec_bytes() == self@,
    {
        self.text
    }

    /// The number of bytes under the view.
    pub fn len(&self) -> (n: usize)
        ensures
            n == self@.len(),
    {
        self.text.as_bytes().len()
    }

    /// The part of the view from byte `start` up to byte `end`, borrowed
    /// from the same buffer.
    pub fn splice(&self, start: usize, end: usize) -> (part: Bstr<'a>)
        requires
            start <= end <= self@.len(),
            is_char_boundary(self@, start as int),
            is_char_boundary(self@, end as int),
        ensures
            part@ == self@.subrange(start as int, end as int),
    {
        proof {
            lemma_str_bytes_valid(self.text);
        }
        let (head, _) = self.text.split_at(end);
        proof {
            lemma_str_bytes_valid(head);
            assert(head.spec_bytes() =~= self@.subrange(0, end as int));
            lemma_boundary_in_prefix(self@, start as int, end as int);
        }
        let (_, part) = head.split_at(start);
        assert(part.spec_bytes() =~= self@.subrange(start as int, end as int));
        Bstr { text: part }
    }
}

/// A character boundary of a text is one of each prefix that reaches it.
pub proof fn lemma_boundary_in_prefix(bytes: Seq<u8>, i: int, end: int)
    requires
        valid_utf8(bytes),
        0 <= i <= end <= bytes.len(),
        is_char_boundary(bytes, i),
        is_char_boundary(bytes, end),
    ensures
        is_char_boundary(bytes.subrange(0, end), i),
{
    let prefix = bytes.subrange(0, end);
    valid_utf8_split(bytes, end);
    if i == end {
        is_char_boundary_start_end_of_seq(prefix);
    } else if i == 0 {
    } else {
        is_char_boundary_iff_not_is_continuation_byte(bytes, i);
        assert(prefix[i] == bytes[i]);
        is_char_boundary_iff_not_is_continuation_byte(prefix, i);
    }
}

} // verus!
