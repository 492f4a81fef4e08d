//! The UTF-8-constrained front-growing string.

use vstd::prelude::*;
use vstd::string::StringSliceAdditionalSpecFns;
use vstd::utf8::char_is_scalar;
use vstd::utf8::char_u32_cast;
use vstd::utf8::decode_first_scalar;
use vstd::utf8::decode_utf8;
use vstd::utf8::decode_utf8_encode_utf8;
use vstd::utf8::decode_utf8_split;
use vstd::utf8::encode_scalar;
use vstd::utf8::encode_utf8;
use vstd::utf8::encode_utf8_decode_utf8;
use vstd::utf8::encode_utf8_valid_utf8;
use vstd::utf8::is_char_boundary_iff_not_is_continuation_byte;
use vstd::utf8::is_char_boundary_start_end_of_seq;
use vstd::utf8::is_scalar;
use vstd::utf8::length_of_first_scalar;
use vstd::utf8::pop_first_scalar;
use vstd::utf8::valid_first_scalar;
use vstd::utf8::valid_utf8;
use vstd::utf8::valid_utf8_split;

use crate::front_vec::FrontVec;

verus! {

/// A string that grows cheaply from its front.
///
/// Wraps exactly one `FrontVec<u8>` whose live region always holds a valid
/// UTF-8 byte sequence; every public operation accepts only whole scalar
/// values or whole valid substrings, so the encoding invariant is preserved
/// inductively.  The view of a `FrontString` is its byte sequence; `chars`
/// gives the character sequence those bytes encode.
pub struct FrontString {
    vec: FrontVec<u8>,
}

impl View for FrontString {
    type V = Seq<u8>;

    /// The live bytes, front first.
    closed spec fn view(&self) -> Seq<u8> {
        self.vec@
    }
}

impl FrontString {
    /// The UTF-8 invariant, on top of the vector's own trailing-alignment
    /// invariant.  It holds of every observable `FrontString`.
    #[verifier::type_invariant]
    spec fn inv(&self) -> bool {
        &&& self.vec.wf()
        &&& valid_utf8(self.vec@)
    }

    /// The character sequence encoded by the bytes.
    pub open spec fn chars(&self) -> Seq<char> {
        decode_utf8(self@)
    }

    /// Total number of byte slots in the backing buffer.
    pub closed spec fn spec_capacity(&self) -> int {
        self.vec.spec_capacity()
    }

    /// Machine-limit side condition for prepending `n` more bytes: when the
    /// spare region is too small, the grown buffer of `capacity + n` slots
    /// must still be addressable.
    pub open spec fn can_prepend(&self, n: int) -> bool {
        self.spec_capacity() - self@.len() < n ==> self.spec_capacity() + n <= usize::MAX
    }

    /// The capacity left behind by prepending `n` bytes through the vector's
    /// exact-reservation bulk path.
    pub open spec fn prepended_capacity(&self, n: int) -> int {
        if self.spec_capacity() - self@.len() >= n {
            self.spec_capacity()
        } else {
            self.spec_capacity() + n
        }
    }

    /// An empty string with no backing buffer.
    pub fn new() -> (s: Self)
        ensures
            s@ == Seq::<u8>::empty(),
            s.spec_capacity() == 0,
            valid_utf8(s@),
    {
        FrontString { vec: FrontVec::new() }
    }

    /// An empty string whose buffer already holds `capacity` spare bytes.
    pub fn with_capacity(capacity: usize) -> (s: Self)
        ensures
            s@ == Seq::<u8>::empty(),
            s.spec_capacity() == capacity,
            valid_utf8(s@),
    {
        FrontString { vec: FrontVec::with_capacity(capacity) }
    }

    /// Length in bytes.
    pub fn len(&self) -> (r: usize)
        ensures
            r == self@.len(),
    {
        proof {
            use_type_invariant(self);
        }
        self.vec.len()
    }

    /// True when the string holds no bytes.
    pub fn is_empty(&self) -> (r: bool)
        ensures
            r == (self@.len() == 0),
    {
        proof {
            use_type_invariant(self);
        }
        self.vec.is_empty()
    }

    /// Total number of byte slots in the backing buffer.
    pub fn capacity(&self) -> (r: usize)
        ensures
            r == self.spec_capacity(),
    {
        proof {
            use_type_invariant(self);
        }
        self.vec.capacity()
    }

    /// Makes room for at least `additional` more bytes in front of the live
    /// region.  Returns `true` exactly when the backing buffer was replaced,
    /// so callers can tell that earlier views into the buffer were
    /// invalidated.
    pub fn reserve_front(&mut self, additional: usize) -> (r: bool)
        requires
            old(self).can_prepend(additional as int),
        ensures
            final(self)@ == old(self)@,
            valid_utf8(final(self)@),
            r == (old(self).spec_capacity() - old(self)@.len() < additional),
            r ==> final(self).spec_capacity() == old(self).spec_capacity() + additional,
            !r ==> final(self).spec_capacity() == old(self).spec_capacity(),
    {
        proof {
            use_type_invariant(&*self);
        }
        let mut v = FrontVec::<u8>::new();
        core::mem::swap(&mut v, &mut self.vec);
        let r = v.reserve_front(additional);
        self.vec = v;
        r
    }
}

/// UTF-8 encoding distributes over concatenation of character sequences.
proof fn lemma_encode_utf8_concat(a: Seq<char>, b: Seq<char>)
    ensures
        encode_utf8(a + b) == encode_utf8(a) + encode_utf8(b),
    decreases a.len(),
{
    if a.len() == 0 {
        assert(a + b =~= b);
        assert(encode_utf8(a + b) =~= encode_utf8(a) + encode_utf8(b));
    } else {
        assert((a + b).drop_first() =~= a.drop_first() + b);
        lemma_encode_utf8_concat(a.drop_first(), b);
        assert(encode_utf8(a + b) =~= encode_utf8(a) + encode_utf8(b));
    }
}

/// Prepending the encoding of a character sequence to a valid UTF-8 byte
/// sequence keeps it valid, and the combined bytes decode to the prepended
/// characters followed by the old ones.
proof fn lemma_prepend_encoded(chars: Seq<char>, rest: Seq<u8>)
    requires
        valid_utf8(rest),
    ensures
        valid_utf8(encode_utf8(chars) + rest),
        decode_utf8(encode_utf8(chars) + rest) == chars + decode_utf8(rest),
{
    let all = chars + decode_utf8(rest);
    lemma_encode_utf8_concat(chars, decode_utf8(rest));
    decode_utf8_encode_utf8(rest);
    assert(encode_utf8(all) == encode_utf8(chars) + rest);
    encode_utf8_valid_utf8(all);
    encode_utf8_decode_utf8(all);
}

impl FrontString {
    /// Prepends one character: encodes its scalar value to the one-to-four
    /// byte UTF-8 sequence and prepends exactly those bytes, in their natural
    /// order, through the vector's bulk path, so no partially written
    /// character is ever observable.
    pub fn push_char_front(&mut self, ch: char)
        requires
            old(self).can_prepend(encode_scalar(ch as u32).len() as int),
        ensures
            final(self)@ == encode_scalar(ch as u32) + old(self)@,
            final(self).chars() == seq![ch] + old(self).chars(),
            valid_utf8(final(self)@),
            final(self).spec_capacity() == old(self).prepended_capacity(
                encode_scalar(ch as u32).len() as int,
            ),
    {
        proof {
            use_type_invariant(&*self);
        }
        let bytes = encode_char_bytes(ch);
        let mut v = FrontVec::<u8>::new();
        core::mem::swap(&mut v, &mut self.vec);
        v.extend_front(bytes.as_slice());
        proof {
            assert(encode_utf8(seq![ch]) =~= encode_scalar(ch as u32)) by {
                reveal_with_fuel(encode_utf8, 2);
                assert(seq![ch].drop_first() =~= Seq::<char>::empty());
                assert(encode_utf8(seq![ch].drop_first()) =~= Seq::<u8>::empty());
            }
            lemma_prepend_encoded(seq![ch], old(self)@);
        }
        self.vec = v;
    }

    /// Prepends the UTF-8 bytes of a whole string slice through the vector's
    /// bulk path; the slice's own character order is preserved.
    pub fn push_str_front(&mut self, s: &str)
        requires
            old(self).can_prepend(s.spec_bytes().len() as int),
        ensures
            final(self)@ == s.spec_bytes() + old(self)@,
            final(self).chars() == s@ + old(self).chars(),
            valid_utf8(final(self)@),
            final(self).spec_capacity() == old(self).prepended_capacity(
                s.spec_bytes().len() as int,
            ),
    {
        proof {
            use_type_invariant(&*self);
        }
        let bytes: &[u8] = s.as_bytes();
        let mut v = FrontVec::<u8>::new();
        core::mem::swap(&mut v, &mut self.vec);
        v.extend_front(bytes);
        proof {
            lemma_prepend_encoded(s@, old(self)@);
        }
        self.vec = v;
    }

    /// Writes a precisely sized sequence of bytes onto the front of the
    /// string in one bulk step: reserves exactly that many bytes of front
    /// capacity and commits them at once.  The bytes must themselves be valid
    /// UTF-8, which keeps the string's invariant: valid UTF-8 prepended to
    /// valid UTF-8 stays valid.  Returns `true` exactly when a reallocation
    /// happened.
    pub fn prepend_from_bytes_iter(&mut self, bytes: &[u8]) -> (r: bool)
        requires
            valid_utf8(bytes@),
            old(self).can_prepend(bytes@.len() as int),
        ensures
            final(self)@ == bytes@ + old(self)@,
            final(self).chars() == decode_utf8(bytes@) + old(self).chars(),
            valid_utf8(final(self)@),
            r == (old(self).spec_capacity() - old(self)@.len() < bytes@.len()),
            final(self).spec_capacity() == old(self).prepended_capacity(bytes@.len() as int),
    {
        proof {
            use_type_invariant(&*self);
        }
        let mut v = FrontVec::<u8>::new();
        core::mem::swap(&mut v, &mut self.vec);
        proof {
            v.lemma_len_le_capacity();
        }
        let r = v.capacity() - v.len() < bytes.len();
        v.extend_front(bytes);
        proof {
            decode_utf8_encode_utf8(bytes@);
            lemma_prepend_encoded(decode_utf8(bytes@), old(self)@);
        }
        self.vec = v;
        r
    }
}

/// The first scalar of a well-formed encoding is a Unicode scalar value.
proof fn lemma_first_scalar_is_scalar(bytes: Seq<u8>)
    requires
        valid_first_scalar(bytes),
    ensures
        is_scalar(decode_first_scalar(bytes)),
{
    let b0 = bytes[0];
    let cp = decode_first_scalar(bytes);
    if vstd::utf8::is_leading_byte_width_1(b0) {
        assert(cp <= 0x7F) by (bit_vector)
            requires
                cp == (b0 & 0x7F) as u32,
        ;
    } else if vstd::utf8::is_leading_byte_width_2(b0) {
        let b1 = bytes[1];
        assert(cp <= 0x7FF) by (bit_vector)
            requires
                cp == ((b0 & 0x1F) as u32) << 6 | (b1 & 0x3F) as u32,
        ;
    } else if vstd::utf8::is_leading_byte_width_3(b0) {
        let b1 = bytes[1];
        let b2 = bytes[2];
        assert(cp <= 0xFFFF) by (bit_vector)
            requires
                cp == ((b0 & 0x0F) as u32) << 12 | ((b1 & 0x3F) as u32) << 6 | (b2 & 0x3F) as u32,
        ;
    }
}

// char::from_u32 is the one std conversion from a scalar value back to a
// char; vstd gives it no specification.
/// Relies on char::from_u32: a Unicode scalar value (at most 0x10FFFF and not
/// a surrogate) converts to the char with exactly that value; any other input
/// gives None.
pub assume_specification[ char::from_u32 ](i: u32) -> (r: Option<char>)
    ensures
        r is Some <==> is_scalar(i),
        r matches Some(c) ==> c as u32 == i,
;

impl FrontString {
    /// Decodes the first character from the front of the byte sequence,
    /// removes exactly its bytes, and returns the decoded value; `None` on an
    /// empty string, which is left exactly as it was.
    pub fn pop_char_front(&mut self) -> (r: Option<char>)
        ensures
            final(self).spec_capacity() == old(self).spec_capacity(),
            valid_utf8(final(self)@),
            old(self)@.len() == 0 ==> r is None && *final(self) == *old(self),
            old(self)@.len() > 0 ==> r == Some(old(self).chars()[0]) && final(self)@
                == pop_first_scalar(old(self)@) && final(self).chars() == old(
                self,
            ).chars().drop_first(),
    {
        proof {
            use_type_invariant(&*self);
        }
        if self.vec.is_empty() {
            return None;
        }
        let b0 = *self.vec.get(0).unwrap();
        let width: usize = if b0 < 0x80 {
            1
        } else if b0 < 0xE0 {
            2
        } else if b0 < 0xF0 {
            3
        } else {
            4
        };
        proof {
            assert(width == length_of_first_scalar(self@));
        }
        let cp: u32 = if width == 1 {
            (b0 & 0x7F) as u32
        } else if width == 2 {
            let b1 = *self.vec.get(1).unwrap();
            ((b0 & 0x1F) as u32) << 6 | (b1 & 0x3F) as u32
        } else if width == 3 {
            let b1 = *self.vec.get(1).unwrap();
            let b2 = *self.vec.get(2).unwrap();
            ((b0 & 0x0F) as u32) << 12 | ((b1 & 0x3F) as u32) << 6 | (b2 & 0x3F) as u32
        } else {
            let b1 = *self.vec.get(1).unwrap();
            let b2 = *self.vec.get(2).unwrap();
            let b3 = *self.vec.get(3).unwrap();
            ((b0 & 0x07) as u32) << 18 | ((b1 & 0x3F) as u32) << 12 | ((b2 & 0x3F) as u32) << 6 | (
            b3 & 0x3F) as u32
        };
        proof {
            assert(cp == decode_first_scalar(self@));
            lemma_first_scalar_is_scalar(self@);
        }
        let c = char::from_u32(cp).unwrap();
        let mut v = FrontVec::<u8>::new();
        core::mem::swap(&mut v, &mut self.vec);
        let n = v.len();
        v.truncate(n - width);
        proof {
            assert(v@ =~= pop_first_scalar(old(self)@));
            char_u32_cast(c, cp);
            assert(old(self).chars().drop_first() =~= decode_utf8(v@));
        }
        self.vec = v;
        Some(c)
    }

    /// True when byte `index` starts a character's encoding or sits at either
    /// end of the byte sequence; false inside a multi-byte character and past
    /// the end.
    pub fn is_char_boundary(&self, index: usize) -> (r: bool)
        ensures
            r == vstd::utf8::is_char_boundary(self@, index as int),
    {
        proof {
            use_type_invariant(self);
        }
        let n = self.vec.len();
        if index > n {
            false
        } else if index == 0 || index == n {
            proof {
                is_char_boundary_start_end_of_seq(self@);
            }
            true
        } else {
            let b = *self.vec.get(index).unwrap();
            proof {
                is_char_boundary_iff_not_is_continuation_byte(self@, index as int);
            }
            !(0x80 <= b && b <= 0xBF)
        }
    }

    /// Shortens the string, keeping the **last** `new_len` bytes and dropping
    /// the rest from the front; a `new_len` of at least the current length
    /// leaves the string exactly as it was, and the capacity never shrinks.
    /// The cut must fall on a character boundary: a cut inside a multi-byte
    /// character would corrupt the encoding, so such an input is excluded
    /// outright rather than silently rounded.
    pub fn truncate(&mut self, new_len: usize)
        requires
            new_len < old(self)@.len() ==> vstd::utf8::is_char_boundary(
                old(self)@,
                old(self)@.len() - new_len,
            ),
        ensures
            final(self).spec_capacity() == old(self).spec_capacity(),
            valid_utf8(final(self)@),
            new_len >= old(self)@.len() ==> *final(self) == *old(self),
            new_len < old(self)@.len() ==> final(self)@ == old(self)@.subrange(
                old(self)@.len() - new_len,
                old(self)@.len() as int,
            ),
            new_len < old(self)@.len() ==> old(self).chars() == decode_utf8(
                old(self)@.subrange(0, old(self)@.len() - new_len),
            ) + final(self).chars(),
    {
        proof {
            use_type_invariant(&*self);
        }
        let n = self.vec.len();
        if new_len >= n {
            return;
        }
        let mut v = FrontVec::<u8>::new();
        core::mem::swap(&mut v, &mut self.vec);
        v.truncate(new_len);
        proof {
            let cut = old(self)@.len() - new_len;
            valid_utf8_split(old(self)@, cut);
            decode_utf8_split(old(self)@, cut);
        }
        self.vec = v;
    }

    /// Deep copy: a fresh buffer of matching capacity holding the same bytes.
    pub fn duplicate(&self) -> (r: Self)
        ensures
            r@ == self@,
            r.spec_capacity() == self.spec_capacity(),
            valid_utf8(r@),
    {
        proof {
            use_type_invariant(self);
        }
        FrontString { vec: self.vec.duplicate() }
    }

    /// Builds a string from a slice's characters.  The UTF-8 invariant is
    /// inherited from the input, not re-checked; the buffer holds exactly the
    /// slice's bytes.
    pub fn from_str(s: &str) -> (r: Self)
        ensures
            r@ == s.spec_bytes(),
            r.chars() == s@,
            r.spec_capacity() == s.spec_bytes().len(),
            valid_utf8(r@),
    {
        // The slice length witnesses that the byte count fits in usize,
        // which discharges the new string's prepend side condition.
        let bytes = s.as_bytes();
        let n = bytes.len();
        proof {
            assert(n == s.spec_bytes().len());
        }
        let mut r = FrontString::new();
        r.push_str_front(s);
        proof {
            assert(r@ =~= s.spec_bytes());
            assert(r.chars() =~= s@);
        }
        r
    }

    /// Builds a string from an owned standard string, character for
    /// character.
    pub fn from_string(s: String) -> (r: Self)
        ensures
            r@ == encode_utf8(s@),
            r.chars() == s@,
            r.spec_capacity() == encode_utf8(s@).len(),
            valid_utf8(r@),
    {
        FrontString::from_str(s.as_str())
    }
}

// FromUtf8Error is the error type of String::from_utf8, declared so that it
// can stand in the trusted signature below.
#[verifier::external_type_specification]
#[verifier::external_body]
pub struct ExFromUtf8Error(std::string::FromUtf8Error);

/// Relies on String::from_utf8: it returns Ok exactly on valid UTF-8 input,
/// and the returned string holds those very bytes.
pub assume_specification[ String::from_utf8 ](v: Vec<u8>) -> (r: Result<
    String,
    std::string::FromUtf8Error,
>)
    ensures
        valid_utf8(v@) <==> r is Ok,
        r matches Ok(s) ==> encode_utf8(s@) == v@,
;

impl FrontString {
    /// The contents as a standard owned string, character for character.
    pub fn to_string(&self) -> (r: String)
        ensures
            r@ == self.chars(),
            encode_utf8(r@) == self@,
    {
        proof {
            use_type_invariant(self);
        }
        let bytes = self.vec.to_vec();
        match String::from_utf8(bytes) {
            Ok(s) => {
                proof {
                    encode_utf8_decode_utf8(s@);
                }
                s
            },
            Err(_) => {
                proof {
                    assert(false);
                }
                String::new()
            },
        }
    }
}

impl<'a> PartialEq<&'a str> for FrontString {
    /// Structural equality against a string slice: true exactly when the
    /// byte sequences coincide.
    fn eq(&self, other: &&'a str) -> (r: bool) {
        proof {
            use_type_invariant(self);
        }
        let bytes: &[u8] = other.as_bytes();
        let n = self.vec.len();
        if n != bytes.len() {
            return false;
        }
        let mut k: usize = 0;
        while k < n
            invariant
                k <= n,
                n == self@.len(),
                n == bytes@.len(),
                bytes@ == other.spec_bytes(),
                self.inv(),
                forall|i: int| 0 <= i < k ==> self@[i] == bytes@[i],
            decreases n - k,
        {
            let a = *self.vec.get(k).unwrap();
            let b = bytes[k];
            if a != b {
                return false;
            }
            k = k + 1;
        }
        proof {
            assert(self@ =~= other.spec_bytes());
        }
        true
    }
}

impl<'a> vstd::std_specs::cmp::PartialEqSpecImpl<&'a str> for FrontString {
    open spec fn obeys_eq_spec() -> bool {
        true
    }

    open spec fn eq_spec(&self, other: &&'a str) -> bool {
        self@ == other.spec_bytes()
    }
}

impl Default for FrontString {
    /// An empty string with no backing buffer, as `new` builds it.
    fn default() -> (s: Self)
        ensures
            s@ == Seq::<u8>::empty(),
            s.spec_capacity() == 0,
    {
        FrontString::new()
    }
}

/// Law: any character sequence survives a round trip through its UTF-8
/// encoding.  Building a string from text `T` yields the bytes
/// `encode_utf8(T)`; those bytes are valid UTF-8 and decode to exactly `T`,
/// and `pop_char_front` steps through that decoding one character at a time,
/// so repeated popping returns `T`'s characters in their original order.
pub proof fn lemma_utf8_round_trip(text: Seq<char>)
    ensures
        valid_utf8(encode_utf8(text)),
        decode_utf8(encode_utf8(text)) == text,
{
    encode_utf8_valid_utf8(text);
    encode_utf8_decode_utf8(text);
}

/// The UTF-8 encoding of one character, in its natural byte order: between
/// one and four bytes, exactly `encode_scalar` of the character's scalar
/// value.
fn encode_char_bytes(c: char) -> (bytes: Vec<u8>)
    ensures
        bytes@ == encode_scalar(c as u32),
        1 <= bytes@.len() <= 4,
{
    let v = c as u32;
    proof {
        char_is_scalar(c);
    }
    let mut bytes: Vec<u8> = Vec::new();
    if v <= 0x7F {
        proof {
            assert(v & 0x7F < 256) by (bit_vector);
        }
        bytes.push((v & 0x7F) as u8);
    } else if v <= 0x7FF {
        proof {
            assert((v >> 6) & 0x1F < 256 && v & 0x3F < 256) by (bit_vector);
        }
        bytes.push(0xC0 | ((v >> 6) & 0x1F) as u8);
        bytes.push(0x80 | (v & 0x3F) as u8);
    } else if v <= 0xFFFF {
        proof {
            assert((v >> 12) & 0x0F < 256 && (v >> 6) & 0x3F < 256 && v & 0x3F < 256)
                by (bit_vector);
        }
        bytes.push(0xE0 | ((v >> 12) & 0x0F) as u8);
        bytes.push(0x80 | ((v >> 6) & 0x3F) as u8);
        bytes.push(0x80 | (v & 0x3F) as u8);
    } else {
        proof {
            assert((v >> 18) & 0x7 < 256 && (v >> 12) & 0x3F < 256 && (v >> 6) & 0x3F < 256 && v
                & 0x3F < 256) by (bit_vector);
        }
        bytes.push(0xF0 | ((v >> 18) & 0x7) as u8);
        bytes.push(0x80 | ((v >> 12) & 0x3F) as u8);
        bytes.push(0x80 | ((v >> 6) & 0x3F) as u8);
        bytes.push(0x80 | (v & 0x3F) as u8);
    }
    proof {
        assert(bytes@ =~= encode_scalar(c as u32));
    }
    bytes
}

} // verus!

