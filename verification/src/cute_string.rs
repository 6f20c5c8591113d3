//! The inline buffer and the hybrid string built on it.

use core::ops::Deref;
use vstd::prelude::*;
use vstd::std_specs::convert::FromSpecImpl;
use vstd::string::*;
use vstd::utf8::*;
use crate::text::{byte_len, lemma_byte_len_concat, lemma_decode_utf8_concat};

verus! {

/// The largest number of bytes that a text may have and still be stored inline.
pub const MINI_STRING_MAX_LEN: usize = 30;

/// True when `text`, written as UTF-8, is short enough to be stored inline.
pub open spec fn fits_inline(text: Seq<char>) -> bool {
    byte_len(text) <= MINI_STRING_MAX_LEN
}

/// True when every byte of `bytes` is zero.
pub open spec fn all_zero(bytes: Seq<u8>) -> bool {
    forall|i: int| 0 <= i < bytes.len() ==> bytes[i] == 0
}

/// A text of at most `MINI_STRING_MAX_LEN` bytes, stored in the value itself:
/// a fixed buffer and the number of its bytes that are in use.
pub struct MiniString {
    len: u8,
    data: [u8; MINI_STRING_MAX_LEN],
}

impl View for MiniString {
    type V = Seq<char>;

    /// The text that the buffer holds: its first `len` bytes, decoded.
    closed spec fn view(&self) -> Seq<char> {
        decode_utf8(self.data@.subrange(0, self.len as int))
    }
}

impl MiniString {
    /// The bytes in use are within the buffer and are well-formed UTF-8. The
    /// bytes after them are never read.
    #[verifier::type_invariant]
    spec fn well_formed(&self) -> bool {
        &&& self.len as int <= MINI_STRING_MAX_LEN
        &&& valid_utf8(self.data@.subrange(0, self.len as int))
    }

    /// The bytes of the buffer that are not in use. They are no part of the
    /// text, and nothing reads them.
    pub closed spec fn spare(&self) -> Seq<u8> {
        self.data@.subrange(self.len as int, MINI_STRING_MAX_LEN as int)
    }

    /// Copies `v` into a fresh inline buffer and leaves the rest of the buffer
    /// zeroed. The caller sees to it that `v` fits.
    pub fn new(v: &str) -> (r: Self)
        requires
            fits_inline(v@),
        ensures
            r@ == v@,
            r.spare().len() == MINI_STRING_MAX_LEN - byte_len(v@),
            all_zero(r.spare()),
    {
        let bytes = v.as_bytes();
        let len: usize = bytes.len();
        let mut data = [0u8; MINI_STRING_MAX_LEN];
        let mut i: usize = 0;
        while i < len
            invariant
                len == bytes@.len(),
                len <= MINI_STRING_MAX_LEN,
                i <= len,
                data@.len() == MINI_STRING_MAX_LEN,
                data@.subrange(0, i as int) == bytes@.subrange(0, i as int),
                forall|j: int| i <= j < MINI_STRING_MAX_LEN ==> data@[j] == 0,
            decreases len - i,
        {
            data[i] = bytes[i];
            i += 1;
            assert(data@.subrange(0, i as int) =~= bytes@.subrange(0, i as int));
        }
        proof {
            assert(bytes@.subrange(0, len as int) =~= bytes@);
            encode_utf8_valid_utf8(v@);
            encode_utf8_decode_utf8(v@);
        }
        MiniString { len: len as u8, data }
    }
}

impl Deref for MiniString {
    type Target = str;

    /// The text that the buffer holds. The bytes in use are checked on the
    /// way out; the check cannot fail on a value of this type.
    fn deref(&self) -> (text: &str)
        ensures
            text@ == self@,
            fits_inline(text@),
    {
        proof {
            use_type_invariant(self);
        }
        let len: usize = self.len as usize;
        let bytes = &self.data[0..len];
        let text = core::str::from_utf8(bytes).unwrap();
        proof {
            encode_utf8_decode_utf8(text@);
        }
        text
    }
}

/// A text that is stored inline while it fits and on the heap once it does not.
pub enum CuteString {
    Inline(MiniString),
    Standard(String),
}

impl View for CuteString {
    type V = Seq<char>;

    /// The text of whichever representation is active.
    open spec fn view(&self) -> Seq<char> {
        match self {
            CuteString::Inline(v) => v@,
            CuteString::Standard(v) => v@,
        }
    }
}

impl Deref for CuteString {
    type Target = str;

    /// The text, whichever representation holds it.
    fn deref(&self) -> (text: &str)
        ensures
            text@ == self@,
            self is Inline ==> fits_inline(text@),
    {
        match self {
            CuteString::Inline(v) => v.deref(),
            CuteString::Standard(v) => v.as_str(),
        }
    }
}

/// Reading is repeatable: any two texts that `deref` can return for one value
/// are the same text. The value is borrowed shared, so it is the same value,
/// in the same representation, before and after each reading.
pub proof fn lemma_deref_repeatable(v: &CuteString, first: &str, second: &str)
    requires
        call_ensures(<CuteString as Deref>::deref, (v,), first),
        call_ensures(<CuteString as Deref>::deref, (v,), second),
    ensures
        first@ == v@,
        second@ == first@,
{
}

impl<'a> From<&'a str> for CuteString {
    /// Copies `s`: into a fresh inline buffer when it fits, onto the heap when
    /// it does not.
    fn from(s: &'a str) -> (r: Self)
        ensures
            r@ == s@,
            r is Inline <==> fits_inline(s@),
            r matches CuteString::Inline(m) ==> all_zero(m.spare()),
    {
        if s.as_bytes().len() > MINI_STRING_MAX_LEN {
            CuteString::Standard(s.to_owned())
        } else {
            CuteString::Inline(MiniString::new(s))
        }
    }
}

/// `from` is specified by its own `ensures`. No spec function names the value
/// it returns: two heap strings of one text need not be the same value.
impl<'a> FromSpecImpl<&'a str> for CuteString {
    open spec fn obeys_from_spec() -> bool {
        false
    }

    open spec fn from_spec(s: &'a str) -> Self {
        choose|r: CuteString| r@ == s@ && (r is Inline <==> fits_inline(s@))
    }
}

impl From<String> for CuteString {
    /// Copies the text of `s`, as for a borrowed text; the buffer of `s` is not taken over.
    fn from(s: String) -> (r: Self)
        ensures
            r@ == s@,
            r is Inline <==> fits_inline(s@),
            r matches CuteString::Inline(m) ==> all_zero(m.spare()),
    {
        CuteString::from(s.as_str())
    }
}

/// As for a borrowed text: `from` is specified by its own `ensures`.
impl FromSpecImpl<String> for CuteString {
    open spec fn obeys_from_spec() -> bool {
        false
    }

    open spec fn from_spec(s: String) -> Self {
        choose|r: CuteString| r@ == s@ && (r is Inline <==> fits_inline(s@))
    }
}

impl CuteString {
    /// Appends `s`. An inline text stays inline while the result fits, and
    /// moves to the heap, once and for good, when it does not.
    pub fn push_str(&mut self, s: &str)
        ensures
            final(self)@ == old(self)@ + s@,
            (*final(self) is Inline) <==> (*old(self) is Inline && fits_inline(old(self)@ + s@)),
    {
        match self {
            CuteString::Inline(v) => {
                proof {
                    use_type_invariant(&*v);
                    decode_utf8_encode_utf8(v.data@.subrange(0, v.len as int));
                    encode_utf8_valid_utf8(s@);
                    encode_utf8_decode_utf8(s@);
                    lemma_byte_len_concat(v@, s@);
                }
                let suffix = s.as_bytes();
                let len: usize = v.len as usize;
                let len_s: usize = suffix.len();
                if len_s > MINI_STRING_MAX_LEN - len {
                    let mut owned = MiniString::deref(v).to_string();
                    owned.append(s);
                    *self = CuteString::Standard(owned);
                } else {
                    let ghost before = v.data@.subrange(0, len as int);
                    let mut i: usize = 0;
                    while i < len_s
                        invariant
                            len == v.len,
                            len_s == suffix@.len(),
                            len + len_s <= MINI_STRING_MAX_LEN,
                            i <= len_s,
                            v.data@.len() == MINI_STRING_MAX_LEN,
                            v.data@.subrange(0, len as int) == before,
                            valid_utf8(before),
                            v.data@.subrange(len as int, len + i) == suffix@.subrange(0, i as int),
                        decreases len_s - i,
                    {
                        assert(v.data@.update(len + i, suffix@[i as int]).subrange(0, len as int)
                            =~= before);
                        v.data[len + i] = suffix[i];
                        i += 1;
                        assert(v.data@.subrange(len as int, len + i) =~= suffix@.subrange(
                            0,
                            i as int,
                        ));
                    }
                    proof {
                        assert(suffix@.subrange(0, len_s as int) =~= suffix@);
                        assert(v.data@.subrange(0, len + len_s) =~= before + suffix@);
                        lemma_decode_utf8_concat(before, suffix@);
                    }
                    v.len = (len + len_s) as u8;
                }
            },
            CuteString::Standard(v) => {
                v.append(s);
            },
        }
    }
}

} // verus!
