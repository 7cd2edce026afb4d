//! Per-candidate state of the JTDX decoder that is plain data.
use vstd::prelude::*;
use vstd::string::StringSliceAdditionalSpecFns;
use vstd::utf8::{decode_utf8, encode_utf8, is_char_boundary, valid_utf8};

verus! {

/// The decoder path that produced a JTDX decode.
#[derive(Clone, Copy, Debug, PartialEq, Eq, Structural)]
pub enum DecodeSource {
    Regular,
    Ft8s,
    Ft8sd,
}

/// `std::str::from_utf8`, which accepts exactly the byte strings that are
/// valid UTF-8 and then reads them as that text.
#[verifier::external_body]
fn utf8_text(bytes: &[u8]) -> (r: Option<String>)
    ensures
        r is Some <==> valid_utf8(bytes@),
        r matches Some(s) ==> encode_utf8(s@) == bytes@,
{
    match std::str::from_utf8(bytes) {
        Ok(s) => Some(s.to_string()),
        Err(_) => None,
    }
}

/// The last received message, kept as at most 37 bytes of its text in a
/// fixed buffer padded with spaces.
#[derive(Clone, Copy, Debug)]
pub struct LastRxMsgText {
    bytes: [u8; 37],
    len: usize,
}

/// The first `n` bytes of `b`, at most all of them.
pub open spec fn head(b: Seq<u8>, n: int) -> Seq<u8> {
    if b.len() <= n {
        b
    } else {
        b.subrange(0, n)
    }
}

/// The text bytes read back: their decoding when they are valid UTF-8,
/// else the empty text.
pub open spec fn text_of(b: Seq<u8>) -> Seq<char> {
    if valid_utf8(b) {
        decode_utf8(b)
    } else {
        Seq::empty()
    }
}

impl LastRxMsgText {
    #[verifier::type_invariant]
    spec fn fits(&self) -> bool {
        self.len <= 37
    }

    /// The text bytes held.
    pub closed spec fn text_bytes(&self) -> Seq<u8> {
        self.bytes@.subrange(0, self.len as int)
    }

    /// The whole buffer, padding included.
    pub closed spec fn buffer(&self) -> Seq<u8> {
        self.bytes@
    }

    pub fn from_str(value: &str) -> (r: LastRxMsgText)
        ensures
            r.text_bytes() == head(value.spec_bytes(), 37),
            r.buffer().len() == 37,
            forall|k: int| head(value.spec_bytes(), 37).len() <= k < 37 ==> #[trigger] r.buffer()[k]
                == 0x20u8,
    {
        let mut bytes = [0x20u8; 37];
        let src = value.as_bytes();
        let len = if src.len() < 37 {
            src.len()
        } else {
            37
        };
        let mut i: usize = 0;
        while i < len
            invariant
                i <= len <= 37,
                len <= src@.len(),
                src@ == value.spec_bytes(),
                bytes@.len() == 37,
                forall|k: int| 0 <= k < i ==> #[trigger] bytes@[k] == src@[k],
                forall|k: int| len <= k < 37 ==> #[trigger] bytes@[k] == 0x20u8,
            decreases len - i,
        {
            bytes[i] = src[i];
            i = i + 1;
        }
        let r = LastRxMsgText { bytes, len };
        proof {
            assert(r.text_bytes() =~= head(value.spec_bytes(), 37));
        }
        r
    }

    /// The text held, or the empty text when the cut at 37 bytes split a
    /// character.
    pub fn as_str(&self) -> (r: String)
        ensures
            valid_utf8(self.text_bytes()) ==> encode_utf8(r@) == self.text_bytes(),
            !valid_utf8(self.text_bytes()) ==> r@ == Seq::<char>::empty(),
            r@ == text_of(self.text_bytes()),
    {
        proof {
            use_type_invariant(self);
        }
        let mut v: Vec<u8> = Vec::new();
        let mut i: usize = 0;
        while i < self.len
            invariant
                i <= self.len <= 37,
                self.bytes@.len() == 37,
                v@ == self.bytes@.subrange(0, i as int),
            decreases self.len - i,
        {
            v.push(self.bytes[i]);
            i = i + 1;
        }
        assert(v@ == self.text_bytes());
        match utf8_text(v.as_slice()) {
            Some(s) => {
                proof {
                    vstd::utf8::encode_utf8_decode_utf8(s@);
                }
                s
            },
            None => String::new(),
        }
    }
}

/// A prefix of valid UTF-8 that is itself valid UTF-8 ends at a character
/// boundary.
pub proof fn lemma_valid_prefix_ends_at_boundary(b: Seq<u8>, i: int)
    requires
        valid_utf8(b),
        0 <= i <= b.len(),
        valid_utf8(b.subrange(0, i)),
    ensures
        is_char_boundary(b, i),
    decreases b.len(),
{
    if i > 0 {
        let p = b.subrange(0, i);
        let l = vstd::utf8::length_of_first_scalar(b);
        assert(p[0] == b[0]);
        assert(p.len() > 0);
        assert(vstd::utf8::valid_first_scalar(p));
        assert(vstd::utf8::length_of_first_scalar(p) == l);
        assert(1 <= l <= i);
        let tail = vstd::utf8::pop_first_scalar(b);
        assert(vstd::utf8::pop_first_scalar(p) =~= tail.subrange(0, i - l));
        lemma_valid_prefix_ends_at_boundary(tail, i - l);
    }
}

/// The text read back from a stored last message is the message itself
/// when it fits in 37 bytes; a longer one keeps its first 37 bytes exactly
/// when they end at a character boundary, and reads back empty when the
/// cut splits a character.
pub proof fn lemma_last_rx_round_trip(value: &str)
    ensures
        value.spec_bytes().len() <= 37 ==> text_of(head(value.spec_bytes(), 37)) == value@,
        value.spec_bytes().len() > 37 ==> (valid_utf8(value.spec_bytes().subrange(0, 37))
            <==> is_char_boundary(value.spec_bytes(), 37)),
        value.spec_bytes().len() > 37 && is_char_boundary(value.spec_bytes(), 37) ==> encode_utf8(
            text_of(head(value.spec_bytes(), 37)),
        ) == value.spec_bytes().subrange(0, 37),
        value.spec_bytes().len() > 37 && !is_char_boundary(value.spec_bytes(), 37) ==> text_of(
            head(value.spec_bytes(), 37),
        ) == Seq::<char>::empty(),
{
    let b = value.spec_bytes();
    vstd::utf8::encode_utf8_valid_utf8(value@);
    vstd::utf8::encode_utf8_decode_utf8(value@);
    if b.len() > 37 {
        if is_char_boundary(b, 37) {
            vstd::utf8::valid_utf8_split(b, 37);
            vstd::utf8::decode_utf8_encode_utf8(b.subrange(0, 37));
        }
        if valid_utf8(b.subrange(0, 37)) {
            lemma_valid_prefix_ends_at_boundary(b, 37);
        }
    }
}

} // verus!
