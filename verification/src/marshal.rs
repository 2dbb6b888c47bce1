//! Byte-level marshalling between the bridge's owned strings and the
//! engine's null-terminated C string images.
//!
//! A *C string image* is the byte sequence an engine-side `char*` points at:
//! the content bytes followed by a null terminator. Encoding turns a managed
//! string into such an image and rejects strings whose encoding already
//! contains a null byte; decoding recovers the content up to the first null.

use vstd::prelude::*;

verus! {

use vstd::utf8::{encode_utf8, decode_utf8, valid_utf8};
use vstd::string::StrSliceExecFns;

/// Status byte the bridge reports when it could not marshal or run a call
/// itself, as opposed to a status the engine returned.
pub const STATUS_INTERNAL: u8 = 255;

/// Index of the first null byte, or the sequence's length when none occurs.
pub open spec fn first_nul(bytes: Seq<u8>) -> int
    decreases bytes.len(),
{
    if bytes.len() == 0 {
        0
    } else if bytes[0] == 0 {
        0
    } else {
        1 + first_nul(bytes.drop_first())
    }
}

/// The content of a C string image: every byte before the first null.
pub open spec fn c_content(bytes: Seq<u8>) -> Seq<u8> {
    bytes.take(first_nul(bytes))
}

/// What the bridge reads out of engine-produced bytes: an exact decoding
/// where the bytes are valid UTF-8, and the lossy replacement text otherwise.
pub open spec fn decoded_text(bytes: Seq<u8>) -> Seq<char> {
    if valid_utf8(bytes) {
        decode_utf8(bytes)
    } else {
        lossy_of(bytes)
    }
}

/// The text the lossy decoder yields for the given bytes. It is only named:
/// what replaces an invalid sequence is the decoder's own affair, but it is a
/// function of the bytes alone.
pub uninterp spec fn lossy_of(bytes: Seq<u8>) -> Seq<char>;

/// The C string image of a managed string: its UTF-8 bytes, null-terminated.
pub open spec fn c_image(s: Seq<char>) -> Seq<u8> {
    encode_utf8(s).push(0u8)
}

/// Whether a managed string can cross the boundary as a C string: its
/// encoding must not already contain a null byte.
pub open spec fn encodable(s: Seq<char>) -> bool {
    !encode_utf8(s).contains(0u8)
}

pub proof fn lemma_first_nul_bounds(bytes: Seq<u8>)
    ensures
        0 <= first_nul(bytes) <= bytes.len(),
        forall|j: int| 0 <= j < first_nul(bytes) ==> bytes[j] != 0,
        first_nul(bytes) < bytes.len() ==> bytes[first_nul(bytes)] == 0,
    decreases bytes.len(),
{
    if bytes.len() == 0 {
    } else if bytes[0] == 0 {
    } else {
        lemma_first_nul_bounds(bytes.drop_first());
        assert forall|j: int| 0 <= j < first_nul(bytes) implies bytes[j] != 0 by {
            if j > 0 {
                assert(bytes.drop_first()[j - 1] != 0);
            }
        }
    }
}

/// `first_nul` is pinned down by its characteristic properties.
pub proof fn lemma_first_nul_is(bytes: Seq<u8>, n: int)
    requires
        0 <= n <= bytes.len(),
        forall|j: int| 0 <= j < n ==> bytes[j] != 0,
        n < bytes.len() ==> bytes[n] == 0,
    ensures
        first_nul(bytes) == n,
    decreases bytes.len(),
{
    if bytes.len() == 0 {
    } else if bytes[0] == 0 {
    } else {
        lemma_first_nul_is(bytes.drop_first(), n - 1);
    }
}

/// A null terminator appended to null-free content is the first null, so the
/// content of the image is exactly the bytes that were encoded.
pub proof fn lemma_c_content_of_image(content: Seq<u8>)
    requires
        !content.contains(0u8),
    ensures
        first_nul(content.push(0u8)) == content.len(),
        c_content(content.push(0u8)) == content,
{
    let image = content.push(0u8);
    assert forall|j: int| 0 <= j < content.len() implies image[j] != 0 by {
        if image[j] == 0 {
            assert(content[j] == 0);
            assert(content.contains(0u8));
        }
    }
    lemma_first_nul_is(image, content.len() as int);
    assert(c_content(image) =~= content);
}

/// Position of the first null byte in a vector, or its length when none.
fn find_nul(bytes: &Vec<u8>) -> (r: usize)
    ensures
        r == first_nul(bytes@),
{
    let mut i: usize = 0;
    while i < bytes.len()
        invariant
            0 <= i <= bytes@.len(),
            forall|j: int| 0 <= j < i ==> bytes@[j] != 0,
        decreases bytes@.len() - i,
    {
        if bytes[i] == 0 {
            proof {
                lemma_first_nul_is(bytes@, i as int);
            }
            return i;
        }
        i = i + 1;
    }
    proof {
        lemma_first_nul_is(bytes@, bytes@.len() as int);
    }
    i
}

/// An owned copy of a byte vector.
pub fn copy_bytes(bytes: &Vec<u8>) -> (r: Vec<u8>)
    ensures
        r@ == bytes@,
{
    let mut out: Vec<u8> = Vec::new();
    let mut i: usize = 0;
    while i < bytes.len()
        invariant
            0 <= i <= bytes@.len(),
            out@ == bytes@.take(i as int),
        decreases bytes@.len() - i,
    {
        out.push(bytes[i]);
        proof {
            assert(out@ =~= bytes@.take(i + 1));
        }
        i = i + 1;
    }
    proof {
        assert(bytes@.take(bytes@.len() as int) =~= bytes@);
    }
    out
}

/// Relies on `String::from_utf8_lossy`: the result is a function of the bytes
/// alone; valid UTF-8 is decoded exactly, without replacement characters.
#[verifier::external_body]
fn utf8_lossy(bytes: &Vec<u8>) -> (r: String)
    ensures
        r@ == decoded_text(bytes@),
        !valid_utf8(bytes@) ==> r@ == lossy_of(bytes@),
{
    String::from_utf8_lossy(bytes.as_slice()).into_owned()
}

/// Encode a managed string as a C string image: its UTF-8 bytes followed by
/// a null terminator. A string whose encoding already contains a null byte
/// cannot cross the boundary and is rejected before any engine call.
pub fn encode_c_string(s: &str) -> (r: Result<Vec<u8>, u8>)
    ensures
        match r {
            Ok(image) => !encode_utf8(s@).contains(0u8) && image@ == encode_utf8(s@).push(0u8),
            Err(status) => status == STATUS_INTERNAL && encode_utf8(s@).contains(0u8),
        },
{
    let mut image = s.as_bytes_vec();
    let nul = find_nul(&image);
    proof {
        lemma_first_nul_bounds(image@);
    }
    if nul < image.len() {
        return Err(STATUS_INTERNAL);
    }
    proof {
        if encode_utf8(s@).contains(0u8) {
            let w = choose|j: int| 0 <= j < image@.len() && image@[j] == 0;
            assert(image@[w] != 0);
        }
    }
    image.push(0);
    Ok(image)
}

/// The content of a C string image, as an owned vector: every byte before
/// the first null.
pub fn content_bytes(bytes: &Vec<u8>) -> (r: Vec<u8>)
    ensures
        r@ == c_content(bytes@),
{
    let nul = find_nul(bytes);
    proof {
        lemma_first_nul_bounds(bytes@);
    }
    let mut content: Vec<u8> = Vec::new();
    let mut i: usize = 0;
    while i < nul
        invariant
            0 <= i <= nul <= bytes@.len(),
            content@ == bytes@.take(i as int),
        decreases nul - i,
    {
        content.push(bytes[i]);
        proof {
            assert(content@ =~= bytes@.take(i + 1));
        }
        i = i + 1;
    }
    proof {
        assert(content@ =~= c_content(bytes@));
    }
    content
}

/// The content of a C string image never contains a null byte.
pub proof fn lemma_c_content_nul_free(bytes: Seq<u8>)
    ensures
        !c_content(bytes).contains(0u8),
{
    lemma_first_nul_bounds(bytes);
    if c_content(bytes).contains(0u8) {
        let w = choose|j: int| 0 <= j < c_content(bytes).len() && c_content(bytes)[j] == 0;
        assert(bytes[w] != 0);
    }
}

/// Whether two byte vectors hold the same bytes.
pub fn bytes_equal(a: &Vec<u8>, b: &Vec<u8>) -> (r: bool)
    ensures
        r == (a@ == b@),
{
    if a.len() != b.len() {
        return false;
    }
    let mut i: usize = 0;
    while i < a.len()
        invariant
            0 <= i <= a@.len(),
            a@.len() == b@.len(),
            forall|j: int| 0 <= j < i ==> a@[j] == b@[j],
        decreases a@.len() - i,
    {
        if a[i] != b[i] {
            return false;
        }
        i = i + 1;
    }
    proof {
        assert(a@ =~= b@);
    }
    true
}

/// Decode an engine-produced C string image: the text of its content bytes.
pub fn decode_c_string(bytes: &Vec<u8>) -> (r: String)
    ensures
        r@ == decoded_text(c_content(bytes@)),
{
    let content = content_bytes(bytes);
    utf8_lossy(&content)
}

/// The bytes a caller-buffer read yields: everything before the buffer's
/// first null terminator when one was written, and otherwise the reported
/// size's worth of bytes, clamped to the buffer.
pub open spec fn buffer_content(buf: Seq<u8>, reported: int) -> Seq<u8> {
    if first_nul(buf) < buf.len() {
        buf.take(first_nul(buf))
    } else if reported <= buf.len() {
        buf.take(reported)
    } else {
        buf
    }
}

/// Decode a buffer the engine filled in place, together with the size it
/// reported. The terminator, not the reported size, bounds the content: a
/// size larger than the first null's position never lengthens the result.
pub fn decode_buffer(buf: &Vec<u8>, reported: usize) -> (r: String)
    ensures
        r@ == decoded_text(buffer_content(buf@, reported as int)),
{
    let nul = find_nul(buf);
    proof {
        lemma_first_nul_bounds(buf@);
    }
    let end = if nul < buf.len() {
        nul
    } else if reported <= buf.len() {
        reported
    } else {
        buf.len()
    };
    let mut content: Vec<u8> = Vec::new();
    let mut i: usize = 0;
    while i < end
        invariant
            0 <= i <= end <= buf@.len(),
            content@ == buf@.take(i as int),
        decreases end - i,
    {
        content.push(buf[i]);
        proof {
            assert(content@ =~= buf@.take(i + 1));
        }
        i = i + 1;
    }
    proof {
        if !(first_nul(buf@) < buf@.len()) && !(reported <= buf@.len()) {
            assert(buf@.take(buf@.len() as int) =~= buf@);
        }
        assert(content@ =~= buffer_content(buf@, reported as int));
    }
    utf8_lossy(&content)
}

/// Decoding recovers exactly what encoding put across the boundary: the
/// content of an encodable string's image reads back as that string.
pub proof fn lemma_text_round_trip(s: Seq<char>)
    requires
        encodable(s),
    ensures
        decoded_text(c_content(c_image(s))) == s,
{
    lemma_c_content_of_image(encode_utf8(s));
    vstd::utf8::encode_utf8_valid_utf8(s);
    vstd::utf8::encode_utf8_decode_utf8(s);
}

/// A reported size beyond the first null terminator does not reach the
/// decoded content: the content always stops at the terminator.
pub proof fn lemma_buffer_truncation(buf: Seq<u8>, reported: int)
    requires
        first_nul(buf) < buf.len(),
    ensures
        buffer_content(buf, reported) == buf.take(first_nul(buf)),
        buffer_content(buf, reported).len() == first_nul(buf),
{
    lemma_first_nul_bounds(buf);
}

} // verus!
