//! Decoding one gzip-compressed, line-oriented file: decompression through
//! flate2, line splitting, and text decoding. Any failure is unrecoverable
//! for the whole run, never a per-line skip.
use crate::format::views_of;
use crate::lines::{byte_views, split_lines, split_lines_vec};
use vstd::prelude::*;

verus! {

/// What decompressing a gzip buffer yields, if the bytes form a valid
/// stream.
pub uninterp spec fn gunzip_of(data: Seq<u8>) -> Option<Seq<u8>>;

/// What decoding bytes as text yields, if they are valid.
pub uninterp spec fn utf8_of(bytes: Seq<u8>) -> Option<Seq<char>>;

/// Why a compressed file could not be decoded.
#[derive(Clone, Copy, PartialEq, Eq, Structural, Debug)]
pub enum DecodeError {
    /// The bytes are not a valid gzip stream.
    Corrupt,
    /// A decompressed line is not valid text.
    NotText,
}

/// The decoded text lines of one gzip buffer: its decompressed bytes split
/// into lines, when the stream is valid and every line is text.
pub open spec fn gz_lines(data: Seq<u8>) -> Result<Seq<Seq<char>>, DecodeError> {
    match gunzip_of(data) {
        None => Err(DecodeError::Corrupt),
        Some(raw) => {
            let ls = split_lines(raw);
            if forall|i: int| 0 <= i < ls.len() ==> (#[trigger] utf8_of(ls[i])) is Some {
                Ok(ls.map_values(|l: Seq<u8>| utf8_of(l).unwrap()))
            } else {
                Err(DecodeError::NotText)
            }
        },
    }
}

/// Relies on flate2's read::GzDecoder, driven to the end of the stream by
/// std::io::Read::read_to_end: the decompressed bytes, or the failure of the
/// stream, depend on the compressed bytes alone.
#[verifier::external_body]
fn gunzip(data: &Vec<u8>) -> (r: Option<Vec<u8>>)
    ensures
        r is Some <==> gunzip_of(data@) is Some,
        r is Some ==> r.unwrap()@ == gunzip_of(data@).unwrap(),
{
    let mut out = Vec::new();
    let mut dec = flate2::read::GzDecoder::new(data.as_slice());
    match std::io::Read::read_to_end(&mut dec, &mut out) {
        Ok(_) => Some(out),
        Err(_) => None,
    }
}

/// Relies on str::from_utf8: whether bytes decode as text, and to which
/// characters, depends on the bytes alone.
#[verifier::external_body]
fn utf8_string(bytes: &Vec<u8>) -> (r: Option<String>)
    ensures
        r is Some <==> utf8_of(bytes@) is Some,
        r is Some ==> r.unwrap()@ == utf8_of(bytes@).unwrap(),
{
    match std::str::from_utf8(bytes.as_slice()) {
        Ok(s) => Some(s.to_string()),
        Err(_) => None,
    }
}

/// Decodes one compressed file's bytes into its text lines, or fails for
/// the whole file: a corrupt stream or one non-text line is never skipped.
pub fn gunzip_lines(data: &Vec<u8>) -> (r: Result<Vec<String>, DecodeError>)
    ensures
        match gz_lines(data@) {
            Ok(ls) => r is Ok && views_of(r.unwrap()@) == ls,
            Err(e) => r is Err && r.unwrap_err() == e,
        },
{
    let raw = match gunzip(data) {
        Some(raw) => raw,
        None => {
            return Err(DecodeError::Corrupt);
        },
    };
    let byte_lines = split_lines_vec(&raw);
    let ghost ls = split_lines(raw@);
    let mut out: Vec<String> = Vec::new();
    let mut i: usize = 0;
    while i < byte_lines.len()
        invariant
            i <= byte_lines@.len(),
            gunzip_of(data@) is Some,
            ls == split_lines(gunzip_of(data@).unwrap()),
            byte_views(byte_lines@) == ls,
            out@.len() == i,
            forall|j: int| 0 <= j < i ==> (#[trigger] utf8_of(ls[j])) is Some,
            forall|j: int| 0 <= j < i ==> (#[trigger] out@[j])@ == utf8_of(ls[j]).unwrap(),
        decreases byte_lines@.len() - i,
    {
        proof {
            assert(byte_lines@[i as int]@ == byte_views(byte_lines@)[i as int]);
        }
        match utf8_string(&byte_lines[i]) {
            Some(s) => {
                out.push(s);
            },
            None => {
                proof {
                    let gls = split_lines(gunzip_of(data@).unwrap());
                    assert(gls == ls);
                    assert(gls[i as int] == ls[i as int]);
                    assert(utf8_of(gls[i as int]) is None);
                    assert(i < gls.len());
                    assert(!(forall|k: int|
                        0 <= k < gls.len() ==> (#[trigger] utf8_of(gls[k])) is Some));
                }
                return Err(DecodeError::NotText);
            },
        }
        i = i + 1;
    }
    proof {
        assert(views_of(out@) =~= ls.map_values(|l: Seq<u8>| utf8_of(l).unwrap()));
    }
    Ok(out)
}

} // verus!
