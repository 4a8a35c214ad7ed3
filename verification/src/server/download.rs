//! The name under which a downloaded file is kept.
//!
//! A server says the name of a file in the `Content-Disposition` header of
//! its answer. Where it sends no such header the file is named after the
//! BLAKE3 hash of its bytes.

use crate::text::{
    chars_of, find_from, is_prefix, joined, lemma_find_from, lemma_find_from_bounds, slice_chars,
    starts_with, string_of, trim, trim_chars,
};
use vstd::prelude::*;

verus! {

/// The file name that one part of a header gives: what follows `filename=`
/// in the part without the white space around it, without the double quotes
/// around that. None where the part does not begin with `filename=`.
pub open spec fn part_filename(part: Seq<char>) -> Option<Seq<char>> {
    let inner = trim(part, false);
    if is_prefix("filename="@, inner) {
        Some(trim(inner.subrange(9, inner.len() as int), true))
    } else {
        None
    }
}

/// The file name that the first part of `h` at or after `from` gives that
/// gives one. The parts of a header are separated by semicolons.
pub open spec fn filename_from(h: Seq<char>, from: int) -> Option<Seq<char>>
    decreases h.len() - from,
{
    if from < 0 || from > h.len() {
        None
    } else {
        let end = find_from(h, from, ';');
        match part_filename(h.subrange(from, end)) {
            Some(name) => Some(name),
            None => {
                if end < h.len() {
                    proof {
                        lemma_find_from_bounds(h, from, ';');
                    }
                    filename_from(h, end + 1)
                } else {
                    None
                }
            },
        }
    }
}

/// The file name that a `Content-Disposition` header gives, if it gives
/// one.
pub open spec fn disposition_filename(h: Seq<char>) -> Option<Seq<char>> {
    filename_from(h, 0)
}

/// The file name that one part of a header gives.
pub fn filename_of_part(part: &Vec<char>) -> (r: Option<Vec<char>>)
    ensures
        match r {
            Some(name) => part_filename(part@) == Some(name@),
            None => part_filename(part@) is None,
        },
{
    let inner = trim_chars(part, false);
    let key = chars_of("filename=");
    proof {
        reveal_strlit("filename=");
    }
    if starts_with(&inner, &key) {
        let value = slice_chars(&inner, 9, inner.len());
        Some(trim_chars(&value, true))
    } else {
        None
    }
}

/// The file name that a `Content-Disposition` header gives, if it gives
/// one.
pub fn filename_of_header(header: &str) -> (r: Option<String>)
    ensures
        match r {
            Some(name) => disposition_filename(header@) == Some(name@),
            None => disposition_filename(header@) is None,
        },
{
    let h = chars_of(header);
    let mut from: usize = 0;
    loop
        invariant
            from <= h.len(),
            h@ == header@,
            filename_from(h@, from as int) == disposition_filename(h@),
        decreases h.len() - from,
    {
        let mut end: usize = from;
        while end < h.len() && h[end] != ';'
            invariant
                from <= end <= h.len(),
                forall|j: int| from <= j < end ==> #[trigger] h@[j] != ';',
            decreases h.len() - end,
        {
            end += 1;
        }
        proof {
            lemma_find_from(h@, from as int, ';', end as int);
        }
        let part = slice_chars(&h, from, end);
        match filename_of_part(&part) {
            Some(name) => {
                return Some(string_of(&name));
            },
            None => {
                if end < h.len() {
                    from = end + 1;
                } else {
                    return None;
                }
            },
        }
    }
}

/// The BLAKE3 hash of `bytes`, written as `blake3` writes it.
pub uninterp spec fn blake3_hex(bytes: Seq<u8>) -> Seq<char>;

/// `c` is a digit of a number written in hexadecimal with small letters.
pub open spec fn is_lower_hex(c: char) -> bool {
    ('0' <= c && c <= '9') || ('a' <= c && c <= 'f')
}

/// `digest` has the form of a BLAKE3 hash: 64 hexadecimal digits.
pub open spec fn is_digest(digest: Seq<char>) -> bool {
    digest.len() == 64 && forall|i: int| 0 <= i < digest.len() ==> is_lower_hex(#[trigger] digest[i])
}

/// The BLAKE3 hash of `bytes` as text. Wraps `blake3::hash` and the
/// `Display` of its result, which writes the 32 bytes of the hash as 64
/// hexadecimal digits with small letters. The result depends on the bytes
/// alone.
#[verifier::external_body]
fn blake3_digest(bytes: &[u8]) -> (digest: String)
    ensures
        digest@ == blake3_hex(bytes@),
        is_digest(digest@),
{
    blake3::hash(bytes).to_string()
}

/// The name of a server file whose hash is `digest`.
pub open spec fn hashed_name(digest: Seq<char>) -> Seq<char> {
    "server-"@ + digest + ".jar"@
}

/// The name of a server file whose hash is `digest`.
pub fn server_file_name(digest: &str) -> (name: String)
    ensures
        name@ == hashed_name(digest@),
{
    let mut name = joined("server-", digest);
    name.append(".jar");
    name
}

/// Why a downloaded file has no name.
#[derive(Debug, PartialEq, Eq)]
pub enum DownloadError {
    /// The answer has a `Content-Disposition` header that names no file.
    NoFilename,
}

impl DownloadError {
    /// The text that tells the user of the error.
    pub fn message(&self) -> (s: String)
        ensures
            s@ == "No filename in Content-Disposition"@,
    {
        "No filename in Content-Disposition".to_string()
    }
}

/// The name under which the file of an answer is kept: the name that the
/// `Content-Disposition` header of the answer gives, and where the answer
/// has no such header the name made from the hash of its bytes. A header
/// that names no file is an error.
pub fn download_file(content_disposition: Option<&str>, bytes: &[u8]) -> (r: Result<
    String,
    DownloadError,
>)
    ensures
        match content_disposition {
            Some(header) => match disposition_filename(header@) {
                Some(name) => r matches Ok(given) && given@ == name,
                None => r == Err::<String, DownloadError>(DownloadError::NoFilename),
            },
            None => r matches Ok(given) && given@ == hashed_name(blake3_hex(bytes@)) && is_digest(
                blake3_hex(bytes@),
            ),
        },
{
    match content_disposition {
        Some(header) => match filename_of_header(header) {
            Some(name) => Ok(name),
            None => Err(DownloadError::NoFilename),
        },
        None => {
            let digest = blake3_digest(bytes);
            Ok(server_file_name(digest.as_str()))
        },
    }
}

} // verus!
