//! The scanner's per-file work: recognizing image files by extension and
//! producing a content-addressed record from a file's bytes.

use vstd::prelude::*;
use vstd::string::StrSliceExecFns;
use crate::hash::hex_digit;
use crate::text::hex_digit_char;

verus! {

/// What the 64-bit xxh3 hash returns for `bytes`: a function of the bytes
/// alone.
pub uninterp spec fn xxh3_of(bytes: Seq<u8>) -> u64;

/// Relies on xxhash_rust's `xxh3_64`: the result depends on the input bytes
/// alone.
#[verifier::external_body]
fn xxh3_64_of(data: &[u8]) -> (r: u64)
    ensures
        r == xxh3_of(data@),
{
    xxhash_rust::xxh3::xxh3_64(data)
}

/// `digits` lowercase hex digits of `n`, most significant first, leading
/// zeros kept.
pub open spec fn hex_u64(n: int, digits: nat) -> Seq<char>
    decreases digits,
{
    if digits == 0 {
        Seq::empty()
    } else {
        hex_u64(n / 16, (digits - 1) as nat).push(hex_digit(n % 16))
    }
}

fn hex_u64_rec(n: u64, digits: usize) -> (r: String)
    ensures
        r@ == hex_u64(n as int, digits as nat),
    decreases digits,
{
    if digits == 0 {
        String::new()
    } else {
        let mut s = hex_u64_rec(n / 16, digits - 1);
        s.push(hex_digit_char((n % 16) as u8));
        s
    }
}

/// The scan digest of a file's bytes: its 64-bit xxh3 hash, as sixteen hex
/// digits.
pub open spec fn spec_scan_digest(bytes: Seq<u8>) -> Seq<char> {
    hex_u64(xxh3_of(bytes) as int, 16)
}

/// Compute the scan digest of a file's bytes.
pub fn scan_digest(content: &[u8]) -> (r: String)
    ensures
        r@ == spec_scan_digest(content@),
{
    let h = xxh3_64_of(content);
    hex_u64_rec(h, 16)
}

/// The extension of a path: what follows the final dot of its file name,
/// provided a character of that name precedes the dot. A name with no dot,
/// or only a leading one, has none.
pub open spec fn spec_extension(s: Seq<char>) -> Option<Seq<char>>
    decreases s.len(),
{
    if s.len() == 0 {
        None
    } else if s.last() == '/' {
        None
    } else if s.last() == '.' {
        if s.drop_last().len() == 0 || s.drop_last().last() == '/' {
            None
        } else {
            Some(Seq::empty())
        }
    } else {
        match spec_extension(s.drop_last()) {
            None => None,
            Some(e) => Some(e.push(s.last())),
        }
    }
}

fn extension_rec(path: &str, i: usize) -> (r: Option<String>)
    requires
        i <= path@.len(),
    ensures
        match r {
            Some(e) => spec_extension(path@.take(i as int)) == Some(e@),
            None => spec_extension(path@.take(i as int)) is None,
        },
    decreases i,
{
    if i == 0 {
        None
    } else {
        let c = path.get_char(i - 1);
        proof {
            assert(path@.take(i as int).last() == c);
            assert(path@.take(i as int).drop_last() =~= path@.take(i as int - 1));
        }
        if c == '/' {
            None
        } else if c == '.' {
            if i == 1 {
                None
            } else {
                let p = path.get_char(i - 2);
                proof {
                    assert(path@.take(i as int - 1).last() == p);
                }
                if p == '/' {
                    None
                } else {
                    Some(String::new())
                }
            }
        } else {
            match extension_rec(path, i - 1) {
                None => None,
                Some(mut e) => {
                    e.push(c);
                    Some(e)
                },
            }
        }
    }
}

/// The extension of a path, if it has one.
pub fn extension_of(path: &str) -> (r: Option<String>)
    ensures
        match r {
            Some(e) => spec_extension(path@) == Some(e@),
            None => spec_extension(path@) is None,
        },
{
    let n = path.unicode_len();
    let r = extension_rec(path, n);
    proof {
        assert(path@.take(n as int) =~= path@);
    }
    r
}

/// An uppercase ASCII letter folded to lowercase; anything else unchanged.
pub open spec fn ascii_lower_char(c: char) -> char {
    if 'A' <= c && c <= 'Z' {
        (((c as u8) + 32) as u8) as char
    } else {
        c
    }
}

pub open spec fn lower_seq(s: Seq<char>) -> Seq<char> {
    s.map_values(|c: char| ascii_lower_char(c))
}

/// Fold ASCII uppercase to lowercase.
pub fn ascii_lower(s: &str) -> (r: String)
    ensures
        r@ == lower_seq(s@),
{
    let n = s.unicode_len();
    let mut acc = String::new();
    let mut i: usize = 0;
    proof {
        assert(acc@ =~= lower_seq(s@.take(0)));
    }
    while i < n
        invariant
            i <= n,
            n == s@.len(),
            acc@ == lower_seq(s@.take(i as int)),
        decreases n - i,
    {
        let c = s.get_char(i);
        let lc: char = if c >= 'A' && c <= 'Z' {
            (((c as u8) + 32) as u8) as char
        } else {
            c
        };
        acc.push(lc);
        proof {
            assert(lc == ascii_lower_char(c));
            assert(acc@ =~= lower_seq(s@.take(i + 1)));
        }
        i = i + 1;
    }
    proof {
        assert(s@.take(n as int) =~= s@);
    }
    acc
}

/// The fixed allow-list of image extensions, in lowercase.
pub open spec fn is_image_ext(e: Seq<char>) -> bool {
    ||| e == "jpg"@
    ||| e == "jpeg"@
    ||| e == "png"@
    ||| e == "webp"@
    ||| e == "heic"@
    ||| e == "heif"@
    ||| e == "raw"@
    ||| e == "cr2"@
    ||| e == "nef"@
    ||| e == "arw"@
}

/// Whether `e` is one of the recognized image extensions.
pub fn is_image_extension(e: &str) -> (r: bool)
    ensures
        r == is_image_ext(e@),
{
    crate::text::str_eq(e, "jpg") || crate::text::str_eq(e, "jpeg") || crate::text::str_eq(
        e,
        "png",
    ) || crate::text::str_eq(e, "webp") || crate::text::str_eq(e, "heic") || crate::text::str_eq(
        e,
        "heif",
    ) || crate::text::str_eq(e, "raw") || crate::text::str_eq(e, "cr2") || crate::text::str_eq(
        e,
        "nef",
    ) || crate::text::str_eq(e, "arw")
}

/// Whether the scanner indexes this path: its lowercased extension is in
/// the image allow-list.
pub open spec fn spec_is_image_path(p: Seq<char>) -> bool {
    match spec_extension(p) {
        None => false,
        Some(e) => is_image_ext(lower_seq(e)),
    }
}

/// Whether a path carries a recognized image extension, case-insensitively.
pub fn has_image_extension(path: &str) -> (r: bool)
    ensures
        r == spec_is_image_path(path@),
{
    match extension_of(path) {
        None => false,
        Some(e) => {
            let l = ascii_lower(e.as_str());
            is_image_extension(l.as_str())
        },
    }
}

/// One content-addressed scan record.
#[derive(Debug)]
pub struct ScannedFile {
    pub path: String,
    pub hash: String,
    pub mod_time: i64,
}

impl Clone for ScannedFile {
    fn clone(&self) -> (res: Self)
        ensures
            res == *self,
    {
        ScannedFile {
            path: self.path.clone(),
            hash: self.hash.clone(),
            mod_time: self.mod_time,
        }
    }
}

/// Build the scan record for a file from its path, bytes and modification
/// time: the digest is the scan digest of exactly these bytes.
pub fn scan_file(path: String, content: &[u8], mod_time: i64) -> (r: ScannedFile)
    ensures
        r.path == path,
        r.hash@ == spec_scan_digest(content@),
        r.mod_time == mod_time,
{
    let hash = scan_digest(content);
    ScannedFile { path, hash, mod_time }
}

} // verus!
