use vstd::prelude::*;
use vstd::string::*;

verus! {

/// Binary file type recognised by the payload assembler.
#[derive(Clone, Copy, PartialEq, Eq, Structural, Debug)]
pub enum DetectedType {
    Jpeg,
    Png,
    Webp,
    Other,
}

pub open spec fn jpeg_magic() -> Seq<u8> {
    seq![0xFFu8, 0xD8u8, 0xFFu8]
}

pub open spec fn png_magic() -> Seq<u8> {
    seq![0x89u8, 0x50u8, 0x4Eu8, 0x47u8]
}

pub open spec fn riff_tag() -> Seq<u8> {
    seq![0x52u8, 0x49u8, 0x46u8, 0x46u8]
}

pub open spec fn webp_tag() -> Seq<u8> {
    seq![0x57u8, 0x45u8, 0x42u8, 0x50u8]
}

/// `b` begins with the byte prefix `p`.
pub open spec fn starts_with_bytes(b: Seq<u8>, p: Seq<u8>) -> bool {
    p.len() <= b.len() && b.subrange(0, p.len() as int) == p
}

/// `s` ends with the character sequence `pat`.
pub open spec fn ends_with_chars(s: Seq<char>, pat: Seq<char>) -> bool {
    pat.len() <= s.len() && s.subrange(s.len() - pat.len(), s.len() as int) == pat
}

/// ASCII lower-casing of one character.
pub open spec fn to_lower(c: char) -> char {
    if 65 <= c as u32 && c as u32 <= 90 {
        (((c as u32) + 32) as u8) as char
    } else {
        c
    }
}

/// ASCII lower-casing of a character sequence.
pub open spec fn lower_seq(s: Seq<char>) -> Seq<char> {
    s.map_values(|c: char| to_lower(c))
}

/// `s` ends with `pat` up to ASCII case, `pat` given in lower case.
pub open spec fn has_suffix_ci(s: Seq<char>, pat: Seq<char>) -> bool {
    ends_with_chars(lower_seq(s), pat)
}

/// The content-sniffing rule: magic bytes first, then the case-sensitive
/// extension table, then the opaque fallback.
pub open spec fn spec_detect(bytes: Seq<u8>, name: Seq<char>) -> DetectedType {
    if starts_with_bytes(bytes, jpeg_magic()) {
        DetectedType::Jpeg
    } else if starts_with_bytes(bytes, png_magic()) {
        DetectedType::Png
    } else if bytes.len() > 12 && bytes.subrange(0, 4) == riff_tag() && bytes.subrange(8, 12)
        == webp_tag() {
        DetectedType::Webp
    } else if ends_with_chars(name, ".png"@) {
        DetectedType::Png
    } else if ends_with_chars(name, ".jpg"@) || ends_with_chars(name, ".jpeg"@) {
        DetectedType::Jpeg
    } else if ends_with_chars(name, ".webp"@) {
        DetectedType::Webp
    } else {
        DetectedType::Other
    }
}

/// The MIME designation of a detected type.
pub open spec fn spec_mime(t: DetectedType) -> Seq<char> {
    match t {
        DetectedType::Jpeg => "image/jpeg"@,
        DetectedType::Png => "image/png"@,
        DetectedType::Webp => "image/webp"@,
        DetectedType::Other => "application/octet-stream"@,
    }
}

/// The file name after extension reconciliation: an image type whose
/// acceptable extension is missing (case-insensitively) gets the canonical
/// one appended; nothing is ever removed.
pub open spec fn spec_normalize_name(name: Seq<char>, t: DetectedType) -> Seq<char> {
    match t {
        DetectedType::Jpeg => if has_suffix_ci(name, ".jpg"@) || has_suffix_ci(name, ".jpeg"@) {
            name
        } else {
            name + ".jpg"@
        },
        DetectedType::Png => if has_suffix_ci(name, ".png"@) {
            name
        } else {
            name + ".png"@
        },
        DetectedType::Webp => if has_suffix_ci(name, ".webp"@) {
            name
        } else {
            name + ".webp"@
        },
        DetectedType::Other => name,
    }
}

/// Whether `s` ends with `pat` exactly.
pub fn ends_with_str(s: &str, pat: &str) -> (r: bool)
    ensures
        r == ends_with_chars(s@, pat@),
{
    let n = s.unicode_len();
    let m = pat.unicode_len();
    if m > n {
        return false;
    }
    let mut k: usize = 0;
    while k < m
        invariant
            k <= m,
            m <= n,
            n == s@.len(),
            m == pat@.len(),
            forall|j: int| 0 <= j < k ==> s@[n - m + j] == pat@[j],
        decreases m - k,
    {
        if s.get_char(n - m + k) != pat.get_char(k) {
            proof {
                assert(s@.subrange(n - m, n as int)[k as int] == s@[n - m + k]);
            }
            return false;
        }
        k = k + 1;
    }
    proof {
        assert(s@.subrange(n - m, n as int) =~= pat@);
    }
    true
}

/// ASCII lower-casing of one character.
fn char_lower(c: char) -> (r: char)
    ensures
        r == to_lower(c),
{
    let u = c as u32;
    if 65 <= u && u <= 90 {
        ((u + 32) as u8) as char
    } else {
        c
    }
}

/// Whether `s` ends with `pat` up to ASCII case; `pat` must be lower case.
pub fn ends_with_ci_str(s: &str, pat: &str) -> (r: bool)
    ensures
        r == has_suffix_ci(s@, pat@),
{
    let n = s.unicode_len();
    let m = pat.unicode_len();
    if m > n {
        return false;
    }
    let mut k: usize = 0;
    while k < m
        invariant
            k <= m,
            m <= n,
            n == s@.len(),
            m == pat@.len(),
            forall|j: int| 0 <= j < k ==> to_lower(s@[n - m + j]) == pat@[j],
        decreases m - k,
    {
        if char_lower(s.get_char(n - m + k)) != pat.get_char(k) {
            proof {
                assert(lower_seq(s@).subrange(n - m, n as int)[k as int] == to_lower(
                    s@[n - m + k],
                ));
            }
            return false;
        }
        k = k + 1;
    }
    proof {
        assert(lower_seq(s@).subrange(n - m, n as int) =~= pat@);
    }
    true
}

impl DetectedType {
    /// The MIME designation, as a string.
    pub fn mime_string(&self) -> (r: String)
        ensures
            r@ == spec_mime(*self),
    {
        match self {
            DetectedType::Jpeg => String::from_str("image/jpeg"),
            DetectedType::Png => String::from_str("image/png"),
            DetectedType::Webp => String::from_str("image/webp"),
            DetectedType::Other => String::from_str("application/octet-stream"),
        }
    }
}

/// Sniffs the binary type of a file: JPEG, PNG and WEBP magic bytes first,
/// then the case-sensitive extension table, then the opaque fallback.
pub fn detect_type(bytes: &[u8], name: &str) -> (r: DetectedType)
    ensures
        r == spec_detect(bytes@, name@),
{
    let n = bytes.len();
    if n >= 3 && bytes[0] == 0xFF && bytes[1] == 0xD8 && bytes[2] == 0xFF {
        proof {
            assert(bytes@.subrange(0, 3) =~= jpeg_magic());
        }
        return DetectedType::Jpeg;
    }
    proof {
        assert(!starts_with_bytes(bytes@, jpeg_magic())) by {
            if starts_with_bytes(bytes@, jpeg_magic()) {
                assert(bytes@[0] == 0xFF && bytes@[1] == 0xD8 && bytes@[2] == 0xFF) by {
                    assert(bytes@.subrange(0, 3)[0] == bytes@[0]);
                    assert(bytes@.subrange(0, 3)[1] == bytes@[1]);
                    assert(bytes@.subrange(0, 3)[2] == bytes@[2]);
                }
            }
        }
    }
    if n >= 4 && bytes[0] == 0x89 && bytes[1] == 0x50 && bytes[2] == 0x4E && bytes[3] == 0x47 {
        proof {
            assert(bytes@.subrange(0, 4) =~= png_magic());
        }
        return DetectedType::Png;
    }
    proof {
        assert(!starts_with_bytes(bytes@, png_magic())) by {
            if starts_with_bytes(bytes@, png_magic()) {
                assert(bytes@.subrange(0, 4)[0] == bytes@[0]);
                assert(bytes@.subrange(0, 4)[1] == bytes@[1]);
                assert(bytes@.subrange(0, 4)[2] == bytes@[2]);
                assert(bytes@.subrange(0, 4)[3] == bytes@[3]);
            }
        }
    }
    if n > 12 && bytes[0] == 0x52 && bytes[1] == 0x49 && bytes[2] == 0x46 && bytes[3] == 0x46
        && bytes[8] == 0x57 && bytes[9] == 0x45 && bytes[10] == 0x42 && bytes[11] == 0x50 {
        proof {
            assert(bytes@.subrange(0, 4) =~= riff_tag());
            assert(bytes@.subrange(8, 12) =~= webp_tag());
        }
        return DetectedType::Webp;
    }
    proof {
        assert(!(bytes@.len() > 12 && bytes@.subrange(0, 4) == riff_tag() && bytes@.subrange(8, 12)
            == webp_tag())) by {
            if bytes@.len() > 12 && bytes@.subrange(0, 4) == riff_tag() && bytes@.subrange(8, 12)
                == webp_tag() {
                assert(bytes@.subrange(0, 4)[0] == bytes@[0]);
                assert(bytes@.subrange(0, 4)[1] == bytes@[1]);
                assert(bytes@.subrange(0, 4)[2] == bytes@[2]);
                assert(bytes@.subrange(0, 4)[3] == bytes@[3]);
                assert(bytes@.subrange(8, 12)[0] == bytes@[8]);
                assert(bytes@.subrange(8, 12)[1] == bytes@[9]);
                assert(bytes@.subrange(8, 12)[2] == bytes@[10]);
                assert(bytes@.subrange(8, 12)[3] == bytes@[11]);
            }
        }
    }
    if ends_with_str(name, ".png") {
        return DetectedType::Png;
    }
    if ends_with_str(name, ".jpg") || ends_with_str(name, ".jpeg") {
        return DetectedType::Jpeg;
    }
    if ends_with_str(name, ".webp") {
        return DetectedType::Webp;
    }
    DetectedType::Other
}

/// Appends the canonical extension of an image type whose acceptable
/// extension the name does not already carry.
pub fn normalize_name(name: String, t: &DetectedType) -> (r: String)
    ensures
        r@ == spec_normalize_name(name@, *t),
{
    let mut name = name;
    match t {
        DetectedType::Jpeg => {
            if !ends_with_ci_str(name.as_str(), ".jpg") && !ends_with_ci_str(name.as_str(), ".jpeg")
            {
                name.append(".jpg");
            }
        },
        DetectedType::Png => {
            if !ends_with_ci_str(name.as_str(), ".png") {
                name.append(".png");
            }
        },
        DetectedType::Webp => {
            if !ends_with_ci_str(name.as_str(), ".webp") {
                name.append(".webp");
            }
        },
        DetectedType::Other => {},
    }
    name
}

/// Magic bytes alone decide the detected type: whatever the file name says,
/// a recognised binary prefix wins.
pub proof fn lemma_magic_bytes_win(bytes: Seq<u8>, name: Seq<char>)
    ensures
        starts_with_bytes(bytes, jpeg_magic()) ==> spec_detect(bytes, name)
            == DetectedType::Jpeg,
        !starts_with_bytes(bytes, jpeg_magic()) && starts_with_bytes(bytes, png_magic())
            ==> spec_detect(bytes, name) == DetectedType::Png,
        !starts_with_bytes(bytes, jpeg_magic()) && !starts_with_bytes(bytes, png_magic())
            && bytes.len() > 12 && bytes.subrange(0, 4) == riff_tag() && bytes.subrange(8, 12)
            == webp_tag() ==> spec_detect(bytes, name) == DetectedType::Webp,
{
}

} // verus!
