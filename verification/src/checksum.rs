use crate::error::GitHubApiError;
use vstd::prelude::*;
use vstd::string::StrSliceExecFns;
use vstd::string::StringSliceAdditionalSpecFns;

verus! {

/// The digest algorithm a checksum sidecar file carries, recognised by the
/// suffix it appends to the name of the file it describes.
#[derive(Debug, Clone, Copy, PartialEq, Eq, Structural)]
pub enum ChecksumType {
    Sha256,
    Sha1,
}

/// True when `s` ends with `suffix`.
pub open spec fn is_suffix_of(suffix: Seq<char>, s: Seq<char>) -> bool {
    suffix.len() <= s.len() && s.subrange(s.len() - suffix.len(), s.len() as int) == suffix
}

impl ChecksumType {
    /// The filename suffix that marks a sidecar of this kind.
    pub open spec fn spec_suffix(self) -> Seq<char> {
        match self {
            ChecksumType::Sha256 => ".sha256"@,
            ChecksumType::Sha1 => ".sha1"@,
        }
    }
}

/// The sidecar kind a filename denotes: SHA-256 for names ending in
/// `.sha256`, SHA-1 for names ending in `.sha1`, nothing otherwise.
pub open spec fn classify_spec(name: Seq<char>) -> Option<ChecksumType> {
    if is_suffix_of(".sha256"@, name) {
        Some(ChecksumType::Sha256)
    } else if is_suffix_of(".sha1"@, name) {
        Some(ChecksumType::Sha1)
    } else {
        None
    }
}

/// The sidecar name with the kind's suffix removed.
pub open spec fn strip_spec(name: Seq<char>, kind: ChecksumType) -> Seq<char>
    recommends
        kind.spec_suffix().len() <= name.len(),
{
    name.subrange(0, name.len() - kind.spec_suffix().len())
}

/// True when `s` ends with `suffix`.
fn str_ends_with(s: &str, suffix: &str) -> (r: bool)
    ensures
        r == is_suffix_of(suffix@, s@),
{
    let n = s.unicode_len();
    let m = suffix.unicode_len();
    if m > n {
        return false;
    }
    let mut i: usize = 0;
    while i < m
        invariant
            m <= n,
            n == s@.len(),
            m == suffix@.len(),
            i <= m,
            forall|j: int| 0 <= j < i ==> s@[n - m + j] == suffix@[j],
        decreases m - i,
    {
        if s.get_char(n - m + i) != suffix.get_char(i) {
            proof {
                assert(s@.subrange(n - m, n as int)[i as int] == s@[n - m + i]);
            }
            return false;
        }
        i += 1;
    }
    proof {
        assert(s@.subrange(n - m, n as int) =~= suffix@);
    }
    true
}

impl ChecksumType {
    /// The filename suffix that marks a sidecar of this kind.
    pub fn extension(&self) -> (r: &'static str)
        ensures
            r@ == self.spec_suffix(),
    {
        match self {
            ChecksumType::Sha1 => ".sha1",
            ChecksumType::Sha256 => ".sha256",
        }
    }

    /// Classifies a filename: the sidecar kind its suffix denotes, if any.
    pub fn from_filename(name: &str) -> (r: Option<ChecksumType>)
        ensures
            r == classify_spec(name@),
    {
        if str_ends_with(name, ".sha256") {
            Some(ChecksumType::Sha256)
        } else if str_ends_with(name, ".sha1") {
            Some(ChecksumType::Sha1)
        } else {
            None
        }
    }

    /// Removes this kind's suffix from a sidecar's name, leaving the name of
    /// the file the sidecar describes.
    pub fn strip_suffix(&self, name: &str) -> (r: String)
        requires
            classify_spec(name@) == Some(*self),
        ensures
            r@ == strip_spec(name@, *self),
    {
        let n = name.unicode_len();
        let m = self.extension().unicode_len();
        proof {
            assert(is_suffix_of(self.spec_suffix(), name@));
        }
        name.substring_char(0, n - m).to_owned()
    }
}

/// The SHA-256 digest of a byte sequence.
pub uninterp spec fn sha256_of(data: Seq<u8>) -> Seq<u8>;

/// The SHA-1 digest of a byte sequence.
pub uninterp spec fn sha1_of(data: Seq<u8>) -> Seq<u8>;

/// The digest of a byte sequence under the algorithm this kind names.
pub open spec fn digest_spec(kind: ChecksumType, data: Seq<u8>) -> Seq<u8> {
    match kind {
        ChecksumType::Sha256 => sha256_of(data),
        ChecksumType::Sha1 => sha1_of(data),
    }
}

/// Relies on sha2::Sha256::digest: the 32-byte digest is a function of the
/// input bytes alone.
#[verifier::external_body]
fn sha256_digest(contents: &[u8]) -> (r: Vec<u8>)
    ensures
        r@ == sha256_of(contents@),
        r@.len() == 32,
{
    <sha2::Sha256 as sha2::Digest>::digest(contents).as_slice().to_vec()
}

/// Relies on sha1::Sha1::digest: the 20-byte digest is a function of the
/// input bytes alone.
#[verifier::external_body]
fn sha1_digest(contents: &[u8]) -> (r: Vec<u8>)
    ensures
        r@ == sha1_of(contents@),
        r@.len() == 20,
{
    <sha1::Sha1 as sha1::Digest>::digest(contents).as_slice().to_vec()
}

/// True of the bytes 0-9, a-f and A-F.
pub open spec fn is_hex_digit(c: u8) -> bool {
    (48 <= c <= 57) || (97 <= c <= 102) || (65 <= c <= 70)
}

/// The numeric value of a hexadecimal digit byte.
pub open spec fn hex_digit_val(c: u8) -> u8
    recommends
        is_hex_digit(c),
{
    if 48 <= c <= 57 {
        (c - 48) as u8
    } else if 97 <= c <= 102 {
        (c - 87) as u8
    } else if 65 <= c <= 70 {
        (c - 55) as u8
    } else {
        0
    }
}

/// True when the bytes form a well-formed hexadecimal string: even length,
/// hex digits throughout.
pub open spec fn valid_hex(s: Seq<u8>) -> bool {
    s.len() % 2 == 0 && forall|i: int| 0 <= i < s.len() ==> is_hex_digit(#[trigger] s[i])
}

/// The bytes a hexadecimal string denotes: one byte per digit pair, high
/// digit first.
pub open spec fn hex_bytes(s: Seq<u8>) -> Seq<u8>
    recommends
        valid_hex(s),
{
    Seq::new(s.len() / 2, |i: int| (hex_digit_val(s[2 * i]) * 16 + hex_digit_val(s[2 * i + 1])) as u8)
}

#[verifier::external_type_specification]
#[verifier::external_body]
pub struct ExFromHexError(hex::FromHexError);

/// Relies on hex::decode: it succeeds exactly on even-length strings of
/// hexadecimal digits and returns one byte per digit pair, high digit first.
#[verifier::external_body]
fn hex_decode(text: &[u8]) -> (r: Result<Vec<u8>, hex::FromHexError>)
    ensures
        r is Ok <==> valid_hex(text@),
        r matches Ok(v) ==> v@ == hex_bytes(text@),
{
    hex::decode(text)
}

/// True when the two byte slices hold the same bytes.
fn bytes_equal(a: &[u8], b: &[u8]) -> (r: bool)
    ensures
        r == (a@ == b@),
{
    if a.len() != b.len() {
        return false;
    }
    let n = a.len();
    let mut i: usize = 0;
    while i < n
        invariant
            n == a@.len(),
            n == b@.len(),
            i <= n,
            forall|j: int| 0 <= j < i ==> a@[j] == b@[j],
        decreases n - i,
    {
        if a[i] != b[i] {
            return false;
        }
        i += 1;
    }
    proof {
        assert(a@ =~= b@);
    }
    true
}

impl ChecksumType {
    /// Whether `contents` hashes, under this kind's algorithm, to exactly the
    /// digest bytes in `checksum`.
    pub fn check(&self, checksum: &[u8], contents: &[u8]) -> (r: bool)
        ensures
            r == (digest_spec(*self, contents@) == checksum@),
    {
        let digest: Vec<u8> = match self {
            ChecksumType::Sha256 => sha256_digest(contents),
            ChecksumType::Sha1 => sha1_digest(contents),
        };
        bytes_equal(digest.as_slice(), checksum)
    }
}

/// Decodes a checksum sidecar's hexadecimal text and checks the downloaded
/// bytes against it: the error says whether the text was malformed or the
/// digest disagreed.
pub fn verify_download(kind: ChecksumType, hex_text: &str, contents: &[u8]) -> (r: Result<
    (),
    GitHubApiError,
>)
    ensures
        match r {
            Ok(u) => valid_hex(hex_text.spec_bytes()) && digest_spec(kind, contents@) == hex_bytes(
                hex_text.spec_bytes(),
            ),
            Err(GitHubApiError::InvalidChecksum) => !valid_hex(hex_text.spec_bytes()),
            Err(GitHubApiError::WrongChecksum) => valid_hex(hex_text.spec_bytes()) && digest_spec(
                kind,
                contents@,
            ) != hex_bytes(hex_text.spec_bytes()),
            Err(_) => false,
        },
{
    let bytes = hex_text.as_bytes();
    match hex_decode(bytes) {
        Err(_) => Err(GitHubApiError::InvalidChecksum),
        Ok(expected) => {
            if kind.check(expected.as_slice(), contents) {
                Ok(())
            } else {
                Err(GitHubApiError::WrongChecksum)
            }
        },
    }
}

/// Every name ending in a sidecar suffix classifies as that kind, every other
/// name classifies as no sidecar, and stripping the recognised suffix removes
/// exactly that suffix: the stripped name with the suffix appended is the
/// original name.
pub proof fn lemma_classify_strip(name: Seq<char>)
    ensures
        is_suffix_of(".sha256"@, name) ==> classify_spec(name) == Some(ChecksumType::Sha256),
        is_suffix_of(".sha1"@, name) ==> classify_spec(name) == Some(ChecksumType::Sha1),
        !is_suffix_of(".sha256"@, name) && !is_suffix_of(".sha1"@, name) ==> classify_spec(name)
            is None,
        classify_spec(name) matches Some(kind) ==> strip_spec(name, kind) + kind.spec_suffix()
            == name,
{
    reveal_strlit(".sha256");
    reveal_strlit(".sha1");
    if is_suffix_of(".sha256"@, name) && is_suffix_of(".sha1"@, name) {
        assert(name[name.len() - 1] == ".sha256"@[6]);
        assert(name[name.len() - 1] == ".sha1"@[4]);
        assert(false);
    }
    match classify_spec(name) {
        Some(kind) => {
            assert(strip_spec(name, kind) + kind.spec_suffix() =~= name);
        },
        None => {},
    }
}

} // verus!
