use vstd::prelude::*;
use vstd::string::{StringExecFns, StringSliceAdditionalSpecFns};
use vstd::utf8::{encode_utf8, is_ascii_chars, is_ascii_chars_encode_utf8};

use crate::assets::error::AssetError;
use crate::text::{hex_char, hex_digit_str, hex_digit_value, hex_value};

verus! {

/// The loader version every content hash is taken under. Bumping it
/// changes every `AssetId`, so a loader fix invalidates cached results
/// instead of silently reusing them.
pub const LOADER_VERSION: &'static str = "canary-assets-loader/1";

/// The SHA-256 digest of `input`.
pub uninterp spec fn sha256_of(input: Seq<u8>) -> Seq<u8>;

/// Hashes `input` with `sha2::Sha256` (`Digest::digest`). Trusted to
/// return the SHA-256 digest of exactly `input`, which depends on
/// nothing else.
#[verifier::external_body]
fn sha256(input: &[u8]) -> (r: [u8; 32])
    ensures
        r@ == sha256_of(input@),
{
    let out = <sha2::Sha256 as sha2::Digest>::digest(input);
    let mut digest = [0u8; 32];
    digest.copy_from_slice(&out);
    digest
}

/// What an id is the digest of: the version's bytes, one `0x00`
/// separator, then the content. The separator keeps a version that
/// extends another from colliding with it (`"ab"` + `"c"` against
/// `"a"` + `"bc"`).
pub open spec fn id_input(version: Seq<u8>, content: Seq<u8>) -> Seq<u8> {
    version + seq![0u8] + content
}

/// The 64-character lowercase hexadecimal rendering of `digest`, two
/// characters per byte, high nibble first.
pub open spec fn hex_text(digest: Seq<u8>) -> Seq<char> {
    Seq::new(
        2 * digest.len(),
        |i: int|
            hex_char(
                if i % 2 == 0 {
                    (digest[i / 2] / 16) as nat
                } else {
                    (digest[i / 2] % 16) as nat
                },
            ),
    )
}

/// Whether every byte of `b` is an ASCII hexadecimal digit.
pub open spec fn all_hex(b: Seq<u8>) -> bool {
    forall|i: int| 0 <= i < b.len() ==> (#[trigger] hex_value(b[i])) is Some
}

/// The bytes that a well-formed rendering `b` (hex digits only, even
/// length) denotes.
pub open spec fn hex_decode(b: Seq<u8>) -> Seq<u8> {
    Seq::new(
        b.len() / 2,
        |i: int| (hex_value(b[2 * i]).unwrap() * 16 + hex_value(b[2 * i + 1]).unwrap()) as u8,
    )
}

/// A content-addressed asset identity: the SHA-256 digest of the loader
/// version and the asset's bytes.
#[derive(Debug, Clone, Copy, PartialEq, Eq, Hash)]
pub struct AssetId {
    digest: [u8; 32],
}

impl View for AssetId {
    type V = Seq<u8>;

    /// The 32 digest bytes.
    closed spec fn view(&self) -> Seq<u8> {
        self.digest@
    }
}

/// Appends `b` to `v`.
fn append_bytes(v: &mut Vec<u8>, b: &[u8])
    ensures
        final(v)@ == old(v)@ + b@,
{
    let mut i: usize = 0;
    while i < b.len()
        invariant
            i <= b@.len(),
            v@ == old(v)@ + b@.take(i as int),
        decreases b@.len() - i,
    {
        v.push(b[i]);
        i = i + 1;
        proof {
            assert(b@.take(i as int) =~= b@.take(i - 1) + seq![b@[i - 1]]);
        }
    }
    proof {
        assert(b@.take(i as int) =~= b@);
    }
}

impl AssetId {
    /// Every id is 32 bytes long.
    pub proof fn lemma_len(&self)
        ensures
            self@.len() == 32,
    {
    }

    /// The id of in-memory `bytes` under the current `LOADER_VERSION`.
    pub fn new(bytes: &[u8]) -> (id: AssetId)
        ensures
            id@ == sha256_of(id_input(LOADER_VERSION.spec_bytes(), bytes@)),
    {
        Self::with_version(bytes, LOADER_VERSION)
    }

    /// The id of in-memory `bytes` under an explicit `version` instead of
    /// `LOADER_VERSION`.
    pub fn with_version(bytes: &[u8], version: &str) -> (id: AssetId)
        ensures
            id@ == sha256_of(id_input(version.spec_bytes(), bytes@)),
    {
        let mut input: Vec<u8> = Vec::new();
        append_bytes(&mut input, version.as_bytes());
        input.push(0u8);
        append_bytes(&mut input, bytes);
        proof {
            assert(input@ =~= id_input(version.spec_bytes(), bytes@));
        }
        AssetId { digest: sha256(input.as_slice()) }
    }

    /// The id of the bytes a read of `path` produced, or the `Io` error
    /// for `path` when the read failed.
    pub fn from_read(path: &str, read: Result<Vec<u8>, std::io::Error>) -> (r: Result<
        AssetId,
        AssetError,
    >)
        ensures
            match read {
                Ok(bytes) => r matches Ok(id) && id@ == sha256_of(
                    id_input(LOADER_VERSION.spec_bytes(), bytes@),
                ),
                Err(e) => r matches Err(AssetError::Io { path: p, source: s }) && p@ == path@ && s
                    == e,
            },
    {
        match read {
            Ok(bytes) => Ok(Self::new(bytes.as_slice())),
            Err(e) => Err(AssetError::io(path, e)),
        }
    }

    /// Renders this id as 64 lowercase hexadecimal characters.
    pub fn to_hex(&self) -> (r: String)
        ensures
            r@ == hex_text(self@),
    {
        let mut out = String::new();
        let mut i: usize = 0;
        while i < 32
            invariant
                i <= 32,
                self.digest@.len() == 32,
                out@ =~= hex_text(self.digest@.take(i as int)),
            decreases 32 - i,
        {
            let byte = self.digest[i];
            out.append(hex_digit_str(byte / 16));
            out.append(hex_digit_str(byte % 16));
            i = i + 1;
            proof {
                let d = self.digest@.take(i as int);
                let d0 = self.digest@.take(i - 1);
                assert forall|k: int| 0 <= k < 2 * d.len() implies #[trigger] hex_text(d)[k] == (
                hex_text(d0) + seq![hex_char((byte / 16) as nat)] + seq![hex_char((byte % 16) as nat)])[k] by {
                    if k < 2 * d0.len() {
                        assert(d[k / 2] == d0[k / 2]);
                    } else if k == 2 * d0.len() {
                        assert(k / 2 == i - 1);
                    } else {
                        assert(k / 2 == i - 1);
                    }
                }
            }
        }
        proof {
            assert(self.digest@.take(32) =~= self.digest@);
        }
        out
    }

    /// Parses an id back from its `to_hex` rendering, in either case.
    ///
    /// Garbage is `InvalidFormat`, with the offending text as the path:
    /// a malformed id string is malformed content arriving from outside,
    /// like malformed file bytes.
    pub fn from_hex(hex: &str) -> (r: Result<AssetId, AssetError>)
        ensures
            hex.spec_bytes().len() != 64 ==> (r matches Err(AssetError::InvalidFormat { path, reason })
                && path@ == hex@ && reason@ == "asset id hex must be 64 characters"@),
            hex.spec_bytes().len() == 64 && !all_hex(hex.spec_bytes()) ==> (r matches Err(
                AssetError::InvalidFormat { path, reason },
            ) && path@ == hex@ && reason@ == "asset id hex contains non-hex characters"@),
            hex.spec_bytes().len() == 64 && all_hex(hex.spec_bytes()) ==> (r matches Ok(id) && id@
                == hex_decode(hex.spec_bytes())),
    {
        let b = hex.as_bytes();
        if b.len() != 64 {
            return Err(AssetError::invalid_format(hex, "asset id hex must be 64 characters"));
        }
        let mut j: usize = 0;
        while j < 64
            invariant
                j <= 64,
                b@ == hex.spec_bytes(),
                b@.len() == 64,
                forall|k: int| 0 <= k < j ==> (#[trigger] hex_value(b@[k])) is Some,
            decreases 64 - j,
        {
            if hex_digit_value(b[j]).is_none() {
                return Err(AssetError::invalid_format(hex, "asset id hex contains non-hex characters"));
            }
            j = j + 1;
        }
        let mut digest = [0u8; 32];
        let mut i: usize = 0;
        while i < 32
            invariant
                i <= 32,
                b@ == hex.spec_bytes(),
                b@.len() == 64,
                all_hex(b@),
                digest@.len() == 32,
                forall|k: int| 0 <= k < i ==> #[trigger] digest@[k] == hex_decode(b@)[k],
            decreases 32 - i,
        {
            let hi = hex_digit_value(b[2 * i]).unwrap();
            let lo = hex_digit_value(b[2 * i + 1]).unwrap();
            proof {
                assert(hex_value(b@[2 * i as int]) is Some);
                assert(hex_value(b@[2 * i + 1]) is Some);
            }
            digest[i] = hi * 16 + lo;
            i = i + 1;
        }
        proof {
            assert(digest@ =~= hex_decode(b@));
        }
        Ok(AssetId { digest })
    }
}

/// Parsing the rendering of an id gives the id back: `to_hex` always
/// yields 64 hexadecimal digits, in ASCII, that `from_hex` accepts and
/// decodes to the same bytes.
pub proof fn law_hex_round_trip(digest: Seq<u8>)
    requires
        digest.len() == 32,
    ensures
        is_ascii_chars(hex_text(digest)),
        encode_utf8(hex_text(digest)).len() == 64,
        all_hex(encode_utf8(hex_text(digest))),
        hex_decode(encode_utf8(hex_text(digest))) == digest,
{
    let t = hex_text(digest);
    assert forall|k: int| 0 <= k < t.len() implies '\0' <= #[trigger] t[k] <= '\u{7f}' by {
        let n: nat = if k % 2 == 0 {
            (digest[k / 2] / 16) as nat
        } else {
            (digest[k / 2] % 16) as nat
        };
        assert(n < 16);
    }
    is_ascii_chars_encode_utf8(t);
    let b = encode_utf8(t);
    assert forall|k: int| 0 <= k < b.len() implies (#[trigger] hex_value(b[k])) is Some by {
        assert(t[k] as u8 == b[k]);
        let n: nat = if k % 2 == 0 {
            (digest[k / 2] / 16) as nat
        } else {
            (digest[k / 2] % 16) as nat
        };
        assert(n < 16);
    }
    assert forall|i: int| 0 <= i < 32 implies #[trigger] hex_decode(b)[i] == digest[i] by {
        assert(t[2 * i] as u8 == b[2 * i]);
        assert(t[2 * i + 1] as u8 == b[2 * i + 1]);
        assert((2 * i) % 2 == 0 && (2 * i) / 2 == i);
        assert((2 * i + 1) % 2 == 1 && (2 * i + 1) / 2 == i);
        let hi = (digest[i] / 16) as nat;
        let lo = (digest[i] % 16) as nat;
        assert(hex_value(b[2 * i]) == Some(hi as u8));
        assert(hex_value(b[2 * i + 1]) == Some(lo as u8));
        assert(hi * 16 + lo == digest[i]);
    }
    assert(hex_decode(b) =~= digest);
}

} // verus!
