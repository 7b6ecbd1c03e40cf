//! How a file on disk becomes an asset id, and what a file's name says of it.
use vstd::prelude::*;
use vstd::utf8::encode_utf8;
use sha2::Digest;
use crate::bytes::bytes_of;
use crate::paths::{extension, extension_of};
use crate::text::{chars_of, has_prefix, lowercase, lowercased, slice_of, starts_with, string_of, utf8_of};

verus! {

/// A server-issued, opaque id for a file: it carries no path a caller could
/// bend into a different file.
#[derive(Debug, Clone, PartialEq, Eq)]
pub struct AssetId {
    pub id: String,
}

impl AssetId {
    pub fn mint(id: &str) -> (asset: AssetId)
        ensures
            asset.id@ == id@,
    {
        AssetId { id: id.to_owned() }
    }
}

/// The SHA-256 digest of some bytes.
pub uninterp spec fn sha256(data: Seq<u8>) -> Seq<u8>;

/// Calls `sha2::Sha256::digest`, which returns the 32-byte SHA-256 digest of
/// the bytes it is given. What those bytes are is named, not computed here.
#[verifier::external_body]
fn sha256_digest(data: &[u8]) -> (digest: Vec<u8>)
    ensures
        digest@ == sha256(data@),
        digest@.len() == 32,
{
    sha2::Sha256::digest(data).to_vec()
}

pub open spec fn hex_chars() -> Seq<char> {
    seq!['0', '1', '2', '3', '4', '5', '6', '7', '8', '9', 'a', 'b', 'c', 'd', 'e', 'f']
}

/// Bytes as lowercase hex, two digits each, as `{:02x}` writes them.
pub open spec fn hex_of(bytes: Seq<u8>) -> Seq<char>
    decreases bytes.len(),
{
    if bytes.len() == 0 {
        Seq::empty()
    } else {
        seq![hex_chars()[(bytes[0] / 16) as int], hex_chars()[(bytes[0] % 16) as int]] + hex_of(bytes.drop_first())
    }
}

/// The id a digest names: its first twelve hex characters, or all of them
/// when there are fewer.
pub open spec fn digest_id(digest: Seq<u8>) -> Seq<char> {
    let hex = hex_of(digest);
    if hex.len() <= 12 {
        hex
    } else {
        hex.take(12)
    }
}

/// The media type each known extension names.
pub open spec fn mime_table(e: Seq<char>) -> Option<Seq<char>> {
    if e == "png"@ {
        Some("image/png"@)
    } else if e == "jpg"@ || e == "jpeg"@ {
        Some("image/jpeg"@)
    } else if e == "gif"@ {
        Some("image/gif"@)
    } else if e == "webp"@ {
        Some("image/webp"@)
    } else if e == "bmp"@ {
        Some("image/bmp"@)
    } else if e == "svg"@ {
        Some("image/svg+xml"@)
    } else if e == "heic"@ {
        Some("image/heic"@)
    } else if e == "avif"@ {
        Some("image/avif"@)
    } else if e == "pdf"@ {
        Some("application/pdf"@)
    } else if e == "txt"@ || e == "log"@ {
        Some("text/plain"@)
    } else if e == "md"@ {
        Some("text/markdown"@)
    } else if e == "csv"@ {
        Some("text/csv"@)
    } else if e == "json"@ {
        Some("application/json"@)
    } else if e == "toml"@ {
        Some("application/toml"@)
    } else if e == "yaml"@ || e == "yml"@ {
        Some("application/yaml"@)
    } else if e == "html"@ || e == "htm"@ {
        Some("text/html"@)
    } else if e == "zip"@ {
        Some("application/zip"@)
    } else if e == "gz"@ || e == "tgz"@ {
        Some("application/gzip"@)
    } else if e == "apk"@ {
        Some("application/vnd.android.package-archive"@)
    } else if e == "mp4"@ {
        Some("video/mp4"@)
    } else if e == "mov"@ {
        Some("video/quicktime"@)
    } else if e == "webm"@ {
        Some("video/webm"@)
    } else if e == "mp3"@ {
        Some("audio/mpeg"@)
    } else if e == "wav"@ {
        Some("audio/wav"@)
    } else if e == "m4a"@ {
        Some("audio/mp4"@)
    } else {
        None
    }
}

/// The media type a path's name suggests: its extension, lowercased, looked
/// up in the table.
pub open spec fn mime_of(path: Seq<char>) -> Option<Seq<char>> {
    match extension(path) {
        Some(e) => mime_table(lowercase(e)),
        None => None,
    }
}

pub open spec fn long_prefix() -> Seq<char> {
    seq!['\\', '\\', '?', '\\']
}

/// A drive letter, a colon and a separator.
pub open spec fn names_a_drive(rest: Seq<char>) -> bool {
    rest.len() > 2 && (('a' as u32 <= rest[0] as u32 <= 'z' as u32) || ('A' as u32 <= rest[0] as u32
        <= 'Z' as u32)) && rest[1] == ':' && (rest[2] == '\\' || rest[2] == '/')
}

/// A path without Windows' extended-length prefix, where the plain spelling
/// still names the same file: a drive path shorter than the 260-byte limit
/// loses the prefix; a path long enough to need it, a UNC share and a device
/// path keep it.
pub open spec fn plain_path(path: Seq<char>) -> Seq<char> {
    if !has_prefix(path, long_prefix()) {
        path
    } else {
        let rest = path.skip(4);
        if names_a_drive(rest) && encode_utf8(rest).len() < 260 {
            rest
        } else {
            path
        }
    }
}

/// How a file on disk becomes an asset id.
pub struct AssetNaming;

impl AssetNaming {
    /// Hex characters an upload is stored behind, as in
    /// `78d52cec5b5b-progress-probe.txt`.
    pub const STORED_PREFIX_WIDTH: usize = 12;

    /// The id of an already-canonicalised path: the first twelve hex
    /// characters of the SHA-256 digest of its UTF-8 bytes.
    pub fn id_for(canonical: &str) -> (asset: AssetId)
        ensures
            asset.id@ == digest_id(sha256(encode_utf8(canonical@))),
    {
        let digest = sha256_digest(canonical.as_bytes());
        Self::id_from_digest(&digest)
    }

    /// The id a digest names: its bytes as lowercase hex, first twelve
    /// characters.
    pub fn id_from_digest(digest: &[u8]) -> (asset: AssetId)
        ensures
            asset.id@ == digest_id(digest@),
    {
        let table: [char; 16] = ['0', '1', '2', '3', '4', '5', '6', '7', '8', '9', 'a', 'b', 'c', 'd', 'e', 'f'];
        assert(table@ =~= hex_chars());
        let mut hex: Vec<char> = Vec::new();
        let mut i: usize = 0;
        assert(digest@.skip(0) =~= digest@);
        assert(hex@ + hex_of(digest@) =~= hex_of(digest@));
        while i < digest.len()
            invariant
                i <= digest.len(),
                table@ == hex_chars(),
                hex@ + hex_of(digest@.skip(i as int)) == hex_of(digest@),
                hex@.len() == 2 * i,
            decreases digest.len() - i,
        {
            let byte = digest[i];
            let ghost before = hex@;
            let ghost rest = digest@.skip(i as int);
            hex.push(table[(byte / 16) as usize]);
            hex.push(table[(byte % 16) as usize]);
            proof {
                assert(rest[0] == byte);
                assert(rest.drop_first() =~= digest@.skip(i + 1));
                assert(hex@ + hex_of(digest@.skip(i + 1)) =~= before + hex_of(rest));
            }
            i += 1;
        }
        assert(digest@.skip(i as int) =~= Seq::<u8>::empty());
        assert(hex@ + Seq::<char>::empty() =~= hex@);
        let kept = if hex.len() <= 12 {
            slice_of(&hex, 0, hex.len())
        } else {
            slice_of(&hex, 0, 12)
        };
        assert(hex@.subrange(0, hex@.len() as int) =~= hex@);
        AssetId { id: string_of(&kept) }
    }

    /// The media type of a file, from its name alone: nothing reads the bytes.
    /// `None` is an honest absence, an unknown type.
    pub fn mime_for(path: &str) -> (mime: Option<String>)
        ensures
            match mime {
                Some(m) => mime_of(path@) == Some(m@),
                None => mime_of(path@) is None,
            },
    {
        let chars = chars_of(path);
        let ext = match extension_of(&chars) {
            Some(ext) => ext,
            None => return None,
        };
        let lower_text = lowercased(string_of(&ext).as_str());
        let e = chars_of(lower_text.as_str());
        Self::lookup(&e)
    }

    /// The table, for an extension already lowercased.
    fn lookup(e: &[char]) -> (mime: Option<String>)
        ensures
            match mime {
                Some(m) => mime_table(e@) == Some(m@),
                None => mime_table(e@) is None,
            },
    {
        if Self::is(e, "png") {
            Some("image/png".to_owned())
        } else if Self::is(e, "jpg") || Self::is(e, "jpeg") {
            Some("image/jpeg".to_owned())
        } else if Self::is(e, "gif") {
            Some("image/gif".to_owned())
        } else if Self::is(e, "webp") {
            Some("image/webp".to_owned())
        } else if Self::is(e, "bmp") {
            Some("image/bmp".to_owned())
        } else if Self::is(e, "svg") {
            Some("image/svg+xml".to_owned())
        } else if Self::is(e, "heic") {
            Some("image/heic".to_owned())
        } else if Self::is(e, "avif") {
            Some("image/avif".to_owned())
        } else if Self::is(e, "pdf") {
            Some("application/pdf".to_owned())
        } else if Self::is(e, "txt") || Self::is(e, "log") {
            Some("text/plain".to_owned())
        } else if Self::is(e, "md") {
            Some("text/markdown".to_owned())
        } else if Self::is(e, "csv") {
            Some("text/csv".to_owned())
        } else if Self::is(e, "json") {
            Some("application/json".to_owned())
        } else if Self::is(e, "toml") {
            Some("application/toml".to_owned())
        } else if Self::is(e, "yaml") || Self::is(e, "yml") {
            Some("application/yaml".to_owned())
        } else if Self::is(e, "html") || Self::is(e, "htm") {
            Some("text/html".to_owned())
        } else if Self::is(e, "zip") {
            Some("application/zip".to_owned())
        } else if Self::is(e, "gz") || Self::is(e, "tgz") {
            Some("application/gzip".to_owned())
        } else if Self::is(e, "apk") {
            Some("application/vnd.android.package-archive".to_owned())
        } else if Self::is(e, "mp4") {
            Some("video/mp4".to_owned())
        } else if Self::is(e, "mov") {
            Some("video/quicktime".to_owned())
        } else if Self::is(e, "webm") {
            Some("video/webm".to_owned())
        } else if Self::is(e, "mp3") {
            Some("audio/mpeg".to_owned())
        } else if Self::is(e, "wav") {
            Some("audio/wav".to_owned())
        } else if Self::is(e, "m4a") {
            Some("audio/mp4".to_owned())
        } else {
            None
        }
    }

    fn is(e: &[char], name: &str) -> (same: bool)
        ensures
            same == (e@ == name@),
    {
        let n = chars_of(name);
        crate::text::same_chars(e, &n)
    }

    /// The same path as a person would write it: Windows' extended-length
    /// prefix stripped, but only where the plain form still names the same
    /// file, so a path long enough to need it, or a UNC share, keeps it.
    pub fn plain(path: &str) -> (plain: String)
        ensures
            plain@ == plain_path(path@),
    {
        let p = chars_of(path);
        let long: [char; 4] = ['\\', '\\', '?', '\\'];
        assert(long@ =~= long_prefix());
        if !starts_with(&p, &long) {
            return string_of(&p);
        }
        let rest = slice_of(&p, 4, p.len());
        assert(rest@ =~= p@.skip(4));
        let ordinary = rest.len() > 2 && ((0x61 <= rest[0] as u32 && rest[0] as u32 <= 0x7a) || (0x41
            <= rest[0] as u32 && rest[0] as u32 <= 0x5a)) && rest[1] == ':' && (rest[2] == '\\'
            || rest[2] == '/');
        assert(ordinary == names_a_drive(rest@));
        if ordinary && utf8_of(&rest).len() < 260 {
            return string_of(&rest);
        }
        string_of(&p)
    }
}

} // verus!
