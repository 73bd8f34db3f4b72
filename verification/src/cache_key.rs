//! The content-addressed cache key: the freedesktop.org thumbnail identity
//! hash of a file, and the cache locations derived from it.
use vstd::prelude::*;
use vstd::string::StrSliceExecFns;
use vstd::string::StringExecFns;
use vstd::utf8::encode_utf8;
use sha1::Digest;

verus! {

/// The SHA-1 digest of a byte sequence.  Stating the algorithm itself is out
/// of scope; the name pins only that the digest is a function of the bytes.
pub uninterp spec fn sha1_of(bytes: Seq<u8>) -> Seq<u8>;

/// Relies on sha1::Sha1::digest: the SHA-1 digest of the input, 20 bytes
/// long, a function of the input bytes alone.
#[verifier::external_body]
fn sha1_digest(bytes: &Vec<u8>) -> (r: Vec<u8>)
    ensures
        r@ == sha1_of(bytes@),
        r@.len() == 20,
{
    let digest = sha1::Sha1::digest(bytes.as_slice());
    digest.to_vec()
}

/// The lowercase hex character of a value below 16.
pub open spec fn hex_char(n: u8) -> char {
    match n {
        0 => '0',
        1 => '1',
        2 => '2',
        3 => '3',
        4 => '4',
        5 => '5',
        6 => '6',
        7 => '7',
        8 => '8',
        9 => '9',
        10 => 'a',
        11 => 'b',
        12 => 'c',
        13 => 'd',
        14 => 'e',
        15 => 'f',
        _ => '0',
    }
}

/// Lowercase hex rendering of a byte sequence, two characters per byte.
pub open spec fn hex_of(bytes: Seq<u8>) -> Seq<char>
    decreases bytes.len(),
{
    if bytes.len() == 0 {
        Seq::empty()
    } else {
        hex_of(bytes.drop_last()) + seq![
            hex_char(bytes.last() / 16),
            hex_char(bytes.last() % 16),
        ]
    }
}

pub proof fn lemma_hex_of_len(bytes: Seq<u8>)
    ensures
        hex_of(bytes).len() == 2 * bytes.len(),
    decreases bytes.len(),
{
    if bytes.len() == 0 {
    } else {
        lemma_hex_of_len(bytes.drop_last());
    }
}

/// A lowercase hex digit.
pub open spec fn is_hex_char(c: char) -> bool {
    ('0' <= c && c <= '9') || ('a' <= c && c <= 'f')
}

/// Every character of a hex rendering is a lowercase hex digit.
pub proof fn lemma_hex_of_chars(bytes: Seq<u8>)
    ensures
        forall|i: int| 0 <= i < hex_of(bytes).len() ==> is_hex_char(#[trigger] hex_of(bytes)[i]),
    decreases bytes.len(),
{
    if bytes.len() == 0 {
    } else {
        lemma_hex_of_chars(bytes.drop_last());
        lemma_hex_of_len(bytes.drop_last());
        assert(is_hex_char(hex_char(bytes.last() / 16)));
        assert(is_hex_char(hex_char(bytes.last() % 16)));
    }
}

/// The identity hash is a function of the canonical path alone: two equal
/// canonical paths always carry the same key, across processes and runs.
pub proof fn lemma_key_deterministic(p1: Seq<char>, p2: Seq<char>)
    requires
        p1 == p2,
    ensures
        thumbnail_hash(p1) == thumbnail_hash(p2),
{
}

fn hex_digit_str(n: u8) -> (r: &'static str)
    requires
        n < 16,
    ensures
        r@ == seq![hex_char(n)],
{
    let r: &'static str = match n {
        0 => "0",
        1 => "1",
        2 => "2",
        3 => "3",
        4 => "4",
        5 => "5",
        6 => "6",
        7 => "7",
        8 => "8",
        9 => "9",
        10 => "a",
        11 => "b",
        12 => "c",
        13 => "d",
        14 => "e",
        _ => "f",
    };
    proof {
        reveal_strlit("0");
        reveal_strlit("1");
        reveal_strlit("2");
        reveal_strlit("3");
        reveal_strlit("4");
        reveal_strlit("5");
        reveal_strlit("6");
        reveal_strlit("7");
        reveal_strlit("8");
        reveal_strlit("9");
        reveal_strlit("a");
        reveal_strlit("b");
        reveal_strlit("c");
        reveal_strlit("d");
        reveal_strlit("e");
        reveal_strlit("f");
        assert(r@ =~= seq![hex_char(n)]);
    }
    r
}

/// Lowercase hex rendering of `bytes`.
pub fn to_hex(bytes: &Vec<u8>) -> (r: String)
    ensures
        r@ == hex_of(bytes@),
        r@.len() == 2 * bytes@.len(),
{
    let mut r = String::new();
    let mut i: usize = 0;
    while i < bytes.len()
        invariant
            i <= bytes@.len(),
            r@ == hex_of(bytes@.take(i as int)),
        decreases bytes@.len() - i,
    {
        proof {
            assert(bytes@.take(i as int + 1).drop_last() =~= bytes@.take(i as int));
            assert(bytes@.take(i as int + 1).last() == bytes@[i as int]);
        }
        let b: u8 = bytes[i];
        r.append(hex_digit_str(b / 16));
        r.append(hex_digit_str(b % 16));
        proof {
            assert(r@ =~= hex_of(bytes@.take(i as int + 1)));
        }
        i = i + 1;
    }
    proof {
        assert(bytes@.take(bytes@.len() as int) =~= bytes@);
        lemma_hex_of_len(bytes@);
    }
    r
}

/// The `file://` URI of a path, whose UTF-8 bytes are what the identity hash
/// covers.
pub open spec fn file_uri(path: Seq<char>) -> Seq<char> {
    seq!['f', 'i', 'l', 'e', ':', '/', '/'] + path
}

/// The identity hash of a source file: lowercase hex of the SHA-1 digest of
/// the UTF-8 bytes of its `file://` URI.
pub open spec fn thumbnail_hash(path: Seq<char>) -> Seq<char> {
    hex_of(sha1_of(encode_utf8(file_uri(path))))
}

/// The path a hash is expected to come from: the canonicalized form of the
/// source path where canonicalization succeeded, the path as given where it
/// failed.  Key computation never fails on that account.
pub fn effective_source_path(given: &str, canonical: Option<String>) -> (r: String)
    ensures
        match canonical {
            Some(c) => r@ == c@,
            None => r@ == given@,
        },
{
    match canonical {
        Some(c) => c,
        None => String::from_str(given),
    }
}

/// The 40-character identity hash of the (already canonicalized or
/// fallen-back) source path.
pub fn get_thumbnail_hash(path: &str) -> (r: Option<String>)
    ensures
        r is Some,
        r.unwrap()@ == thumbnail_hash(path@),
        r.unwrap()@.len() == 40,
        forall|i: int| 0 <= i < r.unwrap()@.len() ==> is_hex_char(#[trigger] r.unwrap()@[i]),
{
    let mut uri = String::from_str("file://");
    uri.append(path);
    proof {
        reveal_strlit("file://");
        assert(uri@ =~= file_uri(path@));
    }
    let bytes: Vec<u8> = uri.as_str().as_bytes_vec();
    let digest = sha1_digest(&bytes);
    let hex = to_hex(&digest);
    proof {
        lemma_hex_of_chars(digest@);
    }
    Some(hex)
}

/// Where a thumbnail for `path` lives under a private cache directory:
/// `cache_dir/<hash>.png`.
pub open spec fn cache_entry_path(path: Seq<char>, cache_dir: Seq<char>) -> Seq<char> {
    cache_dir + seq!['/'] + thumbnail_hash(path) + ".png"@
}

pub fn get_cached_thumbnail_path_static(path: &str, cache_dir: &str) -> (r: Option<String>)
    ensures
        r is Some,
        r.unwrap()@ == cache_entry_path(path@, cache_dir@),
{
    let hash = match get_thumbnail_hash(path) {
        Some(h) => h,
        None => {
            return None;
        },
    };
    let mut p = String::from_str(cache_dir);
    p.append("/");
    p.append(hash.as_str());
    p.append(".png");
    proof {
        reveal_strlit("/");
        assert(p@ =~= cache_entry_path(path@, cache_dir@));
    }
    Some(p)
}

/// The fallback chain for the thumbnail cache directory: the platform
/// cache-home when there is one, else `.cache` under the home directory,
/// else a bare `.cache`, always ending in `thumbnails/normal`.
pub open spec fn resolved_cache_dir(cache_home: Option<Seq<char>>, home: Option<Seq<char>>)
    -> Seq<char> {
    match cache_home {
        Some(ch) => ch + "/thumbnails/normal"@,
        None => match home {
            Some(h) => h + "/.cache/thumbnails/normal"@,
            None => ".cache/thumbnails/normal"@,
        },
    }
}

/// The thumbnail cache directory for given platform lookups, following the
/// documented fallback chain.
pub fn resolve_thumbnail_cache_dir(cache_home: Option<String>, home: Option<String>) -> (r:
    String)
    ensures
        r@ == resolved_cache_dir(
            match cache_home {
                Some(ch) => Some(ch@),
                None => None,
            },
            match home {
                Some(h) => Some(h@),
                None => None,
            },
        ),
{
    match cache_home {
        Some(ch) => {
            let mut r = ch;
            r.append("/thumbnails/normal");
            r
        },
        None => match home {
            Some(h) => {
                let mut r = h;
                r.append("/.cache/thumbnails/normal");
                r
            },
            None => String::from_str(".cache/thumbnails/normal"),
        },
    }
}

/// Relies on dirs::cache_dir: the platform's cache-home, if it defines one.
/// The outcome depends on the environment, so nothing further is pinned.
#[verifier::external_body]
fn platform_cache_home() -> (r: Option<String>) {
    dirs::cache_dir().map(|p| p.to_string_lossy().into_owned())
}

/// Relies on dirs::home_dir: the user's home directory, if the platform
/// knows one.  The outcome depends on the environment.
#[verifier::external_body]
fn platform_home_dir() -> (r: Option<String>) {
    dirs::home_dir().map(|p| p.to_string_lossy().into_owned())
}

/// The thumbnail cache directory of this system, resolved from the platform
/// lookups through the documented fallback chain.  Creating it on disk is
/// the caller's concern.
pub fn get_thumbnail_cache_dir() -> (r: String)
    ensures
        exists|ch: Option<Seq<char>>, h: Option<Seq<char>>| r@ == resolved_cache_dir(ch, h),
{
    let ch = platform_cache_home();
    let h = platform_home_dir();
    let ghost gch: Option<Seq<char>> = match ch {
        Some(ref c) => Some(c@),
        None => None,
    };
    let ghost gh: Option<Seq<char>> = match h {
        Some(ref hh) => Some(hh@),
        None => None,
    };
    let r = resolve_thumbnail_cache_dir(ch, h);
    proof {
        assert(r@ == resolved_cache_dir(gch, gh));
    }
    r
}

} // verus!
