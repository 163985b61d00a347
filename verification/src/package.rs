//! Task packages: what a demand points the providers at.
//!
//! A package is either a local archive — published out-of-band, its digest
//! computed here from its bytes — or a URL to a resource already published,
//! which is only validated, never re-published.  The digest call and the
//! URL parser are the two outside computations the logic leans on; both are
//! taken on trust at their interface and named, and everything around them
//! is verified.

use vstd::prelude::*;
use vstd::string::StringExecFns;

verus! {

/// A runtime version, as the demand advertises it.
#[derive(Clone, Copy, PartialEq, Eq, Structural, Debug)]
pub struct Version {
    pub major: u64,
    pub minor: u64,
    pub patch: u64,
}

/// The runtime an image targets.
#[derive(Clone, Copy, PartialEq, Eq, Structural, Debug)]
pub enum Image {
    Wasm(Version),
    GVMKit(Version),
    Sgx(Version),
}

impl Image {
    /// The provider-side runtime name the image asks for.
    pub fn runtime_name(&self) -> (r: &'static str)
        ensures
            self is Wasm ==> r@ == "wasmtime"@,
            self is GVMKit ==> r@ == "vm"@,
            self is Sgx ==> r@ == "sgx"@,
    {
        match self {
            Image::Wasm(_) => "wasmtime",
            Image::GVMKit(_) => "vm",
            Image::Sgx(_) => "sgx",
        }
    }

    pub fn runtime_version(&self) -> (r: Version)
        ensures
            self matches Image::Wasm(v) ==> r == v,
            self matches Image::GVMKit(v) ==> r == v,
            self matches Image::Sgx(v) ==> r == v,
    {
        match self {
            Image::Wasm(v) => *v,
            Image::GVMKit(v) => *v,
            Image::Sgx(v) => *v,
        }
    }
}

/// The SHA3-512 digest of a byte sequence.  Its value is fixed by the
/// outside implementation; nothing here states what it is on given bytes.
pub uninterp spec fn sha3_512_of(data: Seq<u8>) -> Seq<u8>;

/// Relies on sha3::Sha3_512 (through digest::Digest::digest): the 512-bit
/// digest of the input, a function of the input bytes alone.
#[verifier::external_body]
fn sha3_512(data: &Vec<u8>) -> (r: Vec<u8>)
    ensures
        r@ == sha3_512_of(data@),
{
    <sha3::Sha3_512 as sha3::Digest>::digest(data.as_slice()).to_vec()
}

/// The characters of a byte sequence that holds only ASCII.
pub open spec fn ascii_chars(bytes: Seq<u8>) -> Seq<char> {
    Seq::new(bytes.len(), |i: int| bytes[i] as char)
}

/// Relies on String::from_utf8: ASCII bytes decode to exactly their
/// characters.
#[verifier::external_body]
fn ascii_string(bytes: Vec<u8>) -> (r: String)
    requires
        forall|i: int| 0 <= i < bytes@.len() ==> bytes@[i] < 128,
    ensures
        r@ == ascii_chars(bytes@),
{
    match String::from_utf8(bytes) {
        Ok(s) => s,
        Err(_) => String::new(),
    }
}

/// One lowercase hex digit.
pub open spec fn hex_digit(n: u8) -> char
    recommends
        n < 16,
{
    if n < 10 {
        ((n + 0x30) as u8) as char
    } else {
        ((n + 0x57) as u8) as char
    }
}

/// A byte sequence in lowercase hex, two digits per byte.
pub open spec fn hex_of(data: Seq<u8>) -> Seq<char>
    decreases data.len(),
{
    if data.len() == 0 {
        Seq::empty()
    } else {
        hex_of(data.drop_last()).push(hex_digit((data.last() / 16) as u8)).push(
            hex_digit((data.last() % 16) as u8),
        )
    }
}

fn hex_code(n: u8) -> (r: u8)
    requires
        n < 16,
    ensures
        r < 128,
        r as char == hex_digit(n),
{
    if n < 10 {
        n + 0x30
    } else {
        n + 0x57
    }
}

/// Renders bytes in lowercase hex.
pub fn to_hex(data: &Vec<u8>) -> (r: String)
    ensures
        r@ == hex_of(data@),
{
    let ghost all = data@;
    let mut out: Vec<u8> = Vec::new();
    let mut i: usize = 0;
    while i < data.len()
        invariant
            i <= all.len(),
            all == data@,
            forall|k: int| 0 <= k < out@.len() ==> out@[k] < 128,
            ascii_chars(out@) == hex_of(all.take(i as int)),
        decreases all.len() - i,
    {
        proof {
            assert(all.take(i + 1).drop_last() =~= all.take(i as int));
            assert(all.take(i + 1).last() == all[i as int]);
        }
        let b = data[i];
        let hi = hex_code(b / 16);
        let lo = hex_code(b % 16);
        out.push(hi);
        out.push(lo);
        proof {
            assert(ascii_chars(out@) =~= hex_of(all.take(i + 1)));
        }
        i = i + 1;
    }
    proof {
        assert(all.take(all.len() as int) =~= all);
    }
    ascii_string(out)
}

/// The digest under which an archive's bytes are advertised: SHA3-512 in
/// lowercase hex.
pub fn archive_digest(contents: &Vec<u8>) -> (r: String)
    ensures
        r@ == hex_of(sha3_512_of(contents@)),
{
    let d = sha3_512(contents);
    to_hex(&d)
}

/// What URL parsing makes of a string: its normalized rendering, or nothing
/// when the string is no URL.  Fixed by the outside parser.
pub uninterp spec fn url_parse_of(s: Seq<char>) -> Option<Seq<char>>;

/// Relies on url::Url::parse, with the accepted URL rendered back through
/// its display form; both depend on the input string alone.
#[verifier::external_body]
fn parse_url(s: &str) -> (r: Option<String>)
    ensures
        match r {
            Some(u) => url_parse_of(s@) == Some(u@),
            None => url_parse_of(s@) is None,
        },
{
    match url::Url::parse(s) {
        Ok(u) => Some(u.to_string()),
        Err(_) => None,
    }
}

#[derive(Debug)]
pub enum PackageError {
    InvalidUrl { url: String },
}

/// The task-package property value a demand advertises: the digest and the
/// download URL under one descriptor.
pub fn task_package_descriptor(digest: &str, url: &str) -> (r: String)
    ensures
        r@ == "hash:sha3:"@ + digest@ + ":"@ + url@,
{
    let mut s: String = "hash:sha3:".to_owned();
    s.append(digest);
    s.append(":");
    s.append(url);
    s
}

/// A path or URL to a task package.
pub enum Package {
    /// Path to a local package archive; its digest comes from its bytes and
    /// publishing happens out-of-band.
    Archive(String),
    /// A resource already published, assumed reachable under this URL.
    Url { digest: String, url: String },
}

impl Package {
    /// Resolves a pre-published package: the URL is validated and handed
    /// back in normalized form with the advertised digest, but the package
    /// is not re-published.
    pub fn resolve_published(&self) -> (r: Result<(String, String), PackageError>)
        requires
            self is Url,
        ensures
            match *self {
                Package::Url { digest, url } => match url_parse_of(url@) {
                    Some(n) => (r matches Ok((d, u)) && d@ == digest@ && u@ == n),
                    None => (r matches Err(PackageError::InvalidUrl { url: e }) && e@ == url@),
                },
                Package::Archive(_) => true,
            },
    {
        match self {
            Package::Url { digest, url } => match parse_url(url.as_str()) {
                Some(u) => Ok((digest.clone(), u)),
                None => Err(PackageError::InvalidUrl { url: url.clone() }),
            },
            Package::Archive(_) => Err(PackageError::InvalidUrl { url: String::new() }),
        }
    }
}

} // verus!
