//! The key under which a generated package is cached: a SHA-256 digest of everything the
//! generated package depends on.
use vstd::prelude::*;

use sha2::{Digest, Sha256};
use vstd::string::StrSliceExecFns;
use vstd::utf8::encode_utf8;


verus! {

/// The lowercase hexadecimal SHA-256 digest of `data`.
pub uninterp spec fn sha256_hex(data: Seq<u8>) -> Seq<char>;

/// `Sha256` of the `sha2` crate, fed `data` and finished, written as lowercase hex
/// (its `LowerHex` form): the digest is named, not described.
#[verifier::external_body]
fn sha256_hex_of(data: &Vec<u8>) -> (r: String)
    ensures
        r@ == sha256_hex(data@),
{
    let mut hasher = Sha256::new();
    hasher.update(data.as_slice());
    format!("{:x}", hasher.finalize())
}

/// A `.gp` file of the package: its path and its text.
pub struct SourceText {
    pub path: String,
    pub source: String,
}

/// A Go file of the package directory, with its bytes.
pub struct GoSupportFile {
    pub path: String,
    pub content: Vec<u8>,
}

pub open spec fn units_bytes(us: Seq<SourceText>) -> Seq<u8>
    decreases us.len(),
{
    if us.len() == 0 {
        Seq::empty()
    } else {
        units_bytes(us.drop_last()) + encode_utf8(us.last().path@) + encode_utf8(us.last().source@)
    }
}

pub open spec fn go_files_bytes(fs: Seq<GoSupportFile>) -> Seq<u8>
    decreases fs.len(),
{
    if fs.len() == 0 {
        Seq::empty()
    } else {
        go_files_bytes(fs.drop_last()) + encode_utf8(fs.last().path@) + fs.last().content@
    }
}

/// What the key digests: a fixed tag, the compiler's version, the package name, the
/// generated Go text, each source's path and text, and each Go file's path and bytes.
pub open spec fn cache_input(
    version: Seq<char>,
    package_name: Seq<char>,
    units: Seq<SourceText>,
    generated: Seq<char>,
    go_files: Seq<GoSupportFile>,
) -> Seq<u8> {
    encode_utf8("goplus-package-cache-v1"@) + encode_utf8(version) + encode_utf8(package_name)
        + encode_utf8(generated) + units_bytes(units) + go_files_bytes(go_files)
}

fn push_bytes(out: &mut Vec<u8>, s: &str)
    ensures
        final(out)@ == old(out)@ + encode_utf8(s@),
{
    let mut b = s.as_bytes_vec();
    out.append(&mut b);
}

/// The cache key of a generated package.
pub fn package_cache_key(
    compiler_version: &str,
    package_name: &str,
    units: &Vec<SourceText>,
    generated: &str,
    go_files: &Vec<GoSupportFile>,
) -> (r: String)
    ensures
        r@ == sha256_hex(
            cache_input(compiler_version@, package_name@, units@, generated@, go_files@),
        ),
{
    let mut data: Vec<u8> = Vec::new();
    push_bytes(&mut data, "goplus-package-cache-v1");
    push_bytes(&mut data, compiler_version);
    push_bytes(&mut data, package_name);
    push_bytes(&mut data, generated);
    let ghost head = data@;
    let ghost us = units@;
    let mut i: usize = 0;
    assert(us.take(0) =~= Seq::<SourceText>::empty());
    assert(data@ =~= head + units_bytes(us.take(0)));
    while i < units.len()
        invariant
            0 <= i <= us.len(),
            us == units@,
            data@ == head + units_bytes(us.take(i as int)),
        decreases us.len() - i,
    {
        assert(us.take(i + 1).drop_last() =~= us.take(i as int));
        assert(us.take(i + 1).last() == us[i as int]);
        push_bytes(&mut data, units[i].path.as_str());
        push_bytes(&mut data, units[i].source.as_str());
        assert(data@ =~= head + units_bytes(us.take(i + 1)));
        i = i + 1;
    }
    assert(us.take(us.len() as int) =~= us);
    let ghost mid = data@;
    let ghost fs = go_files@;
    let mut k: usize = 0;
    assert(fs.take(0) =~= Seq::<GoSupportFile>::empty());
    assert(data@ =~= mid + go_files_bytes(fs.take(0)));
    while k < go_files.len()
        invariant
            0 <= k <= fs.len(),
            fs == go_files@,
            data@ == mid + go_files_bytes(fs.take(k as int)),
        decreases fs.len() - k,
    {
        assert(fs.take(k + 1).drop_last() =~= fs.take(k as int));
        assert(fs.take(k + 1).last() == fs[k as int]);
        push_bytes(&mut data, go_files[k].path.as_str());
        let ghost before = data@;
        let mut content = copy_bytes(&go_files[k].content);
        data.append(&mut content);
        assert(data@ =~= mid + go_files_bytes(fs.take(k + 1)));
        k = k + 1;
    }
    assert(fs.take(fs.len() as int) =~= fs);
    assert(data@ =~= cache_input(compiler_version@, package_name@, units@, generated@, go_files@));
    sha256_hex_of(&data)
}

fn copy_bytes(v: &Vec<u8>) -> (r: Vec<u8>)
    ensures
        r@ == v@,
{
    let mut r: Vec<u8> = Vec::new();
    let mut i: usize = 0;
    while i < v.len()
        invariant
            0 <= i <= v@.len(),
            r@ == v@.take(i as int),
        decreases v@.len() - i,
    {
        r.push(v[i]);
        assert(v@.take(i + 1) =~= v@.take(i as int).push(v@[i as int]));
        i = i + 1;
    }
    assert(v@.take(v@.len() as int) =~= v@);
    r
}

} // verus!
