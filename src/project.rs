//! What the tool reads from a firmware project before encoding: whether its
//! manifest names the embedded framework, its package name, and the version
//! string made from a version-control hash.
use vstd::prelude::*;

verus! {

/// The package name that a TOML manifest gives under `[package]`, if any.
pub uninterp spec fn manifest_package_name(text: Seq<char>) -> Option<Seq<char>>;

/// Relies on `toml::from_str::<toml::Table>`, `toml::Value::get` and
/// `toml::Value::as_str`: the string at `package.name`, which depends on the
/// text alone; `None` where the text is no TOML table or the key is missing or
/// no string.
#[verifier::external_body]
fn toml_package_name(text: &str) -> (r: Option<String>)
    ensures
        r is Some <==> manifest_package_name(text@) is Some,
        r matches Some(n) ==> manifest_package_name(text@) == Some(n@),
{
    let table = toml::from_str::<toml::Table>(text).ok()?;
    let name = table.get("package")?.get("name")?.as_str()?;
    Some(name.to_owned())
}

/// The project's package name, as its manifest gives it.
pub fn package_name(manifest: &str) -> (r: Option<String>)
    ensures
        match r {
            Some(n) => manifest_package_name(manifest@) == Some(n@),
            None => manifest_package_name(manifest@) is None,
        },
{
    toml_package_name(manifest)
}

/// The bytes of the word "embassy".
pub open spec fn embassy_word() -> Seq<u8> {
    seq![0x65u8, 0x6d, 0x62, 0x61, 0x73, 0x73, 0x79]
}

/// Whether `w` occurs in `s` starting at `i`.
pub open spec fn occurs_at(s: Seq<u8>, w: Seq<u8>, i: int) -> bool {
    0 <= i && i + w.len() <= s.len() && s.subrange(i, i + w.len()) == w
}

/// Whether `w` occurs anywhere in `s`.
pub open spec fn contains(s: Seq<u8>, w: Seq<u8>) -> bool {
    exists|i: int| occurs_at(s, w, i)
}

fn word_at(s: &[u8], w: &[u8], i: usize) -> (r: bool)
    requires
        i + w@.len() <= s@.len(),
    ensures
        r == occurs_at(s@, w@, i as int),
{
    let n = w.len();
    let slen = s.len();
    let mut k: usize = 0;
    while k < n
        invariant
            k <= n,
            slen == s@.len(),
            n == w@.len(),
            i + n <= s@.len(),
            s@.subrange(i as int, i + k) == w@.subrange(0, k as int),
        decreases n - k,
    {
        if s[i + k] != w[k] {
            assert(s@.subrange(i as int, i + n)[k as int] != w@[k as int]);
            return false;
        }
        k = k + 1;
        assert(s@.subrange(i as int, i + k) =~= w@.subrange(0, k as int));
    }
    assert(w@.subrange(0, n as int) =~= w@);
    true
}

/// Whether the manifest text mentions the embedded framework "embassy", the
/// sign of a firmware project.
pub fn mentions_embassy(manifest: &[u8]) -> (r: bool)
    ensures
        r == contains(manifest@, embassy_word()),
{
    let word: [u8; 7] = [0x65, 0x6d, 0x62, 0x61, 0x73, 0x73, 0x79];
    assert(word@ =~= embassy_word());
    let len = manifest.len();
    if len < 7 {
        assert(forall|i: int| !occurs_at(manifest@, embassy_word(), i));
        return false;
    }
    let mut i: usize = 0;
    while i <= len - 7
        invariant
            len == manifest@.len(),
            len >= 7,
            i <= len - 6,
            word@ == embassy_word(),
            forall|j: int| 0 <= j < i ==> !occurs_at(manifest@, embassy_word(), j),
        decreases len - i,
    {
        if word_at(manifest, word.as_slice(), i) {
            return true;
        }
        i = i + 1;
    }
    assert forall|j: int| !occurs_at(manifest@, embassy_word(), j) by {
        if 0 <= j && j >= i {
            assert(j + 7 > len);
        }
    }
    false
}

/// Whether `b` is a space, a tab or a newline.
pub open spec fn is_blank(b: u8) -> bool {
    b == 0x20 || b == 0x09 || b == 0x0a
}

/// `s` without its spaces, tabs and newlines.
pub open spec fn strip_blanks(s: Seq<u8>) -> Seq<u8>
    decreases s.len(),
{
    if s.len() == 0 {
        s
    } else if is_blank(s.last()) {
        strip_blanks(s.drop_last())
    } else {
        strip_blanks(s.drop_last()).push(s.last())
    }
}

/// The bytes of "-dirty", the mark of a working tree with changes.
pub open spec fn dirty_suffix() -> Seq<u8> {
    seq![0x2du8, 0x64, 0x69, 0x72, 0x74, 0x79]
}

/// The version string for a build: the hash that version control printed,
/// without spaces, tabs or newlines, followed by "-dirty" where `dirty`.
pub fn version_of_git_hash(raw: &[u8], dirty: bool) -> (r: Vec<u8>)
    ensures
        r@ == if dirty {
            strip_blanks(raw@) + dirty_suffix()
        } else {
            strip_blanks(raw@)
        },
{
    let mut r: Vec<u8> = Vec::new();
    let mut i: usize = 0;
    while i < raw.len()
        invariant
            i <= raw@.len(),
            r@ == strip_blanks(raw@.subrange(0, i as int)),
        decreases raw@.len() - i,
    {
        let b = raw[i];
        proof {
            assert(raw@.subrange(0, i + 1).drop_last() =~= raw@.subrange(0, i as int));
        }
        if !(b == 0x20 || b == 0x09 || b == 0x0a) {
            r.push(b);
        }
        i = i + 1;
    }
    assert(raw@.subrange(0, raw@.len() as int) =~= raw@);
    if dirty {
        let suffix: [u8; 6] = [0x2d, 0x64, 0x69, 0x72, 0x74, 0x79];
        assert(suffix@ =~= dirty_suffix());
        r.extend_from_slice(suffix.as_slice());
    }
    r
}

} // verus!
