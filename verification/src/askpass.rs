//! The `sudo` askpass helper's rules: which 1Password secret references it
//! accepts, and which files and directories it trusts. It fails closed.
use crate::text::{chars_of, text_eq, trim, trimmed};
use crate::ui::messages::is_control;
use vstd::prelude::*;
use vstd::string::StringSliceAdditionalSpecFns;
use vstd::utf8::encode_utf8;

verus! {

/// Where the 1Password CLI may be installed, in the order tried.
pub const OP_CANDIDATES: [&'static str; 2] = ["/opt/homebrew/bin/op", "/usr/local/bin/op"];

/// The longest reference accepted, in bytes.
pub const MAX_REFERENCE_BYTES: usize = 1024;

/// How many `/` characters `s` holds.
pub open spec fn slashes(s: Seq<char>) -> nat
    decreases s.len(),
{
    if s.len() == 0 {
        0
    } else {
        slashes(s.drop_last()) + if s.last() == '/' {
            1nat
        } else {
            0nat
        }
    }
}

/// Whether splitting `s` at `/` gives an empty component: `s` is empty,
/// starts or ends with `/`, or holds `//`.
pub open spec fn has_empty_component(s: Seq<char>) -> bool {
    ||| s.len() == 0
    ||| s[0] == '/'
    ||| s.last() == '/'
    ||| exists|i: int| 0 <= i < s.len() - 1 && #[trigger] s[i] == '/' && s[i + 1] == '/'
}

/// Whether `s` holds a control character.
pub open spec fn has_control(s: Seq<char>) -> bool {
    exists|i: int| 0 <= i < s.len() && #[trigger] is_control(s[i])
}

/// The prefix of a 1Password secret reference.
pub open spec fn op_prefix() -> Seq<char> {
    seq!['o', 'p', ':', '/', '/']
}

/// What `validate_reference` answers for a reference: it must be one short,
/// single, trimmed line, start with `op://`, and name a vault, an item,
/// possibly a section, and a field, none of them empty.
pub open spec fn reference_verdict(s: Seq<char>) -> Result<(), Seq<char>> {
    if encode_utf8(s).len() > MAX_REFERENCE_BYTES || has_control(s) || trimmed(s) != s {
        Err("sudo-secret must contain one bounded reference"@)
    } else if !(s.len() >= 5 && s.take(5) == op_prefix()) {
        Err("sudo-secret must contain an op:// reference"@)
    } else {
        let components = s.skip(5);
        if !(2 <= slashes(components) <= 3) || has_empty_component(components) {
            Err("sudo-secret must identify a vault, item, and field"@)
        } else {
            Ok(())
        }
    }
}

/// Check a 1Password secret reference.
pub fn validate_reference(reference: &str) -> (r: Result<(), &'static str>)
    ensures
        match (r, reference_verdict(reference@)) {
            (Ok(()), Ok(())) => true,
            (Err(m), Err(t)) => m@ == t,
            _ => false,
        },
{
    let chars = chars_of(reference);
    let mut control = false;
    let mut i: usize = 0;
    while i < chars.len()
        invariant
            i <= chars.len(),
            chars@ == reference@,
            control == exists|j: int| 0 <= j < i && #[trigger] is_control(chars@[j]),
        decreases chars.len() - i,
    {
        if crate::ui::messages::control(chars[i]) {
            control = true;
        }
        i = i + 1;
    }
    let too_long = reference.as_bytes().len() > MAX_REFERENCE_BYTES;
    let untrimmed = !text_eq(trim(reference), reference);
    if too_long || control || untrimmed {
        return Err("sudo-secret must contain one bounded reference");
    }
    let n = chars.len();
    let prefixed = n >= 5 && chars[0] == 'o' && chars[1] == 'p' && chars[2] == ':' && chars[3] == '/'
        && chars[4] == '/';
    if !prefixed {
        proof {
            if reference@.len() >= 5 && reference@.take(5) == op_prefix() {
                assert(reference@.take(5)[0] == 'o');
                assert(reference@.take(5)[1] == 'p');
                assert(reference@.take(5)[2] == ':');
                assert(reference@.take(5)[3] == '/');
                assert(reference@.take(5)[4] == '/');
            }
        }
        return Err("sudo-secret must contain an op:// reference");
    }
    assert(reference@.take(5) =~= op_prefix());
    let ghost components = reference@.skip(5);
    let mut count: usize = 0;
    let mut empty = n == 5 || chars[5] == '/' || chars[n - 1] == '/';
    let mut k: usize = 5;
    while k < n
        invariant
            5 <= k <= n,
            n == chars.len(),
            chars@ == reference@,
            components == reference@.skip(5),
            count == slashes(components.take(k - 5)),
            count <= k - 5,
            (n == 5 || chars@[5] == '/' || chars@[n - 1] == '/' || exists|i: int|
                0 <= i < k - 5 && i < components.len() - 1 && #[trigger] components[i] == '/'
                    && components[i + 1] == '/')
                == empty,
        decreases n - k,
    {
        assert(components.take(k - 4).drop_last() =~= components.take(k - 5));
        assert(components.take(k - 4).last() == chars@[k as int]);
        if chars[k] == '/' {
            count = count + 1;
            if k + 1 < n && chars[k + 1] == '/' {
                empty = true;
                assert(components[k - 5] == '/' && components[k - 4] == '/');
            }
        }
        k = k + 1;
    }
    assert(components.take(n - 5) =~= components);
    if !(count >= 2 && count <= 3) || empty {
        return Err("sudo-secret must identify a vault, item, and field");
    }
    Ok(())
}

/// The reference file's directory: a directory of the owner that group and
/// others cannot write.
pub fn check_reference_directory(is_dir: bool, uid: u32, mode: u32, owner: u32) -> (r: Result<(), &'static str>)
    ensures
        (is_dir && uid == owner && mode & 0o022u32 == 0) ==> r is Ok,
        !(is_dir && uid == owner && mode & 0o022u32 == 0) ==> (r matches Err(m) && m@
            == "sudo-secret directory has unsafe ownership or permissions"@),
{
    if !is_dir || uid != owner || mode & 0o022u32 != 0 {
        return Err("sudo-secret directory has unsafe ownership or permissions");
    }
    Ok(())
}

/// The reference file: a regular file of the owner that nobody else can
/// read or write.
pub fn check_reference_file(is_file: bool, uid: u32, mode: u32, owner: u32) -> (r: Result<(), &'static str>)
    ensures
        (is_file && uid == owner && mode & 0o077u32 == 0) ==> r is Ok,
        !(is_file && uid == owner && mode & 0o077u32 == 0) ==> (r matches Err(m) && m@
            == "sudo-secret has unsafe type, ownership, or permissions"@),
{
    if !is_file || uid != owner || mode & 0o077u32 != 0 {
        return Err("sudo-secret has unsafe type, ownership, or permissions");
    }
    Ok(())
}

/// The 1Password CLI itself: an executable file that group and others
/// cannot write, owned by the user or by root.
pub fn executable_file_is_safe(is_file: bool, mode: u32, uid: u32, owner: u32) -> (r: bool)
    ensures
        r == (is_file && mode & 0o111u32 != 0 && mode & 0o022u32 == 0 && (uid == owner || uid
            == 0)),
{
    is_file && mode & 0o111u32 != 0 && mode & 0o022u32 == 0 && (uid == owner || uid == 0)
}

/// A directory above the CLI: owned by the user or by root, and not
/// writable by group or others.
pub fn directory_is_trusted(is_dir: bool, uid: u32, mode: u32, owner: u32) -> (r: bool)
    ensures
        r == (is_dir && (uid == owner || uid == 0) && mode & 0o022u32 == 0),
{
    is_dir && (uid == owner || uid == 0) && mode & 0o022u32 == 0
}

} // verus!
