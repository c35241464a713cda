//! VoidMerge: the verified core of a small object store and function host.

use vstd::prelude::*;

pub mod cli;
pub mod context;
pub mod context_store;
pub mod crypto;
pub mod crypto_utils;
pub mod encoding;
pub mod error;
pub mod ext;
pub mod hash;
pub mod human;
pub mod js;
pub mod keepalive;
pub mod memindex;
pub mod module_sign;
pub mod multi_sign;
pub mod obj;
pub mod secs;
pub mod server;
pub mod sign_p256;
pub mod text;
pub mod value;
pub mod vm_js;

pub use error::{Error, ErrorExt, ErrorKind, Result};

verus! {

/// Characters allowed in contexts, paths and tokens: ASCII letters, digits,
/// `-`, `_`, `.` and `~`.
pub open spec fn is_safe_char(c: char) -> bool {
    ||| ('a' <= c && c <= 'z')
    ||| ('A' <= c && c <= 'Z')
    ||| ('0' <= c && c <= '9')
    ||| c == '-' || c == '_' || c == '.' || c == '~'
}

/// Every character of `s` is safe.
pub open spec fn is_safe_str(s: Seq<char>) -> bool {
    forall|i: int| 0 <= i < s.len() ==> is_safe_char(#[trigger] s[i])
}

/// Checks that a string only uses safe characters.
pub fn safe_str(s: &str) -> (r: Result<()>)
    ensures
        r is Ok <==> is_safe_str(s@),
        r matches Err(e) ==> e.kind == ErrorKind::Other,
{
    let v = text::chars_of(s);
    let mut i: usize = 0;
    while i < v.len()
        invariant
            v@ == s@,
            i <= v@.len(),
            forall|j: int| 0 <= j < i ==> is_safe_char(#[trigger] v@[j]),
        decreases v@.len() - i,
    {
        let c = v[i];
        if !(('a' <= c && c <= 'z') || ('A' <= c && c <= 'Z') || ('0' <= c && c <= '9')
            || c == '-' || c == '_' || c == '.' || c == '~') {
            return Err(Error::other(
                "Invalid string (can only contain [a-z], [A-Z], [0-9], '-', '_', '.', and '~')",
            ));
        }
        i = i + 1;
    }
    Ok(())
}

} // verus!
