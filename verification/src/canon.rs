use vstd::prelude::*;

verus! {

/// Relies on `dunce::canonicalize`: it resolves a path, following symlinks
/// and `.`/`..` components, to a canonical absolute form (avoiding the UNC
/// form of the underlying platform call). The path bytes are handed over as
/// UTF-8 text and the resolved path comes back as UTF-8 bytes; a path that
/// is not valid UTF-8, either way, fails like an unresolvable one. The
/// outcome depends on the filesystem, so nothing is assumed of the result;
/// callers state what holds whichever key comes back, or none.
#[verifier::external_body]
pub(crate) fn canonicalize_path(path: &[u8]) -> (r: Option<Vec<u8>>) {
    let text = match core::str::from_utf8(path) {
        Ok(t) => t,
        Err(_) => return None,
    };
    let resolved = match dunce::canonicalize(text) {
        Ok(p) => p,
        Err(_) => return None,
    };
    match resolved.to_str() {
        Some(t) => Some(t.as_bytes().to_vec()),
        None => None,
    }
}

} // verus!
