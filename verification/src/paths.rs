//! Mapping (application data root, datastore, key) to filesystem paths.
//!
//! Every datastore lives in its own directory directly under
//! `<root>/studio-datastores`, and every entry is a regular file directly
//! inside its datastore's directory. Paths are joined with `/`. Because
//! valid names never contain `/` or `.`, a resolved path can neither nest
//! namespaces nor traverse out of the root.
//!
//! Resolution only computes paths; creating the directory chain (an
//! idempotent side effect the storage contract demands) is the host
//! shell's part.

use vstd::prelude::*;
use vstd::string::StringExecFns;

use crate::errors::{
    is_invalid_datastore_error, is_invalid_key_error, StorageError,
};
use crate::names::{valid_name, valid_name_char, validate_name};

verus! {

/// The directory under the application data root that holds every
/// datastore.
pub open spec fn datastores_dir_name() -> Seq<char> {
    "studio-datastores"@
}

/// The directory that holds every datastore: `<root>/studio-datastores`.
pub open spec fn base_dir(root: Seq<char>) -> Seq<char> {
    root + "/"@ + datastores_dir_name()
}

/// The directory of one datastore: `<root>/studio-datastores/<name>`.
pub open spec fn datastore_dir(root: Seq<char>, name: Seq<char>) -> Seq<char> {
    base_dir(root) + "/"@ + name
}

/// The file of one entry: `<root>/studio-datastores/<name>/<key>`.
pub open spec fn entry_path(root: Seq<char>, name: Seq<char>, key: Seq<char>) -> Seq<char> {
    datastore_dir(root, name) + "/"@ + key
}

/// The directory that holds every datastore under the given application
/// data root.
pub fn datastore_base_path(root: &str) -> (r: String)
    ensures
        r@ == base_dir(root@),
{
    let mut p = String::from_str(root);
    p.append("/");
    p.append("studio-datastores");
    p
}

/// Validates `name` and resolves the directory of that datastore under the
/// given application data root. Fails exactly when the name breaks the
/// charset rule; the path itself always resolves.
pub fn resolve_datastore_dir(root: &str, name: &str) -> (r: Result<String, StorageError>)
    ensures
        valid_name(name@) ==> (r matches Ok(p) && p@ == datastore_dir(root@, name@)),
        !valid_name(name@) ==> (r matches Err(e) && is_invalid_datastore_error(e, name@)),
{
    if !validate_name(name) {
        return Err(StorageError::invalid_datastore(name));
    }
    let mut p = datastore_base_path(root);
    p.append("/");
    p.append(name);
    Ok(p)
}

/// Validates `key` and `name` (the key first) and resolves the file that
/// holds the entry. Fails exactly when one of them breaks the charset
/// rule. It does not follow that the file exists: creation is deferred to
/// the write operation.
pub fn resolve_entry_path(root: &str, name: &str, key: &str) -> (r: Result<
    String,
    StorageError,
>)
    ensures
        !valid_name(key@) ==> (r matches Err(e) && is_invalid_key_error(e, key@)),
        valid_name(key@) && !valid_name(name@) ==> (r matches Err(e)
            && is_invalid_datastore_error(e, name@)),
        valid_name(key@) && valid_name(name@) ==> (r matches Ok(p) && p@ == entry_path(
            root@,
            name@,
            key@,
        )),
{
    if !validate_name(key) {
        return Err(StorageError::invalid_key(key));
    }
    match resolve_datastore_dir(root, name) {
        Ok(mut p) => {
            p.append("/");
            p.append(key);
            Ok(p)
        },
        Err(e) => Err(e),
    }
}

/// Law: within one root, a resolved entry path determines the datastore
/// and the key. Valid names contain no `/`, so the name segments of two
/// equal paths cannot shift against each other — which is why the charset
/// rule keeps every entry a direct child of exactly one datastore
/// directory.
pub proof fn lemma_entry_path_injective(
    root: Seq<char>,
    d1: Seq<char>,
    k1: Seq<char>,
    d2: Seq<char>,
    k2: Seq<char>,
)
    requires
        valid_name(d1),
        valid_name(k1),
        valid_name(d2),
        valid_name(k2),
        entry_path(root, d1, k1) == entry_path(root, d2, k2),
    ensures
        d1 == d2,
        k1 == k2,
{
    reveal_strlit("/");
    let s = "/"@;
    assert(s.len() == 1);
    let p = entry_path(root, d1, k1);
    let n = base_dir(root).len() as int + 1;
    assert(p.len() == n + d1.len() + 1 + k1.len());
    assert(p.len() == n + d2.len() + 1 + k2.len());
    assert forall|i: int| n <= i < n + d1.len() implies p[i] != '/' by {
        assert(p[i] == d1[i - n]);
        assert(valid_name_char(d1[i - n]));
    }
    assert forall|i: int| n <= i < n + d2.len() implies p[i] != '/' by {
        assert(p[i] == d2[i - n]);
        assert(valid_name_char(d2[i - n]));
    }
    assert(p[n + d1.len()] == s[0]);
    assert(p[n + d2.len()] == s[0]);
    assert(s[0] == '/');
    assert(d1.len() == d2.len());
    assert forall|i: int| 0 <= i < d1.len() implies d1[i] == d2[i] by {
        assert(p[n + i] == d1[i]);
        assert(p[n + i] == d2[i]);
    }
    assert(d1 =~= d2);
    let j = n + d1.len() + 1;
    assert(k1.len() == k2.len());
    assert forall|i: int| 0 <= i < k1.len() implies k1[i] == k2[i] by {
        assert(p[j + i] == k1[i]);
        assert(p[j + i] == k2[i]);
    }
    assert(k1 =~= k2);
}

} // verus!
