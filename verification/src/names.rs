//! Names of entries in the directory that holds the databases.
//!
//! A name is the sequence of bytes the platform encodes it as. Nothing here assumes that it is
//! valid UTF-8.
use vstd::prelude::*;

verus! {

/// Directories are prefixed with this before being deleted, so that if we fail to fully delete the
/// directory, we can pick up where we left off last time.
pub const DELETION_PREFIX: &'static str = "__stale_";

/// The bytes of [`DELETION_PREFIX`].
pub open spec fn deletion_prefix() -> Seq<u8> {
    seq![95u8, 95u8, 115u8, 116u8, 97u8, 108u8, 101u8, 95u8]
}

/// Whether `name` belongs to a directory that an earlier run began to delete.
pub open spec fn is_poisoned(name: Seq<u8>) -> bool {
    deletion_prefix().is_prefix_of(name)
}

/// The name that the directory `name` gets before it is deleted.
pub open spec fn poisoned(name: Seq<u8>) -> Seq<u8> {
    deletion_prefix() + name
}

/// The prefix constant is made of exactly the bytes that the contracts speak of.
pub proof fn lemma_deletion_prefix_bytes()
    ensures
        vstd::utf8::encode_utf8(DELETION_PREFIX@) == deletion_prefix(),
{
    reveal_strlit("__stale_");
    assert(DELETION_PREFIX.is_ascii());
    vstd::string::is_ascii_spec_bytes(DELETION_PREFIX);
    assert(vstd::utf8::encode_utf8(DELETION_PREFIX@) =~= deletion_prefix());
}

/// Whether `name` is the text of the deletion prefix followed by anything at all.
pub open spec fn starts_with_deletion_prefix(name: Seq<u8>) -> bool {
    exists|rest: Seq<u8>| name == #[trigger] vstd::utf8::encode_utf8("__stale_"@).add(rest)
}

/// The names that a partially deleted directory can have are those that start with the prefix, and
/// poisoning a name puts the prefix in front of it and changes nothing else.
pub proof fn law_poisoned_names_start_with_the_prefix(name: Seq<u8>)
    ensures
        is_poisoned(name) <==> starts_with_deletion_prefix(name),
        poisoned(name) == vstd::utf8::encode_utf8("__stale_"@).add(name),
        poisoned(name).len() == name.len() + 8,
        starts_with_deletion_prefix(poisoned(name)),
{
    lemma_deletion_prefix_bytes();
    let prefix = vstd::utf8::encode_utf8("__stale_"@);
    assert(prefix == deletion_prefix());
    if is_poisoned(name) {
        assert(name =~= prefix.add(name.skip(8)));
    }
    if starts_with_deletion_prefix(name) {
        let rest = choose|rest: Seq<u8>| name == #[trigger] prefix.add(rest);
        assert(prefix =~= name.subrange(0, 8));
    }
    assert(poisoned(name) =~= prefix.add(name));
}

/// Whether two names are the same.
pub fn same_name(a: &[u8], b: &[u8]) -> (same: bool)
    ensures
        same == (a@ == b@),
{
    if a.len() != b.len() {
        return false;
    }
    let mut i: usize = 0;
    while i < a.len()
        invariant
            i <= a.len(),
            a.len() == b.len(),
            forall|j: int| 0 <= j < i ==> a@[j] == b@[j],
        decreases a.len() - i,
    {
        if a[i] != b[i] {
            assert(a@[i as int] != b@[i as int]);
            return false;
        }
        i = i + 1;
    }
    assert(a@ =~= b@);
    true
}

/// Whether `name` starts with [`DELETION_PREFIX`].
pub fn has_deletion_prefix(name: &[u8]) -> (found: bool)
    ensures
        found == is_poisoned(name@),
        found <==> starts_with_deletion_prefix(name@),
{
    proof {
        law_poisoned_names_start_with_the_prefix(name@);
    }
    let prefix: &[u8] = DELETION_PREFIX.as_bytes();
    proof {
        lemma_deletion_prefix_bytes();
    }
    if name.len() < prefix.len() {
        return false;
    }
    let mut i: usize = 0;
    while i < prefix.len()
        invariant
            prefix@ == deletion_prefix(),
            i <= prefix.len() <= name.len(),
            forall|j: int| 0 <= j < i ==> prefix@[j] == name@[j],
        decreases prefix.len() - i,
    {
        if name[i] != prefix[i] {
            assert(name@.subrange(0, prefix@.len() as int)[i as int] != prefix@[i as int]);
            proof {
                law_poisoned_names_start_with_the_prefix(name@);
            }
            return false;
        }
        i = i + 1;
    }
    assert(prefix@ =~= name@.subrange(0, prefix@.len() as int));
    true
}

/// The name that poisons the directory `name`: [`DELETION_PREFIX`], then `name` itself.
pub fn poisoned_name(name: &[u8]) -> (new_name: Vec<u8>)
    ensures
        new_name@ == poisoned(name@),
        new_name@ == vstd::utf8::encode_utf8(DELETION_PREFIX@).add(name@),
{
    let mut new_name: Vec<u8> = vstd::slice::slice_to_vec(DELETION_PREFIX.as_bytes());
    proof {
        lemma_deletion_prefix_bytes();
    }
    new_name.extend_from_slice(name);
    assert(new_name@ =~= poisoned(name@));
    new_name
}

/// What is done with an entry of the directory that holds the databases.
#[derive(Clone, Copy, PartialEq, Eq, Structural, Debug)]
pub enum EntryKind {
    /// The current version's database, or something that is not a directory: it is left alone.
    Ignored,
    /// A partially deleted directory, whose removal is to be finished.
    Leftover,
    /// A database with a version other than the current one.
    OtherDb,
}

/// What is done with the entry `name` while `version` is the current version. `is_dir` is `None`
/// where the type of the entry could not be read.
pub open spec fn entry_kind(name: Seq<u8>, is_dir: Option<bool>, version: Seq<u8>) -> EntryKind {
    if name == version || is_dir != Some(true) {
        EntryKind::Ignored
    } else if is_poisoned(name) {
        EntryKind::Leftover
    } else {
        EntryKind::OtherDb
    }
}

/// Sorts an entry into its [`EntryKind`].
pub fn classify_entry(name: &[u8], is_dir: Option<bool>, version: &[u8]) -> (kind: EntryKind)
    ensures
        kind == entry_kind(name@, is_dir, version@),
        kind == EntryKind::Ignored <==> name@ == version@ || is_dir != Some(true),
        kind != EntryKind::Ignored ==> (kind == EntryKind::Leftover <==> starts_with_deletion_prefix(
            name@,
        )),
{
    // skip our target version (if it exists)
    if same_name(name, version) {
        return EntryKind::Ignored;
    }
    // skip non-directories
    match is_dir {
        Some(true) => {},
        _ => {
            return EntryKind::Ignored;
        },
    }
    if has_deletion_prefix(name) {
        EntryKind::Leftover
    } else {
        EntryKind::OtherDb
    }
}

/// An entry is ignored exactly when it has the current version's whole name or is not known to be a
/// directory. Every other one is a partially deleted directory where its name starts with the
/// deletion prefix, and a database with another version where it does not, however much its name
/// has in common with the current version's.
pub proof fn law_every_other_directory_counts(name: Seq<u8>, is_dir: Option<bool>, version: Seq<u8>)
    ensures
        ({
            let kind = entry_kind(name, is_dir, version);
            let counts = name != version && is_dir == Some(true);
            &&& kind == EntryKind::Ignored <==> !counts
            &&& kind == EntryKind::Leftover <==> counts && starts_with_deletion_prefix(name)
            &&& kind == EntryKind::OtherDb <==> counts && !starts_with_deletion_prefix(name)
        }),
{
    law_poisoned_names_start_with_the_prefix(name);
}

/// A directory that was poisoned and then not fully deleted is found again by a later run, which
/// finishes its removal, unless its name has become that of the current version.
pub proof fn law_poisoned_directory_is_found_again(name: Seq<u8>, version: Seq<u8>)
    requires
        poisoned(name) != version,
    ensures
        entry_kind(poisoned(name), Some(true), version) == EntryKind::Leftover,
{
    assert(deletion_prefix() =~= poisoned(name).subrange(0, deletion_prefix().len() as int));
}

/// Directories with different names keep different names when they are poisoned, and a poisoned
/// name is never the name it was made from.
pub proof fn law_poisoned_names_do_not_clash(a: Seq<u8>, b: Seq<u8>)
    ensures
        poisoned(a) == poisoned(b) <==> a == b,
        poisoned(a) != a,
{
    let n = deletion_prefix().len() as int;
    assert(poisoned(a).skip(n) =~= a);
    assert(poisoned(b).skip(n) =~= b);
    assert(poisoned(a).len() > a.len());
}

} // verus!
