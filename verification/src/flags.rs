//! Status flags of a single file as git reports them, read through `git2`.
//!
//! A status is a set of bits; each predicate below asks `git2::Status`
//! whether one of its flags is set.
use vstd::prelude::*;

verus! {

/// The file is new in the index.
pub const INDEX_NEW: u32 = 0x1;
/// The file is modified in the index.
pub const INDEX_MODIFIED: u32 = 0x2;
/// The file is deleted in the index.
pub const INDEX_DELETED: u32 = 0x4;
/// The file changed its type in the index.
pub const INDEX_TYPECHANGE: u32 = 0x10;
/// The file is new in the working tree.
pub const WT_NEW: u32 = 0x80;
/// The file is modified in the working tree.
pub const WT_MODIFIED: u32 = 0x100;
/// The file is deleted in the working tree.
pub const WT_DELETED: u32 = 0x200;
/// The file changed its type in the working tree.
pub const WT_TYPECHANGE: u32 = 0x400;

/// Whether the status `bits` carries `flag`.
pub open spec fn has_flag(bits: u32, flag: u32) -> bool {
    bits & flag != 0
}

/// Calls `git2::Status::is_index_new`: true exactly when the index-new bit is
/// set in `bits`.
#[verifier::external_body]
pub(crate) fn is_index_new(bits: u32) -> (r: bool)
    ensures
        r == has_flag(bits, INDEX_NEW),
{
    git2::Status::from_bits_truncate(bits).is_index_new()
}

/// Calls `git2::Status::is_index_modified`: true exactly when the
/// index-modified bit is set in `bits`.
#[verifier::external_body]
pub(crate) fn is_index_modified(bits: u32) -> (r: bool)
    ensures
        r == has_flag(bits, INDEX_MODIFIED),
{
    git2::Status::from_bits_truncate(bits).is_index_modified()
}

/// Calls `git2::Status::is_index_deleted`: true exactly when the
/// index-deleted bit is set in `bits`.
#[verifier::external_body]
pub(crate) fn is_index_deleted(bits: u32) -> (r: bool)
    ensures
        r == has_flag(bits, INDEX_DELETED),
{
    git2::Status::from_bits_truncate(bits).is_index_deleted()
}

/// Calls `git2::Status::is_index_typechange`: true exactly when the
/// index-typechange bit is set in `bits`.
#[verifier::external_body]
pub(crate) fn is_index_typechange(bits: u32) -> (r: bool)
    ensures
        r == has_flag(bits, INDEX_TYPECHANGE),
{
    git2::Status::from_bits_truncate(bits).is_index_typechange()
}

/// Calls `git2::Status::is_wt_new`: true exactly when the working-tree-new
/// bit is set in `bits`.
#[verifier::external_body]
pub(crate) fn is_wt_new(bits: u32) -> (r: bool)
    ensures
        r == has_flag(bits, WT_NEW),
{
    git2::Status::from_bits_truncate(bits).is_wt_new()
}

/// Calls `git2::Status::is_wt_modified`: true exactly when the
/// working-tree-modified bit is set in `bits`.
#[verifier::external_body]
pub(crate) fn is_wt_modified(bits: u32) -> (r: bool)
    ensures
        r == has_flag(bits, WT_MODIFIED),
{
    git2::Status::from_bits_truncate(bits).is_wt_modified()
}

/// Calls `git2::Status::is_wt_deleted`: true exactly when the
/// working-tree-deleted bit is set in `bits`.
#[verifier::external_body]
pub(crate) fn is_wt_deleted(bits: u32) -> (r: bool)
    ensures
        r == has_flag(bits, WT_DELETED),
{
    git2::Status::from_bits_truncate(bits).is_wt_deleted()
}

/// Calls `git2::Status::is_wt_typechange`: true exactly when the
/// working-tree-typechange bit is set in `bits`.
#[verifier::external_body]
pub(crate) fn is_wt_typechange(bits: u32) -> (r: bool)
    ensures
        r == has_flag(bits, WT_TYPECHANGE),
{
    git2::Status::from_bits_truncate(bits).is_wt_typechange()
}

} // verus!
