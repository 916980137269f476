//! Numbers that tell the files of all volumes apart: a file id is unique only within its
//! volume.

use vstd::prelude::*;

verus! {

/// The key of the file `fid` of volume number `vol`.
pub open spec fn key(vol: u8, fid: u32) -> u64 {
    (vol * 0x1_0000_0000 + fid) as u64
}

/// The volume number in a key.
pub open spec fn volume_in(k: u64) -> u8 {
    (k / 0x1_0000_0000) as u8
}

/// The file id in a key.
pub open spec fn id_in(k: u64) -> u32 {
    (k % 0x1_0000_0000) as u32
}

/// A key leads back to its parts, so that no two files share one.
pub broadcast proof fn key_has_parts(vol: u8, fid: u32)
    ensures
        volume_in(#[trigger] key(vol, fid)) == vol,
        id_in(key(vol, fid)) == fid,
{
}

/// The key of the file `fid` of volume number `vol`.
pub fn key_of(vol: u8, fid: u32) -> (k: u64)
    ensures
        k == key(vol, fid),
{
    vol as u64 * 0x1_0000_0000 + fid as u64
}

/// The volume number in a key.
pub fn volume_of_key(k: u64) -> (v: u8)
    ensures
        v == volume_in(k),
{
    #[verifier::truncate]
    ((k / 0x1_0000_0000) as u8)
}

} // verus!
