//! The identifier that the launcher derives for a non-store shortcut.

use vstd::prelude::*;
use vstd::utf8::encode_utf8;

verus! {

pub uninterp spec fn crc32_iso_hdlc(bytes: Seq<u8>) -> u32;

/// Relies on `crc::Crc::<u32>::checksum` with the `CRC_32_ISO_HDLC`
/// algorithm: the checksum depends on the bytes alone.
#[verifier::external_body]
fn crc32_checksum(bytes: &[u8]) -> (r: u32)
    ensures
        r == crc32_iso_hdlc(bytes@),
{
    crc::Crc::<u32>::new(&crc::CRC_32_ISO_HDLC).checksum(bytes)
}

/// The appid of a shortcut to `exe` named `app_name`: the CRC-32 of the two
/// texts written one after the other, with the top bit set.
pub open spec fn app_id_of(exe: Seq<char>, app_name: Seq<char>) -> u32 {
    crc32_iso_hdlc(encode_utf8(exe) + encode_utf8(app_name)) | 0x8000_0000u32
}

/// The appid for a shortcut whose checksum is `checksum`: the checksum with
/// its top bit set.
pub fn app_id_from_checksum(checksum: u32) -> (r: u32)
    ensures
        r == checksum | 0x8000_0000u32,
{
    checksum | 0x8000_0000u32
}

/// The appid of a shortcut to `exe` named `app_name`.
pub fn generate_app_id(exe: &str, app_name: &str) -> (r: u32)
    ensures
        r == app_id_of(exe@, app_name@),
{
    let mut bytes: Vec<u8> = Vec::new();
    let a = exe.as_bytes();
    let b = app_name.as_bytes();
    let mut i: usize = 0;
    while i < a.len()
        invariant
            i <= a@.len(),
            bytes@ == a@.subrange(0, i as int),
        decreases a@.len() - i,
    {
        bytes.push(a[i]);
        i = i + 1;
        assert(bytes@ =~= a@.subrange(0, i as int));
    }
    let mut j: usize = 0;
    while j < b.len()
        invariant
            j <= b@.len(),
            bytes@ == a@ + b@.subrange(0, j as int),
        decreases b@.len() - j,
    {
        bytes.push(b[j]);
        j = j + 1;
        assert(bytes@ =~= a@ + b@.subrange(0, j as int));
    }
    assert(bytes@ =~= encode_utf8(exe@) + encode_utf8(app_name@));
    app_id_from_checksum(crc32_checksum(bytes.as_slice()))
}

} // verus!
