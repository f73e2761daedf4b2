use vstd::prelude::*;
use sp_runtime::traits::AccountIdConversion;

verus! {

/// The `u64` account of a pallet id: the type id `b"modl"` followed by the first four bytes
/// of the id, read as a little-endian number.
pub open spec fn pallet_account(id: [u8; 8]) -> u64 {
    (0x6c64_6f6d
        + id[0] as int * 0x1_0000_0000
        + id[1] as int * 0x1_0000_0000_00
        + id[2] as int * 0x1_0000_0000_0000
        + id[3] as int * 0x1_0000_0000_0000_00) as u64
}

/// Calls `AccountIdConversion::into_account_truncating` of `sp_runtime` on
/// `frame_support::PalletId(id)` with `u64` accounts. Its source encodes the type id
/// `b"modl"`, the eight bytes of the id and `()`, and decodes a `u64` from the first
/// eight bytes of that encoding (little endian): this is [`pallet_account`].
#[verifier::external_body]
pub(crate) fn pallet_id_into_account(id: [u8; 8]) -> (account: u64)
    ensures
        account == pallet_account(id),
{
    frame_support::PalletId(id).into_account_truncating()
}

} // verus!
