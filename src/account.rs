//! Account keys and the balance records that carry them.
use vstd::prelude::*;

verus! {

/// A 32-byte chain account identifier.
#[derive(Clone, Copy, Debug, PartialEq, Eq, PartialOrd, Ord, Hash)]
pub struct AccountKey {
    pub bytes: [u8; 32],
}

/// One free balance of one account.
pub type BalanceRecord = (AccountKey, u128);

/// Whether two keys name the same account.
pub fn same_account(a: &AccountKey, b: &AccountKey) -> (r: bool)
    ensures
        r == (*a == *b),
{
    let mut i: usize = 0;
    while i < 32
        invariant
            0 <= i <= 32,
            forall|j: int| 0 <= j < i ==> a.bytes[j] == b.bytes[j],
        decreases 32 - i,
    {
        if a.bytes[i] != b.bytes[i] {
            return false;
        }
        i = i + 1;
    }
    assert(a.bytes =~= b.bytes);
    true
}

/// The tag that prefixes every account derived from a module identifier.
pub open spec fn module_tag() -> Seq<u8> {
    seq![0x6du8, 0x6fu8, 0x64u8, 0x6cu8]
}

/// The account of a module: its tag, its identifier, then zeros up to 32 bytes.
pub open spec fn module_account_bytes(id: Seq<u8>) -> Seq<u8> {
    module_tag() + id + Seq::new(20, |i: int| 0u8)
}

/// The account owned by the module with the given 8-byte identifier.
pub fn module_account(id: [u8; 8]) -> (r: AccountKey)
    ensures
        r.bytes@ == module_account_bytes(id@),
{
    let mut bytes: [u8; 32] = [0u8; 32];
    bytes[0] = 0x6du8;
    bytes[1] = 0x6fu8;
    bytes[2] = 0x64u8;
    bytes[3] = 0x6cu8;
    let mut i: usize = 0;
    while i < 8
        invariant
            0 <= i <= 8,
            bytes@.len() == 32,
            bytes@.subrange(0, 4) == module_tag(),
            forall|j: int| 0 <= j < i ==> bytes@[4 + j] == id@[j],
            forall|j: int| 12 <= j < 32 ==> bytes@[j] == 0u8,
        decreases 8 - i,
    {
        bytes[4 + i] = id[i];
        i = i + 1;
    }
    assert(bytes@ =~= module_account_bytes(id@));
    AccountKey { bytes }
}

/// The identifier of the treasury module.
pub open spec fn treasury_module_id() -> Seq<u8> {
    seq![0x70u8, 0x63u8, 0x78u8, 0x2fu8, 0x74u8, 0x72u8, 0x73u8, 0x79u8]
}

/// Whether `k` is the treasury's account.
pub open spec fn is_treasury(k: AccountKey) -> bool {
    k.bytes@ == module_account_bytes(treasury_module_id())
}

/// The treasury's account.
pub open spec fn treasury_key() -> AccountKey {
    choose|k: AccountKey| is_treasury(k)
}

/// The treasury account, derived from the module identifier `pcx/trsy`.
pub fn treasury_account() -> (r: AccountKey)
    ensures
        is_treasury(r),
        r == treasury_key(),
{
    let id: [u8; 8] = [0x70u8, 0x63u8, 0x78u8, 0x2fu8, 0x74u8, 0x72u8, 0x73u8, 0x79u8];
    assert(id@ =~= treasury_module_id());
    let r = module_account(id);
    proof {
        assert(is_treasury(r));
        let t = treasury_key();
        assert(is_treasury(t));
        assert(t.bytes =~= r.bytes);
    }
    r
}

} // verus!
