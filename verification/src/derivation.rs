//! The fixed wallet-derivation inputs that the balance check uses: the
//! hardened path levels for a native-segwit wallet and the two descriptor
//! strings built around a derived key. Building them is pure; the key
//! derivation and chain sync around them belong to the driver.

use vstd::prelude::*;

verus! {

/// The hardened levels of the derivation path: purpose 84', the coin type
/// of the chosen network, account 0'.
pub fn derivation_path(testnet: bool) -> (r: Vec<u32>)
    ensures
        r@ =~= seq![84u32, (if testnet { 1u32 } else { 0u32 }), 0u32],
{
    let mut r: Vec<u32> = Vec::new();
    r.push(84);
    if testnet {
        r.push(1);
    } else {
        r.push(0);
    }
    r.push(0);
    r
}

/// The descriptor of one address chain of the wallet: the derived key under
/// `wpkh`, external chain `0`, internal chain `1`.
pub open spec fn descriptor_chars(key: Seq<char>, internal: bool) -> Seq<char> {
    "wpkh("@ + key + (if internal {
        "/1/*)"@
    } else {
        "/0/*)"@
    })
}

pub fn wallet_descriptor(key: &str, internal: bool) -> (r: String)
    ensures
        r@ == descriptor_chars(key@, internal),
{
    let mut r = String::new();
    r.append("wpkh(");
    r.append(key);
    if internal {
        r.append("/1/*)");
    } else {
        r.append("/0/*)");
    }
    proof {
        assert(r@ =~= descriptor_chars(key@, internal));
    }
    r
}

} // verus!
