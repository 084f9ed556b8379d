use vstd::prelude::*;
use crate::address::Address;
use coins_bip39::English;

verus! {

/// The pair produced by one derivation: the derived address and the
/// human-readable phrase of the candidate that produced it. Immutable once
/// created; ownership moves from the worker slot to the result sink.
pub struct DerivedWallet {
    pub address: Address,
    pub phrase: String,
}

impl DerivedWallet {
    /// The address carries a full 40-character data portion.
    pub open spec fn wf(self) -> bool {
        self.address.wf()
    }
}

/// Relies on ethers_signers::MnemonicBuilder (default, phrase, build) and
/// Signer::address: derives the wallet at the builder's default derivation
/// path and prints its address in the full form that fixed-hash's Debug
/// gives it, `0x` followed by 40 lowercase hexadecimal characters. On
/// failure the builder's error text is reported.
#[verifier::external_body]
fn derive_address_bytes(phrase: &str) -> (r: Result<Vec<u8>, String>)
    ensures
        r matches Ok(b) ==> {
            &&& b@.len() == 42
            &&& b@[0] == 48u8
            &&& b@[1] == 120u8
            &&& forall|i: int| 2 <= i < 42 ==> (48u8 <= #[trigger] b@[i] <= 57u8 || 97u8 <= b@[i] <= 102u8)
        },
{
    let wallet = match ethers_signers::MnemonicBuilder::<English>::default().phrase(phrase).build()
    {
        Ok(w) => w,
        Err(e) => {
            return Err(format!("{:?}", e));
        },
    };
    Ok(format!("{:?}", ethers_signers::Signer::address(&wallet)).into_bytes())
}

/// The external derivation function at its interface boundary: maps one
/// candidate phrase to its derived wallet. On success the result carries a
/// well-formed address together with the phrase of this very candidate —
/// address and phrase are never mismatched; a failure is fatal in this
/// design and carries the error text.
pub fn to_wallet(phrase: String) -> (r: Result<DerivedWallet, String>)
    ensures
        r matches Ok(w) ==> w.wf() && w.phrase@ == phrase@,
{
    match derive_address_bytes(phrase.as_str()) {
        Ok(bytes) => Ok(DerivedWallet { address: Address::from_printed(&bytes), phrase }),
        Err(e) => Err(e),
    }
}

} // verus!
