use vstd::prelude::*;
use coins_bip39::{English, Mnemonic};

verus! {

/// Relies on coins_bip39::Mnemonic::new_with_count, drawing from
/// rand::thread_rng, and on Mnemonic::to_phrase: a fresh 12-word mnemonic
/// from the thread's cryptographically seeded generator, rendered as its
/// space-separated phrase. The result is random, so nothing is promised of
/// its value; on failure the generator's error text is reported.
#[verifier::external_body]
fn random_phrase_12() -> (r: Result<String, String>) {
    match Mnemonic::<English>::new_with_count(&mut rand::thread_rng(), 12) {
        Ok(mnemonic) => Ok(mnemonic.to_phrase()),
        Err(e) => Err(format!("{:?}", e)),
    }
}

/// The candidate source: a lazy, unbounded, non-restartable stream of fresh
/// independently random candidates, each carried as its 12-word phrase.
pub struct Mnemonics {}

impl Mnemonics {
    /// A fresh stream.
    pub fn new() -> Mnemonics {
        Mnemonics {}
    }

    /// Draws the next candidate. Each call is independent, so nothing can
    /// be stated of the value. A generation failure is fatal to the stream:
    /// it is not retried, and surfaces as the error text.
    pub fn next(&mut self) -> Result<String, String> {
        random_phrase_12()
    }
}

} // verus!
