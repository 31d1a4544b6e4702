//! The text that reports a recovered account.

use vstd::prelude::*;

use crate::oracle::Account;

verus! {

/// The lowercase hexadecimal digit of a value below 16.
pub open spec fn hex_digit(n: u8) -> char {
    seq!['0', '1', '2', '3', '4', '5', '6', '7', '8', '9', 'a', 'b', 'c', 'd', 'e', 'f'][n as int]
}

/// Two lowercase hexadecimal digits per byte, high digit first.
pub open spec fn hex_of(b: Seq<u8>) -> Seq<char>
    decreases b.len(),
{
    if b.len() == 0 {
        Seq::empty()
    } else {
        hex_of(b.drop_last()) + seq![hex_digit(b.last() / 16), hex_digit(b.last() % 16)]
    }
}

/// Relies on `hex::encode`: two lowercase hexadecimal digits per byte, in
/// order.
#[verifier::external_body]
fn encode_hex(bytes: &[u8; 32]) -> (r: String)
    ensures
        r@ == hex_of(bytes@),
{
    hex::encode(bytes)
}

/// The report of a recovered account:
/// `Address: <address>` and `Seed: <seed in hexadecimal>` on two lines.
pub fn account_report(account: &Account) -> (r: String)
    ensures
        r@ == "Address: "@ + account.address@ + "\nSeed: "@ + hex_of(account.seed@),
{
    let s = String::from_str("Address: ");
    let s = s.concat(account.address.as_str());
    let s = s.concat("\nSeed: ");
    let seed = encode_hex(&account.seed);
    s.concat(seed.as_str())
}

} // verus!
