//! Plain values that stand for the blockchain types the contract handles.
use vstd::prelude::*;
use crate::amount::Amount;
use crate::collections::ExecEq;

verus! {

/// A 32-byte account address, held as its big-endian high and low halves.
#[derive(Clone, Copy, PartialEq, Eq, Structural, Debug)]
pub struct Address {
    pub hi: u128,
    pub lo: u128,
}

impl Address {
    /// The all-zero address, which is what an unset address slot reads as.
    pub open spec fn spec_zero() -> Address {
        Address { hi: 0, lo: 0 }
    }

    pub fn zero() -> (r: Address)
        ensures
            r == Address::spec_zero(),
    {
        Address { hi: 0, lo: 0 }
    }
}

impl ExecEq for Address {
    fn exec_eq(&self, other: &Self) -> (r: bool) {
        *self == *other
    }
}

impl ExecEq for (Address, u64) {
    fn exec_eq(&self, other: &Self) -> (r: bool) {
        self.0 == other.0 && self.1 == other.1
    }
}

/// Byte-wise equality of two byte strings.
pub fn bytes_eq(a: &Vec<u8>, b: &Vec<u8>) -> (r: bool)
    ensures
        r == (a@ == b@),
{
    if a.len() != b.len() {
        return false;
    }
    let mut i: usize = 0;
    while i < a.len()
        invariant
            a@.len() == b@.len(),
            i <= a@.len(),
            forall|j: int| 0 <= j < i ==> a@[j] == b@[j],
        decreases a@.len() - i,
    {
        if a[i] != b[i] {
            return false;
        }
        i = i + 1;
    }
    assert(a@ =~= b@);
    true
}

/// A copy of a byte string.
pub fn copy_bytes(a: &Vec<u8>) -> (r: Vec<u8>)
    ensures
        r@ == a@,
{
    let mut r: Vec<u8> = Vec::new();
    let mut i: usize = 0;
    while i < a.len()
        invariant
            i <= a@.len(),
            r@ == a@.subrange(0, i as int),
        decreases a@.len() - i,
    {
        r.push(a[i]);
        i = i + 1;
    }
    assert(r@ =~= a@);
    r
}

pub const ASCII_UPPER_A: u8 = 65;
pub const ASCII_UPPER_Z: u8 = 90;
pub const ASCII_LOWER_A: u8 = 97;
pub const ASCII_LOWER_Z: u8 = 122;
pub const ASCII_DIGIT_0: u8 = 48;
pub const ASCII_DIGIT_9: u8 = 57;
pub const ASCII_DASH: u8 = 45;

/// An upper-case ASCII letter or a digit.
pub open spec fn is_upper_alnum(c: u8) -> bool {
    (ASCII_UPPER_A <= c && c <= ASCII_UPPER_Z) || (ASCII_DIGIT_0 <= c && c <= ASCII_DIGIT_9)
}

/// A lower-case ASCII letter or a digit.
pub open spec fn is_lower_alnum(c: u8) -> bool {
    (ASCII_LOWER_A <= c && c <= ASCII_LOWER_Z) || (ASCII_DIGIT_0 <= c && c <= ASCII_DIGIT_9)
}

/// An ESDT token identifier: a ticker of 3 to 10 upper-case letters or
/// digits, a dash, and 6 lower-case letters or digits.
pub open spec fn is_valid_esdt_identifier(s: Seq<u8>) -> bool {
    &&& 10 <= s.len() <= 17
    &&& forall|i: int| 0 <= i < s.len() - 7 ==> is_upper_alnum(#[trigger] s[i])
    &&& s[s.len() - 7] == ASCII_DASH
    &&& forall|i: int| s.len() - 6 <= i < s.len() ==> is_lower_alnum(#[trigger] s[i])
}

/// Checks the shape of an ESDT token identifier.
pub fn is_valid_esdt_identifier_bytes(s: &Vec<u8>) -> (r: bool)
    ensures
        r == is_valid_esdt_identifier(s@),
{
    let len = s.len();
    if len < 10 || len > 17 {
        return false;
    }
    let ticker_len = len - 7;
    let mut i: usize = 0;
    while i < ticker_len
        invariant
            len == s@.len(),
            10 <= len <= 17,
            ticker_len == len - 7,
            i <= ticker_len,
            forall|j: int| 0 <= j < i ==> is_upper_alnum(#[trigger] s@[j]),
        decreases ticker_len - i,
    {
        let c = s[i];
        if !((ASCII_UPPER_A <= c && c <= ASCII_UPPER_Z) || (ASCII_DIGIT_0 <= c && c <= ASCII_DIGIT_9)) {
            return false;
        }
        i = i + 1;
    }
    if s[ticker_len] != ASCII_DASH {
        return false;
    }
    let mut k: usize = len - 6;
    while k < len
        invariant
            len == s@.len(),
            10 <= len <= 17,
            len - 6 <= k <= len,
            forall|j: int| len - 6 <= j < k ==> is_lower_alnum(#[trigger] s@[j]),
        decreases len - k,
    {
        let c = s[k];
        if !((ASCII_LOWER_A <= c && c <= ASCII_LOWER_Z) || (ASCII_DIGIT_0 <= c && c <= ASCII_DIGIT_9)) {
            return false;
        }
        k = k + 1;
    }
    true
}

/// State of the contract: whether user endpoints are open.
#[derive(Clone, Copy, PartialEq, Eq, Structural, Debug)]
pub enum State {
    Inactive,
    Active,
}

/// How a sanction's penalty is chosen.
#[derive(Clone, Copy, PartialEq, Eq, Structural, Debug)]
pub enum PenaltyType {
    Minimum,
    Custom,
    Maximum,
}

/// Kind of an ESDT token, as the chain reports it.
#[derive(Clone, Copy, PartialEq, Eq, Structural, Debug)]
pub enum EsdtTokenType {
    Fungible,
    NonFungible,
    SemiFungible,
    Meta,
    Invalid,
}

/// One ESDT transfer: token, nonce and amount.
#[derive(Debug)]
pub struct EsdtTokenPayment {
    pub token_identifier: Vec<u8>,
    pub token_nonce: u64,
    pub amount: Amount,
}

/// Spec form of a payment.
pub struct PaymentView {
    pub token_identifier: Seq<u8>,
    pub token_nonce: u64,
    pub amount: nat,
}

impl View for EsdtTokenPayment {
    type V = PaymentView;

    open spec fn view(&self) -> PaymentView {
        PaymentView {
            token_identifier: self.token_identifier@,
            token_nonce: self.token_nonce,
            amount: self.amount@,
        }
    }
}

impl EsdtTokenPayment {
    pub fn new(token_identifier: Vec<u8>, token_nonce: u64, amount: Amount) -> (r: Self)
        ensures
            r.token_identifier@ == token_identifier@,
            r.token_nonce == token_nonce,
            r.amount@ == amount@,
    {
        EsdtTokenPayment { token_identifier, token_nonce, amount }
    }

    pub fn duplicate(&self) -> (r: Self)
        ensures
            r@ == self@,
    {
        EsdtTokenPayment {
            token_identifier: copy_bytes(&self.token_identifier),
            token_nonce: self.token_nonce,
            amount: self.amount.duplicate(),
        }
    }
}

} // verus!
