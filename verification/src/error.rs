//! What mint and wallet report when an operation fails.

use crate::crypto::CryptoError;
use vstd::prelude::*;

verus! {

/// A failure that the Lightning backend reported.
#[derive(Clone, Debug, PartialEq, Eq)]
pub struct LightningError {
    pub message: String,
}

/// A failure that the mint's database reported.
#[derive(Clone, Debug, PartialEq, Eq)]
pub struct DatabaseError {
    pub message: String,
}

/// A failure that the wallet's store reported.
#[derive(Clone, Debug, PartialEq, Eq)]
pub struct LocalStoreError {
    pub message: String,
}

/// Why an operation of the mint failed.
#[derive(Clone, Debug, PartialEq, Eq)]
pub enum CashuMintError {
    /// The curve arithmetic failed.
    Crypto(CryptoError),
    /// The database failed.
    Database(DatabaseError),
    /// The Lightning backend failed.
    LightningBackendError(LightningError),
    /// The payment request is no invoice.
    DecodeInvoice(String),
    /// The invoice names no amount.
    InvoiceMissingAmount(String),
    /// No invoice is pending under the key.
    InvoiceNotFound(String),
    /// The keyset has no key for the amount.
    UnknownDenomination(u64),
    /// A proof with this secret was spent before, or stands twice in the
    /// request.
    ProofAlreadyUsed(String),
    /// More was asked for than the proofs are worth.
    SplitAmountTooHigh,
    /// The outputs are not the decompositions of the two parts.
    SplitOutputsMalformed,
    /// The signatures do not add up to what the proofs are worth.
    SplitAmountMismatch,
    /// The proofs are worth less than the invoice asks for, which is the
    /// amount held here, in satoshi.
    InvoiceAmountTooLow(u64),
}

/// Why an operation of the wallet failed.
#[derive(Clone, Debug, PartialEq, Eq)]
pub enum CashuWalletError {
    /// The curve arithmetic failed.
    Crypto(CryptoError),
    /// The local store failed.
    LocalStore(LocalStoreError),
    /// The mint could not be reached.
    Transport(String),
    /// The mint answered what is no answer of the protocol.
    UnexpectedResponse(String),
    /// The mint has not seen the invoice paid yet: ask again later.
    InvoiceNotPaidYet(u64, String),
    /// The mint refused, with this message.
    MintError(String),
    /// The payment request is no invoice.
    DecodeInvoice(String),
    /// The invoice names no amount.
    InvalidInvoice(String),
    /// The outputs do not add up to what the proofs are worth.
    InvalidProofs,
    /// The wallet holds less than was asked for.
    NotEnoughTokens,
    /// The mint's keys belong to none of its keysets.
    InvalidKeysetid,
    /// The mint has no key for the amount.
    UnknownDenomination(u64),
}

impl CashuMintError {
    /// The error in words.
    pub fn to_string(&self) -> (text: String)
        ensures
            self is SplitAmountTooHigh ==> text@ == "split amount is higher than the total sum"@,
            self is SplitOutputsMalformed ==> text@ == "split of promises is not as expected"@,
            self is SplitAmountMismatch ==> text@ == "Split amount mismatch"@,
            self matches CashuMintError::ProofAlreadyUsed(secret) ==> text@
                == "Proof already used: "@ + secret@,
            self matches CashuMintError::InvoiceNotFound(key) ==> text@ == "Invoice not found: "@
                + key@,
    {
        match self {
            CashuMintError::Crypto(CryptoError::HashToCurveFailed) => {
                "No point found for the message".to_owned()
            },
            CashuMintError::Crypto(CryptoError::InvalidPoint) => "Invalid point".to_owned(),
            CashuMintError::Crypto(CryptoError::InvalidSecretKey) => "Invalid secret key".to_owned(),
            CashuMintError::Database(e) => "Database error: ".to_owned().concat(e.message.as_str()),
            CashuMintError::LightningBackendError(e) => {
                "Lightning backend error: ".to_owned().concat(e.message.as_str())
            },
            CashuMintError::DecodeInvoice(pr) => {
                "Failed to decode payment request: ".to_owned().concat(pr.as_str())
            },
            CashuMintError::InvoiceMissingAmount(pr) => {
                "Invoice amount is missing: ".to_owned().concat(pr.as_str())
            },
            CashuMintError::InvoiceNotFound(key) => {
                "Invoice not found: ".to_owned().concat(key.as_str())
            },
            CashuMintError::UnknownDenomination(_) => "Unknown denomination".to_owned(),
            CashuMintError::ProofAlreadyUsed(secret) => {
                "Proof already used: ".to_owned().concat(secret.as_str())
            },
            CashuMintError::SplitAmountTooHigh => {
                "split amount is higher than the total sum".to_owned()
            },
            CashuMintError::SplitOutputsMalformed => {
                "split of promises is not as expected".to_owned()
            },
            CashuMintError::SplitAmountMismatch => "Split amount mismatch".to_owned(),
            CashuMintError::InvoiceAmountTooLow(_) => "Invoice amount is too low".to_owned(),
        }
    }
}

impl CashuWalletError {
    /// The error in words. What the mint said is handed on as it came.
    pub fn to_string(&self) -> (text: String)
        ensures
            self is NotEnoughTokens ==> text@ == "Not enough tokens"@,
            self is InvalidProofs ==> text@ == "Invalid proofs"@,
            self matches CashuWalletError::MintError(message) ==> text@ == message@,
            self matches CashuWalletError::InvoiceNotPaidYet(_, message) ==> text@ == message@,
    {
        match self {
            CashuWalletError::Crypto(CryptoError::HashToCurveFailed) => {
                "No point found for the message".to_owned()
            },
            CashuWalletError::Crypto(CryptoError::InvalidPoint) => "Invalid point".to_owned(),
            CashuWalletError::Crypto(CryptoError::InvalidSecretKey) => {
                "Invalid secret key".to_owned()
            },
            CashuWalletError::LocalStore(e) => {
                "Local store error: ".to_owned().concat(e.message.as_str())
            },
            CashuWalletError::Transport(message) => {
                "Transport error: ".to_owned().concat(message.as_str())
            },
            CashuWalletError::UnexpectedResponse(body) => {
                "Unexpected response: ".to_owned().concat(body.as_str())
            },
            CashuWalletError::InvoiceNotPaidYet(_, message) => message.clone(),
            CashuWalletError::MintError(message) => message.clone(),
            CashuWalletError::DecodeInvoice(pr) => {
                "Failed to decode payment request: ".to_owned().concat(pr.as_str())
            },
            CashuWalletError::InvalidInvoice(pr) => {
                "Invalid invoice: ".to_owned().concat(pr.as_str())
            },
            CashuWalletError::InvalidProofs => "Invalid proofs".to_owned(),
            CashuWalletError::NotEnoughTokens => "Not enough tokens".to_owned(),
            CashuWalletError::InvalidKeysetid => "Invalid keyset id".to_owned(),
            CashuWalletError::UnknownDenomination(_) => "Unknown denomination".to_owned(),
        }
    }
}

} // verus!
