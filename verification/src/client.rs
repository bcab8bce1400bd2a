//! The wallet's view of a mint: one call for each endpoint, and how an
//! answer of the mint is read.

use crate::crypto::PublicKey;
use crate::encoding::{ascii_text, string_from_ascii};
use crate::error::CashuWalletError;
use crate::keyset::{decimal, push_decimal, Keysets};
use crate::model::{
    BlindedMessage, CheckFeesResponse, PaymentRequest, PostMeltResponse, PostMintResponse,
    PostSplitResponse, Proofs,
};
use std::collections::HashMap;
use vstd::prelude::*;

verus! {

/// A mint, as a wallet calls it. The answers come from outside: nothing is
/// known of them beforehand.
pub trait Client {
    fn post_split_tokens(
        &self,
        mint_url: &String,
        amount: u64,
        proofs: Proofs,
        output: Vec<BlindedMessage>,
    ) -> Result<PostSplitResponse, CashuWalletError>;

    fn post_mint_payment_request(
        &self,
        mint_url: &String,
        hash: String,
        blinded_messages: Vec<BlindedMessage>,
    ) -> Result<PostMintResponse, CashuWalletError>;

    fn post_melt_tokens(
        &self,
        mint_url: &String,
        proofs: Proofs,
        pr: String,
        outputs: Vec<BlindedMessage>,
    ) -> Result<PostMeltResponse, CashuWalletError>;

    fn post_checkfees(&self, mint_url: &String, pr: String) -> Result<
        CheckFeesResponse,
        CashuWalletError,
    >;

    fn get_mint_keys(&self, mint_url: &String) -> Result<HashMap<u64, PublicKey>, CashuWalletError>;

    fn get_mint_keysets(&self, mint_url: &String) -> Result<Keysets, CashuWalletError>;

    fn get_mint_payment_request(&self, mint_url: &String, amount: u64) -> Result<
        PaymentRequest,
        CashuWalletError,
    >;
}

/// What a mint sends when it refuses.
#[derive(Debug, PartialEq, Eq)]
pub struct CashuErrorResponse {
    pub code: u64,
    pub error: String,
}

/// The status of an answer that is no refusal.
pub const STATUS_OK: u16 = 200;

/// The error of a refusal: the mint's message, set apart where it says that
/// the invoice is not paid yet, which asks the caller to try again later.
pub fn refusal(data: CashuErrorResponse) -> (error: CashuWalletError)
    ensures
        error == if data.error@ == "Lightning invoice not paid yet."@ {
            CashuWalletError::InvoiceNotPaidYet(data.code, data.error)
        } else {
            CashuWalletError::MintError(data.error)
        },
{
    if data.error.as_str().to_owned() == "Lightning invoice not paid yet.".to_owned() {
        CashuWalletError::InvoiceNotPaidYet(data.code, data.error)
    } else {
        CashuWalletError::MintError(data.error)
    }
}

/// Reads an answer of the mint. `data` is the body read as the record that
/// was asked for, where it can be read so; `refused` is the body read as a
/// refusal, where it can be read so. With the status 200 the answer is the
/// record. With any other status it is the refusal, if the body is declared
/// as JSON. In every other case the body is handed back as unexpected.
pub fn extract_response_data<T>(
    status: u16,
    content_type: Option<String>,
    text: String,
    data: Option<T>,
    refused: Option<CashuErrorResponse>,
) -> (answer: Result<T, CashuWalletError>)
    ensures
        answer == if status == STATUS_OK {
            match data {
                Some(record) => Ok::<T, CashuWalletError>(record),
                None => Err(CashuWalletError::UnexpectedResponse(text)),
            }
        } else if content_type matches Some(declared) && declared@ == "application/json"@ {
            match refused {
                Some(r) => Err(
                    if r.error@ == "Lightning invoice not paid yet."@ {
                        CashuWalletError::InvoiceNotPaidYet(r.code, r.error)
                    } else {
                        CashuWalletError::MintError(r.error)
                    },
                ),
                None => Err(CashuWalletError::UnexpectedResponse(text)),
            }
        } else {
            Err(CashuWalletError::UnexpectedResponse(text))
        },
{
    if status == STATUS_OK {
        return match data {
            Some(record) => Ok(record),
            None => Err(CashuWalletError::UnexpectedResponse(text)),
        };
    }
    let json = match content_type {
        Some(declared) => declared == "application/json".to_owned(),
        None => false,
    };
    if json {
        match refused {
            Some(r) => Err(refusal(r)),
            None => Err(CashuWalletError::UnexpectedResponse(text)),
        }
    } else {
        Err(CashuWalletError::UnexpectedResponse(text))
    }
}

/// The path, below the mint's address, at which an invoice over `amount`
/// is asked for.
pub fn payment_request_path(amount: u64) -> (path: String)
    ensures
        path@ == "mint?amount="@ + ascii_text(decimal(amount as nat)),
{
    let mut digits: Vec<u8> = Vec::new();
    push_decimal(&mut digits, amount);
    assert(digits@ =~= decimal(amount as nat));
    let number = string_from_ascii(digits.as_slice());
    "mint?amount=".to_owned().concat(number.as_str())
}

/// The path, below the mint's address, at which the invoice kept under
/// `hash` is redeemed.
pub fn mint_path(hash: &str) -> (path: String)
    ensures
        path@ == "mint?hash="@ + hash@,
{
    "mint?hash=".to_owned().concat(hash)
}

} // verus!
