//! The mint's view of its Lightning backend: what it asks of one, how it
//! reads an invoice, and the settings and requests of an LNbits backend.

use crate::error::{CashuMintError, LightningError};
use vstd::prelude::*;

verus! {

/// What an invoice says, as far as the mint reads it.
#[derive(Debug, PartialEq, Eq)]
pub struct DecodedInvoice {
    /// The amount in thousandths of a satoshi, where the invoice names one.
    pub amount_msat: Option<u64>,
    /// The payment hash in hex.
    pub payment_hash: String,
}

/// A new invoice, as a backend hands it out.
#[derive(Debug, PartialEq, Eq)]
pub struct CreateInvoiceResult {
    pub payment_hash: String,
    pub payment_request: String,
}

/// A payment, as a backend reports it.
#[derive(Debug, PartialEq, Eq)]
pub struct PayInvoiceResult {
    pub payment_hash: String,
}

/// What an LNbits backend is asked for when it is to create an invoice.
#[derive(Debug, PartialEq, Eq)]
pub struct CreateInvoiceParams {
    pub amount: u64,
    pub unit: String,
    pub memo: Option<String>,
    pub expiry: Option<u32>,
    pub webhook: Option<String>,
    pub internal: Option<bool>,
}

/// The seconds after which an invoice of the mint expires.
pub const INVOICE_EXPIRY: u32 = 10000;

/// What the amount of an invoice is multiplied by where it carries no
/// prefix: the amount is in whole bitcoin then, and this is a bitcoin in
/// the unit in which invoices count, the millionth of a millionth.
pub const WHOLE_MULTIPLIER: u64 = 1_000_000_000_000;

/// What the human-readable part of a payment request says of the amount:
/// the number, if there is one, and the multiplier of its prefix, if there
/// is one; `None` where the text cannot be read as a signed invoice.
pub uninterp spec fn invoice_amount_parts(payment_request: Seq<char>) -> Option<
    (Option<u64>, Option<u64>),
>;

/// What a payment request whose amount is in range says once it is checked
/// as an invoice: its amount in thousandths of a satoshi, if it names one,
/// and its payment hash in hex; `None` where it is no valid invoice.
pub uninterp spec fn checked_invoice(payment_request: Seq<char>) -> Option<
    (Option<u64>, Seq<char>),
>;

/// The multiplier of an amount with the given prefix, or without one.
pub open spec fn multiplier_of(prefix: Option<u64>) -> u64 {
    match prefix {
        Some(multiplier) => multiplier,
        None => WHOLE_MULTIPLIER,
    }
}

/// Whether the amount that the parts stand for fits in 64 bits.
pub open spec fn amount_in_range(parts: (Option<u64>, Option<u64>)) -> bool {
    match parts.0 {
        Some(number) => number * multiplier_of(parts.1) <= u64::MAX,
        None => true,
    }
}

/// What a payment request says: its amount in thousandths of a satoshi, if
/// it names one, and its payment hash in hex; `None` where the text is no
/// valid invoice, or names an amount that does not fit in 64 bits.
pub open spec fn invoice_of(payment_request: Seq<char>) -> Option<(Option<u64>, Seq<char>)> {
    match invoice_amount_parts(payment_request) {
        Some(parts) => if amount_in_range(parts) {
            checked_invoice(payment_request)
        } else {
            None
        },
        None => None,
    }
}

/// Parses a payment request as a `lightning_invoice::SignedRawInvoice` and
/// reads the amount's number and the multiplier of its prefix from the
/// human-readable part. Trusted: whether the text can be read so, and what
/// the two are, depend on the text alone. Nothing is multiplied here.
#[verifier::external_body]
pub(crate) fn invoice_amount_call(payment_request: &str) -> (parts: Option<
    (Option<u64>, Option<u64>),
>)
    ensures
        parts == invoice_amount_parts(payment_request@),
{
    match payment_request.parse::<lightning_invoice::SignedRawInvoice>() {
        Ok(signed) => {
            let hrp = &signed.raw_invoice().hrp;
            Some((hrp.raw_amount, hrp.si_prefix.as_ref().map(|prefix| prefix.multiplier())))
        },
        Err(_) => None,
    }
}

/// Parses a payment request as a `lightning_invoice::SignedRawInvoice`,
/// checks it with `lightning_invoice::Invoice::from_signed` and reads
/// `amount_milli_satoshis` and `payment_hash` from the invoice. Trusted:
/// whether the text is a valid invoice, and what the two say, depend on the
/// text alone. The check multiplies the amount's number by its multiplier
/// without looking at the size of the product, which `requires` therefore
/// bounds.
#[verifier::external_body]
pub(crate) fn invoice_check_call(payment_request: &str) -> (invoice: Option<DecodedInvoice>)
    requires
        invoice_amount_parts(payment_request@) matches Some(parts) && amount_in_range(parts),
    ensures
        invoice matches Some(i) ==> checked_invoice(payment_request@) == Some(
            (i.amount_msat, i.payment_hash@),
        ),
        invoice is None ==> checked_invoice(payment_request@) is None,
{
    let signed = payment_request.parse::<lightning_invoice::SignedRawInvoice>().ok()?;
    let invoice = lightning_invoice::Invoice::from_signed(signed).ok()?;
    Some(
        DecodedInvoice {
            amount_msat: invoice.amount_milli_satoshis(),
            payment_hash: invoice.payment_hash().to_string(),
        },
    )
}

/// Whether the amount that the parts stand for fits in 64 bits.
pub fn amount_fits(number: Option<u64>, prefix: Option<u64>) -> (fits: bool)
    ensures
        fits == amount_in_range((number, prefix)),
{
    let multiplier: u64 = match prefix {
        Some(multiplier) => multiplier,
        None => WHOLE_MULTIPLIER,
    };
    match number {
        Some(number) => {
            assert(number * multiplier <= 0xffff_ffff_ffff_ffff * 0xffff_ffff_ffff_ffff)
                by (nonlinear_arith)
                requires
                    0 <= number <= 0xffff_ffff_ffff_ffff,
                    0 <= multiplier <= 0xffff_ffff_ffff_ffff,
            ;
            number as u128 * multiplier as u128 <= u64::MAX as u128
        },
        None => true,
    }
}

/// Reads a payment request: `None` where the text is no valid invoice, or
/// names an amount that does not fit in 64 bits.
pub fn read_invoice(payment_request: &str) -> (invoice: Option<DecodedInvoice>)
    ensures
        invoice matches Some(i) ==> invoice_of(payment_request@) == Some(
            (i.amount_msat, i.payment_hash@),
        ),
        invoice is None ==> invoice_of(payment_request@) is None,
{
    match invoice_amount_call(payment_request) {
        Some((number, prefix)) => {
            if amount_fits(number, prefix) {
                invoice_check_call(payment_request)
            } else {
                None
            }
        },
        None => None,
    }
}

/// Reads a payment request. Fails with `DecodeInvoice`, which holds the
/// request, where it is no valid invoice.
pub fn decode_invoice(payment_request: &str) -> (decoded: Result<DecodedInvoice, CashuMintError>)
    ensures
        match invoice_of(payment_request@) {
            Some((amount, hash)) => decoded matches Ok(i) && i.amount_msat == amount
                && i.payment_hash@ == hash,
            None => decoded matches Err(CashuMintError::DecodeInvoice(pr)) && pr@
                == payment_request@,
        },
{
    match read_invoice(payment_request) {
        Some(i) => Ok(i),
        None => Err(CashuMintError::DecodeInvoice(payment_request.to_owned())),
    }
}

/// A Lightning backend. Its answers come from outside: nothing is known of
/// them beforehand.
pub trait Lightning {
    /// Whether the invoice has been paid.
    fn is_invoice_paid(&self, invoice: String) -> Result<bool, LightningError>;

    /// Creates an invoice over `amount` satoshi.
    fn create_invoice(&self, amount: u64) -> Result<CreateInvoiceResult, LightningError>;

    /// Pays an invoice.
    fn pay_invoice(&self, payment_request: String) -> Result<PayInvoiceResult, LightningError>;
}

/// The settings of an LNbits backend: the key that authorises calls and the
/// address of the service.
#[derive(Debug, PartialEq, Eq)]
pub struct LnbitsLightning {
    pub admin_key: String,
    pub url: String,
}

impl Clone for LnbitsLightning {
    fn clone(&self) -> (copy: Self)
        ensures
            copy == *self,
    {
        LnbitsLightning { admin_key: self.admin_key.clone(), url: self.url.clone() }
    }
}

impl LnbitsLightning {
    /// The backend at `url`, called with `admin_key`.
    pub fn new(admin_key: String, url: String) -> (backend: Self)
        ensures
            backend.admin_key == admin_key,
            backend.url == url,
    {
        Self { admin_key, url }
    }

    /// What the backend is asked for to create an invoice over `amount`
    /// satoshi: the amount in the unit "sat", to expire after
    /// `INVOICE_EXPIRY` seconds.
    pub fn invoice_params(&self, amount: u64) -> (params: CreateInvoiceParams)
        ensures
            params.amount == amount,
            params.unit@ == "sat"@,
            params.expiry == Some(INVOICE_EXPIRY),
            params.memo is None,
            params.webhook is None,
            params.internal is None,
    {
        CreateInvoiceParams {
            amount,
            unit: "sat".to_owned(),
            memo: None,
            expiry: Some(INVOICE_EXPIRY),
            webhook: None,
            internal: None,
        }
    }

    /// The payment hash under which the backend is asked whether an invoice
    /// has been paid. Fails with `DecodeInvoice` where the text is no valid
    /// invoice.
    pub fn payment_hash(&self, invoice: &str) -> (hash: Result<String, CashuMintError>)
        ensures
            match invoice_of(invoice@) {
                Some((_, h)) => hash matches Ok(text) && text@ == h,
                None => hash matches Err(CashuMintError::DecodeInvoice(pr)) && pr@ == invoice@,
            },
    {
        match decode_invoice(invoice) {
            Ok(decoded) => Ok(decoded.payment_hash),
            Err(e) => Err(e),
        }
    }
}

} // verus!
