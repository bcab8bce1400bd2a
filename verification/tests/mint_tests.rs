use cashurs::crypto::PublicKey;
use cashurs::database::{CachedDatabase, Database, DatabaseBackend, MemoryDatabase};
use cashurs::dhke::Dhke;
use cashurs::amount::split_amount;
use cashurs::error::{CashuMintError, DatabaseError, LightningError};
use cashurs::lightning::{
    amount_fits, decode_invoice, read_invoice, CreateInvoiceResult, Lightning, LnbitsLightning,
    PayInvoiceResult,
};
use cashurs::mint::{check_spendable, check_split_shape, find_duplicate, find_spent, Mint};
use cashurs::model::{BlindedMessage, Invoice, Proof, Proofs, TotalAmount};

const INVOICE_21_SAT: &str = "lnbcrt210n1pjg6mqhpp5pza5wzh0csjjuvfpjpv4zdjmg30vedj9ycv5tyfes9x7dp8axy0sdqqcqzzsxqyz5vqsp5vtxg4c5tw2s2zxxya2a7an0psn9mcfmlqctxzntm3sngnpyk3muq9qyyssqf8z5f90yu3wrmsufnnza25qjlnvc6ukdr094ckzn63ktcy6z5fw5mxf9skndpg2p4648gfjfvvx4qg2lqvlryyycg5k7x9h4dw70t4qq37pegm";

const INVOICE_WITHOUT_AMOUNT: &str = "lnbc1pvjluezsp5zyg3zyg3zyg3zyg3zyg3zyg3zyg3zyg3zyg3zyg3zyg3zyg3zygspp5qqqsyqcyq5rqwzqfqqqsyqcyq5rqwzqfqqqsyqcyq5rqwzqfqypqdpl2pkx2ctnv5sxxmmwwd5kgetjypeh2ursdae8g6twvus8g6rfwvs8qun0dfjkxaq9qrsgq357wnc5r2ueh7ck6q93dj32dlqnls087fxdwk8qakdyafkq3yap9us6v52vjjsrvywa6rt52cm9r9zqt8r2t7mlcwspyetp5h2tztugp9lfyql";

pub struct LightningMock {
    paid: bool,
    pays: bool,
}

impl LightningMock {
    fn new() -> Self {
        LightningMock { paid: true, pays: true }
    }
}

impl Lightning for LightningMock {
    fn is_invoice_paid(&self, _invoice: String) -> Result<bool, LightningError> {
        Ok(self.paid)
    }

    fn create_invoice(&self, _amount: u64) -> Result<CreateInvoiceResult, LightningError> {
        Ok(CreateInvoiceResult {
            payment_hash: "test".to_string(),
            payment_request: "test".to_string(),
        })
    }

    fn pay_invoice(&self, _payment_request: String) -> Result<PayInvoiceResult, LightningError> {
        if self.pays {
            Ok(PayInvoiceResult { payment_hash: "test".to_string() })
        } else {
            Err(LightningError { message: "no route".to_string() })
        }
    }
}

pub struct LightningDown {}

impl Lightning for LightningDown {
    fn is_invoice_paid(&self, _invoice: String) -> Result<bool, LightningError> {
        Err(LightningError { message: "down".to_string() })
    }

    fn create_invoice(&self, _amount: u64) -> Result<CreateInvoiceResult, LightningError> {
        Err(LightningError { message: "down".to_string() })
    }

    fn pay_invoice(&self, _payment_request: String) -> Result<PayInvoiceResult, LightningError> {
        Err(LightningError { message: "down".to_string() })
    }
}

fn create_mint_from_mocks() -> Mint<LightningMock, MemoryDatabase> {
    Mint::new(
        "TEST_PRIVATE_KEY".to_string(),
        "0/0/0/0".to_string(),
        LightningMock::new(),
        MemoryDatabase::new(),
    )
    .expect("the keyset can be derived")
}

fn some_point() -> PublicKey {
    PublicKey::from_hex("02634a2c2b34bec9e8a4aba4361f6bf202d7fa2365379b0840afe249a7a9d71239")
        .expect("a point")
}

fn coin(amount: u64, secret: &str) -> Proof {
    Proof::new(amount, secret.to_string(), some_point(), "keyset".to_string())
}

fn outputs_for(amounts: &[u64]) -> Vec<BlindedMessage> {
    let dhke = Dhke::new();
    amounts
        .iter()
        .map(|amount| BlindedMessage {
            amount: *amount,
            b_: dhke.step1_alice("some secret", None).expect("a blinded message").0,
        })
        .collect()
}

fn split_outputs(rest: u64, amount: u64) -> Vec<BlindedMessage> {
    let mut amounts = split_amount(rest);
    amounts.extend(split_amount(amount));
    outputs_for(&amounts)
}

fn used_of<L: Lightning, D: Database>(mint: &Mint<L, D>) -> Vec<String> {
    mint.db.get_used_proofs().unwrap().get_proofs().into_iter().map(|p| p.secret).collect()
}

fn used_secrets<L: Lightning>(mint: &Mint<L, MemoryDatabase>) -> Vec<String> {
    used_of(mint)
}

#[test]
fn test_create_blindsignatures() {
    let mint = create_mint_from_mocks();

    let blinded_messages = vec![BlindedMessage {
        amount: 8,
        b_: PublicKey::from_hex(
            "02634a2c2b34bec9e8a4aba4361f6bf202d7fa2365379b0840afe249a7a9d71239",
        )
        .unwrap(),
    }];

    let result = mint.create_blinded_signatures(blinded_messages).unwrap();

    assert_eq!(1, result.len());
    assert_eq!(8, result[0].amount);
    assert_eq!(
        PublicKey::from_hex("037074c4f53e326ee14ed67125f387d160e0e729351471b69ad41f7d5d21071e15")
            .unwrap(),
        result[0].c_
    );
    assert_eq!(result[0].id, Some(mint.keyset.keyset_id()));
}

#[test]
fn test_split_zero() {
    let blinded_messages = vec![];
    let mut mint = Mint::new(
        "superprivatesecretkey".to_string(),
        "".to_string(),
        LightningMock::new(),
        MemoryDatabase::new(),
    )
    .unwrap();

    let proofs = Proofs::empty();
    let (first, second) = mint.split(0, proofs, blinded_messages).unwrap();

    assert_eq!(first.len(), 0);
    assert_eq!(second.len(), 0);
    assert!(used_secrets(&mint).is_empty());
}

#[test]
fn test_split_64_in_20() {
    let mut mint = Mint::new(
        "superprivatesecretkey".to_string(),
        "".to_string(),
        LightningMock::new(),
        MemoryDatabase::new(),
    )
    .unwrap();
    let proofs = Proofs::new(vec![coin(64, "secret of 64")]);
    let outputs = split_outputs(44, 20);

    let (first, second) = mint.split(20, proofs, outputs).unwrap();

    assert_eq!(first.total_amount(), 20);
    assert_eq!(second.total_amount(), 44);
    assert_eq!(used_secrets(&mint), vec!["secret of 64".to_string()]);
}

#[test]
fn split_signs_each_output_with_the_key_of_its_amount() {
    let mut mint = create_mint_from_mocks();
    let dhke = Dhke::new();
    let outputs = split_outputs(44, 20);
    let proofs = Proofs::new(vec![coin(32, "a"), coin(32, "b")]);

    let (snd, fst) = mint.split(20, proofs, outputs.clone()).unwrap();

    assert_eq!(fst.iter().map(|s| s.amount).collect::<Vec<u64>>(), vec![4, 8, 32]);
    assert_eq!(snd.iter().map(|s| s.amount).collect::<Vec<u64>>(), vec![4, 16]);
    for (signature, output) in fst.iter().chain(snd.iter()).zip(outputs.iter()) {
        let key = mint.keyset.private_key(output.amount).unwrap();
        assert_eq!(signature.c_, dhke.step2_bob(output.b_, &key).unwrap());
        assert_eq!(signature.id, Some(mint.keyset.keyset_id()));
    }
}

#[test]
fn split_amount_too_high() {
    let mut mint = create_mint_from_mocks();
    let proofs = Proofs::new(vec![coin(64, "a")]);
    let result = mint.split(65, proofs, split_outputs(0, 65));
    assert_eq!(result, Err(CashuMintError::SplitAmountTooHigh));
    assert!(used_secrets(&mint).is_empty());
}

#[test]
fn split_outputs_malformed() {
    let mut mint = create_mint_from_mocks();
    // the two parts the wrong way round
    let result = mint.split(20, Proofs::new(vec![coin(64, "a")]), split_outputs(20, 44));
    assert_eq!(result, Err(CashuMintError::SplitOutputsMalformed));
    // not the decomposition
    let result = mint.split(20, Proofs::new(vec![coin(64, "a")]), outputs_for(&[44, 20]));
    assert_eq!(result, Err(CashuMintError::SplitOutputsMalformed));
    // too few outputs
    let result = mint.split(20, Proofs::new(vec![coin(64, "a")]), outputs_for(&[4, 8, 32]));
    assert_eq!(result, Err(CashuMintError::SplitOutputsMalformed));
    // outputs worth more than the proofs
    let result = mint.split(20, Proofs::new(vec![coin(64, "a")]), split_outputs(64, 20));
    assert_eq!(result, Err(CashuMintError::SplitOutputsMalformed));
    // no outputs at all
    let result = mint.split(20, Proofs::new(vec![coin(64, "a")]), vec![]);
    assert_eq!(result, Err(CashuMintError::SplitOutputsMalformed));
    assert!(used_secrets(&mint).is_empty());
}

#[test]
fn split_of_amounts_beyond_64_bits_is_malformed() {
    let mut mint = create_mint_from_mocks();
    let proofs = Proofs::new(vec![coin(u64::MAX, "a"), coin(u64::MAX, "b")]);
    let result = mint.split(1, proofs, split_outputs(u64::MAX, 1));
    assert_eq!(result, Err(CashuMintError::SplitOutputsMalformed));
}

#[test]
fn no_double_spend_after_split() {
    let mut mint = create_mint_from_mocks();
    let proofs = Proofs::new(vec![coin(32, "first"), coin(32, "second")]);
    mint.split(20, proofs, split_outputs(44, 20)).unwrap();
    assert_eq!(used_secrets(&mint), vec!["first".to_string(), "second".to_string()]);

    let again = Proofs::new(vec![coin(64, "fresh"), coin(32, "second")]);
    assert_eq!(
        mint.split(20, again.clone(), split_outputs(76, 20)),
        Err(CashuMintError::ProofAlreadyUsed("second".to_string()))
    );
    assert_eq!(
        mint.melt(INVOICE_21_SAT.to_string(), again.clone()),
        Err(CashuMintError::ProofAlreadyUsed("second".to_string()))
    );
    assert_eq!(
        mint.check_used_proofs(&again),
        Err(CashuMintError::ProofAlreadyUsed("second".to_string()))
    );
    assert_eq!(mint.check_used_proofs(&Proofs::new(vec![coin(64, "fresh")])), Ok(()));
    assert_eq!(used_secrets(&mint).len(), 2);
}

#[test]
fn no_double_spend_after_melt() {
    let mut mint = create_mint_from_mocks();
    let proofs = Proofs::new(vec![coin(32, "melted")]);
    let (paid, hash, change) = mint.melt(INVOICE_21_SAT.to_string(), proofs.clone()).unwrap();
    assert!(paid);
    assert_eq!(hash, "test");
    assert!(change.is_empty());
    assert_eq!(
        mint.melt(INVOICE_21_SAT.to_string(), proofs.clone()),
        Err(CashuMintError::ProofAlreadyUsed("melted".to_string()))
    );
    assert_eq!(
        mint.split(0, proofs, split_outputs(32, 0)),
        Err(CashuMintError::ProofAlreadyUsed("melted".to_string()))
    );
}

#[test]
fn a_proof_twice_in_a_request_is_refused() {
    let mut mint = create_mint_from_mocks();
    let proofs = Proofs::new(vec![coin(32, "one"), coin(32, "two"), coin(32, "one")]);
    assert_eq!(
        mint.split(20, proofs.clone(), split_outputs(76, 20)),
        Err(CashuMintError::ProofAlreadyUsed("one".to_string()))
    );
    assert_eq!(
        mint.melt(INVOICE_21_SAT.to_string(), proofs),
        Err(CashuMintError::ProofAlreadyUsed("one".to_string()))
    );
    assert!(used_secrets(&mint).is_empty());
}

#[test]
fn spent_and_duplicate_searches() {
    let used = vec![coin(1, "a"), coin(2, "b"), coin(4, "c")];
    assert_eq!(find_spent(&used, &vec![coin(8, "x"), coin(8, "c"), coin(8, "b")]), Some("b".to_string()));
    assert_eq!(find_spent(&used, &vec![coin(8, "x")]), None);
    assert_eq!(find_spent(&vec![], &used), None);
    assert_eq!(find_duplicate(&vec![coin(1, "a"), coin(2, "b"), coin(4, "b"), coin(8, "a")]), Some("b".to_string()));
    assert_eq!(find_duplicate(&used), None);
    assert_eq!(check_spendable(&used, &vec![coin(8, "x"), coin(8, "y")]), Ok(()));
    assert_eq!(
        check_spendable(&used, &vec![coin(8, "x"), coin(8, "x"), coin(1, "c")]),
        Err(CashuMintError::ProofAlreadyUsed("c".to_string()))
    );
}

#[test]
fn split_shape_says_where_the_second_part_begins() {
    let proofs = Proofs::new(vec![coin(64, "a")]);
    assert_eq!(check_split_shape(20, &proofs, &split_outputs(44, 20)), Ok(3));
    assert_eq!(check_split_shape(64, &proofs, &split_outputs(0, 64)), Ok(0));
    assert_eq!(check_split_shape(0, &proofs, &split_outputs(64, 0)), Ok(1));
}

#[test]
fn melt_checks_the_invoice_first() {
    let mut mint = create_mint_from_mocks();
    let proofs = Proofs::new(vec![coin(16, "a")]);
    assert_eq!(
        mint.melt("no invoice".to_string(), proofs.clone()),
        Err(CashuMintError::DecodeInvoice("no invoice".to_string()))
    );
    assert_eq!(
        mint.melt(INVOICE_21_SAT.to_string(), proofs.clone()),
        Err(CashuMintError::InvoiceAmountTooLow(21))
    );
    assert_eq!(
        mint.melt(INVOICE_WITHOUT_AMOUNT.to_string(), proofs),
        Err(CashuMintError::InvoiceMissingAmount(INVOICE_WITHOUT_AMOUNT.to_string()))
    );
    assert!(used_secrets(&mint).is_empty());
}

#[test]
fn melt_of_exactly_the_amount() {
    let mut mint = create_mint_from_mocks();
    let proofs = Proofs::new(vec![coin(1, "a"), coin(4, "b"), coin(16, "c")]);
    assert_eq!(mint.melt(INVOICE_21_SAT.to_string(), proofs), Ok((true, "test".to_string(), vec![])));
    assert_eq!(used_secrets(&mint).len(), 3);
}

#[test]
fn melt_burns_the_proofs_where_the_payment_fails() {
    let mut mint = Mint::new(
        "TEST_PRIVATE_KEY".to_string(),
        "0/0/0/0".to_string(),
        LightningMock { paid: true, pays: false },
        MemoryDatabase::new(),
    )
    .unwrap();
    let proofs = Proofs::new(vec![coin(32, "burnt")]);
    assert_eq!(
        mint.melt(INVOICE_21_SAT.to_string(), proofs),
        Err(CashuMintError::LightningBackendError(LightningError { message: "no route".to_string() }))
    );
    assert_eq!(used_secrets(&mint), vec!["burnt".to_string()]);
}

#[test]
fn create_invoice_keeps_the_invoice_under_a_fresh_key() {
    let mut mint = create_mint_from_mocks();
    let (pr, key) = mint.create_invoice(20).unwrap();
    let (_, other) = mint.create_invoice(20).unwrap();
    assert_eq!(pr, "test");
    assert_eq!(key.len(), 64);
    assert!(key.chars().all(|c| c.is_ascii_hexdigit()));
    assert_ne!(key, other);
    assert_eq!(
        mint.db.get_pending_invoice(&key),
        Ok(Some(Invoice::new(20, "test".to_string())))
    );
}

#[test]
fn create_invoice_keeps_nothing_where_the_backend_fails() {
    let mut mint = Mint::new(
        "TEST_PRIVATE_KEY".to_string(),
        "0/0/0/0".to_string(),
        LightningDown {},
        MemoryDatabase::new(),
    )
    .unwrap();
    assert_eq!(
        mint.create_invoice(20),
        Err(CashuMintError::LightningBackendError(LightningError { message: "down".to_string() }))
    );
    mint.db.add_pending_invoice("key".to_string(), Invoice::new(20, "pr".to_string())).unwrap();
    assert_eq!(
        mint.mint_tokens("key".to_string(), outputs_for(&[4, 16])),
        Err(CashuMintError::LightningBackendError(LightningError { message: "down".to_string() }))
    );
    assert!(mint.db.get_pending_invoice(&"key".to_string()).unwrap().is_some());
}

#[test]
fn mint_tokens_signs_and_forgets_the_invoice() {
    let mut mint = create_mint_from_mocks();
    let (_, key) = mint.create_invoice(20).unwrap();
    let outputs = outputs_for(&[4, 16]);

    let signatures = mint.mint_tokens(key.clone(), outputs.clone()).unwrap();

    assert_eq!(signatures.len(), 2);
    assert_eq!(signatures.total_amount(), 20);
    let dhke = Dhke::new();
    for (signature, output) in signatures.iter().zip(outputs.iter()) {
        let private = mint.keyset.private_key(output.amount).unwrap();
        assert_eq!(signature.amount, output.amount);
        assert_eq!(signature.c_, dhke.step2_bob(output.b_, &private).unwrap());
    }
    assert_eq!(mint.db.get_pending_invoice(&key), Ok(None));
    assert_eq!(mint.mint_tokens(key.clone(), outputs), Err(CashuMintError::InvoiceNotFound(key)));
}

#[test]
fn mint_tokens_of_an_unknown_invoice() {
    let mut mint = create_mint_from_mocks();
    assert_eq!(
        mint.mint_tokens("nothing".to_string(), outputs_for(&[4])),
        Err(CashuMintError::InvoiceNotFound("nothing".to_string()))
    );
}

#[test]
fn mint_tokens_of_an_unpaid_invoice_gives_nothing_and_keeps_it() {
    let mut mint = Mint::new(
        "TEST_PRIVATE_KEY".to_string(),
        "0/0/0/0".to_string(),
        LightningMock { paid: false, pays: true },
        MemoryDatabase::new(),
    )
    .unwrap();
    let (_, key) = mint.create_invoice(20).unwrap();
    assert_eq!(mint.mint_tokens(key.clone(), outputs_for(&[4, 16])), Ok(vec![]));
    assert!(mint.db.get_pending_invoice(&key).unwrap().is_some());
}

#[test]
fn mint_tokens_of_an_unknown_denomination_keeps_the_invoice() {
    let mut mint = create_mint_from_mocks();
    let (_, key) = mint.create_invoice(20).unwrap();
    assert_eq!(
        mint.mint_tokens(key.clone(), outputs_for(&[4, 3, 16])),
        Err(CashuMintError::UnknownDenomination(3))
    );
    assert_eq!(
        mint.create_blinded_signatures(outputs_for(&[0])),
        Err(CashuMintError::UnknownDenomination(0))
    );
    assert!(mint.db.get_pending_invoice(&key).unwrap().is_some());
}

#[test]
fn memory_database_keeps_the_later_invoice_of_a_key() {
    let mut db = MemoryDatabase::new();
    assert_eq!(db.get_pending_invoice(&"a".to_string()), Ok(None));
    db.add_pending_invoice("a".to_string(), Invoice::new(1, "one".to_string())).unwrap();
    db.add_pending_invoice("b".to_string(), Invoice::new(2, "two".to_string())).unwrap();
    db.add_pending_invoice("a".to_string(), Invoice::new(3, "three".to_string())).unwrap();
    assert_eq!(db.get_pending_invoice(&"a".to_string()), Ok(Some(Invoice::new(3, "three".to_string()))));
    db.remove_pending_invoice(&"a".to_string()).unwrap();
    assert_eq!(db.get_pending_invoice(&"a".to_string()), Ok(None));
    assert_eq!(db.get_pending_invoice(&"b".to_string()), Ok(Some(Invoice::new(2, "two".to_string()))));
    db.add_used_proofs(&Proofs::new(vec![coin(1, "x")])).unwrap();
    db.add_used_proofs(&Proofs::new(vec![coin(2, "y")])).unwrap();
    assert_eq!(db.get_used_proofs().unwrap().len(), 2);
    let _: Option<DatabaseError> = None;
}

#[test]
fn invoice_is_read() {
    let decoded = decode_invoice(INVOICE_21_SAT).unwrap();
    assert_eq!(decoded.amount_msat, Some(21_000));
    assert_eq!(decoded.payment_hash.len(), 64);
    assert_eq!(decode_invoice(INVOICE_WITHOUT_AMOUNT).unwrap().amount_msat, None);
    assert_eq!(
        decode_invoice(INVOICE_WITHOUT_AMOUNT).unwrap().payment_hash,
        "0001020304050607080900010203040506070809000102030405060708090102"
    );
    assert_eq!(
        decode_invoice("lnbc1"),
        Err(CashuMintError::DecodeInvoice("lnbc1".to_string()))
    );
}

#[test]
fn lnbits_settings_and_requests() {
    let backend = LnbitsLightning::new("key".to_string(), "http://localhost:5000".to_string());
    assert_eq!(backend.admin_key, "key");
    assert_eq!(backend.url, "http://localhost:5000");
    let params = backend.invoice_params(20);
    assert_eq!(params.amount, 20);
    assert_eq!(params.unit, "sat");
    assert_eq!(params.expiry, Some(10000));
    assert_eq!(params.memo, None);
    assert_eq!(
        backend.payment_hash(INVOICE_WITHOUT_AMOUNT),
        Ok("0001020304050607080900010203040506070809000102030405060708090102".to_string())
    );
    assert!(backend.payment_hash("nothing").is_err());
}

#[test]
fn mint_errors_in_words() {
    assert_eq!(
        CashuMintError::ProofAlreadyUsed("abc".to_string()).to_string(),
        "Proof already used: abc"
    );
    assert_eq!(CashuMintError::SplitAmountMismatch.to_string(), "Split amount mismatch");
    assert_eq!(
        CashuMintError::InvoiceNotFound("k".to_string()).to_string(),
        "Invoice not found: k"
    );
}

/// A store that is out of order.
pub struct DatabaseDown {}

fn out_of_order() -> DatabaseError {
    DatabaseError { message: "out of order".to_string() }
}

impl DatabaseBackend for DatabaseDown {
    fn add_pending_invoice(&mut self, _key: String, _invoice: Invoice) -> Result<(), DatabaseError> {
        Err(out_of_order())
    }

    fn remove_pending_invoice(&mut self, _key: &String) -> Result<(), DatabaseError> {
        Err(out_of_order())
    }

    fn add_used_proofs(&mut self, _proofs: &Proofs) -> Result<(), DatabaseError> {
        Err(out_of_order())
    }

    fn get_pending_invoices(&self) -> Result<Vec<(String, Invoice)>, DatabaseError> {
        Ok(vec![("kept".to_string(), Invoice::new(20, "request".to_string()))])
    }

    fn get_used_proofs(&self) -> Result<Proofs, DatabaseError> {
        Ok(Proofs::new(vec![coin(8, "spent before")]))
    }
}

/// A store that counts what it is asked to write.
#[derive(Default)]
pub struct Counting {
    invoices: usize,
    spent: usize,
}

impl DatabaseBackend for Counting {
    fn add_pending_invoice(&mut self, _key: String, _invoice: Invoice) -> Result<(), DatabaseError> {
        self.invoices += 1;
        Ok(())
    }

    fn remove_pending_invoice(&mut self, _key: &String) -> Result<(), DatabaseError> {
        self.invoices -= 1;
        Ok(())
    }

    fn add_used_proofs(&mut self, proofs: &Proofs) -> Result<(), DatabaseError> {
        self.spent += proofs.len();
        Ok(())
    }

    fn get_pending_invoices(&self) -> Result<Vec<(String, Invoice)>, DatabaseError> {
        Ok(vec![])
    }

    fn get_used_proofs(&self) -> Result<Proofs, DatabaseError> {
        Ok(Proofs::empty())
    }
}

#[test]
fn the_errors_of_the_store_are_handed_on() {
    let mut mint = Mint::new(
        "TEST_PRIVATE_KEY".to_string(),
        "0/0/0/0".to_string(),
        LightningMock::new(),
        CachedDatabase::open(DatabaseDown {}).unwrap(),
    )
    .unwrap();
    let down = || CashuMintError::Database(out_of_order());
    assert_eq!(mint.create_invoice(20), Err(down()));
    assert_eq!(mint.mint_tokens("kept".to_string(), outputs_for(&[4])), Err(down()));
    assert_eq!(mint.split(0, Proofs::empty(), vec![]), Err(down()));
    assert_eq!(mint.melt(INVOICE_21_SAT.to_string(), Proofs::new(vec![coin(32, "a")])), Err(down()));
    assert_eq!(down().to_string(), "Database error: out of order");
    // nothing has changed: what the backend did not take is not held
    assert_eq!(used_of(&mint), vec!["spent before".to_string()]);
    assert!(mint.db.get_pending_invoice(&"kept".to_string()).unwrap().is_some());
    // what was read when the store was opened counts
    assert_eq!(
        mint.melt(INVOICE_21_SAT.to_string(), Proofs::new(vec![coin(32, "spent before")])),
        Err(CashuMintError::ProofAlreadyUsed("spent before".to_string()))
    );
    // the invoice is looked at before the store is asked
    assert_eq!(
        mint.melt("nothing".to_string(), Proofs::empty()),
        Err(CashuMintError::DecodeInvoice("nothing".to_string()))
    );
}

#[test]
fn sign_split_records_nothing() {
    let mint = create_mint_from_mocks();
    let used = Proofs::new(vec![coin(1, "gone")]);
    let proofs = Proofs::new(vec![coin(64, "a")]);
    let (snd, fst) = mint.sign_split(&used, 20, &proofs, &split_outputs(44, 20)).unwrap();
    assert_eq!(fst.total_amount(), 44);
    assert_eq!(snd.total_amount(), 20);
    assert_eq!(proofs.get_total_amount(), 64);
    assert!(used_secrets(&mint).is_empty());
    assert_eq!(
        mint.sign_split(&used, 20, &Proofs::new(vec![coin(64, "gone")]), &split_outputs(44, 20)),
        Err(CashuMintError::ProofAlreadyUsed("gone".to_string()))
    );
}

#[test]
fn a_cached_store_writes_through() {
    let mut mint = Mint::new(
        "TEST_PRIVATE_KEY".to_string(),
        "0/0/0/0".to_string(),
        LightningMock::new(),
        CachedDatabase::open(Counting::default()).unwrap(),
    )
    .unwrap();
    let (_, key) = mint.create_invoice(20).unwrap();
    mint.create_invoice(12).unwrap();
    assert_eq!(mint.db.backend().invoices, 2);
    mint.mint_tokens(key, outputs_for(&[4, 16])).unwrap();
    assert_eq!(mint.db.backend().invoices, 1);
    mint.split(20, Proofs::new(vec![coin(32, "a"), coin(32, "b")]), split_outputs(44, 20)).unwrap();
    assert_eq!(mint.db.backend().spent, 2);
    assert_eq!(used_of(&mint), vec!["a".to_string(), "b".to_string()]);
}

#[test]
fn a_cached_store_holds_what_was_loaded() {
    let invoices = vec![
        ("a".to_string(), Invoice::new(1, "one".to_string())),
        ("a".to_string(), Invoice::new(2, "two".to_string())),
    ];
    let mut db =
        CachedDatabase::with_loaded(Counting::default(), invoices, Proofs::new(vec![coin(8, "x")]));
    assert_eq!(db.get_pending_invoice(&"a".to_string()), Ok(Some(Invoice::new(2, "two".to_string()))));
    assert_eq!(db.get_used_proofs().unwrap().len(), 1);
    assert_eq!(db.backend().invoices, 0);
    // what the backend has not taken is not kept
    let refused = Err(out_of_order());
    assert_eq!(
        db.invoice_added(refused.clone(), "b".to_string(), Invoice::new(3, "three".to_string())),
        refused
    );
    assert_eq!(db.get_pending_invoice(&"b".to_string()), Ok(None));
    assert_eq!(db.invoice_removed(refused.clone(), &"a".to_string()), refused);
    assert!(db.get_pending_invoice(&"a".to_string()).unwrap().is_some());
    assert_eq!(db.proofs_spent(refused.clone(), &Proofs::new(vec![coin(1, "y")])), refused);
    assert_eq!(db.get_used_proofs().unwrap().len(), 1);
    // what the backend has taken is kept
    assert_eq!(db.invoice_added(Ok(()), "b".to_string(), Invoice::new(3, "three".to_string())), Ok(()));
    assert_eq!(db.get_pending_invoice(&"b".to_string()), Ok(Some(Invoice::new(3, "three".to_string()))));
    assert_eq!(db.invoice_removed(Ok(()), &"a".to_string()), Ok(()));
    assert_eq!(db.get_pending_invoice(&"a".to_string()), Ok(None));
    assert_eq!(db.proofs_spent(Ok(()), &Proofs::new(vec![coin(1, "y")])), Ok(()));
    assert_eq!(db.get_used_proofs().unwrap().len(), 2);
}

/// The invoice with another amount in its human-readable part, and the
/// checksum that goes with it.
fn with_amount(invoice: &str, amount: &str) -> String {
    const CHARSET: &[u8] = b"qpzry9x8gf2tvdw0s3jn54khce6mua7l";
    const GENERATOR: [u32; 5] = [0x3b6a57b2, 0x26508e6d, 0x1ea119fa, 0x3d4233dd, 0x2a1462b3];
    let split = invoice.rfind('1').unwrap();
    let data: Vec<u8> = invoice[split + 1..invoice.len() - 6]
        .bytes()
        .map(|c| CHARSET.iter().position(|x| *x == c).unwrap() as u8)
        .collect();
    let hrp = format!("{}{}", &invoice[..split], amount);
    let mut values: Vec<u8> = hrp.bytes().map(|b| b >> 5).collect();
    values.push(0);
    values.extend(hrp.bytes().map(|b| b & 31));
    values.extend(&data);
    values.extend([0u8; 6]);
    let mut sum: u32 = 1;
    for v in values {
        let top = sum >> 25;
        sum = ((sum & 0x1ffffff) << 5) ^ (v as u32);
        for (i, g) in GENERATOR.iter().enumerate() {
            if (top >> i) & 1 == 1 {
                sum ^= g;
            }
        }
    }
    sum ^= 1;
    let mut text = hrp;
    text.push('1');
    for d in &data {
        text.push(CHARSET[*d as usize] as char);
    }
    for i in 0..6 {
        text.push(CHARSET[((sum >> (5 * (5 - i))) & 31) as usize] as char);
    }
    text
}

#[test]
fn an_amount_that_fits_in_no_64_bits_makes_no_invoice() {
    assert_eq!(with_amount(INVOICE_WITHOUT_AMOUNT, ""), INVOICE_WITHOUT_AMOUNT);
    // whole bitcoin, in millionths of a millionth: the largest that fits
    let largest = with_amount(INVOICE_WITHOUT_AMOUNT, "18446744");
    assert_eq!(
        decode_invoice(&largest).unwrap().amount_msat,
        Some(1_844_674_400_000_000_000)
    );
    let too_large = with_amount(INVOICE_WITHOUT_AMOUNT, "18446745");
    assert_eq!(decode_invoice(&too_large), Err(CashuMintError::DecodeInvoice(too_large.clone())));
    assert_eq!(read_invoice(&too_large), None);
    let huge = with_amount(INVOICE_WITHOUT_AMOUNT, "18446744073709551615");
    assert_eq!(read_invoice(&huge), None);
    // with a prefix
    let micro = with_amount(INVOICE_WITHOUT_AMOUNT, "2500u");
    assert_eq!(decode_invoice(&micro).unwrap().amount_msat, Some(250_000_000));
    let mut mint = create_mint_from_mocks();
    assert_eq!(
        mint.melt(too_large.clone(), Proofs::new(vec![coin(32, "a")])),
        Err(CashuMintError::DecodeInvoice(too_large))
    );
    assert!(used_secrets(&mint).is_empty());
}

#[test]
fn amounts_that_fit() {
    assert!(amount_fits(None, None));
    assert!(amount_fits(None, Some(1000)));
    assert!(amount_fits(Some(18_446_744), None));
    assert!(!amount_fits(Some(18_446_745), None));
    assert!(amount_fits(Some(u64::MAX), Some(1)));
    assert!(!amount_fits(Some(u64::MAX), Some(1000)));
    assert!(amount_fits(Some(18_446_744_073), Some(1_000_000_000)));
    assert!(!amount_fits(Some(18_446_744_074), Some(1_000_000_000)));
    assert!(amount_fits(Some(0), None));
}
