use cashurs::client::{
    extract_response_data, mint_path, payment_request_path, refusal, CashuErrorResponse, Client,
};
use cashurs::crypto::PublicKey;
use cashurs::database::MemoryDatabase;
use cashurs::dhke::Dhke;
use cashurs::error::{CashuWalletError, LightningError, LocalStoreError};
use cashurs::keyset::{Keysets, MintKeyset};
use cashurs::lightning::{CreateInvoiceResult, Lightning, PayInvoiceResult};
use cashurs::localstore::{
    CachedLocalStore, LocalStore, LocalStoreBackend, MemoryLocalStore, WalletKeyset,
};
use cashurs::mint::Mint;
use cashurs::model::{
    BlindedMessage, BlindedSignature, CheckFeesResponse, PaymentRequest, PostMeltResponse,
    PostMintResponse, PostSplitResponse, Proof, Proofs, Token, TokenV3, TotalAmount,
};
use cashurs::selection::select_proofs;
use cashurs::wallet::{generate_random_string, invoice_amount, payment_amount, Wallet};
use std::cell::RefCell;
use std::collections::HashMap;
use std::rc::Rc;

const INVOICE_21_SAT: &str = "lnbcrt210n1pjg6mqhpp5pza5wzh0csjjuvfpjpv4zdjmg30vedj9ycv5tyfes9x7dp8axy0sdqqcqzzsxqyz5vqsp5vtxg4c5tw2s2zxxya2a7an0psn9mcfmlqctxzntm3sngnpyk3muq9qyyssqf8z5f90yu3wrmsufnnza25qjlnvc6ukdr094ckzn63ktcy6z5fw5mxf9skndpg2p4648gfjfvvx4qg2lqvlryyycg5k7x9h4dw70t4qq37pegm";

#[derive(Clone, Default)]
struct MockClient {
    split_response: PostSplitResponse,
    post_mint_response: PostMintResponse,
    post_melt_response: PostMeltResponse,
}

impl MockClient {
    fn with_split_response(split_response: PostSplitResponse) -> Self {
        Self { split_response, ..Default::default() }
    }

    fn with_mint_response(post_mint_response: PostMintResponse) -> Self {
        Self { post_mint_response, ..Default::default() }
    }

    fn with_melt_response(post_melt_response: PostMeltResponse) -> Self {
        Self { post_melt_response, ..Default::default() }
    }
}

impl Client for MockClient {
    fn post_split_tokens(
        &self,
        _mint_url: &String,
        _amount: u64,
        _proofs: Proofs,
        _output: Vec<BlindedMessage>,
    ) -> Result<PostSplitResponse, CashuWalletError> {
        Ok(self.split_response.clone())
    }

    fn post_mint_payment_request(
        &self,
        _mint_url: &String,
        _hash: String,
        _blinded_messages: Vec<BlindedMessage>,
    ) -> Result<PostMintResponse, CashuWalletError> {
        Ok(self.post_mint_response.clone())
    }

    fn post_melt_tokens(
        &self,
        _mint_url: &String,
        _proofs: Proofs,
        _pr: String,
        _outputs: Vec<BlindedMessage>,
    ) -> Result<PostMeltResponse, CashuWalletError> {
        Ok(self.post_melt_response.clone())
    }

    fn post_checkfees(
        &self,
        _mint_url: &String,
        _pr: String,
    ) -> Result<CheckFeesResponse, CashuWalletError> {
        Ok(CheckFeesResponse { fee: 0 })
    }

    fn get_mint_keys(
        &self,
        _mint_url: &String,
    ) -> Result<HashMap<u64, PublicKey>, CashuWalletError> {
        Err(CashuWalletError::Transport("no keys".to_string()))
    }

    fn get_mint_keysets(&self, _mint_url: &String) -> Result<Keysets, CashuWalletError> {
        Err(CashuWalletError::Transport("no keysets".to_string()))
    }

    fn get_mint_payment_request(
        &self,
        _mint_url: &String,
        _amount: u64,
    ) -> Result<PaymentRequest, CashuWalletError> {
        Err(CashuWalletError::Transport("no invoice".to_string()))
    }
}

struct Paying {}

impl Lightning for Paying {
    fn is_invoice_paid(&self, _invoice: String) -> Result<bool, LightningError> {
        Ok(true)
    }

    fn create_invoice(&self, _amount: u64) -> Result<CreateInvoiceResult, LightningError> {
        Ok(CreateInvoiceResult {
            payment_hash: "hash".to_string(),
            payment_request: "request".to_string(),
        })
    }

    fn pay_invoice(&self, _payment_request: String) -> Result<PayInvoiceResult, LightningError> {
        Ok(PayInvoiceResult { payment_hash: "paid".to_string() })
    }
}

/// A client that calls a mint in the same process.
#[derive(Clone)]
struct DirectClient {
    mint: Rc<RefCell<Mint<Paying, MemoryDatabase>>>,
    fee: u64,
}

fn refused(e: cashurs::error::CashuMintError) -> CashuWalletError {
    CashuWalletError::MintError(e.to_string())
}

impl Client for DirectClient {
    fn post_split_tokens(
        &self,
        _mint_url: &String,
        amount: u64,
        proofs: Proofs,
        output: Vec<BlindedMessage>,
    ) -> Result<PostSplitResponse, CashuWalletError> {
        let (snd, fst) = self.mint.borrow_mut().split(amount, proofs, output).map_err(refused)?;
        Ok(PostSplitResponse { fst, snd })
    }

    fn post_mint_payment_request(
        &self,
        _mint_url: &String,
        hash: String,
        blinded_messages: Vec<BlindedMessage>,
    ) -> Result<PostMintResponse, CashuWalletError> {
        let promises =
            self.mint.borrow_mut().mint_tokens(hash, blinded_messages).map_err(refused)?;
        Ok(PostMintResponse { promises })
    }

    fn post_melt_tokens(
        &self,
        _mint_url: &String,
        proofs: Proofs,
        pr: String,
        _outputs: Vec<BlindedMessage>,
    ) -> Result<PostMeltResponse, CashuWalletError> {
        let (paid, preimage, change) = self.mint.borrow_mut().melt(pr, proofs).map_err(refused)?;
        Ok(PostMeltResponse { paid, preimage: Some(preimage), change })
    }

    fn post_checkfees(
        &self,
        _mint_url: &String,
        _pr: String,
    ) -> Result<CheckFeesResponse, CashuWalletError> {
        Ok(CheckFeesResponse { fee: self.fee })
    }

    fn get_mint_keys(
        &self,
        _mint_url: &String,
    ) -> Result<HashMap<u64, PublicKey>, CashuWalletError> {
        Ok(self.mint.borrow().keyset.public_keys())
    }

    fn get_mint_keysets(&self, _mint_url: &String) -> Result<Keysets, CashuWalletError> {
        Ok(Keysets::new(vec![self.mint.borrow().keyset.keyset_id()]))
    }

    fn get_mint_payment_request(
        &self,
        _mint_url: &String,
        amount: u64,
    ) -> Result<PaymentRequest, CashuWalletError> {
        let (pr, hash) = self.mint.borrow_mut().create_invoice(amount).map_err(refused)?;
        Ok(PaymentRequest { pr, hash })
    }
}

fn some_point() -> PublicKey {
    PublicKey::from_hex("02634a2c2b34bec9e8a4aba4361f6bf202d7fa2365379b0840afe249a7a9d71239")
        .expect("a point")
}

fn coin(amount: u64, secret: &str) -> Proof {
    Proof::new(amount, secret.to_string(), some_point(), "keyset".to_string())
}

fn signature(amount: u64) -> BlindedSignature {
    BlindedSignature { amount, c_: some_point(), id: Some("keyset".to_string()) }
}

/// 60 in the denominations 4, 8, 16 and 32
fn coins_of_60() -> Proofs {
    Proofs::new(vec![coin(4, "four"), coin(8, "eight"), coin(16, "sixteen"), coin(32, "thirtytwo")])
}

fn amounts(proofs: &Proofs) -> Vec<u64> {
    proofs.get_proofs().iter().map(|p| p.amount).collect()
}

fn connected(secret: &str, fee: u64) -> Wallet<DirectClient, MemoryLocalStore> {
    let mint = Mint::new(secret.to_string(), "".to_string(), Paying {}, MemoryDatabase::new())
        .expect("the keyset can be derived");
    let client = DirectClient { mint: Rc::new(RefCell::new(mint)), fee };
    let url = "http://localhost:8080/".to_string();
    let keys = client.get_mint_keys(&url).unwrap();
    let keysets = client.get_mint_keysets(&url).unwrap();
    Wallet::new(client, keys, keysets, MemoryLocalStore::new(), url)
}

#[test]
fn test_create_secrets() {
    let wallet = Wallet::new(
        MockClient::default(),
        HashMap::new(),
        Keysets::new(vec![]),
        MemoryLocalStore::new(),
        "http://localhost:8080".to_string(),
    );

    let amounts = vec![1, 2, 3, 4, 5, 6, 7];
    let secrets = wallet.create_secrets(&amounts);

    assert!(secrets.len() == amounts.len());
    assert!(secrets.iter().all(|s| s.len() == 24 && s.chars().all(|c| c.is_ascii_alphanumeric())));
}

#[test]
fn test_mint_tokens() {
    let mint_response = PostMintResponse { promises: vec![signature(4), signature(16)] };

    let client = MockClient::with_mint_response(mint_response);
    let localstore = MemoryLocalStore::new();
    let mint_url = "http://localhost:8080/";

    let mint_keyset = MintKeyset::new("superprivatesecretkey", "").unwrap();
    let mut wallet = Wallet::new(
        client,
        mint_keyset.public_keys(),
        Keysets::new(vec![mint_keyset.keyset_id()]),
        localstore,
        mint_url.to_string(),
    );

    let result = wallet.mint_tokens(20, "hash".to_string()).unwrap();
    assert_eq!(20, result.total_amount());
    assert_eq!(
        mint_url.to_owned(),
        result.tokens.get(0).expect("Tokens is empty").mint.as_ref().expect("mint is empty").clone()
    );
    assert_eq!(result.tokens.len(), 1);
    assert_eq!(wallet.get_balance(), Ok(20));
}

#[test]
fn test_split() {
    let split_response = PostSplitResponse {
        fst: vec![signature(8), signature(16)],
        snd: vec![signature(8), signature(32)],
    };

    let client = MockClient::with_split_response(split_response);
    let localstore = MemoryLocalStore::new();

    let mint_keyset = MintKeyset::new("mysecret", "").unwrap();
    let wallet = Wallet::new(
        client,
        mint_keyset.public_keys(),
        Keysets::new(vec![mint_keyset.keyset_id()]),
        localstore,
        "http://localhost:8080".to_string(),
    );

    let tokens = TokenV3::from_proofs(
        "http://localhost:8080".to_string(),
        Proofs::new(vec![coin(64, "sixtyfour")]),
    );
    let result = wallet.split_tokens(&tokens, 20).unwrap();
    assert_eq!(24, result.0.total_amount());
    assert_eq!(40, result.1.total_amount());
}

#[test]
fn test_get_proofs_for_amount_empty() {
    let wallet = Wallet::new(
        MockClient::default(),
        HashMap::new(),
        Keysets::new(vec!["foo".to_string()]),
        MemoryLocalStore::new(),
        "http://localhost:8080".to_string(),
    );

    let result = wallet.get_proofs_for_amount(10);

    assert!(result.is_err());
    assert!(result.err().unwrap().to_string().contains("Not enough tokens"));
}

#[test]
fn test_get_proofs_for_amount_valid() {
    let local_store = MemoryLocalStore::with_proofs(coins_of_60());

    let wallet = Wallet::new(
        MockClient::default(),
        HashMap::new(),
        Keysets::new(vec!["foo".to_string()]),
        local_store,
        "http://localhost:8080".to_string(),
    );

    let result = wallet.get_proofs_for_amount(10).unwrap();
    assert_eq!(32, result.total_amount());
    assert_eq!(1, result.len());
}

#[test]
fn test_pay_invoice() {
    let local_store = MemoryLocalStore::with_proofs(coins_of_60());

    let melt_response = PostMeltResponse { paid: true, preimage: None, change: vec![] };
    let mock_client = MockClient::with_melt_response(melt_response);

    let mint_keyset = MintKeyset::new("mysecret", "").unwrap();
    let mut wallet = Wallet::new(
        mock_client,
        mint_keyset.public_keys(),
        Keysets::new(vec![mint_keyset.keyset_id()]),
        local_store,
        "http://localhost:8080".to_string(),
    );

    // 21 sats
    let result = wallet.pay_invoice(INVOICE_21_SAT.to_string()).unwrap();
    assert!(result.paid);
    // the proof of 32 is gone; this mint gave no change
    assert_eq!(amounts(&wallet.localstore.get_proofs().unwrap()), vec![4, 8, 16]);
}

#[test]
fn wallet_mints_at_a_mint() {
    let mut wallet = connected("superprivatesecretkey", 0);
    let request = wallet.get_mint_payment_request(20).unwrap();
    assert_eq!(request.pr, "request");

    let token = wallet.mint_tokens(20, request.hash.clone()).unwrap();

    assert_eq!(token.total_amount(), 20);
    assert_eq!(token.mint(), Some("http://localhost:8080/".to_string()));
    assert_eq!(amounts(&token.proofs()), vec![4, 16]);
    assert_eq!(wallet.get_balance(), Ok(20));
    // each proof is the mint's signature on its secret
    let dhke = Dhke::new();
    let mint = wallet.client.mint.borrow();
    for coin in token.proofs().get_proofs() {
        let key = mint.keyset.private_key(coin.amount).unwrap();
        assert_eq!(dhke.verify(key, coin.c, &coin.secret), Ok(true));
        assert_eq!(coin.keyset_id, mint.keyset.keyset_id());
        assert_eq!(coin.secret.len(), 24);
    }
    drop(mint);
    // the invoice is redeemed once
    assert_eq!(
        wallet.mint_tokens(20, request.hash.clone()),
        Err(CashuWalletError::MintError(format!("Invoice not found: {}", request.hash)))
    );
    assert_eq!(wallet.get_balance(), Ok(20));
}

#[test]
fn wallet_splits_at_a_mint() {
    let mut wallet = connected("mysecret", 0);
    let request = wallet.get_mint_payment_request(64).unwrap();
    let token = wallet.mint_tokens(64, request.hash).unwrap();

    let (first, second) = wallet.split_tokens(&token, 20).unwrap();

    assert_eq!(first.total_amount(), 44);
    assert_eq!(second.total_amount(), 20);
    assert_eq!(amounts(&first.proofs()), vec![4, 8, 32]);
    assert_eq!(amounts(&second.proofs()), vec![4, 16]);
    // the token is spent now
    assert_eq!(
        wallet.split_tokens(&token, 20).err().unwrap().to_string(),
        format!("Proof already used: {}", token.proofs().get_proofs()[0].secret)
    );
}

#[test]
fn wallet_split_of_more_than_the_token_is_worth() {
    let wallet = connected("mysecret", 0);
    let token = TokenV3::from_proofs("url".to_string(), Proofs::new(vec![coin(16, "a")]));
    assert_eq!(wallet.split_tokens(&token, 17), Err(CashuWalletError::InvalidProofs));
    let huge = TokenV3::from_proofs(
        "url".to_string(),
        Proofs::new(vec![coin(u64::MAX, "a"), coin(u64::MAX, "b")]),
    );
    assert_eq!(wallet.split_tokens(&huge, 1), Err(CashuWalletError::InvalidProofs));
}

#[test]
fn wallet_pays_an_invoice_at_a_mint() {
    let mut wallet = connected("mysecret", 2_500);
    let request = wallet.get_mint_payment_request(60).unwrap();
    wallet.mint_tokens(60, request.hash).unwrap();
    assert_eq!(amounts(&wallet.localstore.get_proofs().unwrap()), vec![4, 8, 16, 32]);

    // 21 sat and a fee of 2 sat: the proof of 32 is swapped for 9 and 23
    let response = wallet.pay_invoice(INVOICE_21_SAT.to_string()).unwrap();

    assert!(response.paid);
    assert_eq!(response.preimage, Some("paid".to_string()));
    assert_eq!(wallet.get_balance(), Ok(37));
    assert_eq!(amounts(&wallet.localstore.get_proofs().unwrap()), vec![4, 8, 16, 1, 8]);
}

#[test]
fn wallet_pays_with_exactly_what_it_selects() {
    let mut wallet = connected("mysecret", 0);
    let request = wallet.get_mint_payment_request(21).unwrap();
    wallet.mint_tokens(21, request.hash).unwrap();
    let response = wallet.pay_invoice(INVOICE_21_SAT.to_string()).unwrap();
    assert!(response.paid);
    assert_eq!(wallet.get_balance(), Ok(0));
}

#[test]
fn wallet_cannot_pay_more_than_it_holds() {
    let mut wallet = connected("mysecret", 0);
    let request = wallet.get_mint_payment_request(20).unwrap();
    wallet.mint_tokens(20, request.hash).unwrap();
    assert_eq!(
        wallet.pay_invoice(INVOICE_21_SAT.to_string()),
        Err(CashuWalletError::NotEnoughTokens)
    );
    assert_eq!(
        wallet.pay_invoice("nothing".to_string()),
        Err(CashuWalletError::DecodeInvoice("nothing".to_string()))
    );
    assert_eq!(wallet.get_balance(), Ok(20));
}

#[test]
fn wallet_receives_tokens() {
    let mut sender = connected("mysecret", 0);
    let request = sender.get_mint_payment_request(12).unwrap();
    let token = sender.mint_tokens(12, request.hash).unwrap();
    let mut receiver = Wallet::new(
        sender.client.clone(),
        sender.mint_keys.clone(),
        sender.keysets.clone(),
        MemoryLocalStore::new(),
        sender.mint_url.clone(),
    );

    receiver.receive_tokens(&token).unwrap();

    assert_eq!(receiver.get_balance(), Ok(12));
    let held = receiver.localstore.get_proofs().unwrap().get_proofs();
    let sent = token.proofs().get_proofs();
    assert!(held.iter().all(|h| sent.iter().all(|s| s.secret != h.secret)));
    // what was sent is spent: it cannot be received again
    assert!(receiver.receive_tokens(&token).is_err());
    assert_eq!(receiver.get_balance(), Ok(12));
}

#[test]
fn wallet_needs_the_keyset_of_the_keys() {
    let mint_keyset = MintKeyset::new("mysecret", "").unwrap();
    let mut wallet = Wallet::new(
        MockClient::with_mint_response(PostMintResponse { promises: vec![signature(4)] }),
        mint_keyset.public_keys(),
        Keysets::new(vec!["foo".to_string()]),
        MemoryLocalStore::new(),
        "url".to_string(),
    );
    assert_eq!(wallet.mint_tokens(4, "hash".to_string()), Err(CashuWalletError::InvalidKeysetid));
}

#[test]
fn wallet_needs_a_key_for_each_signature() {
    let mint_keyset = MintKeyset::new("mysecret", "").unwrap();
    let mut wallet = Wallet::new(
        MockClient::with_mint_response(PostMintResponse { promises: vec![signature(3)] }),
        mint_keyset.public_keys(),
        Keysets::new(vec![mint_keyset.keyset_id()]),
        MemoryLocalStore::new(),
        "url".to_string(),
    );
    assert_eq!(
        wallet.mint_tokens(4, "hash".to_string()),
        Err(CashuWalletError::UnknownDenomination(3))
    );
    assert_eq!(wallet.get_balance(), Ok(0));
}

#[test]
fn selection_takes_the_largest_first() {
    let all = Proofs::new(vec![coin(4, "a"), coin(8, "b"), coin(8, "c"), coin(2, "d")]);
    let taken = select_proofs(all.clone(), 9).unwrap().get_proofs();
    // of two proofs with the same amount, the later one goes first
    assert_eq!(taken.iter().map(|p| p.secret.as_str()).collect::<Vec<&str>>(), vec!["c", "b"]);
    assert_eq!(amounts(&select_proofs(all.clone(), 22).unwrap()), vec![8, 8, 4, 2]);
    assert_eq!(amounts(&select_proofs(all.clone(), 8).unwrap()), vec![8]);
    assert_eq!(amounts(&select_proofs(all.clone(), 0).unwrap()), Vec::<u64>::new());
    assert_eq!(select_proofs(all, 23), Err(CashuWalletError::NotEnoughTokens));
    assert_eq!(select_proofs(Proofs::empty(), 1), Err(CashuWalletError::NotEnoughTokens));
}

#[test]
fn selection_covers_the_amount() {
    for amount in 0..=60u64 {
        let taken = select_proofs(coins_of_60(), amount).unwrap();
        assert!(taken.total_amount() >= amount as u128);
    }
    assert_eq!(select_proofs(coins_of_60(), 61), Err(CashuWalletError::NotEnoughTokens));
}

#[test]
fn memory_local_store_adds_and_deletes() {
    let mut store = MemoryLocalStore::with_proofs(coins_of_60());
    store.delete_proofs(&Proofs::new(vec![coin(8, "eight"), coin(1, "unknown")])).unwrap();
    store.add_proofs(&Proofs::new(vec![coin(2, "two")])).unwrap();
    assert_eq!(amounts(&store.get_proofs().unwrap()), vec![4, 16, 32, 2]);
    let keyset = WalletKeyset { id: "id".to_string(), mint_url: "url".to_string() };
    store.add_keyset(&keyset).unwrap();
    assert_eq!(store.get_keysets(), Ok(vec![keyset]));
    let _: Option<LocalStoreError> = None;
}

#[test]
fn token_bundles() {
    let first = Token { mint: None, proofs: Proofs::new(vec![coin(1, "a")]) };
    let second = Token { mint: Some("url".to_string()), proofs: Proofs::new(vec![coin(2, "b"), coin(4, "c")]) };
    let token = TokenV3 { tokens: vec![first, second], memo: None };
    assert_eq!(token.total_amount(), 7);
    assert_eq!(amounts(&token.proofs()), vec![1, 2, 4]);
    assert_eq!(token.mint(), Some("url".to_string()));
}

#[test]
fn amounts_of_a_payment() {
    assert_eq!(payment_amount(21_000, 2_500), 23);
    assert_eq!(payment_amount(21_999, 999), 21);
    assert_eq!(payment_amount(u64::MAX, u64::MAX), 2 * (u64::MAX / 1000));
    assert_eq!(invoice_amount(INVOICE_21_SAT), Ok(21));
    assert_eq!(
        invoice_amount("nothing"),
        Err(CashuWalletError::DecodeInvoice("nothing".to_string()))
    );
    let without_amount = "lnbc1pvjluezsp5zyg3zyg3zyg3zyg3zyg3zyg3zyg3zyg3zyg3zyg3zyg3zyg3zygspp5qqqsyqcyq5rqwzqfqqqsyqcyq5rqwzqfqqqsyqcyq5rqwzqfqypqdpl2pkx2ctnv5sxxmmwwd5kgetjypeh2ursdae8g6twvus8g6rfwvs8qun0dfjkxaq9qrsgq357wnc5r2ueh7ck6q93dj32dlqnls087fxdwk8qakdyafkq3yap9us6v52vjjsrvywa6rt52cm9r9zqt8r2t7mlcwspyetp5h2tztugp9lfyql";
    assert_eq!(
        invoice_amount(without_amount),
        Err(CashuWalletError::InvalidInvoice(without_amount.to_string()))
    );
}

#[test]
fn random_secrets() {
    let first = generate_random_string();
    let second = generate_random_string();
    assert_eq!(first.len(), 24);
    assert!(first.chars().all(|c| c.is_ascii_alphanumeric()));
    assert_ne!(first, second);
}

#[test]
fn answers_of_the_mint() {
    let not_paid = || CashuErrorResponse {
        code: 0,
        error: "Lightning invoice not paid yet.".to_string(),
    };
    let other = || CashuErrorResponse { code: 11, error: "Token already spent.".to_string() };
    let json = || Some("application/json".to_string());
    assert_eq!(
        refusal(not_paid()),
        CashuWalletError::InvoiceNotPaidYet(0, "Lightning invoice not paid yet.".to_string())
    );
    assert_eq!(refusal(other()), CashuWalletError::MintError("Token already spent.".to_string()));
    assert_eq!(
        extract_response_data(200, json(), "{\"fee\":3}".to_string(), Some(CheckFeesResponse { fee: 3 }), None),
        Ok(CheckFeesResponse { fee: 3 })
    );
    assert_eq!(
        extract_response_data::<CheckFeesResponse>(200, json(), "garbage".to_string(), None, None),
        Err(CashuWalletError::UnexpectedResponse("garbage".to_string()))
    );
    assert_eq!(
        extract_response_data::<CheckFeesResponse>(400, json(), "body".to_string(), None, Some(not_paid())),
        Err(CashuWalletError::InvoiceNotPaidYet(0, "Lightning invoice not paid yet.".to_string()))
    );
    assert_eq!(
        extract_response_data::<CheckFeesResponse>(500, json(), "body".to_string(), None, Some(other())),
        Err(CashuWalletError::MintError("Token already spent.".to_string()))
    );
    assert_eq!(
        extract_response_data::<CheckFeesResponse>(500, json(), "body".to_string(), None, None),
        Err(CashuWalletError::UnexpectedResponse("body".to_string()))
    );
    assert_eq!(
        extract_response_data::<CheckFeesResponse>(500, Some("text/html".to_string()), "body".to_string(), None, Some(other())),
        Err(CashuWalletError::UnexpectedResponse("body".to_string()))
    );
    assert_eq!(
        extract_response_data::<CheckFeesResponse>(404, None, "body".to_string(), None, Some(other())),
        Err(CashuWalletError::UnexpectedResponse("body".to_string()))
    );
}

#[test]
fn paths_of_the_mint() {
    assert_eq!(payment_request_path(20), "mint?amount=20");
    assert_eq!(payment_request_path(0), "mint?amount=0");
    assert_eq!(payment_request_path(u64::MAX), "mint?amount=18446744073709551615");
    assert_eq!(mint_path("abc"), "mint?hash=abc");
}

#[test]
fn wallet_errors_in_words() {
    assert_eq!(CashuWalletError::NotEnoughTokens.to_string(), "Not enough tokens");
    assert_eq!(
        CashuWalletError::MintError("as the mint said it".to_string()).to_string(),
        "as the mint said it"
    );
    assert_eq!(
        CashuWalletError::InvoiceNotPaidYet(0, "Lightning invoice not paid yet.".to_string())
            .to_string(),
        "Lightning invoice not paid yet."
    );
}

/// A store that is out of order.
#[derive(Clone)]
struct StoreDown {}

fn out_of_order() -> LocalStoreError {
    LocalStoreError { message: "out of order".to_string() }
}

impl LocalStoreBackend for StoreDown {
    fn add_proofs(&mut self, _proofs: &Proofs) -> Result<(), LocalStoreError> {
        Err(out_of_order())
    }

    fn get_proofs(&self) -> Result<Proofs, LocalStoreError> {
        Ok(coins_of_60())
    }

    fn delete_proofs(&mut self, _proofs: &Proofs) -> Result<(), LocalStoreError> {
        Err(out_of_order())
    }

    fn get_keysets(&self) -> Result<Vec<WalletKeyset>, LocalStoreError> {
        Ok(vec![])
    }

    fn add_keyset(&mut self, _keyset: &WalletKeyset) -> Result<(), LocalStoreError> {
        Err(out_of_order())
    }
}

#[test]
fn the_errors_of_the_local_store_are_handed_on() {
    let mint_keyset = MintKeyset::new("mysecret", "").unwrap();
    let mut wallet = Wallet::new(
        MockClient::with_mint_response(PostMintResponse { promises: vec![signature(4)] }),
        mint_keyset.public_keys(),
        Keysets::new(vec![mint_keyset.keyset_id()]),
        CachedLocalStore::open(StoreDown {}).unwrap(),
        "url".to_string(),
    );
    let down = || CashuWalletError::LocalStore(out_of_order());
    assert_eq!(wallet.get_balance(), Ok(60));
    assert_eq!(wallet.mint_tokens(4, "hash".to_string()), Err(down()));
    assert_eq!(wallet.pay_invoice(INVOICE_21_SAT.to_string()), Err(down()));
    assert_eq!(wallet.receive_tokens(&TokenV3::from_proofs("url".to_string(), Proofs::empty())), Err(down()));
    assert_eq!(down().to_string(), "Local store error: out of order");
    // what the backend did not take is not held
    assert_eq!(wallet.get_balance(), Ok(60));
    assert_eq!(wallet.get_invoice_amount(INVOICE_21_SAT), Ok(21));
    assert_eq!(wallet.decode_invoice(INVOICE_21_SAT).unwrap().amount_msat, Some(21_000));
}

#[test]
fn a_wallet_is_copied() {
    let wallet = connected("mysecret", 0);
    let copy = wallet.clone();
    assert_eq!(copy.mint_url, wallet.mint_url);
    assert_eq!(copy.mint_keys, wallet.mint_keys);
    assert_eq!(copy.keysets, wallet.keysets);
}

#[test]
fn a_cached_local_store_holds_what_was_loaded() {
    let keyset = WalletKeyset { id: "id".to_string(), mint_url: "url".to_string() };
    let mut store = CachedLocalStore::with_loaded(StoreDown {}, coins_of_60(), vec![keyset.clone()]);
    assert_eq!(amounts(&store.get_proofs().unwrap()), vec![4, 8, 16, 32]);
    assert_eq!(store.get_keysets(), Ok(vec![keyset.clone()]));
    assert_eq!(store.backend().get_proofs().unwrap().len(), 4);
    let refused = Err(out_of_order());
    let two = Proofs::new(vec![coin(2, "two")]);
    assert_eq!(store.proofs_added(refused.clone(), &two), refused);
    assert_eq!(store.proofs_deleted(refused.clone(), &coins_of_60()), refused);
    assert_eq!(store.keyset_added(refused.clone(), &keyset), refused);
    assert_eq!(amounts(&store.get_proofs().unwrap()), vec![4, 8, 16, 32]);
    assert_eq!(store.proofs_added(Ok(()), &two), Ok(()));
    assert_eq!(store.proofs_deleted(Ok(()), &Proofs::new(vec![coin(8, "eight")])), Ok(()));
    assert_eq!(store.keyset_added(Ok(()), &keyset), Ok(()));
    assert_eq!(amounts(&store.get_proofs().unwrap()), vec![4, 16, 32, 2]);
    assert_eq!(store.get_keysets().unwrap().len(), 2);
}

#[test]
fn what_follows_the_answers_of_the_mint() {
    let mint_keyset = MintKeyset::new("mysecret", "").unwrap();
    let mut wallet = Wallet::new(
        MockClient::with_melt_response(PostMeltResponse { paid: true, preimage: None, change: vec![] }),
        mint_keyset.public_keys(),
        Keysets::new(vec![mint_keyset.keyset_id()]),
        MemoryLocalStore::with_proofs(coins_of_60()),
        "url".to_string(),
    );
    let refused = || CashuWalletError::MintError("no".to_string());
    // the fee
    assert_eq!(wallet.pay_quoted(INVOICE_21_SAT.to_string(), Err(refused())), Err(refused()));
    assert_eq!(
        wallet.pay_quoted("nothing".to_string(), Ok(CheckFeesResponse { fee: 0 })),
        Err(CashuWalletError::DecodeInvoice("nothing".to_string()))
    );
    assert_eq!(
        wallet.pay_quoted(INVOICE_21_SAT.to_string(), Ok(CheckFeesResponse { fee: 40_000 })),
        Err(CashuWalletError::NotEnoughTokens)
    );
    assert_eq!(wallet.get_balance(), Ok(60));
    // a melt
    let melted = Proofs::new(vec![coin(4, "four")]);
    assert_eq!(wallet.forget_melted(Err(refused()), &melted), Err(refused()));
    assert_eq!(wallet.get_balance(), Ok(60));
    let answer = PostMeltResponse { paid: true, preimage: Some("p".to_string()), change: vec![] };
    assert_eq!(wallet.forget_melted(Ok(answer.clone()), &melted), Ok(answer));
    assert_eq!(wallet.get_balance(), Ok(56));
    // a mint request
    assert_eq!(wallet.store_minted(Err(refused()), vec![], vec![]), Err(refused()));
    assert_eq!(wallet.get_balance(), Ok(56));
    // the payment itself: with the fee of 35 sat it takes 56, which is all that is left
    let paid = wallet.pay_quoted(INVOICE_21_SAT.to_string(), Ok(CheckFeesResponse { fee: 35_000 }));
    assert!(paid.unwrap().paid);
    assert_eq!(wallet.get_balance(), Ok(0));
}

#[test]
fn nothing_is_blinded_for_nothing() {
    let wallet = connected("mysecret", 0);
    assert_eq!(wallet.create_blinded_messages(0, &[]), Ok(vec![]));
    assert_eq!(wallet.create_blinded_messages(7, &[]), Ok(vec![]));
    assert_eq!(wallet.create_blinded_messages(0, &["secret".to_string()]), Ok(vec![]));
    assert_eq!(wallet.prepare_outputs(0), Ok((vec![], vec![])));
    let (secrets, outputs) = wallet.prepare_outputs(13).unwrap();
    assert_eq!(secrets.len(), 3);
    assert_eq!(outputs.iter().map(|o| o.0.amount).collect::<Vec<u64>>(), vec![1, 4, 8]);
    let dhke = Dhke::new();
    for (secret, (message, r)) in secrets.iter().zip(outputs.iter()) {
        assert_eq!(dhke.blind(secret, r), Ok(message.b_));
    }
}

#[test]
fn what_a_swap_asks_of_the_mint() {
    let wallet = connected("mysecret", 0);
    let proofs = Proofs::new(vec![coin(32, "a"), coin(32, "b")]);
    let token = TokenV3::from_proofs("url".to_string(), proofs.clone());
    let (post, first_secrets, first_outputs, second_secrets, second_outputs) =
        wallet.split_request(&token, 20).unwrap();
    assert_eq!(post.amount, 20);
    assert_eq!(post.proofs, proofs);
    // the rest first, then the amount
    assert_eq!(
        post.outputs.iter().map(|o| o.amount).collect::<Vec<u64>>(),
        vec![4, 8, 32, 4, 16]
    );
    let kept: Vec<BlindedMessage> =
        first_outputs.iter().chain(second_outputs.iter()).map(|o| o.0).collect();
    assert_eq!(post.outputs, kept);
    assert_eq!(first_secrets.len(), 3);
    assert_eq!(second_secrets.len(), 2);
    assert_eq!(wallet.split_request(&token, 65), Err(CashuWalletError::InvalidProofs));
    let all = wallet.split_request(&token, 64).unwrap();
    assert_eq!(all.0.outputs.iter().map(|o| o.amount).collect::<Vec<u64>>(), vec![64]);
    assert!(all.1.is_empty() && all.2.is_empty());
}

#[test]
fn change_is_kept_and_the_exact_amount_handed_on() {
    let mint_keyset = MintKeyset::new("mysecret", "").unwrap();
    let mut wallet = Wallet::new(
        MockClient::default(),
        mint_keyset.public_keys(),
        Keysets::new(vec![mint_keyset.keyset_id()]),
        MemoryLocalStore::with_proofs(coins_of_60()),
        "url".to_string(),
    );
    let change = Proofs::new(vec![coin(1, "c1"), coin(2, "c2"), coin(8, "c8")]);
    let exact = Proofs::new(vec![coin(1, "e1"), coin(4, "e4"), coin(16, "e16")]);
    let swapped = (
        TokenV3::from_proofs("url".to_string(), change),
        TokenV3::from_proofs("url".to_string(), exact.clone()),
    );
    let selected = Proofs::new(vec![coin(32, "thirtytwo")]);
    assert_eq!(wallet.keep_change(&selected, swapped), Ok(exact.clone()));
    assert_eq!(amounts(&wallet.localstore.get_proofs().unwrap()), vec![4, 8, 16, 1, 2, 8]);
    // a received token: the second token of its swap is kept
    let received = (
        TokenV3::from_proofs("url".to_string(), Proofs::empty()),
        TokenV3::from_proofs("url".to_string(), exact),
    );
    assert_eq!(wallet.keep_received(received), Ok(()));
    assert_eq!(amounts(&wallet.localstore.get_proofs().unwrap()), vec![4, 8, 16, 1, 2, 8, 1, 4, 16]);
}

#[test]
fn a_failing_store_keeps_no_change() {
    let mint_keyset = MintKeyset::new("mysecret", "").unwrap();
    let mut wallet = Wallet::new(
        MockClient::default(),
        mint_keyset.public_keys(),
        Keysets::new(vec![mint_keyset.keyset_id()]),
        CachedLocalStore::open(StoreDown {}).unwrap(),
        "url".to_string(),
    );
    let swapped = || {
        (
            TokenV3::from_proofs("url".to_string(), Proofs::new(vec![coin(1, "c1")])),
            TokenV3::from_proofs("url".to_string(), Proofs::new(vec![coin(2, "e2")])),
        )
    };
    let down = || CashuWalletError::LocalStore(out_of_order());
    assert_eq!(wallet.keep_change(&Proofs::new(vec![coin(4, "four")]), swapped()), Err(down()));
    assert_eq!(wallet.keep_received(swapped()), Err(down()));
    assert_eq!(wallet.get_balance(), Ok(60));
}

#[test]
fn what_minting_and_melting_ask_of_the_mint() {
    let wallet = connected("mysecret", 0);
    let (post, secrets, outputs) = wallet.mint_request(20).unwrap();
    assert_eq!(post.outputs.iter().map(|o| o.amount).collect::<Vec<u64>>(), vec![4, 16]);
    assert_eq!(post.outputs, outputs.iter().map(|o| o.0).collect::<Vec<BlindedMessage>>());
    assert_eq!(secrets.len(), 2);
    assert!(wallet.mint_request(0).unwrap().0.outputs.is_empty());
    let proofs = Proofs::new(vec![coin(1, "a"), coin(4, "b")]);
    let melt = Wallet::<DirectClient, MemoryLocalStore>::melt_request("invoice".to_string(), &proofs);
    assert_eq!(melt.pr, "invoice");
    assert_eq!(melt.proofs, proofs);
    assert!(melt.outputs.is_empty());
}
