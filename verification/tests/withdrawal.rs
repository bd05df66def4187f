use mixer::mixer::{Disbursement, Error, Mixer, VerifierOutcome, WithdrawParams};

fn b32(x: u8) -> [u8; 32] {
    [x; 32]
}

fn native_pool_with_deposit(deposit_size: u128) -> Mixer {
    let mut pool = Mixer::new(4, deposit_size, None);
    pool.deposit_native(b32(0x11), deposit_size).unwrap();
    pool
}

fn request(root: [u8; 32], nullifier: [u8; 32], fee: u128, refund: u128) -> WithdrawParams {
    WithdrawParams {
        proof_bytes: vec![0xaa, 0xbb],
        root,
        nullifier_hash: nullifier,
        recipient: b32(0x21),
        relayer: b32(0x22),
        fee,
        refund,
    }
}

#[test]
fn valid_withdrawal_succeeds_exactly_once() {
    let mut pool = native_pool_with_deposit(1000);
    let root = pool.get_last_root();
    let params = request(root, b32(0x33), 10, 0);

    assert!(!pool.is_known_nullifier(&params.nullifier_hash));
    let disbursed = pool.withdraw(&params, VerifierOutcome::Accepted);
    assert!(disbursed.is_ok());
    assert!(pool.is_known_nullifier(&params.nullifier_hash));

    // A second request spending the same nullifier fails as a double
    // spend and moves nothing, even though its proof would verify.
    let again = pool.withdraw(&params, VerifierOutcome::Accepted);
    assert_eq!(again, Err(Error::NullifierKnown));
    let other_proof = WithdrawParams { proof_bytes: vec![0xcc], ..params };
    assert_eq!(pool.withdraw(&other_proof, VerifierOutcome::Accepted), Err(Error::NullifierKnown));
}

#[test]
fn unknown_root_fails_regardless_of_proof_validity() {
    let mut pool = native_pool_with_deposit(1000);
    let params = request(b32(0x77), b32(0x34), 10, 0);

    assert_eq!(pool.withdraw(&params, VerifierOutcome::Accepted), Err(Error::UnknownRoot));
    assert_eq!(pool.withdraw(&params, VerifierOutcome::Rejected), Err(Error::UnknownRoot));
    assert!(!pool.is_known_nullifier(&params.nullifier_hash));

    let zero_root = request([0u8; 32], b32(0x34), 10, 0);
    assert_eq!(pool.withdraw(&zero_root, VerifierOutcome::Accepted), Err(Error::UnknownRoot));
}

#[test]
fn rejected_proof_burns_no_nullifier() {
    let mut pool = native_pool_with_deposit(1000);
    let root = pool.get_last_root();
    let params = request(root, b32(0x35), 10, 0);

    assert_eq!(pool.withdraw(&params, VerifierOutcome::Rejected), Err(Error::InvalidWithdrawProof));
    assert!(!pool.is_known_nullifier(&params.nullifier_hash));

    // The nullifier stays reusable for a later valid proof.
    assert!(pool.withdraw(&params, VerifierOutcome::Accepted).is_ok());
    assert!(pool.is_known_nullifier(&params.nullifier_hash));
}

#[test]
fn failing_verifier_is_its_own_error() {
    let mut pool = native_pool_with_deposit(1000);
    let root = pool.get_last_root();
    let params = request(root, b32(0x36), 10, 0);

    assert_eq!(pool.withdraw(&params, VerifierOutcome::Failed), Err(Error::VerifyError));
    assert!(!pool.is_known_nullifier(&params.nullifier_hash));
}

#[test]
fn native_disbursement_pays_recipient_relayer_and_refund() {
    let mut pool = native_pool_with_deposit(1000);
    let root = pool.get_last_root();
    let params = request(root, b32(0x37), 30, 7);

    match pool.withdraw(&params, VerifierOutcome::Accepted).unwrap() {
        Disbursement::Native { to_recipient, to_relayer, refund, record } => {
            assert_eq!(to_recipient.to, params.recipient);
            assert_eq!(to_recipient.amount, 970);
            assert_eq!(to_relayer.to, params.relayer);
            assert_eq!(to_relayer.amount, 30);
            let refund = refund.expect("a positive refund is a third transfer");
            assert_eq!(refund.to, params.recipient);
            assert_eq!(refund.amount, 7);
            assert_eq!(record.recipient, params.recipient);
            assert_eq!(record.relayer, params.relayer);
            assert_eq!(record.fee, 30);
            assert_eq!(record.refund, 7);
        },
        Disbursement::Token { .. } => panic!("native pool must disburse natively"),
    }
}

#[test]
fn zero_refund_means_no_third_transfer() {
    let mut pool = native_pool_with_deposit(1000);
    let root = pool.get_last_root();
    let params = request(root, b32(0x38), 5, 0);

    match pool.withdraw(&params, VerifierOutcome::Accepted).unwrap() {
        Disbursement::Native { refund, .. } => assert!(refund.is_none()),
        Disbursement::Token { .. } => panic!("native pool must disburse natively"),
    }
}

#[test]
fn fee_plus_refund_above_deposit_size_is_not_rejected_here() {
    // The layer checks only fee <= deposit_size; fee + refund may exceed
    // the deposit. This is deliberate, documented behaviour of this layer,
    // not an oversight of the test: bounding the refund is left to the
    // proof circuit's public-input constraints.
    let mut pool = native_pool_with_deposit(1000);
    let root = pool.get_last_root();
    let params = request(root, b32(0x39), 1000, 500);

    match pool.withdraw(&params, VerifierOutcome::Accepted).unwrap() {
        Disbursement::Native { to_recipient, to_relayer, refund, .. } => {
            assert_eq!(to_recipient.amount, 0);
            assert_eq!(to_relayer.amount, 1000);
            assert_eq!(refund.unwrap().amount, 500);
        },
        Disbursement::Token { .. } => panic!("native pool must disburse natively"),
    }
}

#[test]
fn token_pool_disburses_through_token_without_refund() {
    let token = b32(0xee);
    let mut pool = Mixer::new(4, 400, Some(token));
    assert_eq!(pool.deposit_psp22(b32(0x41), 399), Err(Error::InvalidDepositSize));
    assert_eq!(pool.deposit_psp22(b32(0x41), 400), Ok(0));

    let root = pool.get_last_root();
    let params = request(root, b32(0x42), 25, 99);
    match pool.withdraw(&params, VerifierOutcome::Accepted).unwrap() {
        Disbursement::Token { token: t, to_recipient, to_relayer } => {
            assert_eq!(t, token);
            assert_eq!(to_recipient.to, params.recipient);
            assert_eq!(to_recipient.amount, 375);
            assert_eq!(to_relayer.to, params.relayer);
            assert_eq!(to_relayer.amount, 25);
        },
        Disbursement::Native { .. } => panic!("token pool must disburse through the token"),
    }
}

#[test]
fn inserted_nullifier_is_known_and_blocks_withdrawal() {
    let mut pool = native_pool_with_deposit(1000);
    let root = pool.get_last_root();
    let nullifier = b32(0x43);

    assert!(!pool.is_known_nullifier(&nullifier));
    pool.insert_nullifier(&nullifier);
    assert!(pool.is_known_nullifier(&nullifier));
    pool.insert_nullifier(&nullifier);
    assert!(pool.is_known_nullifier(&nullifier));

    let params = request(root, nullifier, 1, 0);
    assert_eq!(pool.withdraw(&params, VerifierOutcome::Accepted), Err(Error::NullifierKnown));
}

#[test]
fn end_to_end_native_deposit_and_withdrawal() {
    let deposit_size: u128 = 5000;
    let fee: u128 = 40;
    let refund: u128 = 11;
    let mut pool = Mixer::new(6, deposit_size, None);

    let commitment = b32(0x51);
    assert_eq!(pool.deposit_native(commitment, deposit_size), Ok(0));
    let root = pool.get_last_root();
    assert!(pool.is_known_root(&root));

    let params = request(root, b32(0x52), fee, refund);
    let inputs = pool.withdrawal_public_inputs(&params).unwrap();
    assert_eq!(inputs.len(), 96);

    // The host verifies (proof, inputs) externally; here it accepts.
    let disbursement = pool.withdraw(&params, VerifierOutcome::Accepted).unwrap();

    // Apply the disbursement to toy balances, as the host would.
    let mut recipient_balance: u128 = 0;
    let mut relayer_balance: u128 = 0;
    match disbursement {
        Disbursement::Native { to_recipient, to_relayer, refund: r, .. } => {
            recipient_balance += to_recipient.amount;
            relayer_balance += to_relayer.amount;
            if let Some(extra) = r {
                recipient_balance += extra.amount;
            }
        },
        Disbursement::Token { .. } => panic!("native pool must disburse natively"),
    }
    assert_eq!(recipient_balance, deposit_size - fee + refund);
    assert_eq!(relayer_balance, fee);

    assert!(pool.is_known_nullifier(&params.nullifier_hash));
    assert_eq!(pool.withdraw(&params, VerifierOutcome::Accepted), Err(Error::NullifierKnown));
}
