use mixer::encoding::{truncate_and_pad, u128_to_be_bytes};
use mixer::mixer::{Mixer, WithdrawParams};
use sha3::Digest;

#[test]
fn truncate_and_pad_keeps_twenty_bytes_and_pads_with_zeros() {
    let mut account = [0u8; 32];
    for (i, b) in account.iter_mut().enumerate() {
        *b = i as u8 + 1;
    }
    let padded = truncate_and_pad(&account);
    assert_eq!(padded.len(), 32);
    assert_eq!(&padded[..20], &account[..20]);
    assert_eq!(&padded[20..], &[0u8; 12]);
}

#[test]
fn amounts_are_encoded_big_endian() {
    let x: u128 = 0x0102_0304_0506_0708_090a_0b0c_0d0e_0f10;
    assert_eq!(u128_to_be_bytes(x), x.to_be_bytes().to_vec());
    assert_eq!(u128_to_be_bytes(0), vec![0u8; 16]);
    assert_eq!(u128_to_be_bytes(u128::MAX), vec![0xffu8; 16]);
}

#[test]
fn public_inputs_bind_all_withdrawal_parameters() {
    let mut pool = Mixer::new(4, 1000, None);
    pool.deposit_native([0x11u8; 32], 1000).unwrap();
    let root = pool.get_last_root();
    let params = WithdrawParams {
        proof_bytes: vec![],
        root,
        nullifier_hash: [0x66u8; 32],
        recipient: [0x21u8; 32],
        relayer: [0x22u8; 32],
        fee: 77,
        refund: 3,
    };

    let inputs = pool.withdrawal_public_inputs(&params).unwrap();

    // Recomputed independently: nullifier, root, then the keccak digest of
    // padded recipient, padded relayer and both big-endian amounts.
    let mut binding = Vec::new();
    binding.extend_from_slice(&params.recipient[..20]);
    binding.extend_from_slice(&[0u8; 12]);
    binding.extend_from_slice(&params.relayer[..20]);
    binding.extend_from_slice(&[0u8; 12]);
    binding.extend_from_slice(&params.fee.to_be_bytes());
    binding.extend_from_slice(&params.refund.to_be_bytes());
    let digest: [u8; 32] = sha3::Keccak256::digest(&binding).into();

    let mut expected = Vec::new();
    expected.extend_from_slice(&params.nullifier_hash);
    expected.extend_from_slice(&params.root);
    expected.extend_from_slice(&digest);
    assert_eq!(inputs, expected);
}

#[test]
fn changing_the_fee_changes_the_public_inputs() {
    let mut pool = Mixer::new(4, 1000, None);
    pool.deposit_native([0x11u8; 32], 1000).unwrap();
    let root = pool.get_last_root();
    let base = WithdrawParams {
        proof_bytes: vec![],
        root,
        nullifier_hash: [0x66u8; 32],
        recipient: [0x21u8; 32],
        relayer: [0x22u8; 32],
        fee: 77,
        refund: 3,
    };
    let other_fee = WithdrawParams { fee: 78, proof_bytes: vec![], ..base };
    let other_relayer = WithdrawParams { relayer: [0x23u8; 32], proof_bytes: vec![], ..base };

    let a = pool.withdrawal_public_inputs(&base).unwrap();
    let b = pool.withdrawal_public_inputs(&other_fee).unwrap();
    let c = pool.withdrawal_public_inputs(&other_relayer).unwrap();
    assert_ne!(a, b, "a relayer must not be able to raise the fee");
    assert_ne!(a, c, "a front-runner must not be able to take the relayer's place");
}
