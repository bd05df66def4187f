//! The anonymity pool: deposit flow, withdrawal protocol and configuration
//! around the Merkle accumulator and the nullifier ledger.
//!
//! The pool is denominated either in the chain's native asset or in a
//! token contract, fixed at construction. Deposits must equal the fixed
//! `deposit_size` exactly; a withdrawal checks the claimed root against the
//! bounded history, refuses spent nullifiers, binds recipient, relayer, fee
//! and refund into the proof's public input, and — once the verifier's
//! verdict is in — marks the nullifier and answers with the exact transfers
//! to disburse. The host environment performs the proof verification and
//! the asset transfers themselves and guarantees that a failing invocation
//! rolls back as a whole.

use vstd::prelude::*;
use crate::encoding::{be_bytes_u128, padded_account, truncate_and_pad, u128_to_be_bytes};
use crate::hashing::{keccak256, keccak_of};
use crate::merkle_tree::{tree_after_insert, new_tree_view, MerkleTree, TreeView};
use crate::nullifiers::NullifierLedger;

verus! {

/// The pool's error kinds. Every checked failure is surfaced as one of these
/// distinct values; no error is folded into another.
#[derive(Clone, Copy, Debug, PartialEq, Eq, Structural)]
pub enum Error {
    /// A mapping item was not found.
    ItemNotFound,
    /// The Merkle accumulator has reached its capacity of 2^levels leaves.
    MerkleTreeIsFull,
    /// The binding digest could not be computed.
    HashError,
    /// The proof verifier itself failed before reaching a verdict.
    VerifyError,
    /// The nullifier was already spent by an earlier withdrawal.
    NullifierKnown,
    /// The verifier rejected the withdrawal proof.
    InvalidWithdrawProof,
    /// An asset transfer could not be performed.
    TransferError,
    /// A token allowance was insufficient.
    PSP22AllowanceError,
    /// The deposited amount differs from the pool's fixed deposit size.
    InvalidDepositSize,
    /// The claimed root is not among the recently recorded roots.
    UnknownRoot,
}

/// What the external proof verifier reported for one withdrawal request.
#[derive(Clone, Copy, Debug, PartialEq, Eq, Structural)]
pub enum VerifierOutcome {
    /// The verifier accepted the proof.
    Accepted,
    /// The verifier reached a verdict and rejected the proof.
    Rejected,
    /// The verifier itself failed before reaching a verdict.
    Failed,
}

/// A withdrawal request, fully consumed by one invocation.
pub struct WithdrawParams {
    /// Opaque proof bytes, passed verbatim to the external verifier.
    pub proof_bytes: Vec<u8>,
    /// The accumulator root the proof was built against.
    pub root: [u8; 32],
    /// The nullifier this withdrawal spends.
    pub nullifier_hash: [u8; 32],
    /// Who receives the withdrawn funds.
    pub recipient: [u8; 32],
    /// Who submitted the request and earns the fee.
    pub relayer: [u8; 32],
    /// The relayer's fee, paid out of the deposit.
    pub fee: u128,
    /// An extra amount forwarded to the recipient in the native path.
    pub refund: u128,
}

/// One asset movement a successful withdrawal instructs the host to perform.
#[derive(Clone, Copy, Debug, PartialEq, Eq)]
pub struct Transfer {
    pub to: [u8; 32],
    pub amount: u128,
}

/// The deposit record published for off-chain indexers, which must later
/// help a depositor locate their leaf and build a proof.
#[derive(Clone, Copy, Debug, PartialEq, Eq)]
pub struct Deposit {
    pub from: [u8; 32],
    pub commitment: [u8; 32],
    pub value: u128,
}

/// The withdrawal record published after a native-path disbursement.
#[derive(Clone, Copy, Debug, PartialEq, Eq)]
pub struct Withdraw {
    pub recipient: [u8; 32],
    pub relayer: [u8; 32],
    pub fee: u128,
    pub refund: u128,
}

/// Everything a successful withdrawal asks the host to move.
#[derive(Clone, Copy, Debug, PartialEq, Eq)]
pub enum Disbursement {
    /// Token-denominated pool: both transfers go through the token
    /// contract; the refund is not applied in this path.
    Token {
        token: [u8; 32],
        to_recipient: Transfer,
        to_relayer: Transfer,
    },
    /// Native pool: transfers of the chain's own asset; a positive refund
    /// goes to the recipient as a third transfer, and a withdrawal record
    /// is published.
    Native {
        to_recipient: Transfer,
        to_relayer: Transfer,
        refund: Option<Transfer>,
        record: Withdraw,
    },
}

/// The bytes that bind recipient, relayer, fee and refund to the proof.
pub open spec fn arbitrary_input_bytes(p: WithdrawParams) -> Seq<u8> {
    padded_account(p.recipient@) + padded_account(p.relayer@) + be_bytes_u128(p.fee)
        + be_bytes_u128(p.refund)
}

/// The binding digest over those bytes.
pub open spec fn binding_digest(p: WithdrawParams) -> Seq<u8> {
    keccak_of(arbitrary_input_bytes(p))
}

/// The public input vector handed to the verifier: the nullifier, the
/// claimed root and the binding digest, 32 bytes each.
pub open spec fn public_input_bytes(p: WithdrawParams) -> Seq<u8> {
    p.nullifier_hash@ + p.root@ + binding_digest(p)
}

/// What a successful withdrawal disburses: `deposit_size - fee` to the
/// recipient and the fee to the relayer; in the native path additionally
/// the refund, when positive, to the recipient.
pub open spec fn spec_disbursement(
    deposit_size: u128,
    token_address: Option<[u8; 32]>,
    p: WithdrawParams,
) -> Disbursement {
    let actual = (deposit_size - p.fee) as u128;
    match token_address {
        Option::Some(token) => Disbursement::Token {
            token,
            to_recipient: Transfer { to: p.recipient, amount: actual },
            to_relayer: Transfer { to: p.relayer, amount: p.fee },
        },
        Option::None => Disbursement::Native {
            to_recipient: Transfer { to: p.recipient, amount: actual },
            to_relayer: Transfer { to: p.relayer, amount: p.fee },
            refund: if p.refund > 0 {
                Option::Some(Transfer { to: p.recipient, amount: p.refund })
            } else {
                Option::None
            },
            record: Withdraw {
                recipient: p.recipient,
                relayer: p.relayer,
                fee: p.fee,
                refund: p.refund,
            },
        },
    }
}

/// The pool's abstract state.
#[verifier::ext_equal]
pub struct MixerView {
    pub deposit_size: u128,
    pub tree: TreeView,
    pub nullifiers: Set<Seq<u8>>,
    pub token_address: Option<[u8; 32]>,
}

impl MixerView {
    pub open spec fn wf(self) -> bool {
        self.tree.wf()
    }

    /// Both withdrawal checks pass: the claimed root is in the bounded
    /// history and the nullifier is still unspent.
    pub open spec fn accepts_withdrawal(self, p: WithdrawParams) -> bool {
        self.tree.known_root(p.root@) && !self.nullifiers.contains(p.nullifier_hash@)
    }
}

/// The anonymity pool.
#[derive(Clone)]
pub struct Mixer {
    deposit_size: u128,
    merkle_tree: MerkleTree,
    used_nullifiers: NullifierLedger,
    psp22_token_address: Option<[u8; 32]>,
}

impl View for Mixer {
    type V = MixerView;

    closed spec fn view(&self) -> MixerView {
        MixerView {
            deposit_size: self.deposit_size,
            tree: self.merkle_tree@,
            nullifiers: self.used_nullifiers@,
            token_address: self.psp22_token_address,
        }
    }
}

impl Mixer {
    /// The pool's structural invariant.
    pub closed spec fn wf(self) -> bool {
        self.merkle_tree.wf()
    }

    /// Builds a pool of the given depth and fixed deposit size. A token
    /// address makes the pool token-denominated; none makes it native.
    pub fn new(levels: u32, deposit_size: u128, psp22_token_address: Option<[u8; 32]>) -> (r:
        Self)
        requires
            0 < levels < 32,
        ensures
            r.wf(),
            r@ == (MixerView {
                deposit_size,
                tree: new_tree_view(levels as nat),
                nullifiers: Set::<Seq<u8>>::empty(),
                token_address: psp22_token_address,
            }),
    {
        let r = Mixer {
            deposit_size,
            merkle_tree: MerkleTree::new(levels),
            used_nullifiers: NullifierLedger::new(),
            psp22_token_address,
        };
        proof {
            assert(r@ =~~= (MixerView {
                deposit_size,
                tree: new_tree_view(levels as nat),
                nullifiers: Set::<Seq<u8>>::empty(),
                token_address: psp22_token_address,
            }));
        }
        r
    }

    /// The accumulator's depth.
    pub fn levels(&self) -> (r: u32)
        ensures
            r == self@.tree.levels,
    {
        self.merkle_tree.levels()
    }

    /// The fixed amount every deposit must equal.
    pub fn deposit_size(&self) -> (r: u128)
        ensures
            r == self@.deposit_size,
    {
        self.deposit_size
    }

    /// How many leaves the accumulator holds.
    pub fn next_index(&self) -> (r: u32)
        ensures
            r == self@.tree.next_index,
    {
        self.merkle_tree.next_index()
    }

    /// The most recently produced accumulator root.
    pub fn get_last_root(&self) -> (r: [u8; 32])
        requires
            self.wf(),
        ensures
            r@ == self@.tree.last_root(),
    {
        self.merkle_tree.get_last_root()
    }

    /// Whether a withdrawal may be checked against this root.
    pub fn is_known_root(&self, root: &[u8; 32]) -> (r: bool)
        requires
            self.wf(),
        ensures
            r == self@.tree.known_root(root@),
    {
        self.merkle_tree.is_known_root(root)
    }

    /// Whether this nullifier has already been spent.
    pub fn is_known_nullifier(&self, nullifier: &[u8; 32]) -> (r: bool)
        ensures
            r == self@.nullifiers.contains(nullifier@),
    {
        self.used_nullifiers.contains(nullifier)
    }

    /// Marks a nullifier as spent without a withdrawal.
    pub fn insert_nullifier(&mut self, nullifier: &[u8; 32])
        ensures
            final(self)@ == (MixerView {
                nullifiers: old(self)@.nullifiers.insert(nullifier@),
                ..old(self)@
            }),
            final(self).wf() == old(self).wf(),
    {
        self.used_nullifiers.mark(nullifier);
        proof {
            assert(self@ =~~= (MixerView {
                nullifiers: old(self)@.nullifiers.insert(nullifier@),
                ..old(self)@
            }));
        }
    }

    /// Accepts a native-asset deposit: the value attached to the call must
    /// equal the pool's deposit size exactly, the commitment is appended to
    /// the accumulator, and the leaf's index is returned. On any error the
    /// pool is left untouched.
    pub fn deposit_native(&mut self, commitment: [u8; 32], transferred_value: u128) -> (r:
        Result<u32, Error>)
        requires
            old(self).wf(),
        ensures
            final(self).wf(),
            r.is_err() ==> final(self)@ == old(self)@,
            transferred_value != old(self)@.deposit_size ==> r == Err::<u32, Error>(
                Error::InvalidDepositSize,
            ),
            transferred_value == old(self)@.deposit_size && old(self)@.tree.is_full() ==> r
                == Err::<u32, Error>(Error::MerkleTreeIsFull),
            transferred_value == old(self)@.deposit_size && !old(self)@.tree.is_full() ==> {
                &&& r == Ok::<u32, Error>(old(self)@.tree.next_index as u32)
                &&& final(self)@ == (MixerView {
                    tree: tree_after_insert(old(self)@.tree, commitment@),
                    ..old(self)@
                })
            },
    {
        if transferred_value != self.deposit_size {
            return Err(Error::InvalidDepositSize);
        }
        self.insert_commitment(commitment)
    }

    /// Accepts a token-denominated deposit: the announced amount must equal
    /// the pool's deposit size exactly; the host pulls that amount through
    /// the token contract and aborts the whole invocation if the pull
    /// fails. On any error the pool is left untouched.
    pub fn deposit_psp22(&mut self, commitment: [u8; 32], amount: u128) -> (r: Result<
        u32,
        Error,
    >)
        requires
            old(self).wf(),
            old(self)@.token_address.is_some(),
        ensures
            final(self).wf(),
            r.is_err() ==> final(self)@ == old(self)@,
            amount != old(self)@.deposit_size ==> r == Err::<u32, Error>(
                Error::InvalidDepositSize,
            ),
            amount == old(self)@.deposit_size && old(self)@.tree.is_full() ==> r == Err::<
                u32,
                Error,
            >(Error::MerkleTreeIsFull),
            amount == old(self)@.deposit_size && !old(self)@.tree.is_full() ==> {
                &&& r == Ok::<u32, Error>(old(self)@.tree.next_index as u32)
                &&& final(self)@ == (MixerView {
                    tree: tree_after_insert(old(self)@.tree, commitment@),
                    ..old(self)@
                })
            },
    {
        if amount != self.deposit_size {
            return Err(Error::InvalidDepositSize);
        }
        self.insert_commitment(commitment)
    }

    /// The shared tail of both deposit paths: append the commitment.
    fn insert_commitment(&mut self, commitment: [u8; 32]) -> (r: Result<u32, Error>)
        requires
            old(self).wf(),
        ensures
            final(self).wf(),
            r.is_err() ==> final(self)@ == old(self)@,
            old(self)@.tree.is_full() ==> r == Err::<u32, Error>(Error::MerkleTreeIsFull),
            !old(self)@.tree.is_full() ==> {
                &&& r == Ok::<u32, Error>(old(self)@.tree.next_index as u32)
                &&& final(self)@ == (MixerView {
                    tree: tree_after_insert(old(self)@.tree, commitment@),
                    ..old(self)@
                })
            },
    {
        let r = self.merkle_tree.insert(commitment);
        proof {
            if !old(self)@.tree.is_full() {
                assert(self@ =~~= (MixerView {
                    tree: tree_after_insert(old(self)@.tree, commitment@),
                    ..old(self)@
                }));
            }
        }
        r
    }

    /// Runs the withdrawal checks and builds the verifier's public input:
    /// refuses an unknown root, then a spent nullifier, and otherwise
    /// returns the 96 public-input bytes. Never mutates the pool.
    pub fn withdrawal_public_inputs(&self, params: &WithdrawParams) -> (r: Result<
        Vec<u8>,
        Error,
    >)
        requires
            self.wf(),
        ensures
            !self@.tree.known_root(params.root@) ==> r == Err::<Vec<u8>, Error>(
                Error::UnknownRoot,
            ),
            self@.tree.known_root(params.root@) && self@.nullifiers.contains(
                params.nullifier_hash@,
            ) ==> r == Err::<Vec<u8>, Error>(Error::NullifierKnown),
            self@.accepts_withdrawal(*params) ==> r.is_ok() && r->Ok_0@
                == public_input_bytes(*params),
    {
        if !self.merkle_tree.is_known_root(&params.root) {
            return Err(Error::UnknownRoot);
        }
        if self.used_nullifiers.contains(&params.nullifier_hash) {
            return Err(Error::NullifierKnown);
        }
        let recipient_bytes = truncate_and_pad(&params.recipient);
        let relayer_bytes = truncate_and_pad(&params.relayer);
        let fee_bytes = u128_to_be_bytes(params.fee);
        let refund_bytes = u128_to_be_bytes(params.refund);

        let mut arbitrary_data_bytes: Vec<u8> = Vec::new();
        arbitrary_data_bytes.extend_from_slice(recipient_bytes.as_slice());
        arbitrary_data_bytes.extend_from_slice(relayer_bytes.as_slice());
        arbitrary_data_bytes.extend_from_slice(fee_bytes.as_slice());
        arbitrary_data_bytes.extend_from_slice(refund_bytes.as_slice());
        proof {
            assert(arbitrary_data_bytes@ =~= arbitrary_input_bytes(*params));
        }
        let arbitrary_input = keccak256(&arbitrary_data_bytes);

        let mut bytes: Vec<u8> = Vec::new();
        bytes.extend_from_slice(params.nullifier_hash.as_slice());
        bytes.extend_from_slice(params.root.as_slice());
        bytes.extend_from_slice(arbitrary_input.as_slice());
        proof {
            assert(bytes@ =~= public_input_bytes(*params));
        }
        Ok(bytes)
    }

    /// Settles a withdrawal once the external verifier's verdict is in.
    ///
    /// Re-runs the root and nullifier checks, translates the verdict, and
    /// only on acceptance marks the nullifier — before any transfer is
    /// attempted, so a reentrant call cannot replay it — and returns the
    /// exact disbursement for the host to perform. On every error the pool
    /// is left untouched, so a nullifier is never burnt by a request that
    /// produced no valid proof.
    ///
    /// Neither `fee + refund <= deposit_size` nor anything else about the
    /// refund is checked here; only the underflow guard `fee <=
    /// deposit_size` is demanded of the caller.
    pub fn withdraw(&mut self, params: &WithdrawParams, outcome: VerifierOutcome) -> (r:
        Result<Disbursement, Error>)
        requires
            old(self).wf(),
            params.fee <= old(self)@.deposit_size,
        ensures
            final(self).wf(),
            r.is_err() ==> final(self)@ == old(self)@,
            !old(self)@.tree.known_root(params.root@) ==> r == Err::<Disbursement, Error>(
                Error::UnknownRoot,
            ),
            old(self)@.tree.known_root(params.root@) && old(self)@.nullifiers.contains(
                params.nullifier_hash@,
            ) ==> r == Err::<Disbursement, Error>(Error::NullifierKnown),
            old(self)@.accepts_withdrawal(*params) && outcome == VerifierOutcome::Failed
                ==> r == Err::<Disbursement, Error>(Error::VerifyError),
            old(self)@.accepts_withdrawal(*params) && outcome == VerifierOutcome::Rejected
                ==> r == Err::<Disbursement, Error>(Error::InvalidWithdrawProof),
            old(self)@.accepts_withdrawal(*params) && outcome == VerifierOutcome::Accepted
                ==> {
                &&& r == Ok::<Disbursement, Error>(spec_disbursement(
                    old(self)@.deposit_size,
                    old(self)@.token_address,
                    *params,
                ))
                &&& final(self)@ == (MixerView {
                    nullifiers: old(self)@.nullifiers.insert(params.nullifier_hash@),
                    ..old(self)@
                })
            },
    {
        if !self.merkle_tree.is_known_root(&params.root) {
            return Err(Error::UnknownRoot);
        }
        if self.used_nullifiers.contains(&params.nullifier_hash) {
            return Err(Error::NullifierKnown);
        }
        match outcome {
            VerifierOutcome::Failed => {
                return Err(Error::VerifyError);
            },
            VerifierOutcome::Rejected => {
                return Err(Error::InvalidWithdrawProof);
            },
            VerifierOutcome::Accepted => {},
        }
        self.used_nullifiers.mark(&params.nullifier_hash);
        proof {
            assert(self@ =~~= (MixerView {
                nullifiers: old(self)@.nullifiers.insert(params.nullifier_hash@),
                ..old(self)@
            }));
        }

        let actual_amount = self.deposit_size - params.fee;
        let to_recipient = Transfer { to: params.recipient, amount: actual_amount };
        let to_relayer = Transfer { to: params.relayer, amount: params.fee };
        match self.psp22_token_address {
            Some(token) => Ok(Disbursement::Token { token, to_recipient, to_relayer }),
            None => {
                let refund = if params.refund > 0 {
                    Some(Transfer { to: params.recipient, amount: params.refund })
                } else {
                    None
                };
                let record = Withdraw {
                    recipient: params.recipient,
                    relayer: params.relayer,
                    fee: params.fee,
                    refund: params.refund,
                };
                Ok(Disbursement::Native { to_recipient, to_relayer, refund, record })
            },
        }
    }
}

/// One-shot withdrawal: once a successful withdrawal has spent a
/// nullifier, no request carrying the same nullifier can pass the
/// withdrawal checks again, whatever root and proof it presents — and a
/// request that fails the checks leaves the pool unchanged, as the
/// withdrawal contracts state.
pub proof fn lemma_withdrawal_one_shot(
    pre: MixerView,
    post: MixerView,
    p1: WithdrawParams,
    p2: WithdrawParams,
)
    requires
        post.nullifiers == pre.nullifiers.insert(p1.nullifier_hash@),
        p2.nullifier_hash@ == p1.nullifier_hash@,
    ensures
        !post.accepts_withdrawal(p2),
{
}

} // verus!
