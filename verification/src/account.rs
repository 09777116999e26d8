//! An account as the state cache holds it under the account's key: one
//! fragment of bytes made of the balance word, the nonce word and the code.

use vstd::prelude::*;
use crate::bytes::{
    append_bytes,
    append_word_u128,
    be_nat,
    copy_tail,
    lemma_be_bytes_len,
    lemma_be_bytes_of_be_nat,
    lemma_be_nat_bound,
    lemma_be_nat_of_be_bytes,
    lemma_pow256_monotonic,
    lemma_pow256_values,
    pow256,
    read_bytes32,
    read_word_u128,
    word_of,
};
use crate::types::U256;

verus! {

/// What the state source knows of one account.
#[derive(Clone, Debug, PartialEq, Eq)]
pub struct AccountState {
    pub balance: U256,
    pub nonce: u64,
    pub code: Vec<u8>,
}

/// An account as mathematical value.
pub struct AccountFields {
    pub balance: nat,
    pub nonce: nat,
    pub code: Seq<u8>,
}

impl View for AccountState {
    type V = AccountFields;

    open spec fn view(&self) -> AccountFields {
        AccountFields { balance: self.balance@, nonce: self.nonce as nat, code: self.code@ }
    }
}

/// The fragment of an account: the balance word, the nonce word, the code.
pub open spec fn account_fragment(f: AccountFields) -> Seq<u8> {
    word_of(f.balance) + word_of(f.nonce) + f.code
}

/// The account that a fragment holds, if it is one: at least two words, the
/// second a nonce of at most 64 bits; what follows them is the code.
pub open spec fn decoded_account(data: Seq<u8>) -> Option<AccountFields> {
    if data.len() >= 64 && be_nat(data.subrange(32, 64)) <= u64::MAX {
        Some(
            AccountFields {
                balance: be_nat(data.subrange(0, 32)),
                nonce: be_nat(data.subrange(32, 64)),
                code: data.subrange(64, data.len() as int),
            },
        )
    } else {
        None
    }
}

/// Makes the fragment of an account.
pub fn encode_account(account: &AccountState) -> (out: Vec<u8>)
    ensures
        out@ == account_fragment(account@),
{
    let mut out: Vec<u8> = Vec::new();
    append_bytes(&mut out, account.balance.bytes.as_slice());
    append_word_u128(&mut out, account.nonce as u128);
    append_bytes(&mut out, account.code.as_slice());
    proof {
        lemma_be_bytes_of_be_nat(account.balance.bytes@);
        assert(out@ =~= account_fragment(account@));
    }
    out
}

/// Reads the account out of a fragment.
pub fn decode_account(data: &[u8]) -> (r: Option<AccountState>)
    ensures
        match r {
            Some(account) => decoded_account(data@) == Some(account@),
            None => decoded_account(data@) is None,
        },
{
    if data.len() < 64 {
        return None;
    }
    let nonce = match read_word_u128(data, 32) {
        Some(v) => v,
        None => { return None; },
    };
    if nonce > u64::MAX as u128 {
        return None;
    }
    let balance = U256 { bytes: read_bytes32(data, 0) };
    let code = copy_tail(data, 64);
    Some(AccountState { balance, nonce: nonce as u64, code })
}

/// Round trip: the fragment made of an account holds that account, for
/// every balance of at most 256 bits and every nonce of at most 64 bits.
pub proof fn lemma_account_round_trip(f: AccountFields)
    requires
        f.balance < pow256(32),
        f.nonce <= u64::MAX,
    ensures
        decoded_account(account_fragment(f)) == Some(f),
{
    let d = account_fragment(f);
    lemma_pow256_values();
    lemma_pow256_monotonic(8, 32);
    lemma_be_nat_of_be_bytes(f.balance, 32);
    lemma_be_nat_of_be_bytes(f.nonce, 32);
    lemma_be_bytes_len(f.balance, 32);
    lemma_be_bytes_len(f.nonce, 32);
    assert(d.subrange(0, 32) =~= word_of(f.balance));
    assert(d.subrange(32, 64) =~= word_of(f.nonce));
    assert(d.subrange(64, d.len() as int) =~= f.code);
}

/// Round trip for every account: its fragment holds it.
pub proof fn lemma_account_state_round_trip(account: AccountState)
    ensures
        decoded_account(account_fragment(account@)) == Some(account@),
{
    lemma_be_nat_bound(account.balance.bytes@);
    lemma_account_round_trip(account@);
}

} // verus!
