//! The registry's data types: token records, attribute values, collection
//! metadata, errors, and the request and response shapes of the
//! account-based interface.
#![allow(non_camel_case_types)]
use vstd::prelude::*;
use crate::principal::{Principal, MAX_PRINCIPAL_LEN};
use crate::token_identifier;

verus! {

/// Arguments of the collection's initialisation.
pub struct InitArgs {
    pub name: Option<String>,
    pub logo: Option<String>,
    pub symbol: Option<String>,
    pub custodians: Option<Vec<Principal>>,
    pub cap: Option<Principal>,
}

/// Collection-level metadata.
pub struct MetaData {
    pub name: Option<String>,
    pub logo: Option<String>,
    pub symbol: Option<String>,
    /// Without repeats.
    pub custodians: Vec<Principal>,
    pub created_at: u64,
    pub upgraded_at: u64,
}

/// Counters of the collection.
pub struct Status {
    pub total_transactions: u64,
    pub total_supply: u64,
    pub cycles: u64,
    pub total_unique_holders: u64,
}

/// The key of a token record in the ledger.
pub type TokenIdentifier = u64;

/// An attribute value: a closed union of plain values and nested bags.
pub enum GeneralValue {
    BoolContent(bool),
    TextContent(String),
    BlobContent(Vec<u8>),
    Principal(Principal),
    Nat8Content(u8),
    Nat16Content(u16),
    Nat32Content(u32),
    Nat64Content(u64),
    /// An unbounded natural number, as little-endian bytes of its magnitude.
    NatContent(Vec<u8>),
    Int8Content(i8),
    Int16Content(i16),
    Int32Content(i32),
    Int64Content(i64),
    /// An unbounded integer, as little-endian two's complement bytes.
    IntContent(Vec<u8>),
    /// A 64-bit floating-point number, as its IEEE 754 bits.
    FloatContent(u64),
    NestedContent(Vec<(String, GeneralValue)>),
}

/// The record of one token.
pub struct TokenMetaData {
    pub token_identifier: TokenIdentifier,
    pub owner: Option<Principal>,
    pub operator: Option<Principal>,
    pub is_burned: bool,
    pub properties: Vec<(String, GeneralValue)>,
    pub minted_at: u64,
    pub minted_by: Principal,
    pub transferred_at: Option<u64>,
    pub transferred_by: Option<Principal>,
    pub approved_at: Option<u64>,
    pub approved_by: Option<Principal>,
    pub burned_at: Option<u64>,
    pub burned_by: Option<Principal>,
}

/// Why a ledger operation failed.
#[derive(Clone, Copy, PartialEq, Eq, Structural, Debug)]
pub enum NftError {
    UnauthorizedOwner,
    UnauthorizedOperator,
    OwnerNotFound,
    OperatorNotFound,
    TokenNotFound,
    ExistedNFT,
    SelfApprove,
    SelfTransfer,
}

/// A point in time, in nanoseconds.
pub type Time = i128;

/// The index of a token in the account-based interface.
pub type TokenIndex = u32;

pub struct SubAccount(pub Vec<u8>);

/// An account holder: a textual account identifier or a principal.
pub enum User {
    address(AccountIdentifier),
    principal(Principal),
}

/// The textual account identifier of `p`'s default subaccount.
pub uninterp spec fn account_id_text(p: Seq<u8>) -> Seq<char>;

/// Relies on ic-ledger-types' `AccountIdentifier::new` with the all-zero
/// subaccount, shown through `Display`: the lower-case hex of a 32-byte
/// identifier.
#[verifier::external_body]
fn account_identifier_of(p: &Vec<u8>) -> (r: String)
    requires
        p@.len() <= MAX_PRINCIPAL_LEN,
    ensures
        r@ == account_id_text(p@),
        r@.len() == 64,
{
    let owner = candid::Principal::from_slice(p.as_slice());
    let sub = ic_ledger_types::Subaccount([0u8; 32]);
    ic_ledger_types::AccountIdentifier::new(&owner, &sub).to_string()
}

/// The account identifier of `pid`'s default subaccount.
pub fn pid2aid(pid: &Principal) -> (r: String)
    ensures
        r@ == account_id_text(pid@),
        r@.len() == 64,
{
    let b = pid.as_slice();
    account_identifier_of(&b)
}

impl User {
    /// The account identifier of `user`: the address itself, or the default
    /// account of the principal.
    pub fn aid(user: User) -> (r: AccountIdentifier)
        ensures
            match user {
                User::address(a) => r == a,
                User::principal(p) => r@ == account_id_text(p@),
            },
    {
        match user {
            User::address(aid) => aid,
            User::principal(pid) => pid2aid(&pid),
        }
    }

    /// The principal a request names: the principal itself, or the anonymous
    /// principal for an address.
    pub open spec fn spec_principal(&self) -> Principal {
        match self {
            User::principal(p) => *p,
            User::address(_) => Principal::spec_anonymous(),
        }
    }

    /// The principal a request names: the principal itself, or the anonymous
    /// principal for an address.
    pub fn principal_or_anonymous(&self) -> (r: Principal)
        ensures
            r == self.spec_principal(),
    {
        match self {
            User::principal(p) => *p,
            User::address(_) => Principal::anonymous(),
        }
    }
}

impl User {
    /// A copy of this account holder.
    pub fn duplicate(&self) -> (r: User)
        ensures
            r == *self,
    {
        match self {
            User::address(a) => User::address(a.clone()),
            User::principal(p) => User::principal(*p),
        }
    }
}

pub struct AllowanceRequest {
    pub owner: User,
    pub spender: Principal,
    pub token: TokenIdentifier__1,
}

pub struct MintRequest {
    pub to: User,
    pub metadata: Option<Vec<u8>>,
    pub class: String,
}

pub struct ApproveRequest {
    pub allowance: Balance,
    pub spender: Principal,
    pub subaccount: Option<SubAccount>,
    pub token: token_identifier::TokenIdentifier,
}

pub enum Result__1_1 {
    err(CommonError),
    ok(AccountIdentifier__1),
}

pub type AccountIdentifier__1 = String;

pub type AccountIdentifier = String;

pub type TokenIdentifier__1 = String;

pub type Balance = u64;

pub enum CommonError__1 {
    InvalidToken(String),
    Other(String),
}

pub enum CommonError {
    InvalidToken(String),
    Other(String),
}

pub struct MetaDataFungibleDetails {
    pub decimals: u8,
    pub metadata: Option<Vec<u8>>,
    pub name: String,
    pub symbol: String,
}

pub struct MetaDataNonFungibleDetails {
    pub metadata: Option<Vec<u8>>,
}

pub enum TokenMetaDataExt {
    fungible(MetaDataFungibleDetails),
    nonfungible(MetaDataNonFungibleDetails),
}

pub struct Listing {
    pub locked: Option<Time>,
    pub price: u64,
    pub seller: Principal,
}

pub struct Registry(pub TokenIndex, pub AccountIdentifier__1);

pub enum TransferResponse {
    err(TransferResponseDetails),
    ok(Balance),
}

pub enum TransferResponseDetails {
    CannotNotify(AccountIdentifier),
    InsufficientBalance,
    InvalidToken(String),
    Other(String),
    Rejected,
    Unauthorized(AccountIdentifier),
}

pub struct TransferRequest {
    pub amount: Balance,
    pub from: User,
    pub memo: Memo,
    pub notify: bool,
    pub subaccount: Option<SubAccount>,
    pub to: User,
    pub token: token_identifier::TokenIdentifier,
}

pub type Memo = Vec<u8>;

pub enum Result__1_2 {
    err(CommonError),
    ok(Balance__1),
}

pub enum Result__1 {
    err(CommonError),
    ok(TokenMetaDataExt),
}

pub enum Result_2 {
    err(CommonError),
    ok(Balance__1),
}

pub enum Result_1 {
    err(CommonError),
    ok(Vec<TokenIndex>),
}

pub struct ResultDetail(pub TokenIndex, pub Option<Listing>, pub Option<Vec<u8>>);

pub enum NFTResult {
    err(CommonError),
    ok(Vec<ResultDetail>),
}

pub type Balance__1 = u64;

pub enum BalanceResponse {
    err(CommonError__1),
    ok(Balance),
}

pub struct BalanceRequest {
    pub token: u64,
    pub user: User,
}

/// A transfer of up to `num` tokens of one class.
pub struct TransferRequestV1 {
    pub from: User,
    pub to: User,
    pub class: String,
    pub num: usize,
}

/// A transfer of the listed tokens.
pub struct TransferRequestV2 {
    pub from: User,
    pub to: User,
    pub token_list: Vec<TokenIdentifier>,
}

} // verus!
