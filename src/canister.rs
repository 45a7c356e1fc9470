//! The registry as one service object: the ledger together with the
//! property catalog, the token index allocator, the registry's own identity
//! and the audit log, and the account-based operations built on them.
use vstd::prelude::*;
use crate::principal::Principal;
use crate::token_identifier::{
    CanisterId, TokenIndex as CodecIndex, decode_own_text_spec, decode_own_token_id,
    encode_token_id, principal_text, token_bytes, DecodeError, TOKEN_OVERHEAD,
};
use crate::ledger::{records_burned_clear, records_distinct, approved_record, burned_record, transferred_record, Ledger, LedgerSnapshot, RestoreError, records_map, restorable};
use crate::dip721::{
    AuditEvent, CallContext, approve_error, dip721_approve, dip721_burn, dip721_mint,
    dip721_transfer_from, minted_record, transfer_error,
};
use crate::batch::{batch_transfer_error, dip721_transfer_batch, owned_of_class, pick_of_class};
use crate::prop::{
    PropMetadata, TokenTexts, add_token, class_properties, properties_for_class, text_properties,
};
use crate::principal::MAX_PRINCIPAL_LEN;
use crate::types::{account_id_text, CommonError, MetaData, TokenMetaData};
use crate::token_identifier::TokenIdentifier as TokenIdentifierText;
use crate::types::{
    ApproveRequest, GeneralValue, MintRequest, NftError, TokenIdentifier, TokenIndex, TransferRequest,
    TransferRequestV1, TransferRequestV2, TransferResponse, TransferResponseDetails, User,
};

verus! {

/// Hands out token indexes in turn, starting at 1 and wrapping around.
pub struct TokenIdAllocator {
    pub next: u32,
}

/// The index handed out after `n`.
pub open spec fn following_id(n: u32) -> u32 {
    if n == u32::MAX {
        0
    } else {
        (n + 1) as u32
    }
}

/// The index handed out `k` turns after `start`.
pub open spec fn nth_id(start: u32, k: int) -> u32 {
    ((start as int + k) % 0x1_0000_0000) as u32
}

proof fn lemma_nth_id_next(start: u32, k: int)
    requires
        k >= 0,
    ensures
        following_id(nth_id(start, k)) == nth_id(start, k + 1),
        nth_id(start, 0) == start,
{
    let m: int = 0x1_0000_0000;
    let a = start as int + k;
    vstd::arithmetic::div_mod::lemma_add_mod_noop(a, 1, m);
    vstd::arithmetic::div_mod::lemma_small_mod(1, m as nat);
    vstd::arithmetic::div_mod::lemma_small_mod(start as nat, m as nat);
    if a % m == m - 1 {
        assert((m - 1 + 1) % m == 0);
    } else {
        vstd::arithmetic::div_mod::lemma_small_mod((a % m + 1) as nat, m as nat);
    }
}

proof fn lemma_nth_id_distinct(start: u32, j: int, k: int)
    requires
        0 <= j < k < 0x1_0000_0000,
    ensures
        nth_id(start, j) != nth_id(start, k),
{
    let m: int = 0x1_0000_0000;
    let a = start as int + j;
    let b = start as int + k;
    vstd::arithmetic::div_mod::lemma_mod_equivalence(b, a, m);
    vstd::arithmetic::div_mod::lemma_small_mod((k - j) as nat, m as nat);
    assert(b - a == k - j);
}

/// Whether `md` is the record of token `t` minted by `ctx.caller` for the
/// holder `mint_request` names, with the attributes that `catalog` gives
/// its class.
pub open spec fn minted_from_catalog(
    md: TokenMetaData,
    t: TokenIdentifier,
    mint_request: &MintRequest,
    catalog: Seq<PropMetadata>,
    ctx: CallContext,
) -> bool {
    exists|properties: Vec<(String, GeneralValue)>| {
        &&& text_properties(properties@) == Some(class_properties(catalog, mint_request.class))
        &&& md == minted_record(t, mint_request.to.spec_principal(), properties, ctx)
    }
}

/// `after` keeps the catalog, the recorded texts, the allocator and the
/// identity of `before`.
pub open spec fn keeps_surroundings(before: Canister, after: Canister) -> bool {
    &&& after.props == before.props
    &&& after.texts == before.texts
    &&& after.tid == before.tid
    &&& after.id == before.id
}

/// `after` is `before` with each of `ids` transferred by `ctx.caller` to
/// `to`, one transaction each, in order, and everything else kept.
pub open spec fn batch_applied(
    before: Ledger,
    after: Ledger,
    before_log: Seq<AuditEvent>,
    after_log: Seq<AuditEvent>,
    ctx: CallContext,
    from: Principal,
    to: Principal,
    ids: Seq<TokenIdentifier>,
) -> bool {
    &&& after.tx() == before.tx() + ids.len()
    &&& after.meta() == before.meta()
    &&& after.token_map().dom() == before.token_map().dom()
    &&& forall|t: TokenIdentifier| #[trigger] after.token_map().contains_key(t) ==>
        after.token_map()[t] == if ids.contains(t) {
            transferred_record(before.token_map()[t], ctx.caller, Some(to), ctx.now)
        } else {
            before.token_map()[t]
        }
    &&& after_log == before_log + Seq::new(
        ids.len(),
        |j: int| AuditEvent::TransferFrom { caller: ctx.caller, owner: from, to, token_identifier: ids[j] },
    )
}

impl TokenIdAllocator {
    /// An allocator whose first index is 1.
    pub fn new() -> (r: TokenIdAllocator)
        ensures
            r.next == 1,
    {
        TokenIdAllocator { next: 1 }
    }
}

/// Hands out the next token index.
pub fn new_token_id(tid: &mut TokenIdAllocator) -> (r: u32)
    ensures
        r == old(tid).next,
        final(tid).next == following_id(old(tid).next),
{
    let r = tid.next;
    tid.next = if r == u32::MAX {
        0
    } else {
        r + 1
    };
    r
}

/// The index the allocator hands out next, for saving across an upgrade.
pub fn tid_info(tid: &TokenIdAllocator) -> (r: u32)
    ensures
        r == tid.next,
{
    tid.next
}

/// Puts back the saved allocator state.
pub fn restore_tid_info(tid: &mut TokenIdAllocator, saved: u32)
    ensures
        final(tid).next == saved,
{
    tid.next = saved;
}

/// The registry's whole state.
pub struct Canister {
    pub ledger: Ledger,
    pub props: Vec<PropMetadata>,
    pub texts: TokenTexts,
    pub tid: TokenIdAllocator,
    /// The registry's own identity, embedded in the identifiers it issues.
    pub id: CanisterId,
    pub log: Vec<AuditEvent>,
}

impl Canister {
    /// The ledger is well formed and the registry's identity leaves room for
    /// the rest of an identifier.
    pub open spec fn wf(&self) -> bool {
        &&& self.ledger.wf()
        &&& self.id.0@.len() + TOKEN_OVERHEAD <= MAX_PRINCIPAL_LEN
    }

    /// A registry with an empty ledger and catalog.
    pub fn new(id: CanisterId) -> (r: Canister)
        requires
            id.0@.len() + TOKEN_OVERHEAD <= MAX_PRINCIPAL_LEN,
        ensures
            r.wf(),
            r.id == id,
            r.tid.next == 1,
            r.ledger.token_map() == Map::<TokenIdentifier, TokenMetaData>::empty(),
            r.ledger.owner_map() == Map::<TokenIdentifier, Principal>::empty(),
            r.ledger.operator_map() == Map::<TokenIdentifier, Principal>::empty(),
            r.ledger.tx() == 0,
            forall|t: TokenIdentifier| #[trigger] r.texts.text_of(t) is None,
            r.props@.len() == 0,
            r.log@.len() == 0,
    {
        Canister {
            ledger: Ledger::new(),
            props: Vec::new(),
            texts: TokenTexts::new(),
            tid: TokenIdAllocator::new(),
            id,
            log: Vec::new(),
        }
    }

    /// Mints the next token index to the requested holder, with the
    /// attributes of the requested class, and records its text identifier.
    pub fn mint_internal(&mut self, ctx: &CallContext, mint_request: &MintRequest) -> (r: Result<TokenIndex, NftError>)
        requires
            old(self).wf(),
            old(self).ledger.tx() < u64::MAX,
        ensures
            final(self).wf(),
            old(self).ledger.token_map().contains_key(old(self).tid.next as u64) ==> {
                &&& r == Err::<TokenIndex, NftError>(NftError::ExistedNFT)
                &&& *final(self) == *old(self)
            },
            !old(self).ledger.token_map().contains_key(old(self).tid.next as u64) ==> {
                &&& r == Ok::<TokenIndex, NftError>(old(self).tid.next)
                &&& final(self).tid.next == following_id(old(self).tid.next)
                &&& final(self).ledger.tx() == old(self).ledger.tx() + 1
                &&& final(self).ledger.token_map() == old(self).ledger.token_map().insert(
                    old(self).tid.next as u64,
                    final(self).ledger.token_map()[old(self).tid.next as u64],
                )
                &&& minted_from_catalog(
                    final(self).ledger.token_map()[old(self).tid.next as u64],
                    old(self).tid.next as u64,
                    mint_request,
                    old(self).props@,
                    *ctx,
                )
                &&& final(self).ledger.meta() == old(self).ledger.meta()
                &&& final(self).log@ == old(self).log@.push(
                    AuditEvent::Mint {
                        caller: ctx.caller,
                        to: mint_request.to.spec_principal(),
                        token_identifier: old(self).tid.next as u64,
                    },
                )
                &&& final(self).texts.text_of(old(self).tid.next as u64) is Some
                &&& final(self).texts.text_of(old(self).tid.next as u64)->Some_0@ == principal_text(
                    token_bytes(old(self).id.0@, old(self).tid.next),
                )
                &&& decode_own_text_spec(old(self).id.0@, final(self).texts.text_of(old(self).tid.next as u64)->Some_0@)
                    == Ok::<u32, DecodeError>(old(self).tid.next)
                &&& forall|t: TokenIdentifier| t != old(self).tid.next as u64 ==> #[trigger] final(self).texts.text_of(t)
                    == old(self).texts.text_of(t)
                &&& final(self).props == old(self).props
                &&& final(self).id == old(self).id
            },
    {
        let token_id = self.tid.next;
        let key = token_id as u64;
        if self.ledger.is_token_existed(&key) {
            return Err(NftError::ExistedNFT);
        }
        new_token_id(&mut self.tid);
        let encoded = encode_token_id(&self.id, &CodecIndex(token_id));
        add_token(&mut self.texts, &key, &encoded);
        let to = mint_request.to.principal_or_anonymous();
        let properties = properties_for_class(&self.props, &mint_request.class);
        let ghost props_v = properties;
        let res = dip721_mint(&mut self.ledger, ctx, to, key, properties, &mut self.log);
        assert(text_properties(props_v@) == Some(class_properties(self.props@, mint_request.class)));
        assert(self.ledger.token_map()[key] == minted_record(key, to, props_v, *ctx));
        match res {
            Ok(_) => Ok(token_id),
            Err(e) => Err(e),
        }
    }

    /// Transfers the token a text identifier names, between the principals
    /// of two account holders; the caller must be its operator.
    pub fn transfer_internal(&mut self, ctx: &CallContext, transfer_request: &TransferRequest) -> (r: TransferResponse)
        requires
            old(self).wf(),
            old(self).ledger.tx() < u64::MAX,
        ensures
            final(self).wf(),
            match decode_own_text_spec(old(self).id.0@, transfer_request.token@) {
                Err(_) => {
                    &&& r matches TransferResponse::err(TransferResponseDetails::InvalidToken(t))
                    &&& r->err_0->InvalidToken_0 == transfer_request.token
                    &&& *final(self) == *old(self)
                },
                Ok(i) => match transfer_error(
                    old(self).ledger,
                    ctx.caller,
                    transfer_request.from.spec_principal(),
                    transfer_request.to.spec_principal(),
                    i as u64,
                ) {
                    None => {
                        &&& r == TransferResponse::ok(old(self).ledger.tx())
                        &&& final(self).ledger.tx() == old(self).ledger.tx() + 1
                        &&& final(self).ledger.token_map() == old(self).ledger.token_map().insert(
                            i as u64,
                            transferred_record(
                                old(self).ledger.token_map()[i as u64],
                                ctx.caller,
                                Some(transfer_request.to.spec_principal()),
                                ctx.now,
                            ),
                        )
                        &&& final(self).ledger.meta() == old(self).ledger.meta()
                        &&& final(self).log@ == old(self).log@.push(
                            AuditEvent::TransferFrom {
                                caller: ctx.caller,
                                owner: transfer_request.from.spec_principal(),
                                to: transfer_request.to.spec_principal(),
                                token_identifier: i as u64,
                            },
                        )
                        &&& keeps_surroundings(*old(self), *final(self))
                    },
                    Some(NftError::UnauthorizedOwner) => {
                        &&& r matches TransferResponse::err(TransferResponseDetails::Unauthorized(a))
                        &&& match transfer_request.from {
                            User::address(a) => r->err_0->Unauthorized_0 == a,
                            User::principal(p) => r->err_0->Unauthorized_0@ == account_id_text(p@),
                        }
                        &&& *final(self) == *old(self)
                    },
                    Some(_) => {
                        &&& r matches TransferResponse::err(TransferResponseDetails::Other(m))
                        &&& r->err_0->Other_0@ == "Unkown Error"@
                        &&& *final(self) == *old(self)
                    },
                },
            },
    {
        let from_pid = transfer_request.from.principal_or_anonymous();
        let to_pid = transfer_request.to.principal_or_anonymous();
        let index = match decode_own_token_id(&self.id, &transfer_request.token) {
            Ok(i) => i.0,
            Err(_) => {
                return TransferResponse::err(TransferResponseDetails::InvalidToken(transfer_request.token.clone()));
            },
        };
        match dip721_transfer_from(&mut self.ledger, ctx, from_pid, to_pid, index as u64, &mut self.log) {
            Ok(resp) => TransferResponse::ok(resp),
            Err(NftError::UnauthorizedOwner) => TransferResponse::err(
                TransferResponseDetails::Unauthorized(User::aid(transfer_request.from.duplicate())),
            ),
            Err(_) => {
                proof {
                    reveal_strlit("Unkown Error");
                }
                TransferResponse::err(TransferResponseDetails::Other("Unkown Error".to_owned()))
            },
        }
    }

    /// Approves `spender` for the token a text identifier names, reporting
    /// only whether it worked.
    pub fn approve(&mut self, ctx: &CallContext, approve_request: &ApproveRequest) -> (r: bool)
        requires
            old(self).wf(),
            old(self).ledger.tx() < u64::MAX,
        ensures
            final(self).wf(),
            r == match decode_own_text_spec(old(self).id.0@, approve_request.token@) {
                Ok(i) => approve_error(old(self).ledger, ctx.caller, approve_request.spender, i as u64) is None,
                Err(_) => false,
            },
            r ==> {
                let i = decode_own_text_spec(old(self).id.0@, approve_request.token@)->Ok_0 as u64;
                &&& final(self).ledger.tx() == old(self).ledger.tx() + 1
                &&& final(self).ledger.token_map() == old(self).ledger.token_map().insert(
                    i,
                    approved_record(old(self).ledger.token_map()[i], ctx.caller, Some(approve_request.spender), ctx.now),
                )
                &&& final(self).ledger.meta() == old(self).ledger.meta()
                &&& final(self).log@ == old(self).log@.push(
                    AuditEvent::Approve { caller: ctx.caller, operator: approve_request.spender, token_identifier: i },
                )
                &&& keeps_surroundings(*old(self), *final(self))
            },
            !r ==> *final(self) == *old(self),
    {
        let index = match decode_own_token_id(&self.id, &approve_request.token) {
            Ok(i) => i.0,
            Err(_) => {
                return false;
            },
        };
        match dip721_approve(&mut self.ledger, ctx, approve_request.spender, index as u64, &mut self.log) {
            Ok(_) => true,
            Err(_) => false,
        }
    }

    /// Burns a token.
    pub fn burn(&mut self, ctx: &CallContext, token_identifier: TokenIdentifier) -> (r: Result<u64, NftError>)
        requires
            old(self).wf(),
            old(self).ledger.tx() < u64::MAX,
        ensures
            final(self).wf(),
            match crate::dip721::burn_error(old(self).ledger, ctx.caller, token_identifier) {
                Some(e) => r == Err::<u64, NftError>(e) && *final(self) == *old(self),
                None => {
                    &&& r == Ok::<u64, NftError>(old(self).ledger.tx())
                    &&& final(self).ledger.tx() == old(self).ledger.tx() + 1
                    &&& final(self).ledger.token_map() == old(self).ledger.token_map().insert(
                        token_identifier,
                        burned_record(old(self).ledger.token_map()[token_identifier], ctx.caller, ctx.now),
                    )
                    &&& final(self).ledger.meta() == old(self).ledger.meta()
                    &&& final(self).log@ == old(self).log@.push(
                        AuditEvent::Burn { caller: ctx.caller, token_identifier },
                    )
                    &&& keeps_surroundings(*old(self), *final(self))
                },
            },
    {
        dip721_burn(&mut self.ledger, ctx, token_identifier, &mut self.log)
    }

    /// Transfers every listed token from one holder to another, in order:
    /// all of them, or none when any check fails.
    pub fn batch_transfer_v2(&mut self, ctx: &CallContext, transfer_request: &TransferRequestV2) -> (r: Result<Vec<u64>, NftError>)
        requires
            old(self).wf(),
            old(self).ledger.tx() + transfer_request.token_list@.len() <= u64::MAX,
        ensures
            final(self).wf(),
            match batch_transfer_error(
                old(self).ledger,
                ctx.caller,
                transfer_request.from.spec_principal(),
                transfer_request.to.spec_principal(),
                transfer_request.token_list@,
            ) {
                Some(e) => r == Err::<Vec<u64>, NftError>(e) && *final(self) == *old(self),
                None => {
                    &&& r is Ok
                    &&& r->Ok_0@ == Seq::new(
                        transfer_request.token_list@.len(),
                        |j: int| (old(self).ledger.tx() + j) as u64,
                    )
                    &&& batch_applied(
                        old(self).ledger,
                        final(self).ledger,
                        old(self).log@,
                        final(self).log@,
                        *ctx,
                        transfer_request.from.spec_principal(),
                        transfer_request.to.spec_principal(),
                        transfer_request.token_list@,
                    )
                    &&& forall|j: int| 0 <= j < transfer_request.token_list@.len() ==> {
                        &&& final(self).ledger.token_map()[#[trigger] transfer_request.token_list@[j]].owner
                            == Some(transfer_request.to.spec_principal())
                        &&& final(self).ledger.token_map()[transfer_request.token_list@[j]].operator is None
                    }
                    &&& keeps_surroundings(*old(self), *final(self))
                },
            },
    {
        let from_pid = transfer_request.from.principal_or_anonymous();
        let to_pid = transfer_request.to.principal_or_anonymous();
        let ghost l0 = self.ledger;
        let r = dip721_transfer_batch(&mut self.ledger, ctx, from_pid, to_pid, &transfer_request.token_list, &mut self.log);
        proof {
            if r is Ok {
                assert forall|j: int| 0 <= j < transfer_request.token_list@.len() implies
                    self.ledger.token_map()[#[trigger] transfer_request.token_list@[j]].owner == Some(to_pid)
                    && self.ledger.token_map()[transfer_request.token_list@[j]].operator is None by {
                    let t = transfer_request.token_list@[j];
                    assert(transfer_request.token_list@.contains(t));
                    assert(crate::batch::owned_by(l0, t, from_pid));
                    assert(self.ledger.token_map().contains_key(t));
                }
            }
        }
        r
    }

    /// Mints `num` tokens (none when absent) to the requested holder, one
    /// after another: all of them, or none when an index that would be
    /// handed out is taken.
    pub fn batch_mint(&mut self, ctx: &CallContext, mint_request: &MintRequest, num: Option<u32>) -> (r: Result<Vec<TokenIndex>, NftError>)
        requires
            old(self).wf(),
            num is Some ==> old(self).ledger.tx() + num->Some_0 <= u64::MAX,
        ensures
            final(self).wf(),
            ({
                let n: int = if num is Some { num->Some_0 as int } else { 0 };
                let start = old(self).tid.next;
                &&& (exists|k: int| 0 <= k < n && old(self).ledger.token_map().contains_key(#[trigger] nth_id(start, k) as u64))
                    ==> r == Err::<Vec<TokenIndex>, NftError>(NftError::ExistedNFT) && *final(self) == *old(self)
                &&& !(exists|k: int| 0 <= k < n && old(self).ledger.token_map().contains_key(#[trigger] nth_id(start, k) as u64)) ==> {
                    &&& r is Ok
                    &&& r->Ok_0@ == Seq::new(n as nat, |k: int| nth_id(start, k))
                    &&& final(self).ledger.tx() == old(self).ledger.tx() + n
                    &&& final(self).tid.next == nth_id(start, n)
                    &&& forall|k: int| 0 <= k < n ==> final(self).ledger.token_map().contains_key(#[trigger] nth_id(start, k) as u64)
                        && final(self).ledger.token_map()[nth_id(start, k) as u64].owner == Some(mint_request.to.spec_principal())
                    &&& forall|k: int| 0 <= k < n ==> minted_from_catalog(
                        final(self).ledger.token_map()[#[trigger] nth_id(start, k) as u64],
                        nth_id(start, k) as u64,
                        mint_request,
                        old(self).props@,
                        *ctx,
                    )
                    &&& forall|t: TokenIdentifier| #[trigger] final(self).ledger.token_map().contains_key(t) <==> (
                        old(self).ledger.token_map().contains_key(t) || exists|k: int| 0 <= k < n && t == nth_id(start, k) as u64)
                    &&& forall|t: TokenIdentifier| #[trigger] old(self).ledger.token_map().contains_key(t) ==>
                        final(self).ledger.token_map()[t] == old(self).ledger.token_map()[t]
                    &&& final(self).ledger.meta() == old(self).ledger.meta()
                    &&& final(self).log@ == old(self).log@ + Seq::new(
                        n as nat,
                        |k: int| AuditEvent::Mint {
                            caller: ctx.caller,
                            to: mint_request.to.spec_principal(),
                            token_identifier: nth_id(start, k) as u64,
                        },
                    )
                    &&& forall|k: int| 0 <= k < n ==> (#[trigger] final(self).texts.text_of(nth_id(start, k) as u64)) is Some
                        && final(self).texts.text_of(nth_id(start, k) as u64)->Some_0@ == principal_text(
                            token_bytes(old(self).id.0@, nth_id(start, k)))
                    &&& forall|t: TokenIdentifier| (forall|k: int| 0 <= k < n ==> t != nth_id(start, k) as u64) ==>
                        #[trigger] final(self).texts.text_of(t) == old(self).texts.text_of(t)
                    &&& final(self).props == old(self).props
                    &&& final(self).id == old(self).id
                }
            }),
    {
        let n: u32 = match num {
            Some(n) => n,
            None => 0,
        };
        let start = self.tid.next;
        let ghost old_self = *self;
        let mut cur = start;
        let mut k: u32 = 0;
        proof {
            lemma_nth_id_next(start, 0);
        }
        while k < n
            invariant
                k <= n,
                n as int == if num is Some { num->Some_0 as int } else { 0 },
                cur == nth_id(start, k as int),
                *self == old_self,
                old_self == *old(self),
                old_self.wf(),
                start == old_self.tid.next,
                forall|j: int| 0 <= j < k ==> !self.ledger.token_map().contains_key(#[trigger] nth_id(start, j) as u64),
            decreases n - k,
        {
            if self.ledger.is_token_existed(&(cur as u64)) {
                return Err(NftError::ExistedNFT);
            }
            proof {
                lemma_nth_id_next(start, k as int);
            }
            cur = if cur == u32::MAX {
                0
            } else {
                cur + 1
            };
            k = k + 1;
        }
        let mut v: Vec<TokenIndex> = Vec::new();
        let mut i: u32 = 0;
        while i < n
            invariant
                i <= n,
                n as int == if num is Some { num->Some_0 as int } else { 0 },
                self.wf(),
                old_self == *old(self),
                start == old_self.tid.next,
                old_self.ledger.tx() + n <= u64::MAX,
                self.tid.next == nth_id(start, i as int),
                self.ledger.tx() == old_self.ledger.tx() + i,
                forall|j: int| i <= j < n ==> !self.ledger.token_map().contains_key(#[trigger] nth_id(start, j) as u64),
                forall|j: int| 0 <= j < i ==> self.ledger.token_map().contains_key(#[trigger] nth_id(start, j) as u64)
                    && self.ledger.token_map()[nth_id(start, j) as u64].owner == Some(mint_request.to.spec_principal()),
                forall|j: int| 0 <= j < i ==> minted_from_catalog(
                    self.ledger.token_map()[#[trigger] nth_id(start, j) as u64],
                    nth_id(start, j) as u64,
                    mint_request,
                    old_self.props@,
                    *ctx,
                ),
                forall|t: TokenIdentifier| #[trigger] self.ledger.token_map().contains_key(t) <==> (
                    old_self.ledger.token_map().contains_key(t) || exists|k: int| 0 <= k < i && t == nth_id(start, k) as u64),
                forall|t: TokenIdentifier| #[trigger] old_self.ledger.token_map().contains_key(t) ==>
                    self.ledger.token_map()[t] == old_self.ledger.token_map()[t],
                self.ledger.meta() == old_self.ledger.meta(),
                self.log@ == old_self.log@ + Seq::new(
                    i as nat,
                    |k: int| AuditEvent::Mint {
                        caller: ctx.caller,
                        to: mint_request.to.spec_principal(),
                        token_identifier: nth_id(start, k) as u64,
                    },
                ),
                forall|k: int| 0 <= k < i ==> (#[trigger] self.texts.text_of(nth_id(start, k) as u64)) is Some
                    && self.texts.text_of(nth_id(start, k) as u64)->Some_0@ == principal_text(
                        token_bytes(old_self.id.0@, nth_id(start, k))),
                forall|t: TokenIdentifier| (forall|k: int| 0 <= k < i ==> t != nth_id(start, k) as u64) ==>
                    #[trigger] self.texts.text_of(t) == old_self.texts.text_of(t),
                self.props == old_self.props,
                self.id == old_self.id,
                v@ == Seq::new(i as nat, |j: int| nth_id(start, j)),
            decreases n - i,
        {
            let ghost before = self.ledger.token_map();
            let ghost texts_before = self.texts;
            let ghost log_before = self.log@;
            let res = self.mint_internal(ctx, mint_request);
            proof {
                lemma_nth_id_next(start, i as int);
                assert forall|j: int| i < j < n implies !self.ledger.token_map().contains_key(#[trigger] nth_id(start, j) as u64) by {
                    lemma_nth_id_distinct(start, i as int, j);
                    assert(!before.contains_key(nth_id(start, j) as u64));
                }
                assert forall|j: int| 0 <= j < i implies self.ledger.token_map().contains_key(#[trigger] nth_id(start, j) as u64)
                    && self.ledger.token_map()[nth_id(start, j) as u64].owner == Some(mint_request.to.spec_principal())
                    && minted_from_catalog(self.ledger.token_map()[nth_id(start, j) as u64], nth_id(start, j) as u64,
                        mint_request, old_self.props@, *ctx)
                    && self.texts.text_of(nth_id(start, j) as u64) == texts_before.text_of(nth_id(start, j) as u64) by {
                    lemma_nth_id_distinct(start, j, i as int);
                    assert(before.contains_key(nth_id(start, j) as u64));
                }
                let ni = nth_id(start, i as int) as u64;
                assert forall|t: TokenIdentifier| #[trigger] self.ledger.token_map().contains_key(t) <==> (
                    old_self.ledger.token_map().contains_key(t) || exists|k: int| 0 <= k < i + 1 && t == nth_id(start, k) as u64) by {
                    if exists|k: int| 0 <= k < i + 1 && t == nth_id(start, k) as u64 {
                        let k = choose|k: int| 0 <= k < i + 1 && t == nth_id(start, k) as u64;
                        if k < i {
                            assert(before.contains_key(t));
                        }
                    }
                    if before.contains_key(t) && !old_self.ledger.token_map().contains_key(t) {
                        let k = choose|k: int| 0 <= k < i && t == nth_id(start, k) as u64;
                        assert(0 <= k < i + 1 && t == nth_id(start, k) as u64);
                    }
                }
                assert forall|t: TokenIdentifier| #[trigger] old_self.ledger.token_map().contains_key(t) implies
                    self.ledger.token_map()[t] == old_self.ledger.token_map()[t] by {
                    assert(before.contains_key(t));
                    if t == ni {
                        assert(!old_self.ledger.token_map().contains_key(nth_id(start, i as int) as u64));
                    }
                }
                assert forall|t: TokenIdentifier| (forall|k: int| 0 <= k < i + 1 ==> t != nth_id(start, k) as u64) implies
                    #[trigger] self.texts.text_of(t) == old_self.texts.text_of(t) by {
                    assert(t != nth_id(start, i as int) as u64);
                    assert(forall|k: int| 0 <= k < i ==> t != nth_id(start, k) as u64);
                }
                assert(self.log@ =~= old_self.log@ + Seq::new(
                    (i + 1) as nat,
                    |k: int| AuditEvent::Mint {
                        caller: ctx.caller,
                        to: mint_request.to.spec_principal(),
                        token_identifier: nth_id(start, k) as u64,
                    },
                ));
            }
            match res {
                Ok(t) => {
                    v.push(t);
                },
                Err(_) => {},
            }
            i = i + 1;
            assert(v@ =~= Seq::new(i as nat, |j: int| nth_id(start, j)));
        }
        Ok(v)
    }

    /// The token indexes from 1 up to the number of records (at most
    /// `u32::MAX`) that have a record, in increasing order.
    pub fn listed_token_indexes(&self) -> (r: Vec<u32>)
        ensures
            forall|a: int, b: int| 0 <= a < b < r@.len() ==> r@[a] < r@[b],
            forall|k: int| 0 <= k < r@.len() ==> 1 <= #[trigger] r@[k] <= self.ledger.token_map().len()
                && self.ledger.token_map().contains_key(r@[k] as u64),
            forall|i: u32| 1 <= i <= self.ledger.token_map().len() && #[trigger] self.ledger.token_map().contains_key(
                i as u64) ==> r@.contains(i),
    {
        let total = crate::dip721::dip721_total_supply(&self.ledger);
        let last: u32 = if total > u32::MAX as u64 {
            u32::MAX
        } else {
            total as u32
        };
        let mut v: Vec<u32> = Vec::new();
        let mut item: u32 = 1;
        let mut done = last == 0;
        while !done
            invariant
                1 <= item,
                !done ==> item <= last,
                done ==> (last == 0 || item == last),
                last as u64 <= total,
                total == self.ledger.token_map().len(),
                last == u32::MAX || last as u64 == total,
                forall|a: int, b: int| 0 <= a < b < v@.len() ==> v@[a] < v@[b],
                forall|k: int| 0 <= k < v@.len() ==> v@[k] < item || (done && v@[k] == item),
                forall|k: int| 0 <= k < v@.len() ==> 1 <= #[trigger] v@[k] <= last
                    && self.ledger.token_map().contains_key(v@[k] as u64),
                forall|i: u32| 1 <= i < item && #[trigger] self.ledger.token_map().contains_key(i as u64) ==> v@.contains(i),
                done && last > 0 ==> (self.ledger.token_map().contains_key(last as u64) ==> v@.contains(last)),
            decreases last - item + if done { 0int } else { 1int },
        {
            let ghost old_v = v@;
            if self.ledger.is_token_existed(&(item as u64)) {
                v.push(item);
                assert forall|i: u32| 1 <= i < item && #[trigger] self.ledger.token_map().contains_key(i as u64) implies v@.contains(i) by {
                    let k = choose|k: int| 0 <= k < old_v.len() && old_v[k] == i;
                    assert(v@[k] == i);
                }
                assert(v@[old_v.len() as int] == item);
            }
            if item == last {
                done = true;
            } else {
                item = item + 1;
            }
        }
        proof {
            assert forall|i: u32| 1 <= i <= self.ledger.token_map().len() && #[trigger] self.ledger.token_map().contains_key(
                i as u64) implies v@.contains(i) by {
                if i == last {
                } else {
                    assert(i < item || last == 0);
                }
            }
        }
        v
    }

    /// The indexes of the tokens `owner` holds, each once, leaving out any
    /// beyond `u32::MAX`; none when it holds nothing.
    pub fn owned_token_indexes(&self, owner: Principal) -> (r: Vec<u32>)
        requires
            self.wf(),
        ensures
            r@.no_duplicates(),
            forall|k: int| 0 <= k < r@.len() ==> self.ledger.owner_index().contains_key(owner)
                && self.ledger.owner_index()[owner].contains(#[trigger] r@[k] as u64),
            forall|t: TokenIdentifier| self.ledger.owner_index().contains_key(owner) && #[trigger] self.ledger.owner_index()[owner].contains(t)
                && t <= u32::MAX ==> r@.contains(t as u32),
    {
        let ids = match crate::dip721::dip721_owner_token_identifiers(&self.ledger, owner) {
            Ok(v) => v,
            Err(_) => {
                return Vec::new();
            },
        };
        let mut r: Vec<u32> = Vec::new();
        let mut i: usize = 0;
        while i < ids.len()
            invariant
                i <= ids@.len(),
                ids@.no_duplicates(),
                self.ledger.owner_index().contains_key(owner),
                ids@.to_set() == self.ledger.owner_index()[owner],
                r@.no_duplicates(),
                forall|k: int| 0 <= k < r@.len() ==> exists|j: int| 0 <= j < i && ids@[j] == #[trigger] r@[k] as u64,
                forall|j: int| 0 <= j < i && ids@[j] <= u32::MAX ==> r@.contains(#[trigger] ids@[j] as u32),
            decreases ids@.len() - i,
        {
            let t = ids[i];
            let ghost old_r = r@;
            if t <= u32::MAX as u64 {
                assert forall|k: int| 0 <= k < old_r.len() implies old_r[k] != t as u32 by {
                    let j = choose|j: int| 0 <= j < i && ids@[j] == old_r[k] as u64;
                    assert(ids@[j] != ids@[i as int]);
                }
                r.push(t as u32);
                assert forall|k: int| 0 <= k < r@.len() implies exists|j: int| 0 <= j < i + 1 && ids@[j] == #[trigger] r@[k] as u64 by {
                    if k < old_r.len() {
                        assert(old_r[k] == r@[k]);
                        let j = choose|j: int| 0 <= j < i && ids@[j] == old_r[k] as u64;
                        assert(0 <= j < i + 1 && ids@[j] == r@[k] as u64);
                    } else {
                        assert(0 <= i < i + 1 && ids@[i as int] == r@[k] as u64);
                    }
                }
                assert forall|j: int| 0 <= j < i + 1 && ids@[j] <= u32::MAX implies r@.contains(#[trigger] ids@[j] as u32) by {
                    if j < i {
                        let k = choose|k: int| 0 <= k < old_r.len() && old_r[k] == ids@[j] as u32;
                        assert(r@[k] == ids@[j] as u32);
                    } else {
                        assert(r@[old_r.len() as int] == ids@[j] as u32);
                    }
                }
            }
            i = i + 1;
        }
        proof {
            assert forall|k: int| 0 <= k < r@.len() implies self.ledger.owner_index()[owner].contains(#[trigger] r@[k] as u64) by {
                let j = choose|j: int| 0 <= j < ids@.len() && ids@[j] == r@[k] as u64;
                assert(ids@.contains(ids@[j]));
            }
            assert forall|t: TokenIdentifier| #[trigger] self.ledger.owner_index()[owner].contains(t) && t <= u32::MAX implies r@.contains(t as u32) by {
                assert(ids@.to_set().contains(t));
                let j = choose|j: int| 0 <= j < ids@.len() && ids@[j] == t;
            }
        }
        r
    }

    /// The record of the token a text identifier of this registry names.
    pub fn metadata(&self, token: &TokenIdentifierText) -> (r: Option<&TokenMetaData>)
        ensures
            match decode_own_text_spec(self.id.0@, token@) {
                Ok(i) => match r {
                    Some(md) => self.ledger.token_map().contains_key(i as u64) && *md == self.ledger.token_map()[i as u64],
                    None => !self.ledger.token_map().contains_key(i as u64),
                },
                Err(_) => r is None,
            },
    {
        match decode_own_token_id(&self.id, token) {
            Ok(i) => match self.ledger.token_metadata(&(i.0 as u64)) {
                Ok(md) => Some(md),
                Err(_) => None,
            },
            Err(_) => None,
        }
    }

    /// The record of token index `id`, or an error naming its text
    /// identifier.
    pub fn get_token_metadata_by_u32(&self, id: u32) -> (r: Result<&TokenMetaData, CommonError>)
        requires
            self.wf(),
        ensures
            match r {
                Ok(md) => self.ledger.token_map().contains_key(id as u64) && *md == self.ledger.token_map()[id as u64],
                Err(e) => {
                    &&& !self.ledger.token_map().contains_key(id as u64)
                    &&& e is InvalidToken
                    &&& e->InvalidToken_0@ == principal_text(token_bytes(self.id.0@, id))
                },
            },
    {
        match self.ledger.token_metadata(&(id as u64)) {
            Ok(md) => Ok(md),
            Err(_) => Err(CommonError::InvalidToken(encode_token_id(&self.id, &CodecIndex(id)))),
        }
    }

    /// Transfers `num` tokens of one class from one holder to another: all
    /// of them, or none when the holder has fewer such tokens or any check
    /// fails. Which of the holder's tokens of that class go is not specified.
    pub fn batch_transfer_v1(&mut self, ctx: &CallContext, transfer_request: &TransferRequestV1) -> (r: Result<Vec<u64>, NftError>)
        requires
            old(self).wf(),
            old(self).ledger.tx() + transfer_request.num <= u64::MAX,
        ensures
            final(self).wf(),
            ({
                let from = transfer_request.from.spec_principal();
                let to = transfer_request.to.spec_principal();
                let want = owned_of_class(old(self).ledger, from, transfer_request.class@);
                &&& r == Err::<Vec<u64>, NftError>(NftError::TokenNotFound) ==> {
                    &&& *final(self) == *old(self)
                    &&& exists|s: Seq<TokenIdentifier>| s.no_duplicates() && s.len() < transfer_request.num && s.to_set() == want
                }
                &&& r != Err::<Vec<u64>, NftError>(NftError::TokenNotFound) ==> exists|ids: Seq<TokenIdentifier>| {
                    &&& ids.len() == transfer_request.num
                    &&& ids.no_duplicates()
                    &&& forall|j: int| 0 <= j < ids.len() ==> want.contains(#[trigger] ids[j])
                    &&& match batch_transfer_error(old(self).ledger, ctx.caller, from, to, ids) {
                        Some(e) => r == Err::<Vec<u64>, NftError>(e) && *final(self) == *old(self),
                        None => {
                            &&& r is Ok
                            &&& r->Ok_0@ == Seq::new(ids.len(), |j: int| (old(self).ledger.tx() + j) as u64)
                            &&& batch_applied(old(self).ledger, final(self).ledger, old(self).log@, final(self).log@, *ctx, from, to, ids)
                            &&& forall|j: int| 0 <= j < ids.len() ==> {
                                &&& final(self).ledger.token_map()[#[trigger] ids[j]].owner == Some(to)
                                &&& final(self).ledger.token_map()[ids[j]].operator is None
                            }
                            &&& keeps_surroundings(*old(self), *final(self))
                        },
                    }
                }
            }),
    {
        let from_pid = transfer_request.from.principal_or_anonymous();
        let to_pid = transfer_request.to.principal_or_anonymous();
        let picked = pick_of_class(&self.ledger, &from_pid, &transfer_request.class, transfer_request.num);
        if picked.len() < transfer_request.num {
            assert(picked@.no_duplicates() && picked@.len() < transfer_request.num
                && picked@.to_set() == owned_of_class(self.ledger, from_pid, transfer_request.class@));
            return Err(NftError::TokenNotFound);
        }
        let ghost l0 = self.ledger;
        proof {
            crate::batch::lemma_batch_error_kind(l0, ctx.caller, from_pid, to_pid, picked@);
        }
        let r = dip721_transfer_batch(&mut self.ledger, ctx, from_pid, to_pid, &picked, &mut self.log);
        proof {
            if r is Ok {
                assert forall|j: int| 0 <= j < picked@.len() implies
                    self.ledger.token_map()[#[trigger] picked@[j]].owner == Some(to_pid)
                    && self.ledger.token_map()[picked@[j]].operator is None by {
                    let t = picked@[j];
                    assert(picked@.contains(t));
                    assert(owned_of_class(l0, from_pid, transfer_request.class@).contains(t));
                    assert(self.ledger.token_map().contains_key(t));
                }
            }
        }
        r
    }
}

/// What the registry keeps across an upgrade.
pub struct UpgradeState {
    pub ledger: LedgerSnapshot,
    pub tid: u32,
    pub props: Vec<PropMetadata>,
}

impl Canister {
    /// Takes the registry apart into what it keeps across an upgrade.
    pub fn pre_upgrade(self) -> (r: UpgradeState)
        requires
            self.wf(),
        ensures
            r.ledger.metadata == self.ledger.meta(),
            r.ledger.tx_count == self.ledger.tx(),
            restorable(r.ledger.tokens@),
            r.ledger.metadata.custodians@.no_duplicates(),
            records_map(r.ledger.tokens@) == self.ledger.token_map(),
            r.tid == self.tid.next,
            r.props == self.props,
    {
        let tid = tid_info(&self.tid);
        let Canister { ledger, props, texts: _, tid: _, id: _, log: _ } = self;
        UpgradeState { ledger: ledger.snapshot(), tid, props }
    }

    /// Brings the registry back from what it kept across an upgrade; the
    /// time of the upgrade becomes `now`.
    pub fn post_upgrade(id: CanisterId, state: UpgradeState, now: u64) -> (r: Result<Canister, RestoreError>)
        requires
            id.0@.len() + TOKEN_OVERHEAD <= MAX_PRINCIPAL_LEN,
        ensures
            r is Ok <==> restorable(state.ledger.tokens@) && state.ledger.metadata.custodians@.no_duplicates(),
            r is Err ==> r->Err_0 == if !records_distinct(state.ledger.tokens@) {
                RestoreError::DuplicateToken
            } else if !records_burned_clear(state.ledger.tokens@) {
                RestoreError::BurnedTokenHeld
            } else {
                RestoreError::DuplicateCustodian
            },
            match r {
                Ok(c) => {
                    &&& c.wf()
                    &&& c.id == id
                    &&& c.ledger.token_map() == records_map(state.ledger.tokens@)
                    &&& c.ledger.tx() == state.ledger.tx_count
                    &&& c.ledger.meta() == (MetaData { upgraded_at: now, ..state.ledger.metadata })
                    &&& c.tid.next == state.tid
                    &&& c.props == state.props
                    &&& c.log@.len() == 0
                },
                Err(_) => true,
            },
    {
        let UpgradeState { ledger, tid, props } = state;
        match Ledger::restore(ledger, now) {
            Ok(l) => {
                let mut alloc = TokenIdAllocator::new();
                restore_tid_info(&mut alloc, tid);
                Ok(Canister { ledger: l, props, texts: TokenTexts::new(), tid: alloc, id, log: Vec::new() })
            },
            Err(e) => Err(e),
        }
    }
}

} // verus!
