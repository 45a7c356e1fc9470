//! The transition engine: mint, transfer, approve and burn as guarded
//! transitions over the ledger, and the read-only queries.
//!
//! Each transition checks its preconditions in order and fails on the first
//! that does not hold, leaving the ledger and the audit log untouched. On
//! success it applies all its changes, appends exactly one audit event, and
//! returns the transaction's 0-based sequence number.
use vstd::prelude::*;
use crate::principal::Principal;
use crate::ledger::{
    Ledger, approved_record, burned_record, operators_of, owners_of, transferred_record,
};
use crate::types::{GeneralValue, InitArgs, NftError, TokenIdentifier, TokenMetaData};

verus! {

/// Who makes the current call, and when.
#[derive(Clone, Copy)]
pub struct CallContext {
    pub caller: Principal,
    pub now: u64,
}

/// One entry of the audit log.
#[derive(Clone, Copy)]
pub enum AuditEvent {
    Mint { caller: Principal, to: Principal, token_identifier: TokenIdentifier },
    TransferFrom {
        caller: Principal,
        owner: Principal,
        to: Principal,
        token_identifier: TokenIdentifier,
    },
    Approve { caller: Principal, operator: Principal, token_identifier: TokenIdentifier },
    Burn { caller: Principal, token_identifier: TokenIdentifier },
}

impl AuditEvent {
    /// The name of the operation the event records.
    pub fn operation(&self) -> (r: &'static str)
        ensures
            match self {
                AuditEvent::Mint { .. } => r@ == "mint"@,
                AuditEvent::TransferFrom { .. } => r@ == "transferFrom"@,
                AuditEvent::Approve { .. } => r@ == "approve"@,
                AuditEvent::Burn { .. } => r@ == "burn"@,
            },
    {
        match self {
            AuditEvent::Mint { .. } => "mint",
            AuditEvent::TransferFrom { .. } => "transferFrom",
            AuditEvent::Approve { .. } => "approve",
            AuditEvent::Burn { .. } => "burn",
        }
    }
}

/// The record of a token just minted.
pub open spec fn minted_record(
    token_identifier: TokenIdentifier,
    to: Principal,
    properties: Vec<(String, GeneralValue)>,
    ctx: CallContext,
) -> TokenMetaData {
    TokenMetaData {
        token_identifier,
        owner: Some(to),
        operator: Some(to),
        is_burned: false,
        properties,
        minted_at: ctx.now,
        minted_by: ctx.caller,
        transferred_at: None,
        transferred_by: None,
        approved_at: None,
        approved_by: None,
        burned_at: None,
        burned_by: None,
    }
}

/// Whether `t` is a live token of `l`: it exists and has an owner.
pub open spec fn has_owner(l: Ledger, t: TokenIdentifier) -> bool {
    l.token_map().contains_key(t) && l.token_map()[t].owner is Some
}

/// The outcome of a transfer of `t` from `owner` to `to` called by `caller`,
/// if it fails.
pub open spec fn transfer_error(l: Ledger, caller: Principal, owner: Principal, to: Principal, t: TokenIdentifier) -> Option<NftError> {
    if owner == to {
        Some(NftError::UnauthorizedOwner)
    } else if !has_owner(l, t) {
        Some(NftError::OwnerNotFound)
    } else if l.token_map()[t].owner != Some(owner) {
        Some(NftError::UnauthorizedOwner)
    } else if l.token_map()[t].operator is None {
        Some(NftError::OperatorNotFound)
    } else if l.token_map()[t].operator != Some(caller) {
        Some(NftError::UnauthorizedOperator)
    } else {
        None
    }
}

/// The outcome of an approval of `operator` for `t` called by `caller`, if
/// it fails.
pub open spec fn approve_error(l: Ledger, caller: Principal, operator: Principal, t: TokenIdentifier) -> Option<NftError> {
    if operator == caller {
        Some(NftError::SelfApprove)
    } else if !has_owner(l, t) {
        Some(NftError::OwnerNotFound)
    } else if l.token_map()[t].owner != Some(caller) {
        Some(NftError::UnauthorizedOwner)
    } else {
        None
    }
}

/// The outcome of a burn of `t` called by `caller`, if it fails.
pub open spec fn burn_error(l: Ledger, caller: Principal, t: TokenIdentifier) -> Option<NftError> {
    if !has_owner(l, t) {
        Some(NftError::OwnerNotFound)
    } else if l.token_map()[t].owner != Some(caller) {
        Some(NftError::UnauthorizedOwner)
    } else if l.token_map()[t].operator is None {
        Some(NftError::OperatorNotFound)
    } else {
        None
    }
}

/// Initialises the collection metadata; `ctx.caller` becomes a custodian.
pub fn dip721_init(ledger: &mut Ledger, ctx: &CallContext, args: Option<InitArgs>)
    requires
        old(ledger).wf(),
    ensures
        final(ledger).wf(),
        final(ledger).token_map() == old(ledger).token_map(),
        final(ledger).tx() == old(ledger).tx(),
        final(ledger).meta().created_at == ctx.now,
        final(ledger).meta().upgraded_at == ctx.now,
        final(ledger).meta().custodians@.contains(ctx.caller),
        final(ledger).meta().custodians@.to_set() == match args {
            Some(a) => match a.custodians {
                Some(c) => old(ledger).meta().custodians@.to_set().insert(ctx.caller).union(c@.to_set()),
                None => old(ledger).meta().custodians@.to_set().insert(ctx.caller),
            },
            None => old(ledger).meta().custodians@.to_set().insert(ctx.caller),
        },
        match args {
            Some(a) => {
                &&& final(ledger).meta().name == a.name
                &&& final(ledger).meta().logo == a.logo
                &&& final(ledger).meta().symbol == a.symbol
            },
            None => {
                &&& final(ledger).meta().name == old(ledger).meta().name
                &&& final(ledger).meta().logo == old(ledger).meta().logo
                &&& final(ledger).meta().symbol == old(ledger).meta().symbol
            },
        },
{
    ledger.init_metadata(ctx.caller, args, ctx.now);
    assert(ledger.meta().custodians@.to_set().contains(ctx.caller));
}

/// The number of tokens ever minted, burned ones included.
pub fn dip721_total_supply(ledger: &Ledger) -> (r: u64)
    ensures
        r == ledger.token_map().len(),
{
    ledger.tokens_count() as u64
}

/// The number of tokens `owner` holds.
pub fn dip721_balance_of(ledger: &Ledger, owner: Principal) -> (r: Result<u64, NftError>)
    requires
        ledger.wf(),
    ensures
        r is Err <==> !ledger.owner_index().contains_key(owner),
        match r {
            Ok(n) => n == ledger.owner_index()[owner].len(),
            Err(e) => e == NftError::OwnerNotFound,
        },
{
    match ledger.owner_token_identifiers(&owner) {
        Ok(v) => {
            proof {
                v@.unique_seq_to_set();
            }
            Ok(v.len() as u64)
        },
        Err(e) => Err(e),
    }
}

/// The tokens `owner` holds, each once.
pub fn dip721_owner_token_identifiers(ledger: &Ledger, owner: Principal) -> (r: Result<Vec<TokenIdentifier>, NftError>)
    requires
        ledger.wf(),
    ensures
        r is Err <==> !ledger.owner_index().contains_key(owner),
        match r {
            Ok(v) => v@.to_set() == ledger.owner_index()[owner] && v@.no_duplicates(),
            Err(e) => e == NftError::OwnerNotFound,
        },
{
    ledger.owner_token_identifiers(&owner)
}

/// The record of `token_identifier`.
pub fn dip721_token_metadata(ledger: &Ledger, token_identifier: TokenIdentifier) -> (r: Result<&TokenMetaData, NftError>)
    ensures
        r is Err <==> !ledger.token_map().contains_key(token_identifier),
        match r {
            Ok(md) => *md == ledger.token_map()[token_identifier],
            Err(e) => e == NftError::TokenNotFound,
        },
{
    ledger.token_metadata(&token_identifier)
}

/// Mints `token_identifier` to `to` with the given attributes.
pub fn dip721_mint(
    ledger: &mut Ledger,
    ctx: &CallContext,
    to: Principal,
    token_identifier: TokenIdentifier,
    properties: Vec<(String, GeneralValue)>,
    log: &mut Vec<AuditEvent>,
) -> (r: Result<u64, NftError>)
    requires
        old(ledger).wf(),
        old(ledger).tx() < u64::MAX,
    ensures
        final(ledger).wf(),
        old(ledger).token_map().contains_key(token_identifier) ==> {
            &&& r == Err::<u64, NftError>(NftError::ExistedNFT)
            &&& *final(ledger) == *old(ledger)
            &&& *final(log) == *old(log)
        },
        !old(ledger).token_map().contains_key(token_identifier) ==> {
            &&& r == Ok::<u64, NftError>(old(ledger).tx())
            &&& final(ledger).token_map() == old(ledger).token_map().insert(
                token_identifier,
                minted_record(token_identifier, to, properties, *ctx),
            )
            &&& final(ledger).tx() == old(ledger).tx() + 1
            &&& final(ledger).meta() == old(ledger).meta()
            &&& final(log)@ == old(log)@.push(
                AuditEvent::Mint { caller: ctx.caller, to, token_identifier },
            )
        },
{
    if ledger.is_token_existed(&token_identifier) {
        return Err(NftError::ExistedNFT);
    }
    let ghost before = ledger.token_map();
    let record = TokenMetaData {
        token_identifier,
        owner: Some(to),
        operator: Some(to),
        is_burned: false,
        properties,
        minted_at: ctx.now,
        minted_by: ctx.caller,
        transferred_at: None,
        transferred_by: None,
        approved_at: None,
        approved_by: None,
        burned_at: None,
        burned_by: None,
    };
    ledger.add_token_metadata(token_identifier, record);
    ledger.update_owner_cache(&token_identifier, None, Some(to));
    ledger.update_operator_cache(&token_identifier, None, Some(to));
    assert(owners_of(ledger.token_map()) =~= owners_of(before).insert(token_identifier, to));
    assert(operators_of(ledger.token_map()) =~= operators_of(before).insert(token_identifier, to));
    log.push(AuditEvent::Mint { caller: ctx.caller, to, token_identifier });
    let seq = ledger.inc_tx();
    Ok(seq - 1)
}

/// Transfers `token_identifier` from `owner` to `to`; the caller must be its
/// operator. The operator is cleared.
pub fn dip721_transfer_from(
    ledger: &mut Ledger,
    ctx: &CallContext,
    owner: Principal,
    to: Principal,
    token_identifier: TokenIdentifier,
    log: &mut Vec<AuditEvent>,
) -> (r: Result<u64, NftError>)
    requires
        old(ledger).wf(),
        old(ledger).tx() < u64::MAX,
    ensures
        final(ledger).wf(),
        match transfer_error(*old(ledger), ctx.caller, owner, to, token_identifier) {
            Some(e) => {
                &&& r == Err::<u64, NftError>(e)
                &&& *final(ledger) == *old(ledger)
                &&& *final(log) == *old(log)
            },
            None => {
                &&& r == Ok::<u64, NftError>(old(ledger).tx())
                &&& final(ledger).token_map() == old(ledger).token_map().insert(
                    token_identifier,
                    transferred_record(
                        old(ledger).token_map()[token_identifier],
                        ctx.caller,
                        Some(to),
                        ctx.now,
                    ),
                )
                &&& final(ledger).tx() == old(ledger).tx() + 1
                &&& final(ledger).meta() == old(ledger).meta()
                &&& final(log)@ == old(log)@.push(
                    AuditEvent::TransferFrom { caller: ctx.caller, owner, to, token_identifier },
                )
            },
        },
{
    if owner == to {
        return Err(NftError::UnauthorizedOwner);
    }
    let old_owner = match ledger.owner_of(&token_identifier) {
        Ok(Some(o)) => o,
        _ => return Err(NftError::OwnerNotFound),
    };
    if old_owner != owner {
        return Err(NftError::UnauthorizedOwner);
    }
    let old_operator = match ledger.operator_of(&token_identifier) {
        Ok(Some(o)) => o,
        _ => return Err(NftError::OperatorNotFound),
    };
    let caller = ctx.caller;
    if old_operator != caller {
        return Err(NftError::UnauthorizedOperator);
    }
    let ghost before = ledger.token_map();
    ledger.update_owner_cache(&token_identifier, Some(old_owner), Some(to));
    ledger.update_operator_cache(&token_identifier, Some(old_operator), None);
    ledger.transfer(caller, &token_identifier, Some(to), ctx.now);
    assert(owners_of(ledger.token_map()) =~= owners_of(before).insert(token_identifier, to));
    assert(operators_of(ledger.token_map()) =~= operators_of(before).remove(token_identifier));
    log.push(AuditEvent::TransferFrom { caller, owner, to, token_identifier });
    let seq = ledger.inc_tx();
    Ok(seq - 1)
}

/// Makes `operator` the operator of `token_identifier`; the caller must be
/// its owner.
pub fn dip721_approve(
    ledger: &mut Ledger,
    ctx: &CallContext,
    operator: Principal,
    token_identifier: TokenIdentifier,
    log: &mut Vec<AuditEvent>,
) -> (r: Result<u64, NftError>)
    requires
        old(ledger).wf(),
        old(ledger).tx() < u64::MAX,
    ensures
        final(ledger).wf(),
        match approve_error(*old(ledger), ctx.caller, operator, token_identifier) {
            Some(e) => {
                &&& r == Err::<u64, NftError>(e)
                &&& *final(ledger) == *old(ledger)
                &&& *final(log) == *old(log)
            },
            None => {
                &&& r == Ok::<u64, NftError>(old(ledger).tx())
                &&& final(ledger).token_map() == old(ledger).token_map().insert(
                    token_identifier,
                    approved_record(
                        old(ledger).token_map()[token_identifier],
                        ctx.caller,
                        Some(operator),
                        ctx.now,
                    ),
                )
                &&& final(ledger).tx() == old(ledger).tx() + 1
                &&& final(ledger).meta() == old(ledger).meta()
                &&& final(log)@ == old(log)@.push(
                    AuditEvent::Approve { caller: ctx.caller, operator, token_identifier },
                )
            },
        },
{
    let caller = ctx.caller;
    if operator == caller {
        return Err(NftError::SelfApprove);
    }
    let owner = match ledger.owner_of(&token_identifier) {
        Ok(Some(o)) => o,
        _ => return Err(NftError::OwnerNotFound),
    };
    if owner != caller {
        return Err(NftError::UnauthorizedOwner);
    }
    let old_operator = match ledger.operator_of(&token_identifier) {
        Ok(o) => o,
        Err(_) => return Err(NftError::OperatorNotFound),
    };
    let ghost before = ledger.token_map();
    ledger.update_operator_cache(&token_identifier, old_operator, Some(operator));
    ledger.approve(caller, &token_identifier, Some(operator), ctx.now);
    assert(owners_of(ledger.token_map()) =~= owners_of(before));
    assert(operators_of(ledger.token_map()) =~= operators_of(before).insert(token_identifier, operator));
    log.push(AuditEvent::Approve { caller, operator, token_identifier });
    let seq = ledger.inc_tx();
    Ok(seq - 1)
}

/// Burns `token_identifier`: it keeps its record but loses its owner and
/// operator for good. The caller must be its owner.
pub fn dip721_burn(
    ledger: &mut Ledger,
    ctx: &CallContext,
    token_identifier: TokenIdentifier,
    log: &mut Vec<AuditEvent>,
) -> (r: Result<u64, NftError>)
    requires
        old(ledger).wf(),
        old(ledger).tx() < u64::MAX,
    ensures
        final(ledger).wf(),
        match burn_error(*old(ledger), ctx.caller, token_identifier) {
            Some(e) => {
                &&& r == Err::<u64, NftError>(e)
                &&& *final(ledger) == *old(ledger)
                &&& *final(log) == *old(log)
            },
            None => {
                &&& r == Ok::<u64, NftError>(old(ledger).tx())
                &&& final(ledger).token_map() == old(ledger).token_map().insert(
                    token_identifier,
                    burned_record(old(ledger).token_map()[token_identifier], ctx.caller, ctx.now),
                )
                &&& final(ledger).tx() == old(ledger).tx() + 1
                &&& final(ledger).meta() == old(ledger).meta()
                &&& final(log)@ == old(log)@.push(
                    AuditEvent::Burn { caller: ctx.caller, token_identifier },
                )
            },
        },
{
    let caller = ctx.caller;
    let old_owner = match ledger.owner_of(&token_identifier) {
        Ok(Some(o)) => o,
        _ => return Err(NftError::OwnerNotFound),
    };
    if old_owner != caller {
        return Err(NftError::UnauthorizedOwner);
    }
    let old_operator = match ledger.operator_of(&token_identifier) {
        Ok(Some(o)) => o,
        _ => return Err(NftError::OperatorNotFound),
    };
    let ghost before = ledger.token_map();
    ledger.update_owner_cache(&token_identifier, Some(old_owner), None);
    ledger.update_operator_cache(&token_identifier, Some(old_operator), None);
    ledger.burn(caller, &token_identifier, ctx.now);
    assert(owners_of(ledger.token_map()) =~= owners_of(before).remove(token_identifier));
    assert(operators_of(ledger.token_map()) =~= operators_of(before).remove(token_identifier));
    log.push(AuditEvent::Burn { caller, token_identifier });
    let seq = ledger.inc_tx();
    Ok(seq - 1)
}

/// Mint uniqueness: once a mint of `t` has succeeded, `t` holds the minted
/// record, so a second mint of `t` fails with `ExistedNFT` and, by its
/// contract, leaves that record as it is.
pub proof fn lemma_mint_unique(
    before: Ledger,
    after: Ledger,
    t: TokenIdentifier,
    to: Principal,
    properties: Vec<(String, GeneralValue)>,
    ctx: CallContext,
)
    requires
        after.token_map() == before.token_map().insert(t, minted_record(t, to, properties, ctx)),
    ensures
        after.token_map().contains_key(t),
        after.token_map()[t] == minted_record(t, to, properties, ctx),
{
}

/// Burn terminality: a burned token has no owner, so every later transfer,
/// approval or burn of it fails with `OwnerNotFound` (save a transfer to its
/// own source or a self-approval, which are refused before the token is
/// looked at).
pub proof fn lemma_burned_is_terminal(
    l: Ledger,
    caller: Principal,
    owner: Principal,
    to: Principal,
    operator: Principal,
    t: TokenIdentifier,
)
    requires
        l.wf(),
        l.token_map().contains_key(t),
        l.token_map()[t].is_burned,
        owner != to,
        operator != caller,
    ensures
        transfer_error(l, caller, owner, to, t) == Some(NftError::OwnerNotFound),
        approve_error(l, caller, operator, t) == Some(NftError::OwnerNotFound),
        burn_error(l, caller, t) == Some(NftError::OwnerNotFound),
{
}

/// The number of successful calls among the first `k` outcomes.
pub open spec fn successes(outcomes: Seq<Option<u64>>, k: int) -> nat
    decreases k,
{
    if k <= 0 {
        0
    } else {
        successes(outcomes, k - 1) + if outcomes[k - 1] is Some { 1nat } else { 0nat }
    }
}

/// Monotonic sequence: along a run of mutating calls from a ledger whose
/// counter is 0, where each call either succeeds, returning the counter and
/// advancing it by one, or fails and leaves the counter alone, the successful
/// calls return 0, 1, 2, ... in call order.
pub proof fn lemma_sequence_numbers(states: Seq<Ledger>, outcomes: Seq<Option<u64>>)
    requires
        states.len() == outcomes.len() + 1,
        states[0].tx() == 0,
        forall|k: int| 0 <= k < outcomes.len() ==> match #[trigger] outcomes[k] {
            Some(n) => n == states[k].tx() && states[k + 1].tx() == states[k].tx() + 1,
            None => states[k + 1].tx() == states[k].tx(),
        },
    ensures
        forall|k: int| 0 <= k < outcomes.len() && (#[trigger] outcomes[k]) is Some ==> outcomes[k]->Some_0 == successes(outcomes, k),
{
    assert forall|k: int| 0 <= k <= outcomes.len() implies states[k].tx() == successes(outcomes, k) by {
        lemma_counter_counts(states, outcomes, k);
    }
}

proof fn lemma_counter_counts(states: Seq<Ledger>, outcomes: Seq<Option<u64>>, k: int)
    requires
        states.len() == outcomes.len() + 1,
        states[0].tx() == 0,
        forall|k: int| 0 <= k < outcomes.len() ==> match #[trigger] outcomes[k] {
            Some(n) => n == states[k].tx() && states[k + 1].tx() == states[k].tx() + 1,
            None => states[k + 1].tx() == states[k].tx(),
        },
        0 <= k <= outcomes.len(),
    ensures
        states[k].tx() == successes(outcomes, k),
    decreases k,
{
    if k > 0 {
        lemma_counter_counts(states, outcomes, k - 1);
    }
}

} // verus!
