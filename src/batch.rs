//! The batch executor: transfers of several tokens that either all apply or
//! none do.
//!
//! Every check that any of the transfers would make is made before the first
//! one is applied, so a failing batch leaves the ledger and the audit log as
//! they were.
use vstd::prelude::*;
use crate::principal::Principal;
use crate::ledger::{Ledger, transferred_record};
use crate::dip721::{AuditEvent, CallContext, dip721_transfer_from, transfer_error};
use crate::types::{GeneralValue, NftError, TokenIdentifier, TokenMetaData};

verus! {

/// Whether `t` is a token of `l` owned by `p`.
pub open spec fn owned_by(l: Ledger, t: TokenIdentifier, p: Principal) -> bool {
    l.token_map().contains_key(t) && l.token_map()[t].owner == Some(p)
}

/// Why the `j`-th transfer of a batch of `ids` called by `caller` would
/// fail, once ownership is settled: a repeated token no longer belongs to
/// the source, a token needs an operator, and the caller must be each
/// token's operator.
pub open spec fn batch_item_error(l: Ledger, caller: Principal, ids: Seq<TokenIdentifier>, j: int) -> Option<NftError> {
    if exists|k: int| 0 <= k < j && ids[k] == ids[j] {
        Some(NftError::UnauthorizedOwner)
    } else if l.token_map()[ids[j]].operator is None {
        Some(NftError::OperatorNotFound)
    } else if l.token_map()[ids[j]].operator != Some(caller) {
        Some(NftError::UnauthorizedOperator)
    } else {
        None
    }
}

/// The error of the first transfer from position `j` on that would fail.
pub open spec fn first_item_error(l: Ledger, caller: Principal, ids: Seq<TokenIdentifier>, j: int) -> Option<NftError>
    decreases ids.len() - j,
{
    if j >= ids.len() || j < 0 {
        None
    } else if batch_item_error(l, caller, ids, j) is Some {
        batch_item_error(l, caller, ids, j)
    } else {
        first_item_error(l, caller, ids, j + 1)
    }
}

/// Why a batch transfer of `ids` from `from` to `to` called by `caller`
/// fails, if it does: a token that `from` does not own, a transfer to
/// oneself, or the first transfer that would fail.
pub open spec fn batch_transfer_error(
    l: Ledger,
    caller: Principal,
    from: Principal,
    to: Principal,
    ids: Seq<TokenIdentifier>,
) -> Option<NftError> {
    if exists|j: int| 0 <= j < ids.len() && !owned_by(l, ids[j], from) {
        Some(NftError::UnauthorizedOwner)
    } else if from == to {
        Some(NftError::UnauthorizedOwner)
    } else {
        first_item_error(l, caller, ids, 0)
    }
}

proof fn lemma_first_item_error_none(l: Ledger, caller: Principal, ids: Seq<TokenIdentifier>, j: int)
    requires
        0 <= j <= ids.len(),
        first_item_error(l, caller, ids, j) is None,
    ensures
        forall|k: int| j <= k < ids.len() ==> batch_item_error(l, caller, ids, k) is None,
    decreases ids.len() - j,
{
    if j < ids.len() {
        lemma_first_item_error_none(l, caller, ids, j + 1);
    }
}

proof fn lemma_first_item_error_skip(l: Ledger, caller: Principal, ids: Seq<TokenIdentifier>, j: int)
    requires
        0 <= j <= ids.len(),
        forall|k: int| 0 <= k < j ==> batch_item_error(l, caller, ids, k) is None,
    ensures
        first_item_error(l, caller, ids, 0) == first_item_error(l, caller, ids, j),
    decreases j,
{
    if j > 0 {
        lemma_first_item_error_skip(l, caller, ids, j - 1);
    }
}

proof fn lemma_first_item_error_kind(l: Ledger, caller: Principal, ids: Seq<TokenIdentifier>, j: int)
    ensures
        first_item_error(l, caller, ids, j) is Some ==> first_item_error(l, caller, ids, j)->Some_0
            != NftError::TokenNotFound,
    decreases ids.len() - j,
{
    if 0 <= j < ids.len() {
        lemma_first_item_error_kind(l, caller, ids, j + 1);
    }
}

/// A batch transfer never fails for want of a token record.
pub proof fn lemma_batch_error_kind(l: Ledger, caller: Principal, from: Principal, to: Principal, ids: Seq<TokenIdentifier>)
    ensures
        batch_transfer_error(l, caller, from, to, ids) != Some(NftError::TokenNotFound),
{
    lemma_first_item_error_kind(l, caller, ids, 0);
}

/// Transfers each of `ids`, in order, from `from` to `to`; either all
/// transfers apply or none does.
pub fn dip721_transfer_batch(
    ledger: &mut Ledger,
    ctx: &CallContext,
    from: Principal,
    to: Principal,
    ids: &Vec<TokenIdentifier>,
    log: &mut Vec<AuditEvent>,
) -> (r: Result<Vec<u64>, NftError>)
    requires
        old(ledger).wf(),
        old(ledger).tx() + ids@.len() <= u64::MAX,
    ensures
        final(ledger).wf(),
        match batch_transfer_error(*old(ledger), ctx.caller, from, to, ids@) {
            Some(e) => {
                &&& r == Err::<Vec<u64>, NftError>(e)
                &&& *final(ledger) == *old(ledger)
                &&& *final(log) == *old(log)
            },
            None => {
                &&& r is Ok
                &&& r->Ok_0@ == Seq::new(ids@.len(), |j: int| (old(ledger).tx() + j) as u64)
                &&& final(ledger).tx() == old(ledger).tx() + ids@.len()
                &&& final(ledger).meta() == old(ledger).meta()
                &&& final(ledger).token_map().dom() == old(ledger).token_map().dom()
                &&& forall|t: TokenIdentifier| #[trigger] final(ledger).token_map().contains_key(t) ==>
                    final(ledger).token_map()[t] == if ids@.contains(t) {
                        transferred_record(old(ledger).token_map()[t], ctx.caller, Some(to), ctx.now)
                    } else {
                        old(ledger).token_map()[t]
                    }
                &&& final(log)@ == old(log)@ + Seq::new(
                    ids@.len(),
                    |j: int| AuditEvent::TransferFrom { caller: ctx.caller, owner: from, to, token_identifier: ids@[j] },
                )
            },
        },
{
    let n = ids.len();
    let ghost l0 = *ledger;
    let mut i: usize = 0;
    while i < n
        invariant
            n == ids@.len(),
            i <= n,
            forall|j: int| 0 <= j < i ==> owned_by(l0, ids@[j], from),
            *ledger == l0,
            l0 == *old(ledger),
            l0.wf(),
            *log == *old(log),
        decreases n - i,
    {
        match ledger.owner_of(&ids[i]) {
            Ok(Some(o)) => {
                if o != from {
                    return Err(NftError::UnauthorizedOwner);
                }
            },
            _ => {
                return Err(NftError::UnauthorizedOwner);
            },
        }
        i = i + 1;
    }
    if from == to {
        return Err(NftError::UnauthorizedOwner);
    }
    let mut i: usize = 0;
    while i < n
        invariant
            n == ids@.len(),
            i <= n,
            *ledger == l0,
            l0 == *old(ledger),
            l0.wf(),
            *log == *old(log),
            from != to,
            forall|j: int| 0 <= j < ids@.len() ==> owned_by(l0, ids@[j], from),
            forall|k: int| 0 <= k < i ==> batch_item_error(l0, ctx.caller, ids@, k) is None,
        decreases n - i,
    {
        let t = ids[i];
        let mut k: usize = 0;
        while k < i
            invariant
                i < n,
                n == ids@.len(),
                k <= i,
                t == ids@[i as int],
                l0.wf(),
                *ledger == l0,
                l0 == *old(ledger),
                *log == *old(log),
                from != to,
                forall|j: int| 0 <= j < ids@.len() ==> owned_by(l0, ids@[j], from),
                forall|m: int| 0 <= m < k ==> ids@[m] != t,
                forall|m: int| 0 <= m < i ==> batch_item_error(l0, ctx.caller, ids@, m) is None,
            decreases i - k,
        {
            if ids[k] == t {
                proof {
                    lemma_first_item_error_skip(l0, ctx.caller, ids@, i as int);
                }
                assert(batch_item_error(l0, ctx.caller, ids@, i as int) == Some(NftError::UnauthorizedOwner));
                return Err(NftError::UnauthorizedOwner);
            }
            k = k + 1;
        }
        let op = match ledger.operator_of(&t) {
            Ok(o) => o,
            Err(_) => None,
        };
        if op.is_none() {
            proof {
                lemma_first_item_error_skip(l0, ctx.caller, ids@, i as int);
            }
            return Err(NftError::OperatorNotFound);
        }
        if !crate::principal::same_principal(&op, &Some(ctx.caller)) {
            proof {
                lemma_first_item_error_skip(l0, ctx.caller, ids@, i as int);
            }
            return Err(NftError::UnauthorizedOperator);
        }
        i = i + 1;
    }
    proof {
        lemma_first_item_error_skip(l0, ctx.caller, ids@, n as int);
        assert(batch_transfer_error(l0, ctx.caller, from, to, ids@) is None);
    }
    let ghost log0 = log@;
    let mut results: Vec<u64> = Vec::new();
    let mut i: usize = 0;
    while i < n
        invariant
            n == ids@.len(),
            i <= n,
            ledger.wf(),
            from != to,
            l0.tx() + n <= u64::MAX,
            ledger.tx() == l0.tx() + i,
            ledger.meta() == l0.meta(),
            ledger.token_map().dom() == l0.token_map().dom(),
            forall|j: int| 0 <= j < ids@.len() ==> owned_by(l0, ids@[j], from),
            forall|k: int| 0 <= k < ids@.len() ==> batch_item_error(l0, ctx.caller, ids@, k) is None,
            forall|t: TokenIdentifier| #[trigger] ledger.token_map().contains_key(t) ==>
                ledger.token_map()[t] == if ids@.subrange(0, i as int).contains(t) {
                    transferred_record(l0.token_map()[t], ctx.caller, Some(to), ctx.now)
                } else {
                    l0.token_map()[t]
                },
            results@ == Seq::new(i as nat, |j: int| (l0.tx() + j) as u64),
            log@ == log0 + Seq::new(
                i as nat,
                |j: int| AuditEvent::TransferFrom { caller: ctx.caller, owner: from, to, token_identifier: ids@[j] },
            ),
        decreases n - i,
    {
        let t = ids[i];
        assert(!ids@.subrange(0, i as int).contains(t)) by {
            if ids@.subrange(0, i as int).contains(t) {
                let k = choose|k: int| 0 <= k < i && ids@.subrange(0, i as int)[k] == t;
                assert(ids@[k] == ids@[i as int]);
                assert(batch_item_error(l0, ctx.caller, ids@, i as int) is Some);
            }
        }
        assert(owned_by(l0, t, from));
        assert(ledger.token_map().contains_key(t));
        assert(ledger.token_map()[t] == l0.token_map()[t]);
        assert(transfer_error(*ledger, ctx.caller, from, to, t) is None);
        let ghost before = *ledger;
        let res = dip721_transfer_from(ledger, ctx, from, to, t, log);
        match res {
            Ok(s) => {
                results.push(s);
            },
            Err(_) => {},
        }
        let ghost prev = ids@.subrange(0, i as int);
        i = i + 1;
        let ghost cur = ids@.subrange(0, i as int);
        assert(cur =~= prev.push(t));
        assert forall|u: TokenIdentifier| #[trigger] ledger.token_map().contains_key(u) implies
            ledger.token_map()[u] == if cur.contains(u) {
                transferred_record(l0.token_map()[u], ctx.caller, Some(to), ctx.now)
            } else {
                l0.token_map()[u]
            } by {
            if u == t {
                assert(cur[cur.len() - 1] == t);
            } else {
                assert(before.token_map().contains_key(u));
                if cur.contains(u) {
                    let k = choose|k: int| 0 <= k < cur.len() && cur[k] == u;
                    assert(prev[k] == u);
                } else if prev.contains(u) {
                    let k = choose|k: int| 0 <= k < prev.len() && prev[k] == u;
                    assert(cur[k] == u);
                }
            }
        }
        assert(ledger.token_map().dom() =~= l0.token_map().dom());
        assert(results@ =~= Seq::new(i as nat, |j: int| (l0.tx() + j) as u64));
        assert(log@ =~= log0 + Seq::new(
            i as nat,
            |j: int| AuditEvent::TransferFrom { caller: ctx.caller, owner: from, to, token_identifier: ids@[j] },
        ));
    }
    assert(ids@.subrange(0, n as int) =~= ids@);
    Ok(results)
}

/// Whether record `md` carries the text attribute `class` under the key
/// `"class"`.
pub open spec fn has_class(md: TokenMetaData, class: Seq<char>) -> bool {
    exists|k: int| #![trigger md.properties@[k]]
        0 <= k < md.properties@.len() && md.properties@[k].0@ == "class"@
            && md.properties@[k].1 is TextContent && md.properties@[k].1->TextContent_0@ == class
}

/// Whether record `md` carries the text attribute `class` under the key
/// `"class"`.
pub fn record_has_class(md: &TokenMetaData, class: &String) -> (r: bool)
    ensures
        r == has_class(*md, class@),
{
    let key = "class".to_owned();
    let mut k: usize = 0;
    while k < md.properties.len()
        invariant
            k <= md.properties@.len(),
            key@ == "class"@,
            forall|j: int| 0 <= j < k ==> !(md.properties@[j].0@ == "class"@
                && md.properties@[j].1 is TextContent && md.properties@[j].1->TextContent_0@ == class@),
        decreases md.properties@.len() - k,
    {
        let p = &md.properties[k];
        if p.0 == key {
            match &p.1 {
                GeneralValue::TextContent(c) => {
                    if *c == *class {
                        return true;
                    }
                },
                _ => {},
            }
        }
        k = k + 1;
    }
    false
}

/// The tokens `from` owns whose record carries class `class`.
pub open spec fn owned_of_class(l: Ledger, from: Principal, class: Seq<char>) -> Set<TokenIdentifier> {
    Set::new(|t: TokenIdentifier| owned_by(l, t, from) && has_class(l.token_map()[t], class))
}

/// Picks `num` distinct tokens that `from` owns with class `class`, or all
/// of them when there are fewer.
pub fn pick_of_class(ledger: &Ledger, from: &Principal, class: &String, num: usize) -> (r: Vec<TokenIdentifier>)
    requires
        ledger.wf(),
    ensures
        r@.no_duplicates(),
        r@.len() <= num,
        forall|j: int| 0 <= j < r@.len() ==> owned_of_class(*ledger, *from, class@).contains(#[trigger] r@[j]),
        r@.len() < num ==> r@.to_set() == owned_of_class(*ledger, *from, class@),
{
    let owned = match ledger.owner_token_identifiers(from) {
        Ok(v) => v,
        Err(_) => {
            proof {
                assert forall|t: TokenIdentifier| !owned_of_class(*ledger, *from, class@).contains(t) by {
                    crate::ledger::lemma_indexes_inverse(*ledger, *from);
                }
                assert(Seq::<TokenIdentifier>::empty().to_set() =~= owned_of_class(*ledger, *from, class@));
            }
            return Vec::new();
        },
    };
    proof {
        crate::ledger::lemma_indexes_inverse(*ledger, *from);
    }
    let ghost want = owned_of_class(*ledger, *from, class@);
    let mut picked: Vec<TokenIdentifier> = Vec::new();
    let mut i: usize = 0;
    while i < owned.len() && picked.len() < num
        invariant
            ledger.wf(),
            i <= owned@.len(),
            picked@.len() <= num,
            owned@.no_duplicates(),
            owned@.to_set() == ledger.owner_index()[*from],
            ledger.owner_index().contains_key(*from),
            want == owned_of_class(*ledger, *from, class@),
            picked@.no_duplicates(),
            forall|t: TokenIdentifier| picked@.contains(t) <==> exists|j: int| 0 <= j < i && owned@[j] == t && want.contains(t),
        decreases owned@.len() - i,
    {
        let t = owned[i];
        assert(owned@.contains(t));
        assert(owned@.to_set().contains(t));
        assert(ledger.owner_index()[*from].contains(t));
        assert(owned_by(*ledger, t, *from));
        let md = ledger.token_metadata(&t);
        let hit = match md {
            Ok(m) => record_has_class(m, class),
            Err(_) => false,
        };
        let ghost old_p = picked@;
        if hit {
            assert(want.contains(t));
            assert forall|k: int| 0 <= k < old_p.len() implies old_p[k] != t by {
                assert(old_p.contains(old_p[k]));
            }
            picked.push(t);
        } else {
            assert(!want.contains(t));
        }
        assert(hit ==> picked@ == old_p.push(t));
        assert(!hit ==> picked@ == old_p);
        assert forall|u: TokenIdentifier| picked@.contains(u) <==> exists|j: int| 0 <= j < i + 1 && owned@[j] == u && want.contains(u) by {
            if picked@.contains(u) {
                let k = choose|k: int| 0 <= k < picked@.len() && picked@[k] == u;
                if k < old_p.len() {
                    assert(old_p.contains(u));
                } else {
                    assert(0 <= i < i + 1 && owned@[i as int] == u && want.contains(u));
                }
            }
            if exists|j: int| 0 <= j < i + 1 && owned@[j] == u && want.contains(u) {
                let j = choose|j: int| 0 <= j < i + 1 && owned@[j] == u && want.contains(u);
                if j < i {
                    assert(old_p.contains(u));
                    let k = choose|k: int| 0 <= k < old_p.len() && old_p[k] == u;
                    assert(picked@[k] == u);
                } else {
                    assert(picked@[old_p.len() as int] == u);
                }
            }
        }
        i = i + 1;
    }
    proof {
        assert forall|j: int| 0 <= j < picked@.len() implies want.contains(#[trigger] picked@[j]) by {
            assert(picked@.contains(picked@[j]));
        }
        if picked@.len() < num {
            assert(i == owned@.len());
            assert forall|t: TokenIdentifier| picked@.to_set().contains(t) == want.contains(t) by {
                if want.contains(t) {
                    assert(ledger.owner_index()[*from].contains(t));
                    assert(owned@.to_set().contains(t));
                    let j = choose|j: int| 0 <= j < owned@.len() && owned@[j] == t;
                }
            }
            assert(picked@.to_set() =~= want);
        }
    }
    picked
}

} // verus!
