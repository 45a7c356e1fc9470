//! The ledger store: token records keyed by identifier, the owner and
//! operator indexes derived from them, collection metadata and the
//! transaction counter.
use vstd::prelude::*;
use std::collections::HashMap;
use crate::principal::{Principal, same_principal};
use crate::types::{InitArgs, MetaData, NftError, TokenIdentifier, TokenMetaData};

verus! {

broadcast use vstd::std_specs::hash::group_hash_axioms;

/// One entry of an index: `token` is filed under `principal`.
#[derive(Clone, Copy)]
pub struct IndexEntry {
    pub principal: Principal,
    pub token: TokenIdentifier,
}

/// No token is filed twice.
pub open spec fn entries_unique(s: Seq<IndexEntry>) -> bool {
    forall|i: int, j: int| 0 <= i < s.len() && 0 <= j < s.len() && i != j ==> s[i].token != s[j].token
}

/// The principal each filed token is filed under.
pub open spec fn index_map(s: Seq<IndexEntry>) -> Map<TokenIdentifier, Principal> {
    Map::new(
        |t: TokenIdentifier| exists|i: int| 0 <= i < s.len() && s[i].token == t,
        |t: TokenIdentifier| s[choose|i: int| 0 <= i < s.len() && s[i].token == t].principal,
    )
}

/// The owner of each owned token of `m`.
pub open spec fn owners_of(m: Map<TokenIdentifier, TokenMetaData>) -> Map<TokenIdentifier, Principal> {
    Map::new(
        |t: TokenIdentifier| m.contains_key(t) && m[t].owner is Some,
        |t: TokenIdentifier| m[t].owner->Some_0,
    )
}

/// The operator of each token of `m` that has one.
pub open spec fn operators_of(m: Map<TokenIdentifier, TokenMetaData>) -> Map<TokenIdentifier, Principal> {
    Map::new(
        |t: TokenIdentifier| m.contains_key(t) && m[t].operator is Some,
        |t: TokenIdentifier| m[t].operator->Some_0,
    )
}

/// Every burned token of `m` has neither owner nor operator.
pub open spec fn burned_cleared(m: Map<TokenIdentifier, TokenMetaData>) -> bool {
    forall|t: TokenIdentifier| #[trigger] m.contains_key(t) && m[t].is_burned ==> m[t].owner is None && m[t].operator is None
}

/// Every record of `m` is filed under its own identifier.
pub open spec fn keys_match(m: Map<TokenIdentifier, TokenMetaData>) -> bool {
    forall|t: TokenIdentifier| #[trigger] m.contains_key(t) ==> m[t].token_identifier == t
}

/// The tokens filed under `p` in `m`.
pub open spec fn filed_under(m: Map<TokenIdentifier, Principal>, p: Principal) -> Set<TokenIdentifier> {
    Set::new(|t: TokenIdentifier| m.contains_key(t) && m[t] == p)
}

/// An index as a map from each principal to its non-empty set of tokens.
pub open spec fn index_view(m: Map<TokenIdentifier, Principal>) -> Map<Principal, Set<TokenIdentifier>> {
    Map::new(
        |p: Principal| exists|t: TokenIdentifier| m.contains_key(t) && m[t] == p,
        |p: Principal| filed_under(m, p),
    )
}

/// `md` approved by `by` for operator `op` at `now`.
pub open spec fn approved_record(md: TokenMetaData, by: Principal, op: Option<Principal>, now: u64) -> TokenMetaData {
    TokenMetaData { operator: op, approved_by: Some(by), approved_at: Some(now), ..md }
}

/// `md` transferred by `by` to owner `to` at `now`; the operator is cleared.
pub open spec fn transferred_record(md: TokenMetaData, by: Principal, to: Option<Principal>, now: u64) -> TokenMetaData {
    TokenMetaData {
        owner: to,
        operator: None,
        transferred_by: Some(by),
        transferred_at: Some(now),
        ..md
    }
}

/// `md` burned by `by` at `now`.
pub open spec fn burned_record(md: TokenMetaData, by: Principal, now: u64) -> TokenMetaData {
    TokenMetaData {
        owner: None,
        operator: None,
        is_burned: true,
        burned_by: Some(by),
        burned_at: Some(now),
        ..md
    }
}

proof fn lemma_index_push(s: Seq<IndexEntry>, e: IndexEntry)
    requires
        entries_unique(s),
        !index_map(s).contains_key(e.token),
    ensures
        entries_unique(s.push(e)),
        index_map(s.push(e)) == index_map(s).insert(e.token, e.principal),
{
    let t = s.push(e);
    assert forall|i: int| 0 <= i < s.len() implies s[i].token != e.token by {
        if s[i].token == e.token {
            assert(index_map(s).contains_key(e.token));
        }
    }
    assert forall|k: TokenIdentifier| #[trigger] index_map(t).contains_key(k) == index_map(s).insert(e.token, e.principal).contains_key(k) by {
        if k == e.token {
            assert(t[s.len() as int].token == k);
        } else if index_map(s).contains_key(k) {
            let i = choose|i: int| 0 <= i < s.len() && s[i].token == k;
            assert(t[i].token == k);
        } else if index_map(t).contains_key(k) {
            let i = choose|i: int| 0 <= i < t.len() && t[i].token == k;
            assert(s[i].token == k);
        }
    }
    assert forall|k: TokenIdentifier| #[trigger] index_map(t).contains_key(k) implies index_map(t)[k] == index_map(s).insert(e.token, e.principal)[k] by {
        let i = choose|i: int| 0 <= i < t.len() && t[i].token == k;
        if k == e.token {
            assert(i == s.len());
        } else {
            let j = choose|j: int| 0 <= j < s.len() && s[j].token == k;
            assert(t[j].token == k);
            assert(i == j);
        }
    }
    assert(index_map(t) =~= index_map(s).insert(e.token, e.principal));
}

proof fn lemma_index_remove(s: Seq<IndexEntry>, i: int)
    requires
        entries_unique(s),
        0 <= i < s.len(),
    ensures
        entries_unique(s.remove(i)),
        index_map(s.remove(i)) == index_map(s).remove(s[i].token),
        index_map(s).contains_key(s[i].token),
        index_map(s)[s[i].token] == s[i].principal,
{
    let t = s.remove(i);
    let gone = s[i].token;
    assert(index_map(s).contains_key(gone));
    let c = choose|j: int| 0 <= j < s.len() && s[j].token == gone;
    assert(c == i);
    assert forall|a: int, b: int| 0 <= a < t.len() && 0 <= b < t.len() && a != b implies t[a].token != t[b].token by {
        let a2 = if a < i { a } else { a + 1 };
        let b2 = if b < i { b } else { b + 1 };
        assert(t[a] == s[a2]);
        assert(t[b] == s[b2]);
    }
    assert forall|k: TokenIdentifier| #[trigger] index_map(t).contains_key(k) == index_map(s).remove(gone).contains_key(k) by {
        if index_map(t).contains_key(k) {
            let j = choose|j: int| 0 <= j < t.len() && t[j].token == k;
            let j2 = if j < i { j } else { j + 1 };
            assert(s[j2].token == k);
            assert(j2 != i);
        }
        if k != gone && index_map(s).contains_key(k) {
            let j = choose|j: int| 0 <= j < s.len() && s[j].token == k;
            assert(j != i);
            let j2 = if j < i { j } else { j - 1 };
            assert(t[j2].token == k);
        }
    }
    assert forall|k: TokenIdentifier| #[trigger] index_map(t).contains_key(k) implies index_map(t)[k] == index_map(s).remove(gone)[k] by {
        let j = choose|j: int| 0 <= j < t.len() && t[j].token == k;
        let j2 = if j < i { j } else { j + 1 };
        assert(s[j2].token == k);
        let c2 = choose|c2: int| 0 <= c2 < s.len() && s[c2].token == k;
        assert(c2 == j2);
    }
    assert(index_map(t) =~= index_map(s).remove(gone));
}

fn find_entry(s: &Vec<IndexEntry>, token: TokenIdentifier) -> (r: Option<usize>)
    ensures
        match r {
            Some(i) => i < s@.len() && s@[i as int].token == token,
            None => !index_map(s@).contains_key(token),
        },
{
    let mut i: usize = 0;
    while i < s.len()
        invariant
            i <= s@.len(),
            forall|j: int| 0 <= j < i ==> s@[j].token != token,
        decreases s@.len() - i,
    {
        if s[i].token == token {
            return Some(i);
        }
        i = i + 1;
    }
    None
}

/// Moves `token` in the index `s` from `from` to `to`.
fn refile(s: &mut Vec<IndexEntry>, token: TokenIdentifier, from: Option<Principal>, to: Option<Principal>)
    requires
        entries_unique(old(s)@),
        match from {
            Some(o) => index_map(old(s)@).contains_key(token) && index_map(old(s)@)[token] == o,
            None => !index_map(old(s)@).contains_key(token),
        },
    ensures
        entries_unique(final(s)@),
        index_map(final(s)@) == match to {
            Some(n) => index_map(old(s)@).insert(token, n),
            None => index_map(old(s)@).remove(token),
        },
{
    if from.is_some() {
        match find_entry(s, token) {
            Some(i) => {
                proof {
                    lemma_index_remove(s@, i as int);
                }
                s.remove(i);
            },
            None => {},
        }
    }
    assert(index_map(s@) == index_map(old(s)@).remove(token));
    assert(!index_map(s@).contains_key(token));
    match to {
        Some(n) => {
            let e = IndexEntry { principal: n, token };
            proof {
                lemma_index_push(s@, e);
            }
            s.push(e);
            assert(index_map(old(s)@).remove(token).insert(token, n) =~= index_map(old(s)@).insert(token, n));
        },
        None => {},
    }
}

/// The ledger: token records, the owner and operator indexes, collection
/// metadata and the transaction counter.
pub struct Ledger {
    metadata: MetaData,
    tokens: HashMap<TokenIdentifier, TokenMetaData>,
    owners: Vec<IndexEntry>,
    operators: Vec<IndexEntry>,
    tx_count: u64,
    /// The keys of `tokens`, in the order their records were added.
    order: Vec<TokenIdentifier>,
}

impl Ledger {
    /// The token records by identifier.
    pub closed spec fn token_map(&self) -> Map<TokenIdentifier, TokenMetaData> {
        self.tokens@
    }

    /// The owner index, as the owner each filed token is filed under.
    pub closed spec fn owner_map(&self) -> Map<TokenIdentifier, Principal> {
        index_map(self.owners@)
    }

    /// The operator index, as the operator each filed token is filed under.
    pub closed spec fn operator_map(&self) -> Map<TokenIdentifier, Principal> {
        index_map(self.operators@)
    }

    /// The collection metadata.
    pub closed spec fn meta(&self) -> MetaData {
        self.metadata
    }

    /// The number of completed mutating operations.
    pub closed spec fn tx(&self) -> u64 {
        self.tx_count
    }

    /// The indexes file each token at most once.
    pub closed spec fn indexes_wf(&self) -> bool {
        &&& entries_unique(self.owners@)
        &&& entries_unique(self.operators@)
        &&& self.order@.no_duplicates()
        &&& forall|t: TokenIdentifier| #[trigger] self.tokens@.contains_key(t) <==> self.order@.contains(t)
    }

    /// The ledger's invariant: the indexes are exactly the inverses of the
    /// records' owner and operator fields.
    pub open spec fn wf(&self) -> bool {
        &&& self.indexes_wf()
        &&& self.owner_map() == owners_of(self.token_map())
        &&& self.operator_map() == operators_of(self.token_map())
        &&& burned_cleared(self.token_map())
        &&& keys_match(self.token_map())
        &&& self.meta().custodians@.no_duplicates()
    }

    /// The owner index: each owner and the tokens it owns.
    pub open spec fn owner_index(&self) -> Map<Principal, Set<TokenIdentifier>> {
        index_view(self.owner_map())
    }

    /// The operator index: each operator and the tokens it operates.
    pub open spec fn operator_index(&self) -> Map<Principal, Set<TokenIdentifier>> {
        index_view(self.operator_map())
    }

    /// An empty ledger.
    pub fn new() -> (r: Ledger)
        ensures
            r.wf(),
            r.token_map() == Map::<TokenIdentifier, TokenMetaData>::empty(),
            r.owner_map() == Map::<TokenIdentifier, Principal>::empty(),
            r.operator_map() == Map::<TokenIdentifier, Principal>::empty(),
            r.tx() == 0,
            r.meta().name is None,
            r.meta().logo is None,
            r.meta().symbol is None,
            r.meta().custodians@.len() == 0,
            r.meta().created_at == 0,
            r.meta().upgraded_at == 0,
    {
        let r = Ledger {
            metadata: MetaData {
                name: None,
                logo: None,
                symbol: None,
                custodians: Vec::new(),
                created_at: 0,
                upgraded_at: 0,
            },
            tokens: HashMap::new(),
            owners: Vec::new(),
            operators: Vec::new(),
            tx_count: 0,
            order: Vec::new(),
        };
        assert(index_map(r.owners@) =~= Map::<TokenIdentifier, Principal>::empty());
        assert(owners_of(r.tokens@) =~= Map::<TokenIdentifier, Principal>::empty());
        assert(operators_of(r.tokens@) =~= Map::<TokenIdentifier, Principal>::empty());
        r
    }

    /// The collection metadata.
    pub fn metadata(&self) -> (r: &MetaData)
        ensures
            *r == self.meta(),
    {
        &self.metadata
    }

    /// The collection metadata, to change in place.
    pub fn metadata_mut(&mut self) -> (r: &mut MetaData)
        ensures
            *r == old(self).meta(),
            final(self).meta() == *final(r),
            final(self).token_map() == old(self).token_map(),
            final(self).owner_map() == old(self).owner_map(),
            final(self).operator_map() == old(self).operator_map(),
            old(self).indexes_wf() ==> final(self).indexes_wf(),
            final(self).tx() == old(self).tx(),
    {
        &mut self.metadata
    }

    /// The number of token records, burned ones included.
    pub fn tokens_count(&self) -> (r: usize)
        ensures
            r == self.token_map().len(),
    {
        self.tokens.len()
    }

    /// Whether a record for `token_identifier` exists.
    pub fn is_token_existed(&self, token_identifier: &TokenIdentifier) -> (r: bool)
        ensures
            r == self.token_map().contains_key(*token_identifier),
    {
        self.tokens.contains_key(token_identifier)
    }

    /// The tokens that the owner index files under `owner`, each once.
    pub fn owner_token_identifiers(&self, owner: &Principal) -> (r: Result<Vec<TokenIdentifier>, NftError>)
        requires
            self.indexes_wf(),
        ensures
            r is Err <==> !self.owner_index().contains_key(*owner),
            match r {
                Ok(v) => v@.to_set() == self.owner_index()[*owner] && v@.no_duplicates(),
                Err(e) => e == NftError::OwnerNotFound,
            },
    {
        let ghost s = self.owners@;
        let mut v: Vec<TokenIdentifier> = Vec::new();
        let mut i: usize = 0;
        while i < self.owners.len()
            invariant
                s == self.owners@,
                entries_unique(s),
                i <= s.len(),
                v@.no_duplicates(),
                forall|t: TokenIdentifier| v@.contains(t) <==> exists|j: int| 0 <= j < i && s[j].principal == *owner && s[j].token == t,
            decreases s.len() - i,
        {
            let e = self.owners[i];
            let ghost old_v = v@;
            let hit = e.principal.same_bytes(owner);
            if hit {
                assert forall|k: int| 0 <= k < v@.len() implies v@[k] != e.token by {
                    assert(v@.contains(v@[k]));
                }
                v.push(e.token);
                assert forall|t: TokenIdentifier| v@.contains(t) <==> (old_v.contains(t) || t == e.token) by {
                    if v@.contains(t) {
                        let k = choose|k: int| 0 <= k < v@.len() && v@[k] == t;
                        if k < old_v.len() {
                            assert(old_v[k] == t);
                        }
                    }
                    if old_v.contains(t) {
                        let k = choose|k: int| 0 <= k < old_v.len() && old_v[k] == t;
                        assert(v@[k] == t);
                    }
                    if t == e.token {
                        assert(v@[old_v.len() as int] == t);
                    }
                }
            }
            assert(s[i as int] == e);
            assert(hit ==> v@ == old_v.push(e.token));
            assert(!hit ==> v@ == old_v);
            assert forall|t: TokenIdentifier| v@.contains(t) <==> exists|j: int| 0 <= j < i + 1 && s[j].principal == *owner && s[j].token == t by {
                if exists|j: int| 0 <= j < i + 1 && s[j].principal == *owner && s[j].token == t {
                    let j = choose|j: int| 0 <= j < i + 1 && s[j].principal == *owner && s[j].token == t;
                    if j < i {
                        assert(old_v.contains(t));
                    } else {
                        assert(hit);
                        assert(t == e.token);
                        assert(v@[old_v.len() as int] == t);
                    }
                }
                if v@.contains(t) {
                    if old_v.contains(t) {
                        let j = choose|j: int| 0 <= j < i && s[j].principal == *owner && s[j].token == t;
                        assert(0 <= j < i + 1 && s[j].principal == *owner && s[j].token == t);
                    } else {
                        assert(hit);
                        assert(t == e.token);
                        assert(0 <= i < i + 1 && s[i as int].principal == *owner && s[i as int].token == t);
                    }
                }
            }
            i = i + 1;
        }
        proof {
            let m = index_map(s);
            assert forall|t: TokenIdentifier| v@.contains(t) <==> filed_under(m, *owner).contains(t) by {
                if v@.contains(t) {
                    let j = choose|j: int| 0 <= j < s.len() && s[j].principal == *owner && s[j].token == t;
                    let c = choose|c: int| 0 <= c < s.len() && s[c].token == t;
                    assert(c == j);
                }
                if filed_under(m, *owner).contains(t) {
                    let c = choose|c: int| 0 <= c < s.len() && s[c].token == t;
                    assert(s[c].principal == *owner);
                }
            }
            assert(v@.to_set() =~= filed_under(m, *owner));
            if v@.len() > 0 {
                assert(v@.contains(v@[0]));
            } else if self.owner_index().contains_key(*owner) {
                let t = choose|t: TokenIdentifier| m.contains_key(t) && m[t] == *owner;
                assert(filed_under(m, *owner).contains(t));
                assert(!v@.contains(t));
            }
        }
        if v.len() == 0 {
            Err(NftError::OwnerNotFound)
        } else {
            Ok(v)
        }
    }

    /// The record of `token_identifier`.
    pub fn token_metadata(&self, token_identifier: &TokenIdentifier) -> (r: Result<&TokenMetaData, NftError>)
        ensures
            r is Err <==> !self.token_map().contains_key(*token_identifier),
            match r {
                Ok(md) => *md == self.token_map()[*token_identifier],
                Err(e) => e == NftError::TokenNotFound,
            },
    {
        match self.tokens.get(token_identifier) {
            Some(md) => Ok(md),
            None => Err(NftError::TokenNotFound),
        }
    }

    /// Stores the record of a new token; the indexes are left as they are.
    pub fn add_token_metadata(&mut self, token_identifier: TokenIdentifier, token_metadata: TokenMetaData)
        requires
            !old(self).token_map().contains_key(token_identifier),
        ensures
            final(self).token_map() == old(self).token_map().insert(token_identifier, token_metadata),
            final(self).owner_map() == old(self).owner_map(),
            final(self).operator_map() == old(self).operator_map(),
            old(self).indexes_wf() ==> final(self).indexes_wf(),
            final(self).tx() == old(self).tx(),
            final(self).meta() == old(self).meta(),
    {
        self.tokens.insert(token_identifier, token_metadata);
        proof {
            if old(self).indexes_wf() {
                assert(!old(self).order@.contains(token_identifier));
            }
        }
        self.order.push(token_identifier);
        proof {
            if old(self).indexes_wf() {
                assert forall|t: TokenIdentifier| #[trigger] self.tokens@.contains_key(t) <==> self.order@.contains(t) by {
                    if t == token_identifier {
                        assert(self.order@[self.order@.len() - 1] == t);
                    } else if old(self).order@.contains(t) {
                        let k = choose|k: int| 0 <= k < old(self).order@.len() && old(self).order@[k] == t;
                        assert(self.order@[k] == t);
                    } else if self.order@.contains(t) {
                        let k = choose|k: int| 0 <= k < self.order@.len() && self.order@[k] == t;
                        assert(old(self).order@[k] == t);
                    }
                }
            }
        }
    }

    /// The owner of `token_identifier`.
    pub fn owner_of(&self, token_identifier: &TokenIdentifier) -> (r: Result<Option<Principal>, NftError>)
        ensures
            r is Err <==> !self.token_map().contains_key(*token_identifier),
            match r {
                Ok(o) => o == self.token_map()[*token_identifier].owner,
                Err(e) => e == NftError::TokenNotFound,
            },
    {
        match self.token_metadata(token_identifier) {
            Ok(md) => Ok(md.owner),
            Err(e) => Err(e),
        }
    }

    /// The operator of `token_identifier`.
    pub fn operator_of(&self, token_identifier: &TokenIdentifier) -> (r: Result<Option<Principal>, NftError>)
        ensures
            r is Err <==> !self.token_map().contains_key(*token_identifier),
            match r {
                Ok(o) => o == self.token_map()[*token_identifier].operator,
                Err(e) => e == NftError::TokenNotFound,
            },
    {
        match self.token_metadata(token_identifier) {
            Ok(md) => Ok(md.operator),
            Err(e) => Err(e),
        }
    }

    /// Refiles `token_identifier` in the owner index from `old_owner`, which
    /// must be where it is filed now, to `new_owner`.
    pub fn update_owner_cache(
        &mut self,
        token_identifier: &TokenIdentifier,
        old_owner: Option<Principal>,
        new_owner: Option<Principal>,
    )
        requires
            old(self).indexes_wf(),
            match old_owner {
                Some(o) => old(self).owner_map().contains_key(*token_identifier)
                    && old(self).owner_map()[*token_identifier] == o,
                None => !old(self).owner_map().contains_key(*token_identifier),
            },
        ensures
            final(self).indexes_wf(),
            final(self).owner_map() == match new_owner {
                Some(n) => old(self).owner_map().insert(*token_identifier, n),
                None => old(self).owner_map().remove(*token_identifier),
            },
            final(self).token_map() == old(self).token_map(),
            final(self).operator_map() == old(self).operator_map(),
            final(self).tx() == old(self).tx(),
            final(self).meta() == old(self).meta(),
    {
        refile(&mut self.owners, *token_identifier, old_owner, new_owner);
    }

    /// Refiles `token_identifier` in the operator index from `old_operator`,
    /// which must be where it is filed now, to `new_operator`.
    pub fn update_operator_cache(
        &mut self,
        token_identifier: &TokenIdentifier,
        old_operator: Option<Principal>,
        new_operator: Option<Principal>,
    )
        requires
            old(self).indexes_wf(),
            match old_operator {
                Some(o) => old(self).operator_map().contains_key(*token_identifier)
                    && old(self).operator_map()[*token_identifier] == o,
                None => !old(self).operator_map().contains_key(*token_identifier),
            },
        ensures
            final(self).indexes_wf(),
            final(self).operator_map() == match new_operator {
                Some(n) => old(self).operator_map().insert(*token_identifier, n),
                None => old(self).operator_map().remove(*token_identifier),
            },
            final(self).token_map() == old(self).token_map(),
            final(self).owner_map() == old(self).owner_map(),
            final(self).tx() == old(self).tx(),
            final(self).meta() == old(self).meta(),
    {
        refile(&mut self.operators, *token_identifier, old_operator, new_operator);
    }

    /// Records on `token_identifier` that `approved_by` made `new_operator`
    /// its operator at `now`; the indexes are left as they are.
    pub fn approve(
        &mut self,
        approved_by: Principal,
        token_identifier: &TokenIdentifier,
        new_operator: Option<Principal>,
        now: u64,
    )
        requires
            old(self).token_map().contains_key(*token_identifier),
        ensures
            final(self).token_map() == old(self).token_map().insert(
                *token_identifier,
                approved_record(old(self).token_map()[*token_identifier], approved_by, new_operator, now),
            ),
            final(self).owner_map() == old(self).owner_map(),
            final(self).operator_map() == old(self).operator_map(),
            old(self).indexes_wf() ==> final(self).indexes_wf(),
            final(self).tx() == old(self).tx(),
            final(self).meta() == old(self).meta(),
    {
        let ghost before = self.tokens@;
        match self.tokens.remove(token_identifier) {
            Some(mut md) => {
                md.operator = new_operator;
                md.approved_by = Some(approved_by);
                md.approved_at = Some(now);
                self.tokens.insert(*token_identifier, md);
                assert(self.tokens@ =~= before.insert(*token_identifier, md));
                assert(self.tokens@.dom() =~= before.dom());
            },
            None => {},
        }
    }

    /// Records on `token_identifier` that `transferred_by` gave it to
    /// `new_owner` at `now`, clearing its operator; the indexes are left as
    /// they are.
    pub fn transfer(
        &mut self,
        transferred_by: Principal,
        token_identifier: &TokenIdentifier,
        new_owner: Option<Principal>,
        now: u64,
    )
        requires
            old(self).token_map().contains_key(*token_identifier),
        ensures
            final(self).token_map() == old(self).token_map().insert(
                *token_identifier,
                transferred_record(old(self).token_map()[*token_identifier], transferred_by, new_owner, now),
            ),
            final(self).owner_map() == old(self).owner_map(),
            final(self).operator_map() == old(self).operator_map(),
            old(self).indexes_wf() ==> final(self).indexes_wf(),
            final(self).tx() == old(self).tx(),
            final(self).meta() == old(self).meta(),
    {
        let ghost before = self.tokens@;
        match self.tokens.remove(token_identifier) {
            Some(mut md) => {
                md.owner = new_owner;
                md.transferred_by = Some(transferred_by);
                md.transferred_at = Some(now);
                md.operator = None;
                self.tokens.insert(*token_identifier, md);
                assert(self.tokens@ =~= before.insert(*token_identifier, md));
                assert(self.tokens@.dom() =~= before.dom());
            },
            None => {},
        }
    }

    /// Records on `token_identifier` that `burned_by` burned it at `now`,
    /// clearing its owner and operator; the indexes are left as they are.
    pub fn burn(&mut self, burned_by: Principal, token_identifier: &TokenIdentifier, now: u64)
        requires
            old(self).token_map().contains_key(*token_identifier),
        ensures
            final(self).token_map() == old(self).token_map().insert(
                *token_identifier,
                burned_record(old(self).token_map()[*token_identifier], burned_by, now),
            ),
            final(self).owner_map() == old(self).owner_map(),
            final(self).operator_map() == old(self).operator_map(),
            old(self).indexes_wf() ==> final(self).indexes_wf(),
            final(self).tx() == old(self).tx(),
            final(self).meta() == old(self).meta(),
    {
        let ghost before = self.tokens@;
        match self.tokens.remove(token_identifier) {
            Some(mut md) => {
                md.owner = None;
                md.operator = None;
                md.is_burned = true;
                md.burned_by = Some(burned_by);
                md.burned_at = Some(now);
                self.tokens.insert(*token_identifier, md);
                assert(self.tokens@ =~= before.insert(*token_identifier, md));
                assert(self.tokens@.dom() =~= before.dom());
            },
            None => {},
        }
    }

    /// The number of completed mutating operations.
    pub fn tx_count(&self) -> (r: u64)
        ensures
            r == self.tx(),
    {
        self.tx_count
    }

    /// Advances the transaction counter and returns its new value.
    pub fn inc_tx(&mut self) -> (r: u64)
        requires
            old(self).tx() < u64::MAX,
        ensures
            final(self).tx() == old(self).tx() + 1,
            r == final(self).tx(),
            final(self).token_map() == old(self).token_map(),
            final(self).owner_map() == old(self).owner_map(),
            final(self).operator_map() == old(self).operator_map(),
            old(self).indexes_wf() ==> final(self).indexes_wf(),
            final(self).meta() == old(self).meta(),
    {
        self.tx_count = self.tx_count + 1;
        self.tx_count
    }

    /// Sets up the collection metadata: `default_custodian` and the given
    /// custodians are added, the given names replace the current ones, and
    /// both timestamps become `now`.
    pub fn init_metadata(&mut self, default_custodian: Principal, args: Option<InitArgs>, now: u64)
        ensures
            final(self).token_map() == old(self).token_map(),
            final(self).owner_map() == old(self).owner_map(),
            final(self).operator_map() == old(self).operator_map(),
            old(self).indexes_wf() ==> final(self).indexes_wf(),
            final(self).tx() == old(self).tx(),
            final(self).meta().created_at == now,
            final(self).meta().upgraded_at == now,
            final(self).meta().custodians@.to_set() == match args {
                Some(a) => match a.custodians {
                    Some(c) => old(self).meta().custodians@.to_set().insert(default_custodian).union(c@.to_set()),
                    None => old(self).meta().custodians@.to_set().insert(default_custodian),
                },
                None => old(self).meta().custodians@.to_set().insert(default_custodian),
            },
            old(self).meta().custodians@.no_duplicates() ==> final(self).meta().custodians@.no_duplicates(),
            match args {
                Some(a) => {
                    &&& final(self).meta().name == a.name
                    &&& final(self).meta().logo == a.logo
                    &&& final(self).meta().symbol == a.symbol
                },
                None => {
                    &&& final(self).meta().name == old(self).meta().name
                    &&& final(self).meta().logo == old(self).meta().logo
                    &&& final(self).meta().symbol == old(self).meta().symbol
                },
            },
    {
        let ghost args0 = args;
        add_custodian(&mut self.metadata.custodians, default_custodian);
        match args {
            Some(a) => {
                self.metadata.name = a.name;
                self.metadata.logo = a.logo;
                self.metadata.symbol = a.symbol;
                match a.custodians {
                    Some(c) => {
                        let ghost start = self.metadata.custodians@.to_set();
                        let mut i: usize = 0;
                        while i < c.len()
                            invariant
                                i <= c@.len(),
                                self.metadata.custodians@.to_set() == start.union(c@.subrange(0, i as int).to_set()),
                                old(self).meta().custodians@.no_duplicates() ==> self.metadata.custodians@.no_duplicates(),
                                self.metadata.name == args0->Some_0.name,
                                self.metadata.logo == args0->Some_0.logo,
                                self.metadata.symbol == args0->Some_0.symbol,
                                self.tokens == old(self).tokens,
                                self.owners == old(self).owners,
                                self.operators == old(self).operators,
                                self.tx_count == old(self).tx_count,
                                self.order == old(self).order,
                            decreases c@.len() - i,
                        {
                            add_custodian(&mut self.metadata.custodians, c[i]);
                            assert(c@.subrange(0, i + 1) =~= c@.subrange(0, i as int).push(c@[i as int]));
                            proof {
                                lemma_push_to_set(c@.subrange(0, i as int), c@[i as int]);
                            }
                            i = i + 1;
                        }
                        assert(c@.subrange(0, c@.len() as int) =~= c@);
                    },
                    None => {},
                }
            },
            None => {},
        }
        self.metadata.created_at = now;
        self.metadata.upgraded_at = now;
    }
}

proof fn lemma_push_to_set<A>(s: Seq<A>, x: A)
    ensures
        s.push(x).to_set() == s.to_set().insert(x),
{
    assert forall|y: A| #[trigger] s.push(x).to_set().contains(y) == s.to_set().insert(x).contains(y) by {
        if s.push(x).contains(y) && y != x {
            let k = choose|k: int| 0 <= k < s.push(x).len() && s.push(x)[k] == y;
            assert(s[k] == y);
        }
        if s.contains(y) {
            let k = choose|k: int| 0 <= k < s.len() && s[k] == y;
            assert(s.push(x)[k] == y);
        }
        if y == x {
            assert(s.push(x)[s.len() as int] == y);
        }
    }
    assert(s.push(x).to_set() =~= s.to_set().insert(x));
}

/// Adds `p` to `custodians` unless it is there already.
fn add_custodian(custodians: &mut Vec<Principal>, p: Principal)
    ensures
        final(custodians)@.to_set() == old(custodians)@.to_set().insert(p),
        old(custodians)@.no_duplicates() ==> final(custodians)@.no_duplicates(),
{
    let mut i: usize = 0;
    while i < custodians.len()
        invariant
            i <= custodians@.len(),
            forall|j: int| 0 <= j < i ==> custodians@[j] != p,
        decreases custodians@.len() - i,
    {
        if custodians[i] == p {
            assert(custodians@.to_set().insert(p) =~= custodians@.to_set());
            return;
        }
        i = i + 1;
    }
    custodians.push(p);
    proof {
        lemma_push_to_set(old(custodians)@, p);
    }
}

/// Ownership invariant: in a well-formed ledger the owner index lists a
/// principal exactly when it owns some token, and then files under it exactly
/// the tokens whose record names it as owner; likewise for operators.
pub proof fn lemma_indexes_inverse(l: Ledger, p: Principal)
    requires
        l.wf(),
    ensures
        l.owner_index().contains_key(p) <==> exists|t: TokenIdentifier|
            l.token_map().contains_key(t) && l.token_map()[t].owner == Some(p),
        l.owner_index().contains_key(p) ==> l.owner_index()[p] == Set::new(
            |t: TokenIdentifier| l.token_map().contains_key(t) && l.token_map()[t].owner == Some(p),
        ),
        l.operator_index().contains_key(p) <==> exists|t: TokenIdentifier|
            l.token_map().contains_key(t) && l.token_map()[t].operator == Some(p),
        l.operator_index().contains_key(p) ==> l.operator_index()[p] == Set::new(
            |t: TokenIdentifier| l.token_map().contains_key(t) && l.token_map()[t].operator == Some(p),
        ),
{
    let m = l.token_map();
    let om = l.owner_map();
    let pm = l.operator_map();
    if l.owner_index().contains_key(p) {
        let t = choose|t: TokenIdentifier| om.contains_key(t) && om[t] == p;
        assert(m.contains_key(t) && m[t].owner == Some(p));
        assert(l.owner_index()[p] =~= Set::new(
            |t: TokenIdentifier| m.contains_key(t) && m[t].owner == Some(p),
        ));
    }
    if exists|t: TokenIdentifier| m.contains_key(t) && m[t].owner == Some(p) {
        let t = choose|t: TokenIdentifier| m.contains_key(t) && m[t].owner == Some(p);
        assert(om.contains_key(t) && om[t] == p);
    }
    if l.operator_index().contains_key(p) {
        let t = choose|t: TokenIdentifier| pm.contains_key(t) && pm[t] == p;
        assert(m.contains_key(t) && m[t].operator == Some(p));
        assert(l.operator_index()[p] =~= Set::new(
            |t: TokenIdentifier| m.contains_key(t) && m[t].operator == Some(p),
        ));
    }
    if exists|t: TokenIdentifier| m.contains_key(t) && m[t].operator == Some(p) {
        let t = choose|t: TokenIdentifier| m.contains_key(t) && m[t].operator == Some(p);
        assert(pm.contains_key(t) && pm[t] == p);
    }
}

/// The persisted form of a ledger: its metadata, its records in the order
/// they were added, its owner and operator index entries, and its
/// transaction counter. Restoring rebuilds the indexes from the records and
/// does not read the saved entries.
pub struct LedgerSnapshot {
    pub metadata: MetaData,
    pub tokens: Vec<TokenMetaData>,
    pub owners: Vec<IndexEntry>,
    pub operators: Vec<IndexEntry>,
    pub tx_count: u64,
}

/// Why a snapshot cannot be restored.
#[derive(Clone, Copy, PartialEq, Eq, Structural, Debug)]
pub enum RestoreError {
    /// Two records share an identifier.
    DuplicateToken,
    /// A burned record still has an owner or an operator.
    BurnedTokenHeld,
    /// A custodian is listed twice.
    DuplicateCustodian,
}

/// The records of `s` by identifier.
pub open spec fn records_map(s: Seq<TokenMetaData>) -> Map<TokenIdentifier, TokenMetaData>
    decreases s.len(),
{
    if s.len() == 0 {
        Map::empty()
    } else {
        records_map(s.drop_last()).insert(s.last().token_identifier, s.last())
    }
}

/// No two records share an identifier.
pub open spec fn records_distinct(s: Seq<TokenMetaData>) -> bool {
    forall|i: int, j: int| 0 <= i < j < s.len() ==> s[i].token_identifier != s[j].token_identifier
}

/// No burned record has an owner or an operator.
pub open spec fn records_burned_clear(s: Seq<TokenMetaData>) -> bool {
    forall|i: int| 0 <= i < s.len() && (#[trigger] s[i]).is_burned ==> s[i].owner is None && s[i].operator is None
}

/// Whether the records can make up a ledger: no identifier twice, and no
/// burned record with an owner or an operator.
pub open spec fn restorable(s: Seq<TokenMetaData>) -> bool {
    &&& records_distinct(s)
    &&& records_burned_clear(s)
}

proof fn lemma_records_map_keys(s: Seq<TokenMetaData>, t: TokenIdentifier)
    ensures
        records_map(s).contains_key(t) <==> exists|j: int| 0 <= j < s.len() && s[j].token_identifier == t,
        records_map(s).contains_key(t) && restorable(s) ==> exists|j: int| 0 <= j < s.len() && s[j].token_identifier == t && records_map(s)[t] == s[j],
    decreases s.len(),
{
    if s.len() > 0 {
        let p = s.drop_last();
        lemma_records_map_keys(p, t);
        if exists|j: int| 0 <= j < p.len() && p[j].token_identifier == t {
            let j = choose|j: int| 0 <= j < p.len() && p[j].token_identifier == t;
            assert(s[j] == p[j]);
        }
        if exists|j: int| 0 <= j < s.len() && s[j].token_identifier == t {
            let j = choose|j: int| 0 <= j < s.len() && s[j].token_identifier == t;
            if j < p.len() {
                assert(p[j] == s[j]);
            }
        }
        if records_map(s).contains_key(t) && restorable(s) {
            if t == s.last().token_identifier {
                assert(s[s.len() - 1] == s.last());
            } else {
                assert(restorable(p));
                let j = choose|j: int| 0 <= j < p.len() && p[j].token_identifier == t && records_map(p)[t] == p[j];
                assert(s[j] == p[j]);
            }
        }
    }
}

impl Ledger {
    /// Takes the ledger apart into its persisted form.
    pub fn snapshot(self) -> (r: LedgerSnapshot)
        requires
            self.wf(),
        ensures
            r.metadata == self.meta(),
            r.tx_count == self.tx(),
            restorable(r.tokens@),
            records_map(r.tokens@) == self.token_map(),
            r.metadata.custodians@.no_duplicates(),
            entries_unique(r.owners@),
            entries_unique(r.operators@),
            index_map(r.owners@) == owners_of(self.token_map()),
            index_map(r.operators@) == operators_of(self.token_map()),
    {
        let ghost m0 = self.tokens@;
        let Ledger { metadata, tokens, owners, operators, tx_count, order } = self;
        let mut tokens = tokens;
        let mut records: Vec<TokenMetaData> = Vec::new();
        let mut i: usize = 0;
        while i < order.len()
            invariant
                i <= order@.len(),
                order@.no_duplicates(),
                forall|t: TokenIdentifier| #[trigger] m0.contains_key(t) <==> order@.contains(t),
                keys_match(m0),
                burned_cleared(m0),
                records@.len() == i,
                forall|j: int| 0 <= j < i ==> #[trigger] records@[j] == m0[order@[j]],
                forall|t: TokenIdentifier| #[trigger] tokens@.contains_key(t) <==> (m0.contains_key(t) && !order@.subrange(0, i as int).contains(t)),
                forall|t: TokenIdentifier| #[trigger] tokens@.contains_key(t) ==> tokens@[t] == m0[t],
                records_map(records@) == m0.restrict(order@.subrange(0, i as int).to_set()),
            decreases order@.len() - i,
        {
            let t = order[i];
            assert(order@.contains(t));
            assert(!order@.subrange(0, i as int).contains(t)) by {
                if order@.subrange(0, i as int).contains(t) {
                    let k = choose|k: int| 0 <= k < i && order@.subrange(0, i as int)[k] == t;
                    assert(order@[k] == order@[i as int]);
                }
            }
            let ghost prev = order@.subrange(0, i as int);
            let ghost cur = order@.subrange(0, i + 1);
            assert(cur =~= prev.push(t));
            assert(tokens@.contains_key(t));
            let ghost old_records = records@;
            match tokens.remove(&t) {
                Some(md) => {
                    records.push(md);
                },
                None => {},
            }
            assert(records@.drop_last() == old_records);
            assert(records@.last() == m0[t]);
            assert(records@.last().token_identifier == t);
            assert(records_map(records@) == records_map(old_records).insert(t, m0[t]));
            assert(records_map(records@) =~= m0.restrict(cur.to_set())) by {
                assert forall|u: TokenIdentifier| cur.to_set().contains(u) <==> (prev.to_set().contains(u) || u == t) by {
                    if cur.contains(u) {
                        let k = choose|k: int| 0 <= k < cur.len() && cur[k] == u;
                        if k < prev.len() {
                            assert(prev[k] == u);
                        }
                    }
                    if prev.contains(u) {
                        let k = choose|k: int| 0 <= k < prev.len() && prev[k] == u;
                        assert(cur[k] == u);
                    }
                    if u == t {
                        assert(cur[i as int] == u);
                    }
                }
            }
            i = i + 1;
            assert forall|t2: TokenIdentifier| #[trigger] tokens@.contains_key(t2) <==> (m0.contains_key(t2) && !order@.subrange(0, i as int).contains(t2)) by {
                if cur.contains(t2) && t2 != t {
                    let k = choose|k: int| 0 <= k < cur.len() && cur[k] == t2;
                    assert(prev[k] == t2);
                }
                if prev.contains(t2) {
                    let k = choose|k: int| 0 <= k < prev.len() && prev[k] == t2;
                    assert(cur[k] == t2);
                }
                if t2 == t {
                    assert(cur[cur.len() - 1] == t2);
                }
            }
        }
        proof {
            let all = order@.subrange(0, order@.len() as int);
            assert(all =~= order@);
            assert(m0.restrict(all.to_set()) =~= m0);
            assert forall|a: int, b: int| 0 <= a < b < records@.len() implies records@[a].token_identifier != records@[b].token_identifier by {
                assert(records@[a] == m0[order@[a]]);
                assert(records@[b] == m0[order@[b]]);
                assert(order@.contains(order@[a]));
                assert(order@.contains(order@[b]));
                assert(m0.contains_key(order@[a]));
                assert(m0.contains_key(order@[b]));
                assert(order@[a] != order@[b]);
            }
            assert forall|a: int| 0 <= a < records@.len() && (#[trigger] records@[a]).is_burned implies records@[a].owner is None && records@[a].operator is None by {
                assert(records@[a] == m0[order@[a]]);
                assert(order@.contains(order@[a]));
                assert(m0.contains_key(order@[a]));
            }
        }
        LedgerSnapshot { metadata, tokens: records, owners, operators, tx_count }
    }

    /// Rebuilds a ledger, indexes included, from its persisted form; the
    /// time of the upgrade becomes `now`.
    pub fn restore(snapshot: LedgerSnapshot, now: u64) -> (r: Result<Ledger, RestoreError>)
        ensures
            r is Ok <==> restorable(snapshot.tokens@) && snapshot.metadata.custodians@.no_duplicates(),
            r == Err::<Ledger, RestoreError>(RestoreError::DuplicateToken) <==> !records_distinct(snapshot.tokens@),
            r == Err::<Ledger, RestoreError>(RestoreError::BurnedTokenHeld) <==> records_distinct(snapshot.tokens@)
                && !records_burned_clear(snapshot.tokens@),
            r == Err::<Ledger, RestoreError>(RestoreError::DuplicateCustodian) <==> restorable(snapshot.tokens@)
                && !snapshot.metadata.custodians@.no_duplicates(),
            match r {
                Ok(l) => {
                    &&& l.wf()
                    &&& l.token_map() == records_map(snapshot.tokens@)
                    &&& l.tx() == snapshot.tx_count
                    &&& l.meta() == (MetaData { upgraded_at: now, ..snapshot.metadata })
                },
                Err(_) => true,
            },
    {
        let LedgerSnapshot { metadata, tokens, owners: _, operators: _, tx_count } = snapshot;
        let ghost all = tokens@;
        let n = tokens.len();
        let mut i: usize = 0;
        while i < n
            invariant
                n == all.len(),
                all == tokens@,
                all == snapshot.tokens@,
                metadata == snapshot.metadata,
                i <= n,
                forall|a: int, b: int| 0 <= a < b < i ==> all[a].token_identifier != all[b].token_identifier,
            decreases n - i,
        {
            let mut j: usize = 0;
            while j < i
                invariant
                    n == all.len(),
                    all == tokens@,
                    all == snapshot.tokens@,
                    metadata == snapshot.metadata,
                    j <= i < n,
                    forall|a: int| 0 <= a < j ==> all[a].token_identifier != all[i as int].token_identifier,
                decreases i - j,
            {
                if tokens[j].token_identifier == tokens[i].token_identifier {
                    assert(!records_distinct(all)) by {
                        assert(all[j as int].token_identifier == all[i as int].token_identifier);
                    }
                    return Err(RestoreError::DuplicateToken);
                }
                j = j + 1;
            }
            i = i + 1;
        }
        let mut i: usize = 0;
        while i < n
            invariant
                n == all.len(),
                all == tokens@,
                all == snapshot.tokens@,
                metadata == snapshot.metadata,
                i <= n,
                records_distinct(all),
                forall|a: int| 0 <= a < i && (#[trigger] all[a]).is_burned ==> all[a].owner is None && all[a].operator is None,
            decreases n - i,
        {
            if tokens[i].is_burned && (tokens[i].owner.is_some() || tokens[i].operator.is_some()) {
                assert(!records_burned_clear(all)) by {
                    assert(all[i as int].is_burned);
                }
                return Err(RestoreError::BurnedTokenHeld);
            }
            i = i + 1;
        }
        let c = metadata.custodians.len();
        let mut i: usize = 0;
        while i < c
            invariant
                c == metadata.custodians@.len(),
                i <= c,
                restorable(all),
                all == snapshot.tokens@,
                metadata == snapshot.metadata,
                forall|a: int, b: int| 0 <= a < b < i ==> metadata.custodians@[a] != metadata.custodians@[b],
            decreases c - i,
        {
            let mut j: usize = 0;
            while j < i
                invariant
                    c == metadata.custodians@.len(),
                    j <= i < c,
                    restorable(all),
                    all == snapshot.tokens@,
                    metadata == snapshot.metadata,
                    forall|a: int| 0 <= a < j ==> metadata.custodians@[a] != metadata.custodians@[i as int],
                decreases i - j,
            {
                if metadata.custodians[j] == metadata.custodians[i] {
                    assert(!metadata.custodians@.no_duplicates()) by {
                        assert(metadata.custodians@[j as int] == metadata.custodians@[i as int]);
                    }
                    return Err(RestoreError::DuplicateCustodian);
                }
                j = j + 1;
            }
            i = i + 1;
        }
        let mut rest = tokens;
        let mut l = Ledger::new();
        let mut i: usize = 0;
        while rest.len() > 0
            invariant
                i + rest@.len() == all.len(),
                all.len() == n,
                all == snapshot.tokens@,
                rest@ == all.subrange(i as int, all.len() as int),
                l.wf(),
                l.tx() == 0,
                l.token_map() == records_map(all.subrange(0, i as int)),
                restorable(all.subrange(0, i as int)),
                restorable(all),
                all == snapshot.tokens@,
                metadata == snapshot.metadata,
                metadata.custodians@.no_duplicates(),
            decreases rest@.len(),
        {
            let ghost pre = all.subrange(0, i as int);
            let md = rest.remove(0);
            assert(md == all[i as int]);
            let id = md.token_identifier;
            let owner = md.owner;
            let operator = md.operator;
            if l.is_token_existed(&id) {
                proof {
                    lemma_records_map_keys(pre, id);
                    let j = choose|j: int| 0 <= j < pre.len() && pre[j].token_identifier == id;
                    assert(pre[j] == all[j]);
                    assert(j < i);
                    assert(all[j].token_identifier == all[i as int].token_identifier);
                    assert(!restorable(all));
                }
                return Err(RestoreError::DuplicateToken);
            }
            if md.is_burned && (owner.is_some() || operator.is_some()) {
                assert(!restorable(all)) by {
                    assert(all[i as int].is_burned);
                }
                return Err(RestoreError::BurnedTokenHeld);
            }
            let ghost before = l.token_map();
            l.add_token_metadata(id, md);
            l.update_owner_cache(&id, None, owner);
            l.update_operator_cache(&id, None, operator);
            assert(owners_of(l.token_map()) =~= match owner {
                Some(o) => owners_of(before).insert(id, o),
                None => owners_of(before).remove(id),
            });
            assert(operators_of(l.token_map()) =~= match operator {
                Some(o) => operators_of(before).insert(id, o),
                None => operators_of(before).remove(id),
            });
            let ghost next = all.subrange(0, i + 1);
            assert(next.drop_last() =~= pre);
            assert(next.last() == md);
            proof {
                lemma_records_map_keys(pre, id);
                assert forall|a: int, b: int| 0 <= a < b < next.len() implies next[a].token_identifier != next[b].token_identifier by {
                    if b < pre.len() {
                        assert(pre[a] == next[a] && pre[b] == next[b]);
                    } else {
                        assert(pre[a] == next[a]);
                    }
                }
                assert forall|a: int| 0 <= a < next.len() && (#[trigger] next[a]).is_burned implies next[a].owner is None && next[a].operator is None by {
                    if a < pre.len() {
                        assert(pre[a] == next[a]);
                    }
                }
            }
            i = i + 1;
            assert(rest@ =~= all.subrange(i as int, all.len() as int));
        }
        assert(all.subrange(0, i as int) =~= all);
        l.tx_count = tx_count;
        l.metadata = MetaData { upgraded_at: now, ..metadata };
        Ok(l)
    }
}

/// Snapshot then restore gives back the ledger, indexes included, except
/// that the time of the upgrade is the restore's: `s` is what `snapshot`
/// returns for `l`, and `restored` what `restore` returns for `s` (which
/// succeeds, `s` being restorable).
pub proof fn lemma_snapshot_restore(l: Ledger, s: LedgerSnapshot, restored: Ledger, now: u64)
    requires
        l.wf(),
        s.metadata == l.meta(),
        s.tx_count == l.tx(),
        restorable(s.tokens@),
        records_map(s.tokens@) == l.token_map(),
        restored.wf(),
        restored.token_map() == records_map(s.tokens@),
        restored.tx() == s.tx_count,
        restored.meta() == (MetaData { upgraded_at: now, ..s.metadata }),
    ensures
        restored.token_map() == l.token_map(),
        restored.owner_map() == l.owner_map(),
        restored.operator_map() == l.operator_map(),
        restored.owner_index() == l.owner_index(),
        restored.operator_index() == l.operator_index(),
        restored.tx() == l.tx(),
        restored.meta() == (MetaData { upgraded_at: now, ..l.meta() }),
{
}

} // verus!
