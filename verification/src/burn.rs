//! Burn directives: what a transaction must destroy.
//!
//! Nothing is burned that was not named here explicitly. The directive
//! holds sets of account, NFT, and foundry identifiers, and a mapping from
//! token identifier to amount, ordered by token identifier. Policy follows
//! membership alone, never the order in which things were added. The wire
//! form keeps "absent" distinct from "empty set".

use vstd::prelude::*;
use crate::ids::{AccountId, FoundryId, NativeToken, NftId, TokenAmount, TokenId};

verus! {

broadcast use vstd::seq_lib::lemma_seq_contains_after_push;

/// No identifier occurs twice.
pub open spec fn account_ids_unique(s: Seq<AccountId>) -> bool {
    forall|i: int, j: int| 0 <= i < j < s.len() ==> s[i] != s[j]
}

/// No identifier occurs twice.
pub open spec fn nft_ids_unique(s: Seq<NftId>) -> bool {
    forall|i: int, j: int| 0 <= i < j < s.len() ==> s[i] != s[j]
}

/// No identifier occurs twice.
pub open spec fn foundry_ids_unique(s: Seq<FoundryId>) -> bool {
    forall|i: int, j: int| 0 <= i < j < s.len() ==> s[i] != s[j]
}

/// The token entries are sorted strictly by token identifier, which also
/// makes the identifiers unique.
pub open spec fn tokens_sorted(s: Seq<NativeToken>) -> bool {
    forall|i: int, j: int| 0 <= i < j < s.len() ==> s[i].token_id.id < s[j].token_id.id
}

/// Whether an amount is recorded for this token.
pub open spec fn has_token(s: Seq<NativeToken>, token_id: TokenId) -> bool {
    exists|i: int| 0 <= i < s.len() && s[i].token_id == token_id
}

/// The position of this token's entry.
pub open spec fn token_index(s: Seq<NativeToken>, token_id: TokenId) -> int {
    choose|i: int| 0 <= i < s.len() && s[i].token_id == token_id
}

/// The amount recorded for this token.
pub open spec fn token_amount_at(s: Seq<NativeToken>, token_id: TokenId) -> TokenAmount {
    s[token_index(s, token_id)].amount
}

/// What a transaction must destroy.
#[derive(Clone, PartialEq, Eq, Debug)]
pub struct Burn {
    /// Accounts to burn.
    pub accounts: Vec<AccountId>,
    /// NFTs to burn.
    pub nfts: Vec<NftId>,
    /// Foundries to burn.
    pub foundries: Vec<FoundryId>,
    /// Amounts of native tokens to burn, ordered by token identifier.
    pub native_tokens: Vec<NativeToken>,
}

/// The wire form of a burn directive: each part that was never set is
/// absent, which is distinct from present-but-empty.
#[derive(Clone, PartialEq, Eq, Debug)]
pub struct BurnDto {
    pub accounts: Option<Vec<AccountId>>,
    pub nfts: Option<Vec<NftId>>,
    pub foundries: Option<Vec<FoundryId>>,
    pub native_tokens: Option<Vec<NativeToken>>,
}

impl Burn {
    /// Each set holds no identifier twice, and the token mapping is
    /// ordered by identifier.
    pub open spec fn wf(self) -> bool {
        &&& account_ids_unique(self.accounts@)
        &&& nft_ids_unique(self.nfts@)
        &&& foundry_ids_unique(self.foundries@)
        &&& tokens_sorted(self.native_tokens@)
    }

    /// A directive that burns nothing.
    pub fn new() -> (r: Burn)
        ensures
            r.wf(),
            r.accounts@.len() == 0,
            r.nfts@.len() == 0,
            r.foundries@.len() == 0,
            r.native_tokens@.len() == 0,
    {
        Burn { accounts: Vec::new(), nfts: Vec::new(), foundries: Vec::new(), native_tokens: Vec::new() }
    }

    /// Adds an account to burn.
    pub fn add_account(self, account_id: AccountId) -> (r: Burn)
        requires
            self.wf(),
        ensures
            r.wf(),
            forall|x: AccountId|
                #[trigger] r.accounts@.contains(x) == (self.accounts@.contains(x) || x
                    == account_id),
            r.nfts@ == self.nfts@,
            r.foundries@ == self.foundries@,
            r.native_tokens@ == self.native_tokens@,
    {
        let mut burn = self;
        let mut i: usize = 0;
        while i < burn.accounts.len()
            invariant
                0 <= i <= burn.accounts@.len(),
                self.wf(),
                forall|k: int| 0 <= k < i ==> burn.accounts@[k] != account_id,
                burn == self,
            decreases burn.accounts@.len() - i,
        {
            if burn.accounts[i] == account_id {
                proof {
                    assert(self.accounts@[i as int] == account_id);
                    assert(self.accounts@.contains(account_id));
                }
                return burn;
            }
            i = i + 1;
        }
        burn.accounts.push(account_id);
        burn
    }

    /// Replaces the accounts to burn. The caller's set holds each
    /// identifier once.
    pub fn set_accounts(self, accounts: Vec<AccountId>) -> (r: Burn)
        requires
            account_ids_unique(accounts@),
        ensures
            r == (Burn { accounts, ..self }),
    {
        Burn { accounts, ..self }
    }

    /// The accounts to burn.
    pub fn accounts(&self) -> (r: &Vec<AccountId>)
        ensures
            r@ == self.accounts@,
    {
        &self.accounts
    }

    /// Adds an NFT to burn.
    pub fn add_nft(self, nft_id: NftId) -> (r: Burn)
        requires
            self.wf(),
        ensures
            r.wf(),
            forall|x: NftId|
                #[trigger] r.nfts@.contains(x) == (self.nfts@.contains(x) || x == nft_id),
            r.accounts@ == self.accounts@,
            r.foundries@ == self.foundries@,
            r.native_tokens@ == self.native_tokens@,
    {
        let mut burn = self;
        let mut i: usize = 0;
        while i < burn.nfts.len()
            invariant
                0 <= i <= burn.nfts@.len(),
                self.wf(),
                forall|k: int| 0 <= k < i ==> burn.nfts@[k] != nft_id,
                burn == self,
            decreases burn.nfts@.len() - i,
        {
            if burn.nfts[i] == nft_id {
                proof {
                    assert(self.nfts@[i as int] == nft_id);
                    assert(self.nfts@.contains(nft_id));
                }
                return burn;
            }
            i = i + 1;
        }
        burn.nfts.push(nft_id);
        burn
    }

    /// Replaces the NFTs to burn. The caller's set holds each identifier
    /// once.
    pub fn set_nfts(self, nfts: Vec<NftId>) -> (r: Burn)
        requires
            nft_ids_unique(nfts@),
        ensures
            r == (Burn { nfts, ..self }),
    {
        Burn { nfts, ..self }
    }

    /// The NFTs to burn.
    pub fn nfts(&self) -> (r: &Vec<NftId>)
        ensures
            r@ == self.nfts@,
    {
        &self.nfts
    }

    /// Adds a foundry to burn.
    pub fn add_foundry(self, foundry_id: FoundryId) -> (r: Burn)
        requires
            self.wf(),
        ensures
            r.wf(),
            forall|x: FoundryId|
                #[trigger] r.foundries@.contains(x) == (self.foundries@.contains(x) || x
                    == foundry_id),
            r.accounts@ == self.accounts@,
            r.nfts@ == self.nfts@,
            r.native_tokens@ == self.native_tokens@,
    {
        let mut burn = self;
        let mut i: usize = 0;
        while i < burn.foundries.len()
            invariant
                0 <= i <= burn.foundries@.len(),
                self.wf(),
                forall|k: int| 0 <= k < i ==> burn.foundries@[k] != foundry_id,
                burn == self,
            decreases burn.foundries@.len() - i,
        {
            if burn.foundries[i] == foundry_id {
                proof {
                    assert(self.foundries@[i as int] == foundry_id);
                    assert(self.foundries@.contains(foundry_id));
                }
                return burn;
            }
            i = i + 1;
        }
        burn.foundries.push(foundry_id);
        burn
    }

    /// Replaces the foundries to burn. The caller's set holds each
    /// identifier once.
    pub fn set_foundries(self, foundries: Vec<FoundryId>) -> (r: Burn)
        requires
            foundry_ids_unique(foundries@),
        ensures
            r == (Burn { foundries, ..self }),
    {
        Burn { foundries, ..self }
    }

    /// The foundries to burn.
    pub fn foundries(&self) -> (r: &Vec<FoundryId>)
        ensures
            r@ == self.foundries@,
    {
        &self.foundries
    }

    /// Records an amount of a native token to burn, replacing any amount
    /// recorded for the same token.
    pub fn add_native_token(self, token_id: TokenId, amount: TokenAmount) -> (r: Burn)
        requires
            self.wf(),
        ensures
            r.wf(),
            has_token(r.native_tokens@, token_id),
            token_amount_at(r.native_tokens@, token_id) == amount,
            forall|t: TokenId|
                t != token_id ==> #[trigger] has_token(r.native_tokens@, t) == has_token(
                    self.native_tokens@,
                    t,
                ),
            forall|t: TokenId|
                t != token_id && has_token(self.native_tokens@, t) ==> #[trigger] token_amount_at(
                    r.native_tokens@,
                    t,
                ) == token_amount_at(self.native_tokens@, t),
            r.accounts@ == self.accounts@,
            r.nfts@ == self.nfts@,
            r.foundries@ == self.foundries@,
    {
        let mut burn = self;
        let ghost pre = burn.native_tokens@;
        let mut i: usize = 0;
        while i < burn.native_tokens.len()
            invariant
                0 <= i <= burn.native_tokens@.len(),
                self.wf(),
                burn.accounts == self.accounts,
                burn.nfts == self.nfts,
                burn.foundries == self.foundries,
                burn.native_tokens@ == pre,
                pre == self.native_tokens@,
                tokens_sorted(pre),
                forall|k: int| 0 <= k < i ==> pre[k].token_id.id < token_id.id,
            decreases burn.native_tokens@.len() - i,
        {
            let entry = burn.native_tokens[i];
            if entry.token_id.id == token_id.id {
                proof {
                    assert(entry.token_id == token_id);
                }
                burn.native_tokens.set(i, NativeToken { token_id, amount });
                proof {
                    lemma_token_entry(pre, token_id, i as int);
                    lemma_token_entry(burn.native_tokens@, token_id, i as int);
                    assert forall|t: TokenId| t != token_id implies #[trigger] has_token(
                        burn.native_tokens@,
                        t,
                    ) == has_token(pre, t) by {
                        if has_token(burn.native_tokens@, t) {
                            let j = choose|j: int|
                                0 <= j < burn.native_tokens@.len()
                                    && burn.native_tokens@[j].token_id == t;
                            assert(pre[j].token_id == t);
                        }
                        if has_token(pre, t) {
                            let j = choose|j: int| 0 <= j < pre.len() && pre[j].token_id == t;
                            assert(burn.native_tokens@[j].token_id == t);
                        }
                    }
                    assert forall|t: TokenId|
                        t != token_id && has_token(pre, t) implies #[trigger] token_amount_at(
                        burn.native_tokens@,
                        t,
                    ) == token_amount_at(pre, t) by {
                        let j = choose|j: int| 0 <= j < pre.len() && pre[j].token_id == t;
                        lemma_token_entry(pre, t, j);
                        lemma_token_entry(burn.native_tokens@, t, j);
                    }
                    assert(tokens_sorted(burn.native_tokens@)) by {
                        assert forall|a: int, b: int|
                            0 <= a < b < burn.native_tokens@.len()
                            implies burn.native_tokens@[a].token_id.id
                            < burn.native_tokens@[b].token_id.id by {
                            assert(pre[a].token_id.id < pre[b].token_id.id);
                        }
                    }
                }
                return burn;
            } else if entry.token_id.id > token_id.id {
                burn.native_tokens.insert(i, NativeToken { token_id, amount });
                proof {
                    pre.insert_ensures(i as int, NativeToken { token_id, amount });
                    lemma_token_entry(burn.native_tokens@, token_id, i as int);
                    assert forall|t: TokenId| t != token_id implies #[trigger] has_token(
                        burn.native_tokens@,
                        t,
                    ) == has_token(pre, t) by {
                        if has_token(burn.native_tokens@, t) {
                            let j = choose|j: int|
                                0 <= j < burn.native_tokens@.len()
                                    && burn.native_tokens@[j].token_id == t;
                            if j < i {
                                assert(pre[j].token_id == t);
                            } else {
                                assert(j != i);
                                assert(pre[j - 1].token_id == t);
                            }
                        }
                        if has_token(pre, t) {
                            let j = choose|j: int| 0 <= j < pre.len() && pre[j].token_id == t;
                            if j < i {
                                assert(burn.native_tokens@[j].token_id == t);
                            } else {
                                assert(burn.native_tokens@[j + 1].token_id == t);
                            }
                        }
                    }
                    assert forall|t: TokenId|
                        t != token_id && has_token(pre, t) implies #[trigger] token_amount_at(
                        burn.native_tokens@,
                        t,
                    ) == token_amount_at(pre, t) by {
                        let j = choose|j: int| 0 <= j < pre.len() && pre[j].token_id == t;
                        lemma_token_entry(pre, t, j);
                        if j < i {
                            lemma_token_entry(burn.native_tokens@, t, j);
                        } else {
                            assert(burn.native_tokens@[j + 1].token_id == t);
                            lemma_token_entry(burn.native_tokens@, t, j + 1);
                        }
                    }
                    assert(tokens_sorted(burn.native_tokens@)) by {
                        assert forall|a: int, b: int|
                            0 <= a < b < burn.native_tokens@.len() implies burn.native_tokens@[a].token_id.id
                            < burn.native_tokens@[b].token_id.id by {
                            if a < i && b < i {
                                assert(pre[a].token_id.id < pre[b].token_id.id);
                            } else if a < i && b == i {
                                assert(pre[a].token_id.id < token_id.id);
                            } else if a < i && b > i {
                                assert(pre[a].token_id.id < pre[b - 1].token_id.id || a == b - 1);
                                assert(pre[a].token_id.id < token_id.id);
                                assert(token_id.id < pre[i as int].token_id.id);
                                assert(i as int <= b - 1);
                                assert(pre[i as int].token_id.id <= pre[b - 1].token_id.id);
                            } else if a == i {
                                assert(token_id.id < pre[i as int].token_id.id);
                                assert(pre[i as int].token_id.id <= pre[b - 1].token_id.id);
                            } else {
                                assert(pre[a - 1].token_id.id < pre[b - 1].token_id.id);
                            }
                        }
                    }
                }
                return burn;
            }
            i = i + 1;
        }
        burn.native_tokens.push(NativeToken { token_id, amount });
        proof {
            lemma_token_entry(burn.native_tokens@, token_id, pre.len() as int);
            assert forall|t: TokenId| t != token_id implies #[trigger] has_token(
                burn.native_tokens@,
                t,
            ) == has_token(pre, t) by {
                if has_token(burn.native_tokens@, t) {
                    let j = choose|j: int|
                        0 <= j < burn.native_tokens@.len() && burn.native_tokens@[j].token_id == t;
                    assert(pre[j].token_id == t);
                }
                if has_token(pre, t) {
                    let j = choose|j: int| 0 <= j < pre.len() && pre[j].token_id == t;
                    assert(burn.native_tokens@[j].token_id == t);
                }
            }
            assert forall|t: TokenId|
                t != token_id && has_token(pre, t) implies #[trigger] token_amount_at(
                burn.native_tokens@,
                t,
            ) == token_amount_at(pre, t) by {
                let j = choose|j: int| 0 <= j < pre.len() && pre[j].token_id == t;
                lemma_token_entry(pre, t, j);
                lemma_token_entry(burn.native_tokens@, t, j);
            }
        }
        burn
    }

    /// Replaces the native tokens to burn. The caller's mapping holds each
    /// token once; the entries are reordered by token identifier.
    pub fn set_native_tokens(self, native_tokens: Vec<NativeToken>) -> (r: Burn)
        requires
            self.wf(),
            forall|i: int, j: int|
                0 <= i < j < native_tokens@.len() ==> native_tokens@[i].token_id
                    != native_tokens@[j].token_id,
        ensures
            r.wf(),
            forall|t: TokenId|
                #[trigger] has_token(r.native_tokens@, t) == has_token(native_tokens@, t),
            forall|k: int|
                0 <= k < native_tokens@.len() ==> token_amount_at(
                    r.native_tokens@,
                    #[trigger] native_tokens@[k].token_id,
                ) == native_tokens@[k].amount,
            r.accounts@ == self.accounts@,
            r.nfts@ == self.nfts@,
            r.foundries@ == self.foundries@,
    {
        let mut burn = Burn {
            accounts: self.accounts,
            nfts: self.nfts,
            foundries: self.foundries,
            native_tokens: Vec::new(),
        };
        let mut k: usize = 0;
        while k < native_tokens.len()
            invariant
                0 <= k <= native_tokens@.len(),
                burn.wf(),
                forall|i: int, j: int|
                    0 <= i < j < native_tokens@.len() ==> native_tokens@[i].token_id
                        != native_tokens@[j].token_id,
                forall|t: TokenId|
                    #[trigger] has_token(burn.native_tokens@, t) == has_token(
                        native_tokens@.take(k as int),
                        t,
                    ),
                forall|k2: int|
                    0 <= k2 < k ==> token_amount_at(
                        burn.native_tokens@,
                        #[trigger] native_tokens@[k2].token_id,
                    ) == native_tokens@[k2].amount,
                burn.accounts@ == self.accounts@,
                burn.nfts@ == self.nfts@,
                burn.foundries@ == self.foundries@,
            decreases native_tokens@.len() - k,
        {
            let entry = native_tokens[k];
            let ghost before = burn.native_tokens@;
            burn = burn.add_native_token(entry.token_id, entry.amount);
            proof {
                assert forall|t: TokenId| #[trigger] has_token(burn.native_tokens@, t)
                    == has_token(native_tokens@.take(k + 1), t) by {
                    lemma_has_token_take_step(native_tokens@, k as int, t);
                }
                assert forall|k2: int| 0 <= k2 < k + 1 implies token_amount_at(
                    burn.native_tokens@,
                    #[trigger] native_tokens@[k2].token_id,
                ) == native_tokens@[k2].amount by {
                    if k2 < k {
                        assert(native_tokens@[k2].token_id != native_tokens@[k as int].token_id);
                        assert(native_tokens@.take(k as int)[k2] == native_tokens@[k2]);
                        assert(has_token(
                            native_tokens@.take(k as int),
                            native_tokens@[k2].token_id,
                        ));
                        assert(has_token(before, native_tokens@[k2].token_id));
                    }
                }
            }
            k = k + 1;
        }
        proof {
            assert(native_tokens@.take(native_tokens@.len() as int) =~= native_tokens@);
        }
        burn
    }

    /// The native tokens to burn, ordered by token identifier.
    pub fn native_tokens(&self) -> (r: &Vec<NativeToken>)
        ensures
            r@ == self.native_tokens@,
    {
        &self.native_tokens
    }

    /// The wire form: each part that is empty travels as absent.
    pub fn to_dto(self) -> (r: BurnDto)
        ensures
            r.accounts == (if self.accounts@.len() == 0 {
                Option::<Vec<AccountId>>::None
            } else {
                Some(self.accounts)
            }),
            r.nfts == (if self.nfts@.len() == 0 {
                Option::<Vec<NftId>>::None
            } else {
                Some(self.nfts)
            }),
            r.foundries == (if self.foundries@.len() == 0 {
                Option::<Vec<FoundryId>>::None
            } else {
                Some(self.foundries)
            }),
            r.native_tokens == (if self.native_tokens@.len() == 0 {
                Option::<Vec<NativeToken>>::None
            } else {
                Some(self.native_tokens)
            }),
    {
        let Burn { accounts, nfts, foundries, native_tokens } = self;
        BurnDto {
            accounts: if accounts.len() == 0 {
                None
            } else {
                Some(accounts)
            },
            nfts: if nfts.len() == 0 {
                None
            } else {
                Some(nfts)
            },
            foundries: if foundries.len() == 0 {
                None
            } else {
                Some(foundries)
            },
            native_tokens: if native_tokens.len() == 0 {
                None
            } else {
                Some(native_tokens)
            },
        }
    }
}

impl BurnDto {
    /// Reads the wire form back: an absent part burns nothing.
    pub fn into_burn(self) -> (r: Burn)
        ensures
            r.accounts@ == (match self.accounts {
                Some(v) => v@,
                None => Seq::<AccountId>::empty(),
            }),
            r.nfts@ == (match self.nfts {
                Some(v) => v@,
                None => Seq::<NftId>::empty(),
            }),
            r.foundries@ == (match self.foundries {
                Some(v) => v@,
                None => Seq::<FoundryId>::empty(),
            }),
            r.native_tokens@ == (match self.native_tokens {
                Some(v) => v@,
                None => Seq::<NativeToken>::empty(),
            }),
    {
        let BurnDto { accounts, nfts, foundries, native_tokens } = self;
        Burn {
            accounts: match accounts {
                Some(v) => v,
                None => Vec::new(),
            },
            nfts: match nfts {
                Some(v) => v,
                None => Vec::new(),
            },
            foundries: match foundries {
                Some(v) => v,
                None => Vec::new(),
            },
            native_tokens: match native_tokens {
                Some(v) => v,
                None => Vec::new(),
            },
        }
    }
}

/// The position of this token's entry is whatever index exhibits it.
proof fn lemma_token_entry(s: Seq<NativeToken>, token_id: TokenId, i: int)
    requires
        tokens_sorted(s),
        0 <= i < s.len(),
        s[i].token_id == token_id,
    ensures
        has_token(s, token_id),
        token_index(s, token_id) == i,
        token_amount_at(s, token_id) == s[i].amount,
{
    assert(has_token(s, token_id));
    let j = token_index(s, token_id);
    assert(0 <= j < s.len() && s[j].token_id == token_id);
    if i < j {
        assert(s[i].token_id.id < s[j].token_id.id);
    } else if j < i {
        assert(s[j].token_id.id < s[i].token_id.id);
    }
}

/// Growing the prefix by one entry records exactly one more token.
proof fn lemma_has_token_take_step(s: Seq<NativeToken>, k: int, t: TokenId)
    requires
        0 <= k < s.len(),
    ensures
        has_token(s.take(k + 1), t) == (has_token(s.take(k), t) || s[k].token_id == t),
{
    let shorter = s.take(k);
    let longer = s.take(k + 1);
    assert(longer =~= shorter.push(s[k]));
    if has_token(longer, t) {
        let j = choose|j: int| 0 <= j < longer.len() && longer[j].token_id == t;
        if j < k {
            assert(shorter[j] == longer[j]);
            assert(has_token(shorter, t));
        } else {
            assert(longer[j] == s[k]);
        }
    }
    if has_token(shorter, t) {
        let j = choose|j: int| 0 <= j < shorter.len() && shorter[j].token_id == t;
        assert(longer[j] == shorter[j]);
        assert(has_token(longer, t));
    }
    if s[k].token_id == t {
        assert(longer[k] == s[k]);
        assert(has_token(longer, t));
    }
}

} // verus!
