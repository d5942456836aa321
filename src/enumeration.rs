use vstd::prelude::*;

use crate::assoc::{
    assoc_map, find_key, has_key, lemma_assoc_index, pairs_view, string_set,
};
use crate::contract::{index_pairs, Contract};
use crate::token::{copy_entries, TokenView};

verus! {

/// A token as it is shown to callers.
pub struct JsonToken {
    pub token_id: String,
    pub owner_id: String,
    pub metadata: String,
    pub approved_account_ids: Vec<(String, u64)>,
    pub royalty: Vec<(String, u32)>,
}

/// Whether `json` shows the token `token_id` with entry `token` and
/// `metadata`.
pub open spec fn shows(json: JsonToken, token_id: Seq<char>, token: TokenView, metadata: Seq<char>) -> bool {
    &&& json.token_id@ == token_id
    &&& json.owner_id@ == token.owner_id
    &&& json.metadata@ == metadata
    &&& assoc_map(pairs_view(json.approved_account_ids@)) == token.approvals
    &&& pairs_view(json.royalty@) == token.royalty
}

/// How many items a page that starts at `start` and holds at most `limit`
/// items takes from `len` items.
pub open spec fn page_len(len: int, start: int, limit: int) -> int {
    if start >= len {
        0
    } else if len - start < limit {
        len - start
    } else {
        limit
    }
}

impl Contract {
    /// The bucket of `owner`, in the order its tokens were put there.
    pub open spec fn owner_bucket(&self, owner: Seq<char>) -> Seq<String> {
        self.tokens_per_owner@[choose|i: int|
            0 <= i < self.tokens_per_owner@.len() && self.tokens_per_owner@[i].0@ == owner].1@
    }

    /// Whether `json` shows the token at position `i` of the ledger.
    pub open spec fn shows_entry(&self, json: JsonToken, i: int) -> bool {
        shows(
            json,
            self.tokens_by_id@[i].0@,
            self.tokens_by_id@[i].1@,
            self.token_metadata@[i]@,
        )
    }

    fn json_token(&self, i: usize) -> (r: JsonToken)
        requires
            self.wf(),
            i < self.tokens_by_id@.len(),
        ensures
            self.shows_entry(r, i as int),
    {
        let (id, token) = (&self.tokens_by_id[i].0, &self.tokens_by_id[i].1);
        JsonToken {
            token_id: id.clone(),
            owner_id: token.owner_id.clone(),
            metadata: self.token_metadata[i].clone(),
            approved_account_ids: copy_entries(&token.approved_account_ids),
            royalty: copy_entries(&token.royalty),
        }
    }

    /// The token `token_id`, if it is in the ledger.
    pub fn nft_token(&self, token_id: &String) -> (r: Option<JsonToken>)
        requires
            self.wf(),
        ensures
            r is None <==> !self.ledger().dom().contains(token_id@),
            r matches Some(json) ==> self.shows_entry(json, self.token_index(token_id@))
                && json.token_id@ == token_id@ && json.owner_id@ == self.ledger()[token_id@].owner_id,
    {
        match self.find_token(token_id) {
            None => None,
            Some(i) => Some(self.json_token(i)),
        }
    }

    /// Number of tokens in the ledger.
    pub fn nft_total_supply(&self) -> (r: u128)
        requires
            self.wf(),
        ensures
            r == self.ledger().dom().len(),
    {
        proof {
            self.lemma_ledger_len();
        }
        self.token_metadata.len() as u128
    }

    proof fn lemma_ledger_len(&self)
        requires
            self.wf(),
        ensures
            self.ledger().dom().len() == self.tokens_by_id@.len(),
            self.token_metadata@.len() == self.tokens_by_id@.len(),
    {
        let pairs = crate::contract::ledger_pairs(self.tokens_by_id@);
        let keys = pairs.map_values(|p: (Seq<char>, TokenView)| p.0);
        assert(keys.no_duplicates()) by {
            assert forall|a: int, b: int| 0 <= a < keys.len() && 0 <= b < keys.len() && a != b
                implies keys[a] != keys[b] by {
                if a < b {
                    assert(pairs[a].0 != pairs[b].0);
                } else {
                    assert(pairs[b].0 != pairs[a].0);
                }
            }
        }
        assert(self.ledger().dom() =~= keys.to_set()) by {
            assert forall|k: Seq<char>| #[trigger] self.ledger().dom().contains(k) == keys.to_set().contains(k) by {
                if keys.to_set().contains(k) {
                    let a = choose|a: int| 0 <= a < keys.len() && keys[a] == k;
                    assert(pairs[a].0 == k);
                }
                if has_key(pairs, k) {
                    let a = choose|a: int| 0 <= a < pairs.len() && pairs[a].0 == k;
                    assert(keys[a] == k);
                }
            }
        }
        keys.unique_seq_to_set();
    }

    /// A page of the ledger's tokens in minting order: at most `limit` of
    /// them (none if no limit is given), from position `from_index` on.
    pub fn nft_tokens(&self, from_index: Option<u128>, limit: Option<u64>) -> (r: Vec<JsonToken>)
        requires
            self.wf(),
        ensures
            ({
                let start = match from_index {
                    Some(s) => s as int,
                    None => 0,
                };
                let lim = match limit {
                    Some(l) => l as int,
                    None => 0,
                };
                &&& r@.len() == page_len(self.tokens_by_id@.len() as int, start, lim)
                &&& forall|k: int| 0 <= k < r@.len() ==> self.shows_entry(#[trigger] r@[k], start + k)
            }),
    {
        let start: u128 = match from_index {
            Some(s) => s,
            None => 0,
        };
        let lim: u64 = match limit {
            Some(l) => l,
            None => 0,
        };
        let mut r: Vec<JsonToken> = Vec::new();
        if start >= self.tokens_by_id.len() as u128 {
            return r;
        }
        let mut i: usize = start as usize;
        while i < self.tokens_by_id.len() && ((i - start as usize) as u64) < lim
            invariant
                self.wf(),
                start <= i <= self.tokens_by_id@.len(),
                i - start <= lim,
                r@.len() == i - start,
                forall|k: int| 0 <= k < r@.len() ==> self.shows_entry(#[trigger] r@[k], start + k),
            decreases self.tokens_by_id@.len() - i,
        {
            let json = self.json_token(i);
            r.push(json);
            i += 1;
        }
        r
    }

    /// Number of tokens that `account_id` holds.
    pub fn nft_supply_for_owner(&self, account_id: &String) -> (r: u128)
        requires
            self.wf(),
        ensures
            self.owner_index().dom().contains(account_id@) ==> r == self.owner_index()[account_id@].len(),
            !self.owner_index().dom().contains(account_id@) ==> r == 0,
    {
        let ghost pairs = index_pairs(self.tokens_per_owner@);
        match find_key(&self.tokens_per_owner, account_id) {
            None => 0,
            Some(i) => {
                let bucket = &self.tokens_per_owner[i].1;
                proof {
                    assert(pairs[i as int].0 == account_id@);
                    lemma_assoc_index(pairs, i as int);
                    lemma_bucket_len(bucket@);
                }
                bucket.len() as u128
            },
        }
    }

    /// A page of the tokens of `account_id`, in the order of its bucket: at
    /// most `limit` of them (none if no limit is given), from position
    /// `from_index` on.
    pub fn nft_tokens_for_owner(
        &self,
        account_id: &String,
        from_index: Option<u128>,
        limit: Option<u64>,
    ) -> (r: Vec<JsonToken>)
        requires
            self.wf(),
        ensures
            !self.owner_index().dom().contains(account_id@) ==> r@.len() == 0,
            ({
                let start = match from_index {
                    Some(s) => s as int,
                    None => 0,
                };
                let lim = match limit {
                    Some(l) => l as int,
                    None => 0,
                };
                let held = self.owner_index()[account_id@];
                self.owner_index().dom().contains(account_id@) ==> {
                    &&& r@.len() == page_len(held.len() as int, start, lim)
                    &&& forall|k: int|
                        0 <= k < r@.len() ==> held.contains((#[trigger] r@[k]).token_id@)
                            && self.shows_entry(r@[k], self.token_index(r@[k].token_id@))
                            && r@[k].token_id@ == self.owner_bucket(account_id@)[start + k]@
                }
            }),
    {
        let ghost pairs = index_pairs(self.tokens_per_owner@);
        let mut r: Vec<JsonToken> = Vec::new();
        let i = match find_key(&self.tokens_per_owner, account_id) {
            None => {
                proof {
                    if has_key(pairs, account_id@) {
                        let k = choose|k: int| 0 <= k < pairs.len() && pairs[k].0 == account_id@;
                        assert(self.tokens_per_owner@[k].0@ == account_id@);
                    }
                }
                return r;
            },
            Some(i) => i,
        };
        let bucket = &self.tokens_per_owner[i].1;
        let ghost held = string_set(bucket@);
        proof {
            assert(pairs[i as int].0 == account_id@);
            lemma_assoc_index(pairs, i as int);
            lemma_bucket_len(bucket@);
            assert(held == self.owner_index()[account_id@]);
            let c = choose|c: int|
                0 <= c < self.tokens_per_owner@.len() && self.tokens_per_owner@[c].0@ == account_id@;
            assert(pairs[c].0 == account_id@);
            assert(c == i);
        }
        let start: u128 = match from_index {
            Some(s) => s,
            None => 0,
        };
        let lim: u64 = match limit {
            Some(l) => l,
            None => 0,
        };
        if start >= bucket.len() as u128 {
            return r;
        }
        let mut j: usize = start as usize;
        while j < bucket.len() && ((j - start as usize) as u64) < lim
            invariant
                self.wf(),
                bucket@ == self.tokens_per_owner@[i as int].1@,
                held == string_set(bucket@),
                held == self.owner_index()[account_id@],
                self.owner_index().dom().contains(account_id@),
                start <= j <= bucket@.len(),
                j - start <= lim,
                r@.len() == j - start,
                bucket@ == self.owner_bucket(account_id@),
                forall|k: int|
                    0 <= k < r@.len() ==> held.contains((#[trigger] r@[k]).token_id@)
                        && self.shows_entry(r@[k], self.token_index(r@[k].token_id@))
                        && r@[k].token_id@ == bucket@[start + k]@,
            decreases bucket@.len() - j,
        {
            proof {
                assert(held.contains(bucket@[j as int]@));
            }
            match self.nft_token(&bucket[j]) {
                Some(json) => {
                    r.push(json);
                },
                None => {
                    proof {
                        assert(self.ledger().dom().contains(bucket@[j as int]@));
                    }
                },
            }
            j += 1;
        }
        r
    }
}

/// A bucket with no string twice has as many elements as its set.
pub proof fn lemma_bucket_len(bucket: Seq<String>)
    requires
        crate::assoc::strings_unique(bucket),
    ensures
        string_set(bucket).len() == bucket.len(),
        string_set(bucket).finite(),
{
    let views = bucket.map_values(|s: String| s@);
    assert(views.no_duplicates()) by {
        assert forall|a: int, b: int| 0 <= a < views.len() && 0 <= b < views.len() && a != b
            implies views[a] != views[b] by {
            if a < b {
                assert(bucket[a]@ != bucket[b]@);
            } else {
                assert(bucket[b]@ != bucket[a]@);
            }
        }
    }
    assert(string_set(bucket) =~= views.to_set()) by {
        assert forall|t: Seq<char>| #[trigger] string_set(bucket).contains(t) == views.to_set().contains(t) by {
            if views.to_set().contains(t) {
                let a = choose|a: int| 0 <= a < views.len() && views[a] == t;
                assert(bucket[a]@ == t);
            }
            if string_set(bucket).contains(t) {
                let a = choose|a: int| 0 <= a < bucket.len() && bucket[a]@ == t;
                assert(views[a] == t);
            }
        }
    }
    views.unique_seq_to_set();
}

} // verus!
