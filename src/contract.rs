use vstd::prelude::*;

use crate::assoc::{
    assoc_map, find_key, find_string, has_key, keys_unique, lemma_assoc_index, lemma_assoc_push,
    lemma_assoc_remove, lemma_assoc_update, lemma_string_set_push, lemma_string_set_remove,
    pairs_view, string_set, strings_unique,
};
use crate::token::{Token, TokenView};

verus! {

/// Ledger entries with each token id viewed as a character sequence.
pub open spec fn ledger_pairs(s: Seq<(String, Token)>) -> Seq<(Seq<char>, TokenView)> {
    s.map_values(|p: (String, Token)| (p.0@, p.1@))
}

/// Owner index entries with each owner viewed as a character sequence and each
/// bucket as a set of token ids.
pub open spec fn index_pairs(s: Seq<(String, Vec<String>)>) -> Seq<(Seq<char>, Set<Seq<char>>)> {
    s.map_values(|p: (String, Vec<String>)| (p.0@, string_set(p.1@)))
}

/// The owner index lists each owner once, and each of its buckets lists each
/// token once and is not empty.
pub open spec fn index_wf(s: Seq<(String, Vec<String>)>) -> bool {
    &&& keys_unique(index_pairs(s))
    &&& forall|i: int| 0 <= i < s.len() ==> strings_unique(#[trigger] s[i].1@)
    &&& forall|i: int| 0 <= i < s.len() ==> (#[trigger] s[i].1@).len() > 0
}

/// The ledger and the owner index agree: every token sits in the bucket of its
/// owner, and every token of a bucket is in the ledger with that owner.
pub open spec fn ownership_consistent(
    ledger: Map<Seq<char>, TokenView>,
    index: Map<Seq<char>, Set<Seq<char>>>,
) -> bool {
    &&& forall|t: Seq<char>| #[trigger]
        ledger.dom().contains(t) ==> index.dom().contains(ledger[t].owner_id)
            && index[ledger[t].owner_id].contains(t)
    &&& forall|o: Seq<char>, t: Seq<char>|
        index.dom().contains(o) && #[trigger] index[o].contains(t) ==> ledger.dom().contains(t)
            && ledger[t].owner_id == o
}

/// `index` with `token_id` put into the bucket of `owner`.
pub open spec fn index_with(
    index: Map<Seq<char>, Set<Seq<char>>>,
    owner: Seq<char>,
    token_id: Seq<char>,
) -> Map<Seq<char>, Set<Seq<char>>> {
    index.insert(
        owner,
        if index.dom().contains(owner) {
            index[owner].insert(token_id)
        } else {
            Set::empty().insert(token_id)
        },
    )
}

/// `index` with `token_id` taken out of the bucket of `owner`, and that
/// bucket dropped if it is left empty.
pub open spec fn index_without(
    index: Map<Seq<char>, Set<Seq<char>>>,
    owner: Seq<char>,
    token_id: Seq<char>,
) -> Map<Seq<char>, Set<Seq<char>>> {
    if index[owner].remove(token_id).is_empty() {
        index.remove(owner)
    } else {
        index.insert(owner, index[owner].remove(token_id))
    }
}

/// The ledger's state: tokens, their metadata and the reverse owner index.
pub struct Contract {
    /// Ledger entries, in the order they were minted.
    pub tokens_by_id: Vec<(String, Token)>,
    /// The metadata of the token at the same position of `tokens_by_id`.
    pub token_metadata: Vec<String>,
    /// Each owner with the ids of the tokens it holds.
    pub tokens_per_owner: Vec<(String, Vec<String>)>,
}

impl Contract {
    /// Token id to ledger entry.
    pub open spec fn ledger(&self) -> Map<Seq<char>, TokenView> {
        assoc_map(ledger_pairs(self.tokens_by_id@))
    }

    /// Owner to the set of ids of the tokens it holds.
    pub open spec fn owner_index(&self) -> Map<Seq<char>, Set<Seq<char>>> {
        assoc_map(index_pairs(self.tokens_per_owner@))
    }

    pub open spec fn wf(&self) -> bool {
        &&& keys_unique(ledger_pairs(self.tokens_by_id@))
        &&& self.token_metadata@.len() == self.tokens_by_id@.len()
        &&& forall|i: int|
            0 <= i < self.tokens_by_id@.len() ==> (#[trigger] self.tokens_by_id@[i]).1.wf()
        &&& index_wf(self.tokens_per_owner@)
        &&& ownership_consistent(self.ledger(), self.owner_index())
    }

    /// An empty ledger.
    pub fn new() -> (r: Contract)
        ensures
            r.wf(),
            r.ledger() == Map::<Seq<char>, TokenView>::empty(),
            r.owner_index() == Map::<Seq<char>, Set<Seq<char>>>::empty(),
    {
        let r = Contract {
            tokens_by_id: Vec::new(),
            token_metadata: Vec::new(),
            tokens_per_owner: Vec::new(),
        };
        assert(r.ledger() =~= Map::<Seq<char>, TokenView>::empty());
        assert(r.owner_index() =~= Map::<Seq<char>, Set<Seq<char>>>::empty());
        r
    }

    /// Puts `token_id` into the bucket of `account_id`, creating the bucket
    /// where there is none.
    pub fn internal_add_token_to_owner(&mut self, account_id: &String, token_id: &String)
        requires
            index_wf(old(self).tokens_per_owner@),
            forall|o: Seq<char>|
                #[trigger] old(self).owner_index().dom().contains(o) ==> !old(
                    self,
                ).owner_index()[o].contains(token_id@),
        ensures
            index_wf(final(self).tokens_per_owner@),
            final(self).owner_index() == index_with(old(self).owner_index(), account_id@, token_id@),
            final(self).tokens_by_id == old(self).tokens_by_id,
            final(self).token_metadata == old(self).token_metadata,
    {
        let ghost old_pairs = index_pairs(self.tokens_per_owner@);
        match find_key(&self.tokens_per_owner, account_id) {
            Some(i) => {
                proof {
                    lemma_assoc_index(old_pairs, i as int);
                }
                let (owner, mut bucket) = self.tokens_per_owner.remove(i);
                let tid = token_id.clone();
                proof {
                    assert(old(self).owner_index().dom().contains(account_id@));
                    assert(string_set(bucket@) == old_pairs[i as int].1);
                    lemma_string_set_push(bucket@, tid);
                }
                bucket.push(tid);
                self.tokens_per_owner.insert(i, (owner, bucket));
                proof {
                    let entry = (account_id@, old_pairs[i as int].1.insert(token_id@));
                    assert(index_pairs(self.tokens_per_owner@) =~= old_pairs.update(i as int, entry));
                    lemma_assoc_update(old_pairs, i as int, entry.1);
                    let s = self.tokens_per_owner@;
                    assert forall|j: int| 0 <= j < s.len() implies strings_unique(#[trigger] s[j].1@)
                        && s[j].1@.len() > 0 by {
                        if j != i {
                            assert(s[j] == old(self).tokens_per_owner@[j]);
                        }
                    }
                }
            },
            None => {
                let mut bucket: Vec<String> = Vec::new();
                proof {
                    assert(string_set(bucket@) =~= Set::<Seq<char>>::empty());
                }
                let tid = token_id.clone();
                proof {
                    lemma_string_set_push(bucket@, tid);
                }
                bucket.push(tid);
                let ghost new_bucket = bucket@;
                self.tokens_per_owner.push((account_id.clone(), bucket));
                proof {
                    let entry = (account_id@, Set::<Seq<char>>::empty().insert(token_id@));
                    assert(index_pairs(self.tokens_per_owner@) =~= old_pairs.push(entry));
                    lemma_assoc_push(old_pairs, entry.0, entry.1);
                    let s = self.tokens_per_owner@;
                    assert forall|j: int| 0 <= j < s.len() implies strings_unique(#[trigger] s[j].1@)
                        && s[j].1@.len() > 0 by {
                        if j < s.len() - 1 {
                            assert(s[j] == old(self).tokens_per_owner@[j]);
                        }
                    }
                }
            },
        }
    }

    /// Takes `token_id` out of the bucket of `account_id`, and drops the
    /// bucket if that leaves it empty.
    pub fn internal_remove_token_from_owner(&mut self, account_id: &String, token_id: &String)
        requires
            index_wf(old(self).tokens_per_owner@),
            old(self).owner_index().dom().contains(account_id@),
            old(self).owner_index()[account_id@].contains(token_id@),
        ensures
            index_wf(final(self).tokens_per_owner@),
            final(self).owner_index() == index_without(
                old(self).owner_index(),
                account_id@,
                token_id@,
            ),
            final(self).tokens_by_id == old(self).tokens_by_id,
            final(self).token_metadata == old(self).token_metadata,
    {
        let ghost old_pairs = index_pairs(self.tokens_per_owner@);
        let i = match find_key(&self.tokens_per_owner, account_id) {
            Some(i) => i,
            None => {
                proof {
                    assert(!has_key(old_pairs, account_id@));
                }
                return ;
            },
        };
        proof {
            lemma_assoc_index(old_pairs, i as int);
        }
        let (owner, mut bucket) = self.tokens_per_owner.remove(i);
        let j = match find_string(&bucket, token_id) {
            Some(j) => j,
            None => {
                return ;
            },
        };
        proof {
            lemma_string_set_remove(bucket@, j as int);
        }
        bucket.remove(j);
        let ghost remaining = old_pairs[i as int].1.remove(token_id@);
        if bucket.len() == 0 {
            proof {
                assert(index_pairs(self.tokens_per_owner@) =~= old_pairs.remove(i as int));
                lemma_assoc_remove(old_pairs, i as int);
                assert(remaining =~= Set::<Seq<char>>::empty()) by {
                    if exists|t: Seq<char>| remaining.contains(t) {
                        let t = choose|t: Seq<char>| remaining.contains(t);
                        let k = choose|k: int| 0 <= k < bucket@.len() && bucket@[k]@ == t;
                    }
                }
                let s = self.tokens_per_owner@;
                let o = old(self).tokens_per_owner@;
                assert forall|k: int| 0 <= k < s.len() implies strings_unique(#[trigger] s[k].1@)
                    && s[k].1@.len() > 0 by {
                    if k < i {
                        assert(s[k] == o[k]);
                    } else {
                        assert(s[k] == o[k + 1]);
                    }
                }
            }
        } else {
            self.tokens_per_owner.insert(i, (owner, bucket));
            proof {
                let entry = (account_id@, remaining);
                assert(index_pairs(self.tokens_per_owner@) =~= old_pairs.update(i as int, entry));
                lemma_assoc_update(old_pairs, i as int, remaining);
                assert(!remaining.is_empty()) by {
                    let s = self.tokens_per_owner@[i as int].1@;
                    assert(remaining.contains(s[0]@));
                }
                let s = self.tokens_per_owner@;
                assert forall|k: int| 0 <= k < s.len() implies strings_unique(#[trigger] s[k].1@)
                    && s[k].1@.len() > 0 by {
                    if k != i {
                        assert(s[k] == old(self).tokens_per_owner@[k]);
                    }
                }
            }
        }
    }

    /// Position of `token_id` in the ledger.
    pub open spec fn token_index(&self, token_id: Seq<char>) -> int {
        choose|i: int| 0 <= i < self.tokens_by_id@.len() && self.tokens_by_id@[i].0@ == token_id
    }

    /// The approval entries of `token_id`, in the order they are kept.
    pub open spec fn approval_list(&self, token_id: Seq<char>) -> Seq<(Seq<char>, u64)> {
        pairs_view(self.tokens_by_id@[self.token_index(token_id)].1.approved_account_ids@)
    }

    /// Position of `token_id` in the ledger, if it is there.
    pub fn find_token(&self, token_id: &String) -> (r: Option<usize>)
        requires
            self.wf(),
        ensures
            r is None <==> !self.ledger().dom().contains(token_id@),
            r matches Some(i) ==> {
                &&& i < self.tokens_by_id@.len()
                &&& i == self.token_index(token_id@)
                &&& self.tokens_by_id@[i as int].0@ == token_id@
                &&& self.tokens_by_id@[i as int].1@ == self.ledger()[token_id@]
                &&& self.tokens_by_id@[i as int].1.wf()
                &&& self.approval_list(token_id@) == pairs_view(
                    self.tokens_by_id@[i as int].1.approved_account_ids@,
                )
            },
    {
        let ghost pairs = ledger_pairs(self.tokens_by_id@);
        match find_key(&self.tokens_by_id, token_id) {
            None => {
                proof {
                    if has_key(pairs, token_id@) {
                        let k = choose|k: int| 0 <= k < pairs.len() && pairs[k].0 == token_id@;
                        assert(self.tokens_by_id@[k].0@ == token_id@);
                    }
                }
                None
            },
            Some(i) => {
                proof {
                    assert(pairs[i as int].0 == token_id@);
                    lemma_assoc_index(pairs, i as int);
                    let j = self.token_index(token_id@);
                    assert(pairs[j].0 == token_id@);
                }
                Some(i)
            },
        }
    }

    /// Puts `token` in place of the ledger entry at position `i`, which has the
    /// same owner.
    pub(crate) fn replace_token(&mut self, i: usize, token: Token)
        requires
            old(self).wf(),
            i < old(self).tokens_by_id@.len(),
            token.wf(),
            token.owner_id@ == old(self).tokens_by_id@[i as int].1.owner_id@,
        ensures
            final(self).wf(),
            final(self).ledger() == old(self).ledger().insert(
                old(self).tokens_by_id@[i as int].0@,
                token@,
            ),
            final(self).owner_index() == old(self).owner_index(),
            final(self).token_metadata == old(self).token_metadata,
            final(self).tokens_by_id@.len() == old(self).tokens_by_id@.len(),
            final(self).tokens_by_id@[i as int].0 == old(self).tokens_by_id@[i as int].0,
            final(self).tokens_by_id@[i as int].1 == token,
            forall|k: int|
                0 <= k < final(self).tokens_by_id@.len() && k != i ==> final(self).tokens_by_id@[k]
                    == old(self).tokens_by_id@[k],
    {
        let ghost old_pairs = ledger_pairs(self.tokens_by_id@);
        let ghost old_ledger = self.ledger();
        let ghost key = old_pairs[i as int].0;
        let ghost tv = token@;
        proof {
            lemma_assoc_index(old_pairs, i as int);
            lemma_assoc_update(old_pairs, i as int, tv);
        }
        let (id, _previous) = self.tokens_by_id.remove(i);
        self.tokens_by_id.insert(i, (id, token));
        proof {
            assert(ledger_pairs(self.tokens_by_id@) =~= old_pairs.update(i as int, (key, tv)));
            let s = self.tokens_by_id@;
            assert forall|k: int| 0 <= k < s.len() implies (#[trigger] s[k]).1.wf() by {
                if k != i {
                    assert(s[k] == old(self).tokens_by_id@[k]);
                }
            }
            let ledger = self.ledger();
            let index = self.owner_index();
            assert forall|t: Seq<char>| #[trigger] ledger.dom().contains(t) implies index.dom().contains(
                ledger[t].owner_id,
            ) && index[ledger[t].owner_id].contains(t) by {
                assert(old_ledger.dom().contains(t));
            }
            assert forall|o: Seq<char>, t: Seq<char>|
                index.dom().contains(o) && #[trigger] index[o].contains(t) implies ledger.dom().contains(t)
                && ledger[t].owner_id == o by {
                assert(old_ledger.dom().contains(t));
            }
        }
    }
}

/// Every token of a well-formed ledger sits in exactly one owner's bucket, and
/// that bucket belongs to the token's owner.
pub proof fn lemma_bijective_ownership(contract: Contract, token_id: Seq<char>)
    requires
        contract.wf(),
        contract.ledger().dom().contains(token_id),
    ensures
        ({
            let owner = contract.ledger()[token_id].owner_id;
            &&& contract.owner_index().dom().contains(owner)
            &&& contract.owner_index()[owner].contains(token_id)
            &&& forall|o: Seq<char>|
                contract.owner_index().dom().contains(o) && #[trigger] contract.owner_index()[o].contains(
                    token_id,
                ) ==> o == owner
        }),
{
}

} // verus!
