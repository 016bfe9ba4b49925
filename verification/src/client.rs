//! What a client computes between its requests to the chain: the accounts a
//! stored transaction needs when it runs, and how many owners approved it.
use vstd::prelude::*;

use crate::bindings::{approve, approve_instruction, execute_instruction, execute_transaction};
use crate::instruction::Instruction;
use crate::pubkey::Pubkey;
use crate::state::{
    Transaction, TransactionAccount, TransactionInstruction, TransactionInstructionView,
    TransactionView,
};

verus! {

/// The account entries of all the instructions, one instruction after the
/// other.
pub open spec fn all_accounts(tis: Seq<TransactionInstructionView>) -> Seq<TransactionAccount>
    decreases tis.len(),
{
    if tis.len() == 0 {
        Seq::empty()
    } else {
        all_accounts(tis.drop_last()) + tis.last().accounts
    }
}

/// The account entries of a run of instructions followed by another are
/// those of the first run followed by those of the second; those of a single
/// instruction are all of its own entries, in order; no instructions have
/// no entries.
pub proof fn lemma_all_accounts_concat(
    a: Seq<TransactionInstructionView>,
    b: Seq<TransactionInstructionView>,
    t: TransactionInstructionView,
)
    ensures
        all_accounts(Seq::<TransactionInstructionView>::empty()) == Seq::<TransactionAccount>::empty(),
        all_accounts(seq![t]) == t.accounts,
        all_accounts(a + b) == all_accounts(a) + all_accounts(b),
    decreases b.len(),
{
    assert(seq![t].drop_last() =~= Seq::<TransactionInstructionView>::empty());
    assert(Seq::<TransactionAccount>::empty() + t.accounts =~= t.accounts);
    if b.len() == 0 {
        assert(a + b =~= a);
        assert(all_accounts(a) + Seq::<TransactionAccount>::empty() =~= all_accounts(a));
    } else {
        lemma_all_accounts_concat(a, b.drop_last(), t);
        assert((a + b).drop_last() =~= a + b.drop_last());
        assert((a + b).last() == b.last());
        assert(all_accounts(a + b) == all_accounts(a + b.drop_last()) + b.last().accounts);
        assert(all_accounts(b) == all_accounts(b.drop_last()) + b.last().accounts);
        assert(all_accounts(a) + all_accounts(b.drop_last()) + b.last().accounts =~= all_accounts(a)
            + (all_accounts(b.drop_last()) + b.last().accounts));
    }
}

/// Every account entry of every instruction is among the account entries of
/// the instructions, and there are no others: the entries are exactly those
/// of the instructions, the `j`-th entry of the `i`-th instruction standing
/// after the entries of the instructions before it.
pub proof fn lemma_all_accounts_members(tis: Seq<TransactionInstructionView>)
    ensures
        forall|i: int, j: int|
            0 <= i < tis.len() && 0 <= j < tis[i].accounts.len() ==> all_accounts(tis)[all_accounts(
                tis.take(i),
            ).len() + j] == #[trigger] tis[i].accounts[j],
        forall|i: int, j: int|
            0 <= i < tis.len() && 0 <= j < tis[i].accounts.len() ==> all_accounts(tis).contains(
                #[trigger] tis[i].accounts[j],
            ),
        forall|e: TransactionAccount|
            #[trigger] all_accounts(tis).contains(e) ==> exists|i: int, j: int|
                0 <= i < tis.len() && 0 <= j < tis[i].accounts.len() && #[trigger] tis[i].accounts[j]
                    == e,
    decreases tis.len(),
{
    assert forall|i: int, j: int| 0 <= i < tis.len() && 0 <= j < tis[i].accounts.len() implies all_accounts(
        tis,
    )[all_accounts(tis.take(i)).len() + j] == #[trigger] tis[i].accounts[j] && all_accounts(tis).contains(
        tis[i].accounts[j],
    ) by {
        let t = tis[i];
        let front = tis.take(i);
        let back = tis.skip(i + 1);
        assert(tis =~= front + (seq![t] + back));
        lemma_all_accounts_concat(front, seq![t] + back, t);
        lemma_all_accounts_concat(seq![t], back, t);
        let k = all_accounts(front).len() + j;
        assert(all_accounts(tis) == all_accounts(front) + (t.accounts + all_accounts(back)));
        assert(all_accounts(tis)[k] == t.accounts[j]);
    }
    if tis.len() > 0 {
        let p = tis.drop_last();
        lemma_all_accounts_members(p);
        assert forall|e: TransactionAccount| #[trigger] all_accounts(tis).contains(e) implies exists|
            i: int,
            j: int,
        | 0 <= i < tis.len() && 0 <= j < tis[i].accounts.len() && #[trigger] tis[i].accounts[j] == e by {
            let all = all_accounts(tis);
            let k = choose|k: int| 0 <= k < all.len() && all[k] == e;
            let n = all_accounts(p).len();
            if k < n {
                assert(all_accounts(p)[k] == e);
                assert(all_accounts(p).contains(e));
                let (i, j) = choose|i: int, j: int|
                    0 <= i < p.len() && 0 <= j < p[i].accounts.len() && #[trigger] p[i].accounts[j] == e;
                assert(tis[i] == p[i]);
            } else {
                assert(tis.last().accounts[k - n] == e);
                assert(tis[tis.len() - 1].accounts[k - n] == e);
            }
        }
    }
}

/// The position of the first entry for account index `k` in `m` (the
/// length of `m` when there is none).
pub open spec fn entry_index(m: Seq<TransactionAccount>, k: u8) -> int
    decreases m.len(),
{
    if m.len() == 0 {
        0
    } else if m[0].pubkey_index == k {
        0
    } else {
        1 + entry_index(m.drop_first(), k)
    }
}

/// One entry per account index, in the order of first occurrence; an entry
/// signs, or is writable, when some entry for the same index does.
pub open spec fn merge_accounts(s: Seq<TransactionAccount>) -> Seq<TransactionAccount>
    decreases s.len(),
{
    if s.len() == 0 {
        Seq::empty()
    } else {
        let m = merge_accounts(s.drop_last());
        let a = s.last();
        let k = entry_index(m, a.pubkey_index);
        if k < m.len() {
            m.update(
                k,
                TransactionAccount {
                    pubkey_index: a.pubkey_index,
                    is_signer: m[k].is_signer || a.is_signer,
                    is_writable: m[k].is_writable || a.is_writable,
                },
            )
        } else {
            m.push(a)
        }
    }
}

/// Some entry of `s` is for account index `k`.
pub open spec fn has_index(s: Seq<TransactionAccount>, k: u8) -> bool {
    exists|j: int| 0 <= j < s.len() && (#[trigger] s[j]).pubkey_index == k
}

/// Some entry of `s` for account index `k` signs.
pub open spec fn any_signer(s: Seq<TransactionAccount>, k: u8) -> bool {
    exists|j: int| 0 <= j < s.len() && (#[trigger] s[j]).pubkey_index == k && s[j].is_signer
}

/// Some entry of `s` for account index `k` is writable.
pub open spec fn any_writable(s: Seq<TransactionAccount>, k: u8) -> bool {
    exists|j: int| 0 <= j < s.len() && (#[trigger] s[j]).pubkey_index == k && s[j].is_writable
}

pub proof fn lemma_entry_index(m: Seq<TransactionAccount>, k: u8)
    ensures
        0 <= entry_index(m, k) <= m.len(),
        entry_index(m, k) < m.len() ==> m[entry_index(m, k)].pubkey_index == k,
        entry_index(m, k) == m.len() ==> !has_index(m, k),
        forall|j: int| 0 <= j < entry_index(m, k) ==> m[j].pubkey_index != k,
    decreases m.len(),
{
    if m.len() > 0 && m[0].pubkey_index != k {
        lemma_entry_index(m.drop_first(), k);
        if entry_index(m, k) == m.len() && has_index(m, k) {
            let j = choose|j: int| 0 <= j < m.len() && (#[trigger] m[j]).pubkey_index == k;
            assert(m.drop_first()[j - 1] == m[j]);
        }
        assert forall|j: int| 0 <= j < entry_index(m, k) implies m[j].pubkey_index != k by {
            if j > 0 {
                assert(m[j] == m.drop_first()[j - 1]);
            }
        }
    }
}

pub proof fn lemma_entry_index_at(m: Seq<TransactionAccount>, k: u8, i: int)
    requires
        0 <= i < m.len(),
        m[i].pubkey_index == k,
        forall|j: int| 0 <= j < i ==> m[j].pubkey_index != k,
    ensures
        entry_index(m, k) == i,
    decreases i,
{
    if i > 0 {
        assert(m[0].pubkey_index != k);
        assert forall|j: int| 0 <= j < i - 1 implies m.drop_first()[j].pubkey_index != k by {
            assert(m.drop_first()[j] == m[j + 1]);
        }
        lemma_entry_index_at(m.drop_first(), k, i - 1);
    }
}

/// The merged entries list each account index of the input once, and an
/// entry signs, or is writable, exactly when some input entry for its index
/// does.
pub proof fn lemma_merge_accounts(s: Seq<TransactionAccount>)
    ensures
        forall|i: int, j: int|
            0 <= i < merge_accounts(s).len() && 0 <= j < merge_accounts(s).len() && i != j
                ==> merge_accounts(s)[i].pubkey_index != merge_accounts(s)[j].pubkey_index,
        forall|k: u8| has_index(merge_accounts(s), k) <==> has_index(s, k),
        forall|i: int|
            0 <= i < merge_accounts(s).len() ==> (#[trigger] merge_accounts(s)[i]).is_signer
                == any_signer(s, merge_accounts(s)[i].pubkey_index),
        forall|i: int|
            0 <= i < merge_accounts(s).len() ==> (#[trigger] merge_accounts(s)[i]).is_writable
                == any_writable(s, merge_accounts(s)[i].pubkey_index),
    decreases s.len(),
{
    if s.len() > 0 {
        let p = s.drop_last();
        let a = s.last();
        let m = merge_accounts(p);
        let n = merge_accounts(s);
        lemma_merge_accounts(p);
        lemma_entry_index(m, a.pubkey_index);
        let k = entry_index(m, a.pubkey_index);
        assert(s =~= p.push(a));
        // Entries of `s` are those of `p` and then `a`.
        assert forall|x: u8| has_index(s, x) <==> (has_index(p, x) || a.pubkey_index == x) by {
            if has_index(s, x) {
                let j = choose|j: int| 0 <= j < s.len() && (#[trigger] s[j]).pubkey_index == x;
                if j < p.len() {
                    assert(p[j] == s[j]);
                }
            }
            if has_index(p, x) {
                let j = choose|j: int| 0 <= j < p.len() && (#[trigger] p[j]).pubkey_index == x;
                assert(s[j] == p[j]);
            }
            if a.pubkey_index == x {
                assert(s[s.len() - 1] == a);
            }
        }
        assert forall|x: u8| any_signer(s, x) <==> (any_signer(p, x) || (a.pubkey_index == x && a.is_signer)) by {
            if any_signer(s, x) {
                let j = choose|j: int| 0 <= j < s.len() && (#[trigger] s[j]).pubkey_index == x && s[j].is_signer;
                if j < p.len() {
                    assert(p[j] == s[j]);
                }
            }
            if any_signer(p, x) {
                let j = choose|j: int| 0 <= j < p.len() && (#[trigger] p[j]).pubkey_index == x && p[j].is_signer;
                assert(s[j] == p[j]);
            }
            if a.pubkey_index == x && a.is_signer {
                assert(s[s.len() - 1] == a);
            }
        }
        assert forall|x: u8| any_writable(s, x) <==> (any_writable(p, x) || (a.pubkey_index == x && a.is_writable)) by {
            if any_writable(s, x) {
                let j = choose|j: int| 0 <= j < s.len() && (#[trigger] s[j]).pubkey_index == x && s[j].is_writable;
                if j < p.len() {
                    assert(p[j] == s[j]);
                }
            }
            if any_writable(p, x) {
                let j = choose|j: int| 0 <= j < p.len() && (#[trigger] p[j]).pubkey_index == x && p[j].is_writable;
                assert(s[j] == p[j]);
            }
            if a.pubkey_index == x && a.is_writable {
                assert(s[s.len() - 1] == a);
            }
        }
        if k < m.len() {
            assert forall|x: u8| has_index(n, x) <==> has_index(m, x) by {
                if has_index(n, x) {
                    let j = choose|j: int| 0 <= j < n.len() && (#[trigger] n[j]).pubkey_index == x;
                    assert(m[j].pubkey_index == x);
                }
                if has_index(m, x) {
                    let j = choose|j: int| 0 <= j < m.len() && (#[trigger] m[j]).pubkey_index == x;
                    assert(n[j].pubkey_index == x);
                }
            }
            assert(has_index(m, a.pubkey_index)) by {
                assert(m[k].pubkey_index == a.pubkey_index);
            }
        } else {
            assert forall|x: u8| has_index(n, x) <==> (has_index(m, x) || a.pubkey_index == x) by {
                if has_index(n, x) {
                    let j = choose|j: int| 0 <= j < n.len() && (#[trigger] n[j]).pubkey_index == x;
                    if j < m.len() {
                        assert(m[j] == n[j]);
                    }
                }
                if has_index(m, x) {
                    let j = choose|j: int| 0 <= j < m.len() && (#[trigger] m[j]).pubkey_index == x;
                    assert(n[j] == m[j]);
                }
                if a.pubkey_index == x {
                    assert(n[m.len() as int] == a);
                }
            }
            assert(!has_index(p, a.pubkey_index));
            assert(!any_signer(p, a.pubkey_index));
            assert(!any_writable(p, a.pubkey_index));
            assert forall|i: int| 0 <= i < m.len() implies m[i].pubkey_index != a.pubkey_index by {
                if m[i].pubkey_index == a.pubkey_index {
                    assert(has_index(m, a.pubkey_index));
                }
            }
        }
    }
}

/// The merged entries hold no entry twice.
pub proof fn lemma_merge_no_duplicates(s: Seq<TransactionAccount>)
    ensures
        merge_accounts(s).no_duplicates(),
{
    lemma_merge_accounts(s);
    let m = merge_accounts(s);
    assert forall|i: int, j: int| 0 <= i < m.len() && 0 <= j < m.len() && i != j implies m[i] != m[j] by {
        assert(m[i].pubkey_index != m[j].pubkey_index);
    }
}

/// Lists with the same entries have the same account indices and flags.
pub proof fn lemma_same_entries(s1: Seq<TransactionAccount>, s2: Seq<TransactionAccount>, k: u8)
    requires
        forall|e: TransactionAccount| s1.contains(e) ==> s2.contains(e),
    ensures
        has_index(s1, k) ==> has_index(s2, k),
        any_signer(s1, k) ==> any_signer(s2, k),
        any_writable(s1, k) ==> any_writable(s2, k),
{
    if has_index(s1, k) {
        let j = choose|j: int| 0 <= j < s1.len() && (#[trigger] s1[j]).pubkey_index == k;
        assert(s1.contains(s1[j]));
        let j2 = choose|j2: int| 0 <= j2 < s2.len() && s2[j2] == s1[j];
        assert(s2[j2].pubkey_index == k);
    }
    if any_signer(s1, k) {
        let j = choose|j: int| 0 <= j < s1.len() && (#[trigger] s1[j]).pubkey_index == k && s1[j].is_signer;
        assert(s1.contains(s1[j]));
        let j2 = choose|j2: int| 0 <= j2 < s2.len() && s2[j2] == s1[j];
        assert(s2[j2].pubkey_index == k && s2[j2].is_signer);
    }
    if any_writable(s1, k) {
        let j = choose|j: int| 0 <= j < s1.len() && (#[trigger] s1[j]).pubkey_index == k && s1[j].is_writable;
        assert(s1.contains(s1[j]));
        let j2 = choose|j2: int| 0 <= j2 < s2.len() && s2[j2] == s1[j];
        assert(s2[j2].pubkey_index == k && s2[j2].is_writable);
    }
}

/// Every entry merged from `s1` is also merged from `s2` when the two lists
/// hold the same entries.
pub proof fn lemma_merged_entry_in_other(s1: Seq<TransactionAccount>, s2: Seq<TransactionAccount>, e: TransactionAccount)
    requires
        forall|x: TransactionAccount| s1.contains(x) <==> s2.contains(x),
        merge_accounts(s1).contains(e),
    ensures
        merge_accounts(s2).contains(e),
{
    let m1 = merge_accounts(s1);
    let m2 = merge_accounts(s2);
    lemma_merge_accounts(s1);
    lemma_merge_accounts(s2);
    let k = e.pubkey_index;
    lemma_same_entries(s1, s2, k);
    lemma_same_entries(s2, s1, k);
    let i = choose|i: int| 0 <= i < m1.len() && m1[i] == e;
    assert(has_index(m1, k)) by {
        assert(m1[i].pubkey_index == k);
    }
    assert(has_index(m2, k));
    let i2 = choose|i2: int| 0 <= i2 < m2.len() && (#[trigger] m2[i2]).pubkey_index == k;
    assert(m1[i].is_signer == any_signer(s1, k));
    assert(m2[i2].is_signer == any_signer(s2, k));
    assert(m1[i].is_writable == any_writable(s1, k));
    assert(m2[i2].is_writable == any_writable(s2, k));
    assert(m2[i2] == e);
}

/// Merging does not depend on the order of the entries: two lists that
/// hold the same entries as often as each other (such as the account
/// entries of the same instructions in another order, or with their
/// accounts in another order) merge to the same entries, each once, so
/// the two results are permutations of each other.
pub proof fn lemma_merge_accounts_order_free(s1: Seq<TransactionAccount>, s2: Seq<TransactionAccount>)
    requires
        s1.to_multiset() == s2.to_multiset(),
    ensures
        merge_accounts(s1).no_duplicates(),
        merge_accounts(s2).no_duplicates(),
        merge_accounts(s1).to_multiset() == merge_accounts(s2).to_multiset(),
{
    broadcast use vstd::seq_lib::group_to_multiset_ensures;

    let m1 = merge_accounts(s1);
    let m2 = merge_accounts(s2);
    lemma_merge_no_duplicates(s1);
    lemma_merge_no_duplicates(s2);
    assert forall|x: TransactionAccount| s1.contains(x) <==> s2.contains(x) by {
        assert(s1.contains(x) <==> s1.to_multiset().count(x) > 0);
        assert(s2.contains(x) <==> s2.to_multiset().count(x) > 0);
    }
    m1.lemma_multiset_has_no_duplicates();
    m2.lemma_multiset_has_no_duplicates();
    assert forall|e: TransactionAccount| #[trigger] m1.to_multiset().count(e) == m2.to_multiset().count(e) by {
        if m1.contains(e) {
            lemma_merged_entry_in_other(s1, s2, e);
        }
        if m2.contains(e) {
            lemma_merged_entry_in_other(s2, s1, e);
        }
        assert(m1.contains(e) <==> m1.to_multiset().count(e) > 0);
        assert(m2.contains(e) <==> m2.to_multiset().count(e) > 0);
        if m1.contains(e) {
            assert(m1.to_multiset().contains(e));
            assert(m2.to_multiset().contains(e));
        }
    }
    assert(m1.to_multiset() =~= m2.to_multiset());
}

/// The account entries of all the instructions, merged to one entry per
/// account index: an entry signs, or is writable, when any instruction's
/// entry for that index does. Entries come in the order in which their
/// index first occurs.
pub fn unique_accounts(transaction_instructions: Vec<TransactionInstruction>) -> (r: Vec<
    TransactionAccount,
>)
    ensures
        r@ == merge_accounts(all_accounts(transaction_instructions.deep_view())),
        forall|i: int, j: int|
            0 <= i < r@.len() && 0 <= j < r@.len() && i != j ==> r@[i].pubkey_index != r@[j].pubkey_index,
        forall|k: u8|
            has_index(r@, k) <==> has_index(all_accounts(transaction_instructions.deep_view()), k),
        forall|i: int, j: int|
            0 <= i < transaction_instructions@.len() && 0 <= j < transaction_instructions@[i].accounts@.len()
                ==> has_index(r@, (#[trigger] transaction_instructions@[i].accounts@[j]).pubkey_index),
        forall|k: u8|
            has_index(r@, k) ==> exists|i: int, j: int|
                0 <= i < transaction_instructions@.len() && 0 <= j < transaction_instructions@[i].accounts@.len()
                    && (#[trigger] transaction_instructions@[i].accounts@[j]).pubkey_index == k,
        forall|i: int|
            0 <= i < r@.len() ==> (#[trigger] r@[i]).is_signer == any_signer(
                all_accounts(transaction_instructions.deep_view()),
                r@[i].pubkey_index,
            ) && r@[i].is_writable == any_writable(
                all_accounts(transaction_instructions.deep_view()),
                r@[i].pubkey_index,
            ),
{
    merge_instruction_accounts(&transaction_instructions)
}

/// The merged account entries of the instructions, as `unique_accounts`
/// gives them.
pub(crate) fn merge_instruction_accounts(transaction_instructions: &Vec<TransactionInstruction>) -> (r: Vec<
    TransactionAccount,
>)
    ensures
        r@ == merge_accounts(all_accounts(transaction_instructions.deep_view())),
        forall|i: int, j: int|
            0 <= i < r@.len() && 0 <= j < r@.len() && i != j ==> r@[i].pubkey_index != r@[j].pubkey_index,
        forall|k: u8|
            has_index(r@, k) <==> has_index(all_accounts(transaction_instructions.deep_view()), k),
        forall|i: int, j: int|
            0 <= i < transaction_instructions@.len() && 0 <= j < transaction_instructions@[i].accounts@.len()
                ==> has_index(r@, (#[trigger] transaction_instructions@[i].accounts@[j]).pubkey_index),
        forall|k: u8|
            has_index(r@, k) ==> exists|i: int, j: int|
                0 <= i < transaction_instructions@.len() && 0 <= j < transaction_instructions@[i].accounts@.len()
                    && (#[trigger] transaction_instructions@[i].accounts@[j]).pubkey_index == k,
        forall|i: int|
            0 <= i < r@.len() ==> (#[trigger] r@[i]).is_signer == any_signer(
                all_accounts(transaction_instructions.deep_view()),
                r@[i].pubkey_index,
            ) && r@[i].is_writable == any_writable(
                all_accounts(transaction_instructions.deep_view()),
                r@[i].pubkey_index,
            ),
{
    let ghost tis = transaction_instructions.deep_view();
    let mut merged: Vec<TransactionAccount> = Vec::new();
    let ghost mut done: Seq<TransactionAccount> = Seq::empty();
    let mut i: usize = 0;
    assert(tis.take(0) =~= Seq::<TransactionInstructionView>::empty());
    while i < transaction_instructions.len()
        invariant
            i <= transaction_instructions@.len(),
            tis == transaction_instructions.deep_view(),
            done == all_accounts(tis.take(i as int)),
            merged@ == merge_accounts(done),
        decreases transaction_instructions@.len() - i,
    {
        let ix = &transaction_instructions[i];
        let ghost base = done;
        let mut j: usize = 0;
        assert(base + ix.accounts@.take(0) =~= base);
        while j < ix.accounts.len()
            invariant
                j <= ix.accounts@.len(),
                done == base + ix.accounts@.take(j as int),
                merged@ == merge_accounts(done),
            decreases ix.accounts@.len() - j,
        {
            let new_account = ix.accounts[j];
            let ghost before = done;
            proof {
                done = done.push(new_account);
                assert(done.drop_last() =~= before);
                lemma_entry_index(merged@, new_account.pubkey_index);
            }
            let mut k: usize = 0;
            while k < merged.len() && merged[k].pubkey_index != new_account.pubkey_index
                invariant
                    k <= merged@.len(),
                    forall|q: int| 0 <= q < k ==> merged@[q].pubkey_index != new_account.pubkey_index,
                decreases merged@.len() - k,
            {
                k = k + 1;
            }
            let found = k < merged.len();
            if found {
                proof {
                    lemma_entry_index_at(merged@, new_account.pubkey_index, k as int);
                }
                let existing_account = merged[k];
                merged.set(
                    k,
                    TransactionAccount {
                        pubkey_index: existing_account.pubkey_index,
                        is_signer: existing_account.is_signer || new_account.is_signer,
                        is_writable: existing_account.is_writable || new_account.is_writable,
                    },
                );
            } else {
                merged.push(new_account);
            }
            proof {
                assert(done =~= base + ix.accounts@.take(j + 1));
            }
            j = j + 1;
        }
        proof {
            assert(ix.accounts@.take(j as int) =~= ix.accounts@);
            assert(tis[i as int] == ix@);
            assert(tis.take(i + 1).drop_last() =~= tis.take(i as int));
        }
        i = i + 1;
    }
    assert(tis.take(i as int) =~= tis);
    proof {
        lemma_merge_accounts(done);
        lemma_all_accounts_members(tis);
        let all = all_accounts(tis);
        let v = transaction_instructions@;
        assert forall|i: int, j: int| 0 <= i < v.len() && 0 <= j < v[i].accounts@.len() implies has_index(
            merged@,
            (#[trigger] v[i].accounts@[j]).pubkey_index,
        ) by {
            assert(tis[i] == v[i]@);
            let e = tis[i].accounts[j];
            assert(all.contains(e));
            let m = choose|m: int| 0 <= m < all.len() && all[m] == e;
            assert(has_index(all, e.pubkey_index)) by {
                assert(all[m].pubkey_index == e.pubkey_index);
            }
        }
        assert forall|k: u8| has_index(merged@, k) implies exists|i: int, j: int|
            0 <= i < v.len() && 0 <= j < v[i].accounts@.len() && (#[trigger] v[i].accounts@[j]).pubkey_index
                == k by {
            assert(has_index(all, k));
            let m = choose|m: int| 0 <= m < all.len() && (#[trigger] all[m]).pubkey_index == k;
            assert(all.contains(all[m]));
            let (i, j) = choose|i: int, j: int|
                0 <= i < tis.len() && 0 <= j < tis[i].accounts.len() && #[trigger] tis[i].accounts[j] == all[m];
            assert(tis[i] == v[i]@);
            assert(v[i].accounts@[j].pubkey_index == k);
        }
    }
    merged
}

/// How many owners approved a transaction: the number of set flags.
pub open spec fn approvals(signers: Seq<bool>) -> nat
    decreases signers.len(),
{
    if signers.len() == 0 {
        0
    } else {
        approvals(signers.drop_last()) + if signers.last() {
            1nat
        } else {
            0nat
        }
    }
}

/// The approvals are the set flags, counted one by one: none for no flags,
/// one more for a set flag added at the end and none more for a clear one,
/// the counts of two runs of flags add up, and the count is the number of
/// set flags.
pub proof fn lemma_approvals_count_set_flags(s: Seq<bool>, t: Seq<bool>, b: bool)
    ensures
        approvals(Seq::<bool>::empty()) == 0,
        approvals(s.push(b)) == approvals(s) + if b {
            1nat
        } else {
            0nat
        },
        approvals(s + t) == approvals(s) + approvals(t),
        approvals(s) == s.filter(|x: bool| x).len(),
    decreases t.len(),
{
    assert(s.push(b).drop_last() =~= s);
    if t.len() == 0 {
        assert(s + t =~= s);
    } else {
        lemma_approvals_count_set_flags(s, t.drop_last(), b);
        assert((s + t).drop_last() =~= s + t.drop_last());
        assert((s + t).last() == t.last());
    }
    lemma_approvals_filter(s);
}

proof fn lemma_approvals_filter(s: Seq<bool>)
    ensures
        approvals(s) == s.filter(|x: bool| x).len(),
    decreases s.len(),
{
    reveal(Seq::filter);
    if s.len() > 0 {
        lemma_approvals_filter(s.drop_last());
    }
}

/// The number of owners that approved a transaction, from its flags.
pub fn count_approvals(signers: &Vec<bool>) -> (r: usize)
    ensures
        r == approvals(signers@),
        r == signers@.filter(|x: bool| x).len(),
{
    let mut count: usize = 0;
    let mut i: usize = 0;
    assert(signers@.take(0) =~= Seq::<bool>::empty());
    while i < signers.len()
        invariant
            i <= signers@.len(),
            count == approvals(signers@.take(i as int)),
            count <= i,
        decreases signers@.len() - i,
    {
        assert(signers@.take(i + 1).drop_last() =~= signers@.take(i as int));
        if signers[i] {
            count = count + 1;
        }
        i = i + 1;
    }
    assert(signers@.take(i as int) =~= signers@);
    proof {
        lemma_approvals_filter(signers@);
    }
    count
}

/// Every account entry of the transaction's instructions refers to one of
/// its accounts.
pub open spec fn entries_in_range(t: TransactionView) -> bool {
    forall|j: int|
        0 <= j < all_accounts(t.instructions).len() ==> (#[trigger] all_accounts(t.instructions)[j].pubkey_index
            as int) < t.accounts.len()
}

/// A transaction's account entries are in range exactly when every entry
/// of every one of its instructions refers to one of its accounts.
pub proof fn lemma_entries_in_range(t: TransactionView)
    ensures
        entries_in_range(t) <==> forall|i: int, j: int|
            0 <= i < t.instructions.len() && 0 <= j < t.instructions[i].accounts.len() ==> (
            #[trigger] t.instructions[i].accounts[j]).pubkey_index < t.accounts.len(),
{
    let tis = t.instructions;
    let all = all_accounts(tis);
    lemma_all_accounts_members(tis);
    if entries_in_range(t) {
        assert forall|i: int, j: int| 0 <= i < tis.len() && 0 <= j < tis[i].accounts.len() implies (
        #[trigger] tis[i].accounts[j]).pubkey_index < t.accounts.len() by {
            assert(all.contains(tis[i].accounts[j]));
            let m = choose|m: int| 0 <= m < all.len() && all[m] == tis[i].accounts[j];
            assert((all[m].pubkey_index as int) < t.accounts.len());
        }
    }
    if forall|i: int, j: int|
        0 <= i < tis.len() && 0 <= j < tis[i].accounts.len() ==> (
        #[trigger] tis[i].accounts[j]).pubkey_index < t.accounts.len() {
        assert forall|m: int| 0 <= m < all.len() implies (#[trigger] all[m].pubkey_index as int)
            < t.accounts.len() by {
            assert(all.contains(all[m]));
            let (i, j) = choose|i: int, j: int|
                0 <= i < tis.len() && 0 <= j < tis[i].accounts.len() && #[trigger] tis[i].accounts[j] == all[m];
        }
    }
}

/// The instructions that approve, as `voter`, each transaction at
/// `transaction_addresses` and then run each of them, given the stored
/// transactions in the same order: all the approvals first, then one run
/// per transaction over its merged account entries.
pub fn batch_approve_execute_instructions(
    voter: &Pubkey,
    multisig: &Pubkey,
    transaction_addresses: &[Pubkey],
    transactions: &Vec<Transaction>,
) -> (r: Vec<Instruction>)
    requires
        transactions@.len() == transaction_addresses@.len(),
        forall|k: int| 0 <= k < transactions@.len() ==> entries_in_range(#[trigger] transactions@[k]@),
    ensures
        r@.len() == 2 * transaction_addresses@.len(),
        forall|k: int|
            0 <= k < transaction_addresses@.len() ==> (#[trigger] r@[k])@ == approve_instruction(
                voter@,
                multisig@,
                transaction_addresses@[k]@,
            ),
        forall|k: int|
            0 <= k < transaction_addresses@.len() ==> (#[trigger] r@[transaction_addresses@.len() + k])@
                == execute_instruction(
                multisig@,
                transaction_addresses@[k]@,
                transactions@[k]@.accounts,
                merge_accounts(all_accounts(transactions@[k]@.instructions)),
            ),
{
    let n = transaction_addresses.len();
    let mut ixs: Vec<Instruction> = Vec::new();
    let mut k: usize = 0;
    while k < n
        invariant
            k <= n,
            n == transaction_addresses@.len(),
            ixs@.len() == k,
            forall|j: int|
                0 <= j < k ==> (#[trigger] ixs@[j])@ == approve_instruction(
                    voter@,
                    multisig@,
                    transaction_addresses@[j]@,
                ),
        decreases n - k,
    {
        ixs.push(approve(voter, multisig, &transaction_addresses[k]));
        k = k + 1;
    }
    let mut k: usize = 0;
    while k < n
        invariant
            k <= n,
            n == transaction_addresses@.len(),
            transactions@.len() == n,
            forall|j: int| 0 <= j < transactions@.len() ==> entries_in_range(#[trigger] transactions@[j]@),
            ixs@.len() == n + k,
            forall|j: int|
                0 <= j < n ==> (#[trigger] ixs@[j])@ == approve_instruction(
                    voter@,
                    multisig@,
                    transaction_addresses@[j]@,
                ),
            forall|j: int|
                0 <= j < k ==> (#[trigger] ixs@[n + j])@ == execute_instruction(
                    multisig@,
                    transaction_addresses@[j]@,
                    transactions@[j]@.accounts,
                    merge_accounts(all_accounts(transactions@[j]@.instructions)),
                ),
        decreases n - k,
    {
        let t = &transactions[k];
        let accounts = merge_instruction_accounts(&t.instructions);
        proof {
            let all = all_accounts(t@.instructions);
            assert(entries_in_range(transactions@[k as int]@));
            assert forall|i: int| 0 <= i < accounts@.len() implies (#[trigger] accounts@[i].pubkey_index as int)
                < t.accounts@.len() by {
                assert(has_index(accounts@, accounts@[i].pubkey_index));
                let j = choose|j: int| 0 <= j < all.len() && (#[trigger] all[j]).pubkey_index == accounts@[i].pubkey_index;
                assert(all[j].pubkey_index < t@.accounts.len());
            }
            assert(t.accounts@.map_values(|p: Pubkey| p@) =~= t@.accounts);
        }
        let ix = execute_transaction(multisig, &transaction_addresses[k], t.accounts.as_slice(), accounts.as_slice());
        ixs.push(ix);
        k = k + 1;
    }
    ixs
}

/// The instruction that runs the stored transaction at `transaction` of the
/// multisig: its accounts merged as `unique_accounts` merges them. None when
/// an account entry refers past the transaction's accounts.
pub fn execute_stored_transaction(
    multisig: &Pubkey,
    transaction: &Pubkey,
    transaction_data: &Transaction,
) -> (r: Option<Instruction>)
    ensures
        entries_in_range(transaction_data@) ==> (r matches Some(ix) && ix@ == execute_instruction(
            multisig@,
            transaction@,
            transaction_data@.accounts,
            merge_accounts(all_accounts(transaction_data@.instructions)),
        )),
        !entries_in_range(transaction_data@) ==> r is None,
        r is Some <==> forall|i: int, j: int|
            0 <= i < transaction_data@.instructions.len() && 0 <= j
                < transaction_data@.instructions[i].accounts.len() ==> (
            #[trigger] transaction_data@.instructions[i].accounts[j]).pubkey_index
                < transaction_data@.accounts.len(),
{
    proof {
        lemma_entries_in_range(transaction_data@);
    }
    let accounts = merge_instruction_accounts(&transaction_data.instructions);
    let ghost all = all_accounts(transaction_data@.instructions);
    let n = transaction_data.accounts.len();
    let mut i: usize = 0;
    while i < accounts.len()
        invariant
            i <= accounts@.len(),
            n == transaction_data.accounts@.len(),
            all == all_accounts(transaction_data@.instructions),
            forall|k: u8| has_index(accounts@, k) <==> has_index(all, k),
            forall|j: int| 0 <= j < i ==> (#[trigger] accounts@[j].pubkey_index as int) < n,
        decreases accounts@.len() - i,
    {
        if accounts[i].pubkey_index as usize >= n {
            proof {
                let k = accounts@[i as int].pubkey_index;
                assert(has_index(accounts@, k)) by {
                    assert(accounts@[i as int].pubkey_index == k);
                }
                assert(has_index(all, k));
                let j = choose|j: int| 0 <= j < all.len() && (#[trigger] all[j]).pubkey_index == k;
                assert(transaction_data@.accounts.len() == n);
                assert(!((all[j].pubkey_index as int) < transaction_data@.accounts.len()));
                assert(!entries_in_range(transaction_data@));
                let tis = transaction_data@.instructions;
                lemma_all_accounts_members(tis);
                assert(all.contains(all[j]));
                let (i1, j1) = choose|i1: int, j1: int|
                    0 <= i1 < tis.len() && 0 <= j1 < tis[i1].accounts.len() && #[trigger] tis[i1].accounts[j1]
                        == all[j];
                assert(!((tis[i1].accounts[j1].pubkey_index as int) < transaction_data@.accounts.len()));
            }
            return None;
        }
        i = i + 1;
    }
    proof {
        assert forall|j: int| 0 <= j < all.len() implies (#[trigger] all[j].pubkey_index as int)
            < transaction_data@.accounts.len() by {
            let k = all[j].pubkey_index;
            assert(has_index(all, k));
            assert(has_index(accounts@, k));
            let m = choose|m: int| 0 <= m < accounts@.len() && (#[trigger] accounts@[m]).pubkey_index == k;
            assert((accounts@[m].pubkey_index as int) < n);
        }
        assert(transaction_data.accounts@.map_values(|p: Pubkey| p@) =~= transaction_data@.accounts);
    }
    Some(execute_transaction(multisig, transaction, transaction_data.accounts.as_slice(), accounts.as_slice()))
}

} // verus!
