use crate::types::Address;
use vstd::prelude::*;

verus! {

/// The pair tokens that one joiner has in one bootstrap.
#[derive(Clone, Copy, PartialEq, Eq, Structural, Debug)]
pub struct DepositEntry {
    pub id: u32,
    pub user: Address,
    pub amount: i128,
}

/// Whether the entry is the one of `user` in bootstrap `id`.
pub open spec fn is_for(e: DepositEntry, id: u32, user: Address) -> bool {
    e.id == id && e.user == user
}

/// No two entries are for the same joiner in the same bootstrap.
pub open spec fn distinct(s: Seq<DepositEntry>) -> bool {
    forall|i: int, j: int|
        0 <= i < j < s.len() ==> !(#[trigger] s[i].id == #[trigger] s[j].id && s[i].user
            == s[j].user)
}

/// No entry holds a negative amount.
pub open spec fn non_negative(s: Seq<DepositEntry>) -> bool {
    forall|i: int| 0 <= i < s.len() ==> (#[trigger] s[i]).amount >= 0
}

/// The place of the last entry of `user` in bootstrap `id`, or -1 where there
/// is none.
pub open spec fn index_of(s: Seq<DepositEntry>, id: u32, user: Address) -> int
    decreases s.len(),
{
    if s.len() == 0 {
        -1
    } else if is_for(s.last(), id, user) {
        s.len() - 1
    } else {
        index_of(s.drop_last(), id, user)
    }
}

/// The deposit of `user` in bootstrap `id`: zero where none is recorded.
pub open spec fn amount_of(s: Seq<DepositEntry>, id: u32, user: Address) -> i128 {
    if index_of(s, id, user) >= 0 {
        s[index_of(s, id, user)].amount
    } else {
        0
    }
}

/// What an entry adds to the deposits of bootstrap `id`.
pub open spec fn share_in(e: DepositEntry, id: u32) -> int {
    if e.id == id {
        e.amount as int
    } else {
        0
    }
}

/// The sum of all deposits in bootstrap `id`.
pub open spec fn total_of(s: Seq<DepositEntry>, id: u32) -> int
    decreases s.len(),
{
    if s.len() == 0 {
        0
    } else {
        total_of(s.drop_last(), id) + share_in(s.last(), id)
    }
}

/// The entries after the deposit of `user` in bootstrap `id` is set to
/// `amount`: the joiner's entry is overwritten, or a new one is added.
pub open spec fn with_deposit(
    s: Seq<DepositEntry>,
    id: u32,
    user: Address,
    amount: i128,
) -> Seq<DepositEntry> {
    if index_of(s, id, user) >= 0 {
        s.update(index_of(s, id, user), DepositEntry { id, user, amount })
    } else {
        s.push(DepositEntry { id, user, amount })
    }
}

/// `index_of` gives the place of an entry of the joiner, after which no other
/// entry is the joiner's, or -1 where no entry is.
pub proof fn lemma_index_of(s: Seq<DepositEntry>, id: u32, user: Address)
    ensures
        -1 <= index_of(s, id, user) < s.len(),
        index_of(s, id, user) >= 0 ==> is_for(s[index_of(s, id, user)], id, user),
        forall|i: int| index_of(s, id, user) < i < s.len() ==> !is_for(#[trigger] s[i], id, user),
    decreases s.len(),
{
    if s.len() > 0 && !is_for(s.last(), id, user) {
        lemma_index_of(s.drop_last(), id, user);
        assert forall|i: int| index_of(s, id, user) < i < s.len() implies !is_for(
            #[trigger] s[i],
            id,
            user,
        ) by {
            if i < s.len() - 1 {
                assert(s[i] == s.drop_last()[i]);
            }
        }
    }
}

/// Among distinct entries, the joiner's entry is found where it stands.
pub proof fn lemma_index_of_distinct(s: Seq<DepositEntry>, id: u32, user: Address, i: int)
    requires
        distinct(s),
        0 <= i < s.len(),
        is_for(s[i], id, user),
    ensures
        index_of(s, id, user) == i,
{
    lemma_index_of(s, id, user);
    let k = index_of(s, id, user);
    if k < i {
        assert(!is_for(s[i], id, user));
    } else if k > i {
        assert(s[i].id == s[k].id && s[i].user == s[k].user);
    }
}

/// Overwriting an entry by one for the same joiner and bootstrap moves no
/// entry, whoever is looked for.
pub proof fn lemma_index_of_update(
    s: Seq<DepositEntry>,
    k: int,
    amount: i128,
    id: u32,
    user: Address,
)
    requires
        0 <= k < s.len(),
    ensures
        index_of(s.update(k, DepositEntry { amount, ..s[k] }), id, user) == index_of(s, id, user),
    decreases s.len(),
{
    let e = DepositEntry { amount, ..s[k] };
    let t = s.update(k, e);
    if k == s.len() - 1 {
        assert(t.drop_last() =~= s.drop_last());
    } else {
        assert(t.drop_last() =~= s.drop_last().update(k, e));
        assert(s.drop_last()[k] == s[k]);
        assert(t.last() == s.last());
        lemma_index_of_update(s.drop_last(), k, amount, id, user);
    }
}

/// Overwriting an entry changes the sum by the difference of what the old and
/// the new entry add.
pub proof fn lemma_total_of_update(s: Seq<DepositEntry>, k: int, e: DepositEntry, id: u32)
    requires
        0 <= k < s.len(),
    ensures
        total_of(s.update(k, e), id) == total_of(s, id) - share_in(s[k], id) + share_in(e, id),
    decreases s.len(),
{
    let t = s.update(k, e);
    if k == s.len() - 1 {
        assert(t.drop_last() =~= s.drop_last());
    } else {
        assert(t.drop_last() =~= s.drop_last().update(k, e));
        assert(s.drop_last()[k] == s[k]);
        assert(t.last() == s.last());
        lemma_total_of_update(s.drop_last(), k, e, id);
    }
}

/// Setting a deposit sets that joiner's deposit and no other, changes the sum
/// of the bootstrap's deposits by the difference, leaves the other bootstraps'
/// sums alone, and keeps the entries distinct.
pub proof fn lemma_with_deposit(s: Seq<DepositEntry>, id: u32, user: Address, amount: i128)
    ensures
        amount_of(with_deposit(s, id, user, amount), id, user) == amount,
        forall|i: u32, u: Address|
            !(i == id && u == user) ==> #[trigger] amount_of(
                with_deposit(s, id, user, amount),
                i,
                u,
            ) == amount_of(s, i, u),
        total_of(with_deposit(s, id, user, amount), id) == total_of(s, id) - amount_of(
            s,
            id,
            user,
        ) + amount,
        forall|i: u32|
            i != id ==> #[trigger] total_of(with_deposit(s, id, user, amount), i) == total_of(
                s,
                i,
            ),
        distinct(s) ==> distinct(with_deposit(s, id, user, amount)),
        non_negative(s) && amount >= 0 ==> non_negative(with_deposit(s, id, user, amount)),
        forall|k: int|
            0 <= k < with_deposit(s, id, user, amount).len() ==> (#[trigger] with_deposit(
                s,
                id,
                user,
                amount,
            )[k]).id == id || (k < s.len() && with_deposit(s, id, user, amount)[k].id == s[k].id),
{
    let k = index_of(s, id, user);
    let e = DepositEntry { id, user, amount };
    let t = with_deposit(s, id, user, amount);
    lemma_index_of(s, id, user);
    if k >= 0 {
        assert(e == DepositEntry { amount, ..s[k] });
        lemma_index_of_update(s, k, amount, id, user);
        assert forall|i: u32, u: Address| !(i == id && u == user) implies #[trigger] amount_of(
            t,
            i,
            u,
        ) == amount_of(s, i, u) by {
            lemma_index_of_update(s, k, amount, i, u);
            lemma_index_of(s, i, u);
        }
        lemma_total_of_update(s, k, e, id);
        assert forall|i: u32| i != id implies #[trigger] total_of(t, i) == total_of(s, i) by {
            lemma_total_of_update(s, k, e, i);
        }
        if distinct(s) {
            assert forall|i: int, j: int| 0 <= i < j < t.len() implies !(#[trigger] t[i].id
                == #[trigger] t[j].id && t[i].user == t[j].user) by {
                assert(t[i].id == s[i].id && t[i].user == s[i].user);
                assert(t[j].id == s[j].id && t[j].user == s[j].user);
            }
        }
    } else {
        assert(t.drop_last() =~= s);
        assert forall|i: u32, u: Address| !(i == id && u == user) implies #[trigger] amount_of(
            t,
            i,
            u,
        ) == amount_of(s, i, u) by {
            lemma_index_of(s, i, u);
        }
        if distinct(s) {
            assert forall|i: int, j: int| 0 <= i < j < t.len() implies !(#[trigger] t[i].id
                == #[trigger] t[j].id && t[i].user == t[j].user) by {
                if j == s.len() {
                    assert(!is_for(s[i], id, user));
                }
            }
        }
    }
}

/// Where no entry is for bootstrap `id`, its deposits add up to nothing.
pub proof fn lemma_total_of_absent(s: Seq<DepositEntry>, id: u32)
    requires
        forall|i: int| 0 <= i < s.len() ==> (#[trigger] s[i]).id != id,
    ensures
        total_of(s, id) == 0,
    decreases s.len(),
{
    if s.len() > 0 {
        assert forall|i: int| 0 <= i < s.drop_last().len() implies (#[trigger] s.drop_last()[i]).id
            != id by {
            assert(s.drop_last()[i] == s[i]);
        }
        lemma_total_of_absent(s.drop_last(), id);
        assert(s.last() == s[s.len() - 1]);
    }
}

/// Without its last entry, a sequence of entries that hold no negative amount
/// holds none either, and the last entry holds none.
pub proof fn lemma_non_negative_rest(s: Seq<DepositEntry>)
    requires
        non_negative(s),
        s.len() > 0,
    ensures
        non_negative(s.drop_last()),
        s.last().amount >= 0,
{
    assert forall|i: int| 0 <= i < s.drop_last().len() implies (#[trigger] s.drop_last()[i]).amount
        >= 0 by {
        assert(s.drop_last()[i] == s[i]);
    }
    assert(s.last() == s[s.len() - 1]);
}

/// The sum of non-negative deposits is not negative, and no deposit is more
/// than the sum of its bootstrap.
pub proof fn lemma_total_of_bounds(s: Seq<DepositEntry>, id: u32, user: Address)
    requires
        non_negative(s),
    ensures
        0 <= amount_of(s, id, user) <= total_of(s, id),
    decreases s.len(),
{
    lemma_index_of(s, id, user);
    if s.len() > 0 {
        lemma_non_negative_rest(s);
        lemma_total_of_bounds(s.drop_last(), id, user);
        lemma_index_of(s.drop_last(), id, user);
        assert(s.last().amount >= 0);
        if !is_for(s.last(), id, user) && index_of(s, id, user) >= 0 {
            assert(s[index_of(s, id, user)] == s.drop_last()[index_of(s, id, user)]);
        }
    }
}

/// The deposit of `user` in bootstrap `id`: zero where none is recorded.
pub fn get_deposit(deposits: &Vec<DepositEntry>, id: u32, user: Address) -> (amount: i128)
    requires
        distinct(deposits@),
    ensures
        amount == amount_of(deposits@, id, user),
{
    let mut i: usize = 0;
    while i < deposits.len()
        invariant
            i <= deposits.len(),
            distinct(deposits@),
            forall|j: int| 0 <= j < i ==> !is_for(#[trigger] deposits@[j], id, user),
        decreases deposits.len() - i,
    {
        if deposits[i].id == id && deposits[i].user == user {
            proof {
                lemma_index_of_distinct(deposits@, id, user, i as int);
            }
            return deposits[i].amount;
        }
        i += 1;
    }
    proof {
        lemma_index_of(deposits@, id, user);
    }
    0
}

/// Sets the deposit of `user` in bootstrap `id` to `amount`.
pub fn set_deposit(deposits: &mut Vec<DepositEntry>, id: u32, user: Address, amount: i128)
    requires
        distinct(old(deposits)@),
    ensures
        final(deposits)@ == with_deposit(old(deposits)@, id, user, amount),
{
    let mut i: usize = 0;
    while i < deposits.len()
        invariant
            i <= deposits.len(),
            deposits@ == old(deposits)@,
            distinct(deposits@),
            forall|j: int| 0 <= j < i ==> !is_for(#[trigger] deposits@[j], id, user),
        decreases deposits.len() - i,
    {
        if deposits[i].id == id && deposits[i].user == user {
            proof {
                lemma_index_of_distinct(deposits@, id, user, i as int);
            }
            deposits.set(i, DepositEntry { id, user, amount });
            return ;
        }
        i += 1;
    }
    proof {
        lemma_index_of(deposits@, id, user);
    }
    deposits.push(DepositEntry { id, user, amount });
}

} // verus!
