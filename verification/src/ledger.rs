//! Per-user balances of one side of a pool: an association list in which no
//! user occurs twice and a missing user stands for a balance of zero.

use vstd::prelude::*;

verus! {

/// The balance of one user.
pub struct Entry {
    pub user: String,
    pub amount: u128,
}

/// The sum of the first `n` amounts.
pub open spec fn sum_amounts(entries: Seq<Entry>, n: int) -> nat
    decreases n,
{
    if n <= 0 {
        0
    } else {
        sum_amounts(entries, n - 1) + entries[n - 1].amount as nat
    }
}

/// No user has two entries.
pub open spec fn distinct_users(entries: Seq<Entry>) -> bool {
    forall|i: int, j: int|
        0 <= i < j < entries.len() ==> (#[trigger] entries[i]).user@
            != (#[trigger] entries[j]).user@
}

/// Whether `user` has an entry.
pub open spec fn has_entry(entries: Seq<Entry>, user: Seq<char>) -> bool {
    exists|i: int| 0 <= i < entries.len() && (#[trigger] entries[i]).user@ == user
}

/// The balance that the entries record for `user`: zero where there is none.
pub open spec fn amount_of(entries: Seq<Entry>, user: Seq<char>) -> nat {
    if has_entry(entries, user) {
        let i = choose|i: int| 0 <= i < entries.len() && (#[trigger] entries[i]).user@ == user;
        entries[i].amount as nat
    } else {
        0
    }
}

/// With distinct users, the entry at `i` is the one that `amount_of` reads.
pub proof fn lemma_amount_at(entries: Seq<Entry>, i: int)
    requires
        distinct_users(entries),
        0 <= i < entries.len(),
    ensures
        has_entry(entries, entries[i].user@),
        amount_of(entries, entries[i].user@) == entries[i].amount,
{
    let user = entries[i].user@;
    assert(has_entry(entries, user));
    let k = choose|k: int| 0 <= k < entries.len() && (#[trigger] entries[k]).user@ == user;
    assert(k == i);
}

/// Sums over prefixes that agree in their amounts are equal.
pub proof fn lemma_sum_agrees(a: Seq<Entry>, b: Seq<Entry>, n: int)
    requires
        n <= a.len(),
        n <= b.len(),
        forall|k: int| 0 <= k < n ==> (#[trigger] a[k]).amount == (#[trigger] b[k]).amount,
    ensures
        sum_amounts(a, n) == sum_amounts(b, n),
    decreases n,
{
    if n > 0 {
        lemma_sum_agrees(a, b, n - 1);
    }
}

/// Replacing the amount at `i` moves the sum by the difference.
pub proof fn lemma_sum_replaced(a: Seq<Entry>, b: Seq<Entry>, i: int, n: int)
    requires
        0 <= i < n <= a.len(),
        a.len() == b.len(),
        forall|k: int| 0 <= k < n && k != i ==> (#[trigger] a[k]).amount
            == (#[trigger] b[k]).amount,
    ensures
        sum_amounts(b, n) + a[i].amount == sum_amounts(a, n) + b[i].amount,
    decreases n,
{
    if n - 1 == i {
        lemma_sum_agrees(a, b, n - 1);
    } else {
        lemma_sum_replaced(a, b, i, n - 1);
    }
}

/// The sum over a shorter prefix is at most the sum over a longer one.
pub proof fn lemma_sum_monotone(entries: Seq<Entry>, k: int, n: int)
    requires
        k <= n,
    ensures
        sum_amounts(entries, k) <= sum_amounts(entries, n),
    decreases n - k,
{
    if k < n {
        lemma_sum_monotone(entries, k, n - 1);
    }
}

/// No single amount exceeds the sum.
pub proof fn lemma_amount_within_sum(entries: Seq<Entry>, i: int, n: int)
    requires
        0 <= i < n <= entries.len(),
    ensures
        entries[i].amount <= sum_amounts(entries, n),
    decreases n,
{
    if n - 1 > i {
        lemma_amount_within_sum(entries, i, n - 1);
    }
}

/// No recorded balance exceeds the sum of all amounts.
pub proof fn lemma_amount_of_within_sum(entries: Seq<Entry>, user: Seq<char>)
    ensures
        amount_of(entries, user) <= sum_amounts(entries, entries.len() as int),
{
    assert forall|i: int| 0 <= i < entries.len() implies (#[trigger] entries[i]).amount
        <= sum_amounts(entries, entries.len() as int) by {
        lemma_amount_within_sum(entries, i, entries.len() as int);
    }
}

/// One side of a pool's books: who holds how much.
pub struct Ledger {
    entries: Vec<Entry>,
}

impl View for Ledger {
    type V = Seq<Entry>;

    closed spec fn view(&self) -> Seq<Entry> {
        self.entries@
    }
}

impl Ledger {
    /// The ledger's invariant: one entry per user, and a total that fits in
    /// 128 bits.
    pub open spec fn wf(&self) -> bool {
        &&& distinct_users(self@)
        &&& self.total() <= u128::MAX
    }

    /// The balance of `user`.
    pub open spec fn balance_of(&self, user: Seq<char>) -> nat {
        amount_of(self@, user)
    }

    /// The sum of all balances.
    pub open spec fn total(&self) -> nat {
        sum_amounts(self@, self@.len() as int)
    }

    /// A ledger in which every balance is zero.
    pub fn new() -> (r: Ledger)
        ensures
            r.wf(),
            r@.len() == 0,
            r.total() == 0,
            forall|u: Seq<char>| r.balance_of(u) == 0,
    {
        Ledger { entries: Vec::new() }
    }

    /// Rebuilds a ledger from entries that were stored earlier. The entries
    /// are accepted as they are if no user occurs twice and their sum fits
    /// in 128 bits, and refused otherwise.
    pub fn from_entries(entries: Vec<Entry>) -> (r: Option<Ledger>)
        ensures
            match r {
                Some(ledger) => ledger.wf() && ledger@ == entries@,
                None => !distinct_users(entries@) || sum_amounts(entries@, entries@.len() as int)
                    > u128::MAX,
            },
    {
        let mut sum: u128 = 0;
        let mut i: usize = 0;
        while i < entries.len()
            invariant
                i <= entries.len(),
                sum == sum_amounts(entries@, i as int),
                forall|a: int, b: int|
                    0 <= a < b < i ==> (#[trigger] entries@[a]).user@
                        != (#[trigger] entries@[b]).user@,
            decreases entries.len() - i,
        {
            let mut j: usize = 0;
            while j < i
                invariant
                    j <= i,
                    i < entries.len(),
                    forall|a: int| 0 <= a < j ==> (#[trigger] entries@[a]).user@
                        != entries@[i as int].user@,
                decreases i - j,
            {
                if entries[j].user == entries[i].user {
                    return None;
                }
                j += 1;
            }
            sum = match sum.checked_add(entries[i].amount) {
                Some(sum) => sum,
                None => {
                    proof {
                        lemma_sum_monotone(entries@, i as int + 1, entries@.len() as int);
                    }
                    return None;
                },
            };
            i += 1;
        }
        Some(Ledger { entries })
    }

    /// Whether the ledger has no entry at all.
    pub fn is_empty(&self) -> (r: bool)
        ensures
            r == (self@.len() == 0),
    {
        self.entries.len() == 0
    }

    /// The sum of all balances.
    pub fn sum(&self) -> (r: u128)
        requires
            self.wf(),
        ensures
            r == self.total(),
    {
        let mut sum: u128 = 0;
        let mut i: usize = 0;
        while i < self.entries.len()
            invariant
                i <= self.entries.len(),
                sum == sum_amounts(self@, i as int),
                self.total() <= u128::MAX,
            decreases self.entries.len() - i,
        {
            proof {
                lemma_sum_monotone(self@, i as int + 1, self@.len() as int);
            }
            sum = sum + self.entries[i].amount;
            i += 1;
        }
        sum
    }

    /// No balance exceeds the total.
    pub proof fn lemma_balance_within_total(&self, user: Seq<char>)
        ensures
            self.balance_of(user) <= self.total(),
    {
        lemma_amount_of_within_sum(self@, user);
    }

    fn position(&self, user: &String) -> (r: Option<usize>)
        ensures
            match r {
                Some(i) => i < self@.len() && self@[i as int].user@ == user@,
                None => !has_entry(self@, user@),
            },
    {
        let mut i: usize = 0;
        while i < self.entries.len()
            invariant
                i <= self.entries.len(),
                forall|k: int| 0 <= k < i ==> (#[trigger] self.entries@[k]).user@ != user@,
            decreases self.entries.len() - i,
        {
            if self.entries[i].user == *user {
                return Some(i);
            }
            i += 1;
        }
        None
    }

    /// The balance of `user`; zero for a user the ledger has never seen.
    pub fn get(&self, user: &String) -> (r: u128)
        requires
            self.wf(),
        ensures
            r == self.balance_of(user@),
    {
        match self.position(user) {
            Some(i) => {
                proof {
                    lemma_amount_at(self@, i as int);
                }
                self.entries[i].amount
            },
            None => 0,
        }
    }

    /// Adds `amount` to the balance of `user`.
    pub fn credit(&mut self, user: &String, amount: u128)
        requires
            old(self).wf(),
            old(self).total() + amount <= u128::MAX,
        ensures
            final(self).wf(),
            final(self).balance_of(user@) == old(self).balance_of(user@) + amount,
            forall|u: Seq<char>|
                u != user@ ==> #[trigger] amount_of(final(self)@, u) == amount_of(old(self)@, u),
            final(self).total() == old(self).total() + amount,
    {
        let ghost before = self@;
        match self.position(user) {
            Some(i) => {
                proof {
                    lemma_amount_at(before, i as int);
                    lemma_amount_within_sum(before, i as int, before.len() as int);
                }
                let raised: u128 = self.entries[i].amount + amount;
                self.entries.set(i, Entry { user: user.clone(), amount: raised });
                proof {
                    Self::lemma_replaced(before, self@, i as int);
                }
            },
            None => {
                self.entries.push(Entry { user: user.clone(), amount });
                proof {
                    Self::lemma_appended(before, self@);
                }
            },
        }
    }

    /// Takes `amount` from the balance of `user`.
    pub fn debit(&mut self, user: &String, amount: u128)
        requires
            old(self).wf(),
            amount <= old(self).balance_of(user@),
        ensures
            final(self).wf(),
            final(self).balance_of(user@) == old(self).balance_of(user@) - amount,
            forall|u: Seq<char>|
                u != user@ ==> #[trigger] amount_of(final(self)@, u) == amount_of(old(self)@, u),
            final(self).total() == old(self).total() - amount,
    {
        let ghost before = self@;
        match self.position(user) {
            Some(i) => {
                proof {
                    lemma_amount_at(before, i as int);
                }
                let lowered: u128 = self.entries[i].amount - amount;
                self.entries.set(i, Entry { user: user.clone(), amount: lowered });
                proof {
                    Self::lemma_replaced(before, self@, i as int);
                }
            },
            None => {},
        }
    }

    /// What replacing the amount of the entry at `i` does to every balance
    /// and to the total.
    proof fn lemma_replaced(before: Seq<Entry>, after: Seq<Entry>, i: int)
        requires
            distinct_users(before),
            0 <= i < before.len(),
            after.len() == before.len(),
            forall|k: int| 0 <= k < before.len() ==> (#[trigger] after[k]).user@ == before[k].user@,
            forall|k: int|
                0 <= k < before.len() && k != i ==> (#[trigger] after[k]).amount
                    == before[k].amount,
        ensures
            distinct_users(after),
            amount_of(after, before[i].user@) == after[i].amount,
            forall|u: Seq<char>|
                u != before[i].user@ ==> #[trigger] amount_of(after, u) == amount_of(before, u),
            sum_amounts(after, after.len() as int) + before[i].amount == sum_amounts(
                before,
                before.len() as int,
            ) + after[i].amount,
    {
        assert(distinct_users(after)) by {
            assert forall|a: int, b: int| 0 <= a < b < after.len()
                implies (#[trigger] after[a]).user@
                != (#[trigger] after[b]).user@ by {
                assert(before[a].user@ != before[b].user@);
            }
        }
        lemma_amount_at(after, i);
        assert forall|u: Seq<char>| u != before[i].user@ implies #[trigger] amount_of(after, u)
            == amount_of(before, u) by {
            if has_entry(before, u) {
                let k = choose|k: int| 0 <= k < before.len() && (#[trigger] before[k]).user@ == u;
                assert(after[k].user@ == u);
                lemma_amount_at(after, k);
                lemma_amount_at(before, k);
            } else if has_entry(after, u) {
                let k = choose|k: int| 0 <= k < after.len() && (#[trigger] after[k]).user@ == u;
                assert(before[k].user@ == u);
            }
        }
        lemma_sum_replaced(before, after, i, before.len() as int);
    }

    /// What appending an entry for a new user does to every balance and to
    /// the total.
    proof fn lemma_appended(before: Seq<Entry>, after: Seq<Entry>)
        requires
            distinct_users(before),
            after.len() == before.len() + 1,
            forall|k: int| 0 <= k < before.len() ==> (#[trigger] after[k]) == before[k],
            !has_entry(before, after[before.len() as int].user@),
        ensures
            distinct_users(after),
            amount_of(after, after[before.len() as int].user@) == after[before.len() as int].amount,
            forall|u: Seq<char>|
                u != after[before.len() as int].user@ ==> #[trigger] amount_of(after, u)
                    == amount_of(before, u),
            sum_amounts(after, after.len() as int) == sum_amounts(before, before.len() as int)
                + after[before.len() as int].amount,
    {
        let n = before.len() as int;
        assert(distinct_users(after)) by {
            assert forall|a: int, b: int| 0 <= a < b < after.len()
                implies (#[trigger] after[a]).user@
                != (#[trigger] after[b]).user@ by {
                if b < n {
                    assert(before[a].user@ != before[b].user@);
                } else {
                    assert(before[a].user@ == after[a].user@);
                }
            }
        }
        lemma_amount_at(after, n);
        assert forall|u: Seq<char>| u != after[n].user@ implies #[trigger] amount_of(after, u)
            == amount_of(before, u) by {
            if has_entry(before, u) {
                let k = choose|k: int| 0 <= k < before.len() && (#[trigger] before[k]).user@ == u;
                assert(after[k].user@ == u);
                lemma_amount_at(after, k);
                lemma_amount_at(before, k);
            } else if has_entry(after, u) {
                let k = choose|k: int| 0 <= k < after.len() && (#[trigger] after[k]).user@ == u;
                assert(before[k].user@ == u);
            }
        }
        lemma_sum_agrees(before, after, n);
    }
}

} // verus!
