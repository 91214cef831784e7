//! The pool's accounting engine: deposit, withdraw, borrow and repay on the
//! ledger of one asset.

use crate::comptroller::contract::AccountLiquidityResponse;
use crate::comptroller::msg::{DeltaSpec, HypotheticalDelta};
use crate::error::ContractError;
use crate::ledger::{amount_of, distinct_users, sum_amounts, Entry, Ledger};
use crate::market::msg::{ExecuteMsg, InstantiateMsg, QueryMsg};
use crate::market::state::MarketState;
use vstd::prelude::*;

verus! {

/// The operation that a response reports.
#[derive(Clone, Copy, Debug, PartialEq, Eq, Structural)]
pub enum Action {
    Deposit,
    Withdraw,
    Borrow,
    Repay,
}

/// An order to the settlement layer: pay `amount` of `denom` to `recipient`.
/// The pool emits it and never moves funds itself.
#[derive(Clone, Debug, PartialEq, Eq)]
pub struct TransferInstruction {
    pub recipient: String,
    pub denom: String,
    pub amount: u128,
}

/// What a committed operation reports: the amount that was applied and the
/// transfers that settlement has to carry out.
#[derive(Clone, Debug, PartialEq, Eq)]
pub struct PoolResponse {
    pub action: Action,
    pub user: String,
    pub amount: u128,
    pub transfers: Vec<TransferInstruction>,
}

/// The balances of one user in one pool.
#[derive(Clone, Copy, Debug, PartialEq, Eq, Structural)]
pub struct UserBalancesResponse {
    pub supplied_balance: u128,
    pub borrowed_balance: u128,
}

/// The mathematical content of a pool.
pub struct PoolView {
    pub state: Option<MarketState>,
    pub supplied: Seq<Entry>,
    pub borrowed: Seq<Entry>,
}

impl PoolView {
    /// Each ledger holds one entry per user; before instantiation both are
    /// empty; afterwards each total equals the sum of the balances on its
    /// side.
    pub open spec fn valid(&self) -> bool {
        &&& distinct_users(self.supplied)
        &&& distinct_users(self.borrowed)
        &&& match self.state {
            Some(state) => {
                &&& state.total_supplied == sum_amounts(self.supplied, self.supplied.len() as int)
                &&& state.total_borrowed == sum_amounts(self.borrowed, self.borrowed.len() as int)
            },
            None => self.supplied.len() == 0 && self.borrowed.len() == 0,
        }
    }
}

/// A pool: the singleton state, once instantiated, and the two balance maps.
pub struct Pool {
    state: Option<MarketState>,
    supplied: Ledger,
    borrowed: Ledger,
}

impl View for Pool {
    type V = PoolView;

    closed spec fn view(&self) -> PoolView {
        PoolView { state: self.state, supplied: self.supplied@, borrowed: self.borrowed@ }
    }
}

impl Pool {
    /// The pool's invariant: its content is valid.
    pub open spec fn wf(&self) -> bool {
        self@.valid()
    }

    /// Whether the singleton state exists.
    pub open spec fn is_initialized(&self) -> bool {
        self@.state.is_some()
    }

    /// The asset that the pool keeps the books of.
    pub open spec fn asset_id(&self) -> Seq<char> {
        self@.state->Some_0.asset_id@
    }

    /// The denomination in which the pool orders payouts.
    pub open spec fn underlying_denom(&self) -> Seq<char> {
        self@.state->Some_0.underlying_denom@
    }

    /// The recorded total of deposits; zero before instantiation.
    pub open spec fn total_supplied(&self) -> nat {
        match self@.state {
            Some(state) => state.total_supplied as nat,
            None => 0,
        }
    }

    /// The recorded total of loans; zero before instantiation.
    pub open spec fn total_borrowed(&self) -> nat {
        match self@.state {
            Some(state) => state.total_borrowed as nat,
            None => 0,
        }
    }

    /// The recorded reserves; zero before instantiation.
    pub open spec fn reserves(&self) -> nat {
        match self@.state {
            Some(state) => state.reserves as nat,
            None => 0,
        }
    }

    /// What `user` has deposited; zero for a user without an entry.
    pub open spec fn supplied_balance(&self, user: Seq<char>) -> nat {
        amount_of(self@.supplied, user)
    }

    /// What `user` owes; zero for a user without an entry.
    pub open spec fn borrowed_balance(&self, user: Seq<char>) -> nat {
        amount_of(self@.borrowed, user)
    }

    /// The sum of all deposits, taken over the balances themselves.
    pub open spec fn sum_supplied(&self) -> nat {
        sum_amounts(self@.supplied, self@.supplied.len() as int)
    }

    /// The sum of all loans, taken over the balances themselves.
    pub open spec fn sum_borrowed(&self) -> nat {
        sum_amounts(self@.borrowed, self@.borrowed.len() as int)
    }

    /// The asset, the denomination and the reserves are those of `before`.
    pub open spec fn same_identity(&self, before: Pool) -> bool {
        &&& self.is_initialized() == before.is_initialized()
        &&& self.asset_id() == before.asset_id()
        &&& self.underlying_denom() == before.underlying_denom()
        &&& self.reserves() == before.reserves()
    }

    /// The pool is `before` with the deposit of `user` set to `balance` and
    /// the total moved by the same difference; nothing else differs.
    pub open spec fn supply_changed(&self, before: Pool, user: Seq<char>, balance: int) -> bool {
        &&& self.same_identity(before)
        &&& self.supplied_balance(user) == balance
        &&& forall|u: Seq<char>|
            u != user ==> #[trigger] amount_of(self@.supplied, u) == amount_of(before@.supplied, u)
        &&& self.total_supplied() + before.supplied_balance(user) == before.total_supplied()
            + balance
        &&& self@.borrowed == before@.borrowed
        &&& self.total_borrowed() == before.total_borrowed()
    }

    /// The pool is `before` with the debt of `user` set to `balance` and the
    /// total moved by the same difference; nothing else differs.
    pub open spec fn debt_changed(&self, before: Pool, user: Seq<char>, balance: int) -> bool {
        &&& self.same_identity(before)
        &&& self.borrowed_balance(user) == balance
        &&& forall|u: Seq<char>|
            u != user ==> #[trigger] amount_of(self@.borrowed, u) == amount_of(before@.borrowed, u)
        &&& self.total_borrowed() + before.borrowed_balance(user) == before.total_borrowed()
            + balance
        &&& self@.supplied == before@.supplied
        &&& self.total_supplied() == before.total_supplied()
    }

    /// A pool that has not been instantiated: no state, every balance zero.
    pub fn new() -> (pool: Pool)
        ensures
            pool.wf(),
            !pool.is_initialized(),
            pool@.supplied.len() == 0,
            pool@.borrowed.len() == 0,
    {
        Pool { state: None, supplied: Ledger::new(), borrowed: Ledger::new() }
    }

    /// Rebuilds a pool from what was stored earlier: the singleton state,
    /// if there is one, and the entries of both sides. The parts are
    /// accepted as they are if together they are valid, and refused
    /// otherwise.
    pub fn restore(state: Option<MarketState>, supplied: Vec<Entry>, borrowed: Vec<Entry>) -> (r:
        Option<Pool>)
        ensures
            match r {
                Some(pool) => pool.wf() && pool@ == (PoolView {
                    state,
                    supplied: supplied@,
                    borrowed: borrowed@,
                }),
                None => !(PoolView { state, supplied: supplied@, borrowed: borrowed@ }).valid(),
            },
    {
        let supplied = match Ledger::from_entries(supplied) {
            Some(ledger) => ledger,
            None => {
                return None;
            },
        };
        let borrowed = match Ledger::from_entries(borrowed) {
            Some(ledger) => ledger,
            None => {
                return None;
            },
        };
        let matches = match &state {
            Some(state) => state.total_supplied == supplied.sum() && state.total_borrowed
                == borrowed.sum(),
            None => supplied.is_empty() && borrowed.is_empty(),
        };
        if matches {
            Some(Pool { state, supplied, borrowed })
        } else {
            None
        }
    }

    /// The singleton state, if the pool has been instantiated.
    pub fn state(&self) -> (r: &Option<MarketState>)
        ensures
            *r == self@.state,
    {
        &self.state
    }
}

/// In a well-formed pool each recorded total is the sum of the balances on
/// its side, and no balance exceeds its total.
pub proof fn lemma_totals_are_sums(pool: Pool, user: Seq<char>)
    requires
        pool.wf(),
    ensures
        pool.total_supplied() == pool.sum_supplied(),
        pool.total_borrowed() == pool.sum_borrowed(),
        pool.supplied_balance(user) <= pool.total_supplied(),
        pool.borrowed_balance(user) <= pool.total_borrowed(),
{
    crate::ledger::lemma_amount_of_within_sum(pool@.supplied, user);
    crate::ledger::lemma_amount_of_within_sum(pool@.borrowed, user);
    if pool@.state.is_none() {
        assert(sum_amounts(pool@.supplied, 0) == 0);
        assert(sum_amounts(pool@.borrowed, 0) == 0);
    }
}

/// What a response reports: the action, the user, the applied amount, and
/// either no transfer or exactly one, of that amount of `denom` to the user.
pub open spec fn reports(
    response: PoolResponse,
    action: Action,
    user: Seq<char>,
    amount: u128,
    denom: Seq<char>,
    pays_out: bool,
) -> bool {
    &&& response.action == action
    &&& response.user@ == user
    &&& response.amount == amount
    &&& if pays_out {
        &&& response.transfers@.len() == 1
        &&& response.transfers@[0].recipient@ == user
        &&& response.transfers@[0].denom@ == denom
        &&& response.transfers@[0].amount == amount
    } else {
        response.transfers@.len() == 0
    }
}

/// The failure `error`, with the pool left as it was.
pub open spec fn rejected(
    before: Pool,
    after: Pool,
    r: Result<PoolResponse, ContractError>,
    error: ContractError,
) -> bool {
    r == Err::<PoolResponse, ContractError>(error) && after == before
}

/// What the pool's own state has against an operation, before anything is
/// asked of the risk engine: `None` where it has nothing against it.
pub open spec fn local_check(pool: Pool, sender: Seq<char>, msg: ExecuteMsg) -> Option<
    ContractError,
> {
    if !pool.is_initialized() {
        Some(ContractError::PoolUninitialized)
    } else {
        match msg {
            ExecuteMsg::Deposit { amount } => if amount == 0 {
                Some(ContractError::ZeroAmount)
            } else if pool.total_supplied() + amount > u128::MAX {
                Some(ContractError::Overflow)
            } else {
                None
            },
            ExecuteMsg::Withdraw { amount } => if amount == 0 {
                Some(ContractError::ZeroAmount)
            } else if amount > pool.supplied_balance(sender) {
                Some(
                    ContractError::InsufficientBalance {
                        requested: amount,
                        available: pool.supplied_balance(sender) as u128,
                    },
                )
            } else {
                None
            },
            ExecuteMsg::Borrow { amount } => if amount == 0 {
                Some(ContractError::ZeroAmount)
            } else if pool.total_borrowed() + amount > u128::MAX {
                Some(ContractError::Overflow)
            } else {
                None
            },
            ExecuteMsg::Repay { amount } => if amount == 0 {
                Some(ContractError::ZeroAmount)
            } else if pool.borrowed_balance(sender) == 0 {
                Some(ContractError::NoOutstandingDebt)
            } else {
                None
            },
        }
    }
}

/// Whether `delta` is the change that `msg` would make in the pool of
/// `asset`.
pub open spec fn is_delta_of(delta: DeltaSpec, asset: Seq<char>, msg: ExecuteMsg) -> bool {
    &&& delta.asset_id == asset
    &&& match msg {
        ExecuteMsg::Withdraw { amount } => delta.withdraw_amount == amount && delta.borrow_amount
            == 0,
        ExecuteMsg::Borrow { amount } => delta.withdraw_amount == 0 && delta.borrow_amount
            == amount,
        _ => false,
    }
}

/// The contract of a deposit.
pub open spec fn deposit_spec(
    before: Pool,
    after: Pool,
    sender: Seq<char>,
    amount: u128,
    r: Result<PoolResponse, ContractError>,
) -> bool {
    match local_check(before, sender, ExecuteMsg::Deposit { amount }) {
        Some(error) => rejected(before, after, r, error),
        None => {
            &&& r matches Ok(response)
            &&& reports(response, Action::Deposit, sender, amount, before.underlying_denom(), false)
            &&& after.supply_changed(before, sender, before.supplied_balance(sender) + amount)
        },
    }
}

/// The contract of a withdrawal. `projected` is the account's liquidity as
/// the risk engine computes it with this withdrawal already applied.
pub open spec fn withdraw_spec(
    before: Pool,
    after: Pool,
    sender: Seq<char>,
    amount: u128,
    projected: AccountLiquidityResponse,
    r: Result<PoolResponse, ContractError>,
) -> bool {
    match local_check(before, sender, ExecuteMsg::Withdraw { amount }) {
        Some(error) => rejected(before, after, r, error),
        None => if !projected.is_solvent() {
            rejected(
                before,
                after,
                r,
                ContractError::WithdrawalUnsafe {
                    collateral_value: projected.collateral_value,
                    debt_value: projected.debt_value,
                },
            )
        } else {
            &&& r matches Ok(response)
            &&& reports(response, Action::Withdraw, sender, amount, before.underlying_denom(), true)
            &&& after.supply_changed(before, sender, before.supplied_balance(sender) - amount)
        },
    }
}

/// The contract of a borrow. `projected` is the account's liquidity as the
/// risk engine computes it with the new debt already counted.
pub open spec fn borrow_spec(
    before: Pool,
    after: Pool,
    sender: Seq<char>,
    amount: u128,
    projected: AccountLiquidityResponse,
    r: Result<PoolResponse, ContractError>,
) -> bool {
    match local_check(before, sender, ExecuteMsg::Borrow { amount }) {
        Some(error) => rejected(before, after, r, error),
        None => if !projected.is_solvent() {
            rejected(
                before,
                after,
                r,
                ContractError::BorrowUnsafe {
                    collateral_value: projected.collateral_value,
                    debt_value: projected.debt_value,
                },
            )
        } else {
            &&& r matches Ok(response)
            &&& reports(response, Action::Borrow, sender, amount, before.underlying_denom(), true)
            &&& after.debt_changed(before, sender, before.borrowed_balance(sender) + amount)
        },
    }
}

/// The part of an offered repayment that is applied: never more than is owed.
pub open spec fn applied_repayment(amount: u128, owed: nat) -> nat {
    if amount <= owed {
        amount as nat
    } else {
        owed
    }
}

/// The contract of a repayment.
pub open spec fn repay_spec(
    before: Pool,
    after: Pool,
    sender: Seq<char>,
    amount: u128,
    r: Result<PoolResponse, ContractError>,
) -> bool {
    match local_check(before, sender, ExecuteMsg::Repay { amount }) {
        Some(error) => rejected(before, after, r, error),
        None => {
            let applied = applied_repayment(amount, before.borrowed_balance(sender));
            &&& r matches Ok(response)
            &&& reports(
                response,
                Action::Repay,
                sender,
                applied as u128,
                before.underlying_denom(),
                false,
            )
            &&& after.debt_changed(before, sender, before.borrowed_balance(sender) - applied)
        },
    }
}

/// The contract of any of the four operations.
pub open spec fn execute_spec(
    before: Pool,
    after: Pool,
    sender: Seq<char>,
    msg: ExecuteMsg,
    projected: AccountLiquidityResponse,
    r: Result<PoolResponse, ContractError>,
) -> bool {
    match msg {
        ExecuteMsg::Deposit { amount } => deposit_spec(before, after, sender, amount, r),
        ExecuteMsg::Withdraw { amount } => withdraw_spec(
            before,
            after,
            sender,
            amount,
            projected,
            r,
        ),
        ExecuteMsg::Borrow { amount } => borrow_spec(before, after, sender, amount, projected, r),
        ExecuteMsg::Repay { amount } => repay_spec(before, after, sender, amount, r),
    }
}

/// A deposit followed by a withdrawal of the same amount, by a user whose
/// account stays solvent, is committed, returns the user's deposit and the
/// pool's total to what they were, and orders exactly one payout, of that
/// amount, to that user.
pub proof fn lemma_deposit_withdraw_round_trip(
    start: Pool,
    deposited: Pool,
    withdrawn: Pool,
    user: Seq<char>,
    amount: u128,
    projected: AccountLiquidityResponse,
    first: Result<PoolResponse, ContractError>,
    second: Result<PoolResponse, ContractError>,
)
    requires
        deposit_spec(start, deposited, user, amount, first),
        first.is_ok(),
        withdraw_spec(deposited, withdrawn, user, amount, projected, second),
        projected.is_solvent(),
    ensures
        second matches Ok(response) && reports(
            response,
            Action::Withdraw,
            user,
            amount,
            start.underlying_denom(),
            true,
        ),
        withdrawn.supplied_balance(user) == start.supplied_balance(user),
        withdrawn.total_supplied() == start.total_supplied(),
        forall|u: Seq<char>| withdrawn.supplied_balance(u) == start.supplied_balance(u),
        forall|u: Seq<char>| withdrawn.borrowed_balance(u) == start.borrowed_balance(u),
        withdrawn.total_borrowed() == start.total_borrowed(),
{
    assert forall|u: Seq<char>| withdrawn.supplied_balance(u) == start.supplied_balance(u) by {
        if u != user {
            assert(amount_of(deposited@.supplied, u) == amount_of(start@.supplied, u));
            assert(amount_of(withdrawn@.supplied, u) == amount_of(deposited@.supplied, u));
        }
    }
}

/// A repayment never takes a balance below zero: what is applied is the
/// smaller of what is offered and what is owed, and the debt afterwards is
/// the rest.
pub proof fn lemma_repay_is_clamped(
    before: Pool,
    after: Pool,
    user: Seq<char>,
    amount: u128,
    r: Result<PoolResponse, ContractError>,
)
    requires
        repay_spec(before, after, user, amount, r),
        r.is_ok(),
    ensures
        r->Ok_0.amount <= amount,
        r->Ok_0.amount <= before.borrowed_balance(user),
        after.borrowed_balance(user) + r->Ok_0.amount == before.borrowed_balance(user),
        amount >= before.borrowed_balance(user) ==> after.borrowed_balance(user) == 0,
{
}

/// Creates the pool's state with all totals at zero. A pool is instantiated
/// once: a second call is rejected and changes nothing.
pub fn instantiate(pool: &mut Pool, msg: InstantiateMsg) -> (r: Result<(), ContractError>)
    requires
        old(pool).wf(),
    ensures
        final(pool).wf(),
        old(pool).is_initialized() ==> r == Err::<(), ContractError>(
            ContractError::PoolAlreadyInitialized,
        ) && *final(pool) == *old(pool),
        !old(pool).is_initialized() ==> {
            &&& r.is_ok()
            &&& final(pool).is_initialized()
            &&& final(pool).asset_id() == msg.asset_id@
            &&& final(pool).underlying_denom() == msg.underlying_denom@
            &&& final(pool).total_supplied() == 0
            &&& final(pool).total_borrowed() == 0
            &&& final(pool).reserves() == 0
            &&& final(pool)@.supplied == old(pool)@.supplied
            &&& final(pool)@.borrowed == old(pool)@.borrowed
        },
{
    if pool.state.is_some() {
        return Err(ContractError::PoolAlreadyInitialized);
    }
    assert(sum_amounts(pool@.supplied, 0) == 0);
    assert(sum_amounts(pool@.borrowed, 0) == 0);
    pool.state = Some(
        MarketState {
            asset_id: msg.asset_id,
            underlying_denom: msg.underlying_denom,
            total_supplied: 0,
            total_borrowed: 0,
            reserves: 0,
        },
    );
    Ok(())
}

/// Applies one ledger operation on behalf of `sender`. `projected` is the
/// risk engine's answer for the sender with the operation's effect applied;
/// only a withdrawal and a borrow read it.
pub fn execute(
    pool: &mut Pool,
    sender: &String,
    msg: ExecuteMsg,
    projected: &AccountLiquidityResponse,
) -> (r: Result<PoolResponse, ContractError>)
    requires
        old(pool).wf(),
    ensures
        final(pool).wf(),
        execute_spec(*old(pool), *final(pool), sender@, msg, *projected, r),
{
    match msg {
        ExecuteMsg::Deposit { amount } => execute_deposit(pool, sender, amount),
        ExecuteMsg::Withdraw { amount } => execute_withdraw(pool, sender, amount, projected),
        ExecuteMsg::Borrow { amount } => execute_borrow(pool, sender, amount, projected),
        ExecuteMsg::Repay { amount } => execute_repay(pool, sender, amount),
    }
}

/// What has to be asked of the risk engine before `msg` can be executed.
///
/// Where the pool's own state already rejects the operation, the error is
/// the one that `execute` returns. Otherwise a withdrawal and a borrow need
/// the sender's liquidity projected for the returned delta; a deposit and a
/// repayment need nothing.
pub fn liquidity_request(pool: &Pool, sender: &String, msg: &ExecuteMsg) -> (r: Result<
    Option<HypotheticalDelta>,
    ContractError,
>)
    requires
        pool.wf(),
    ensures
        match local_check(*pool, sender@, *msg) {
            Some(error) => r == Err::<Option<HypotheticalDelta>, ContractError>(error),
            None => match *msg {
                ExecuteMsg::Withdraw { .. } | ExecuteMsg::Borrow { .. } => r matches Ok(Some(delta))
                    && is_delta_of(delta@, pool.asset_id(), *msg),
                _ => r matches Ok(None),
            },
        },
{
    let state = match pool.state() {
        Some(state) => state,
        None => {
            return Err(ContractError::PoolUninitialized);
        },
    };
    proof {
        lemma_totals_are_sums(*pool, sender@);
    }
    match *msg {
        ExecuteMsg::Deposit { amount } => {
            if amount == 0 {
                Err(ContractError::ZeroAmount)
            } else if state.total_supplied.checked_add(amount).is_none() {
                Err(ContractError::Overflow)
            } else {
                Ok(None)
            }
        },
        ExecuteMsg::Withdraw { amount } => {
            let available: u128 = pool.supplied.get(sender);
            if amount == 0 {
                Err(ContractError::ZeroAmount)
            } else if amount > available {
                Err(ContractError::InsufficientBalance { requested: amount, available })
            } else {
                Ok(
                    Some(
                        HypotheticalDelta {
                            asset_id: state.asset_id.clone(),
                            withdraw_amount: amount,
                            borrow_amount: 0,
                        },
                    ),
                )
            }
        },
        ExecuteMsg::Borrow { amount } => {
            if amount == 0 {
                Err(ContractError::ZeroAmount)
            } else if state.total_borrowed.checked_add(amount).is_none() {
                Err(ContractError::Overflow)
            } else {
                Ok(
                    Some(
                        HypotheticalDelta {
                            asset_id: state.asset_id.clone(),
                            withdraw_amount: 0,
                            borrow_amount: amount,
                        },
                    ),
                )
            }
        },
        ExecuteMsg::Repay { amount } => {
            if amount == 0 {
                Err(ContractError::ZeroAmount)
            } else if pool.borrowed.get(sender) == 0 {
                Err(ContractError::NoOutstandingDebt)
            } else {
                Ok(None)
            }
        },
    }
}

/// Answers a read-only request. Balances can be read at any time, also
/// before the pool is instantiated, when all of them are zero.
pub fn query(pool: &Pool, msg: &QueryMsg) -> (r: UserBalancesResponse)
    requires
        pool.wf(),
    ensures
        match *msg {
            QueryMsg::GetBalances { user } => {
                &&& r.supplied_balance == pool.supplied_balance(user@)
                &&& r.borrowed_balance == pool.borrowed_balance(user@)
            },
        },
{
    match msg {
        QueryMsg::GetBalances { user } => query_balances(pool, user),
    }
}

/// Credits `amount` to the sender's deposit and to the total. The deposited
/// funds are taken to be in the pool's custody already.
pub fn execute_deposit(pool: &mut Pool, sender: &String, amount: u128) -> (r: Result<
    PoolResponse,
    ContractError,
>)
    requires
        old(pool).wf(),
    ensures
        final(pool).wf(),
        deposit_spec(*old(pool), *final(pool), sender@, amount, r),
{
    let total: u128 = match &pool.state {
        Some(state) => state.total_supplied,
        None => {
            return Err(ContractError::PoolUninitialized);
        },
    };
    if amount == 0 {
        return Err(ContractError::ZeroAmount);
    }
    let raised: u128 = match total.checked_add(amount) {
        Some(raised) => raised,
        None => {
            return Err(ContractError::Overflow);
        },
    };
    proof {
        lemma_totals_are_sums(*pool, sender@);
    }
    pool.supplied.credit(sender, amount);
    set_total_supplied(pool, raised);
    Ok(PoolResponse { action: Action::Deposit, user: sender.clone(), amount,
        transfers: Vec::new() })
}

/// Debits `amount` from the sender's deposit and from the total, and orders
/// the payout, provided the balance covers it and the account stays solvent.
pub fn execute_withdraw(
    pool: &mut Pool,
    sender: &String,
    amount: u128,
    projected: &AccountLiquidityResponse,
) -> (r: Result<PoolResponse, ContractError>)
    requires
        old(pool).wf(),
    ensures
        final(pool).wf(),
        withdraw_spec(*old(pool), *final(pool), sender@, amount, *projected, r),
{
    let (total, denom): (u128, String) = match &pool.state {
        Some(state) => (state.total_supplied, state.underlying_denom.clone()),
        None => {
            return Err(ContractError::PoolUninitialized);
        },
    };
    if amount == 0 {
        return Err(ContractError::ZeroAmount);
    }
    proof {
        lemma_totals_are_sums(*pool, sender@);
    }
    let available: u128 = pool.supplied.get(sender);
    if amount > available {
        return Err(ContractError::InsufficientBalance { requested: amount, available });
    }
    if !projected.solvent() {
        return Err(
            ContractError::WithdrawalUnsafe {
                collateral_value: projected.collateral_value,
                debt_value: projected.debt_value,
            },
        );
    }
    pool.supplied.debit(sender, amount);
    set_total_supplied(pool, total - amount);
    let mut transfers: Vec<TransferInstruction> = Vec::new();
    transfers.push(TransferInstruction { recipient: sender.clone(), denom, amount });
    Ok(PoolResponse { action: Action::Withdraw, user: sender.clone(), amount, transfers })
}

/// Adds `amount` to the sender's debt and to the total, and orders the
/// payout, provided the account stays solvent with the new debt.
pub fn execute_borrow(
    pool: &mut Pool,
    sender: &String,
    amount: u128,
    projected: &AccountLiquidityResponse,
) -> (r: Result<PoolResponse, ContractError>)
    requires
        old(pool).wf(),
    ensures
        final(pool).wf(),
        borrow_spec(*old(pool), *final(pool), sender@, amount, *projected, r),
{
    let (total, denom): (u128, String) = match &pool.state {
        Some(state) => (state.total_borrowed, state.underlying_denom.clone()),
        None => {
            return Err(ContractError::PoolUninitialized);
        },
    };
    if amount == 0 {
        return Err(ContractError::ZeroAmount);
    }
    let raised: u128 = match total.checked_add(amount) {
        Some(raised) => raised,
        None => {
            return Err(ContractError::Overflow);
        },
    };
    if !projected.solvent() {
        return Err(
            ContractError::BorrowUnsafe {
                collateral_value: projected.collateral_value,
                debt_value: projected.debt_value,
            },
        );
    }
    proof {
        lemma_totals_are_sums(*pool, sender@);
    }
    pool.borrowed.credit(sender, amount);
    set_total_borrowed(pool, raised);
    let mut transfers: Vec<TransferInstruction> = Vec::new();
    transfers.push(TransferInstruction { recipient: sender.clone(), denom, amount });
    Ok(PoolResponse { action: Action::Borrow, user: sender.clone(), amount, transfers })
}

/// Reduces the sender's debt and the total by what is offered, at most by
/// what is owed, and reports the amount that was applied.
pub fn execute_repay(pool: &mut Pool, sender: &String, amount: u128) -> (r: Result<
    PoolResponse,
    ContractError,
>)
    requires
        old(pool).wf(),
    ensures
        final(pool).wf(),
        repay_spec(*old(pool), *final(pool), sender@, amount, r),
{
    let total: u128 = match &pool.state {
        Some(state) => state.total_borrowed,
        None => {
            return Err(ContractError::PoolUninitialized);
        },
    };
    if amount == 0 {
        return Err(ContractError::ZeroAmount);
    }
    proof {
        lemma_totals_are_sums(*pool, sender@);
    }
    let owed: u128 = pool.borrowed.get(sender);
    if owed == 0 {
        return Err(ContractError::NoOutstandingDebt);
    }
    let applied: u128 = if amount > owed {
        owed
    } else {
        amount
    };
    pool.borrowed.debit(sender, applied);
    set_total_borrowed(pool, total - applied);
    Ok(
        PoolResponse {
            action: Action::Repay,
            user: sender.clone(),
            amount: applied,
            transfers: Vec::new(),
        },
    )
}

/// The balances of `user`; zero where the pool has no entry.
pub fn query_balances(pool: &Pool, user: &String) -> (r: UserBalancesResponse)
    requires
        pool.wf(),
    ensures
        r.supplied_balance == pool.supplied_balance(user@),
        r.borrowed_balance == pool.borrowed_balance(user@),
{
    proof {
        lemma_totals_are_sums(*pool, user@);
    }
    UserBalancesResponse {
        supplied_balance: pool.supplied.get(user),
        borrowed_balance: pool.borrowed.get(user),
    }
}

fn set_total_supplied(pool: &mut Pool, total: u128)
    requires
        old(pool).state.is_some(),
    ensures
        final(pool).supplied == old(pool).supplied,
        final(pool).borrowed == old(pool).borrowed,
        final(pool).state == Some(
            MarketState { total_supplied: total, ..old(pool).state->Some_0 },
        ),
{
    match &mut pool.state {
        Some(state) => {
            state.total_supplied = total;
        },
        None => {},
    }
}

fn set_total_borrowed(pool: &mut Pool, total: u128)
    requires
        old(pool).state.is_some(),
    ensures
        final(pool).supplied == old(pool).supplied,
        final(pool).borrowed == old(pool).borrowed,
        final(pool).state == Some(
            MarketState { total_borrowed: total, ..old(pool).state->Some_0 },
        ),
{
    match &mut pool.state {
        Some(state) => {
            state.total_borrowed = total;
        },
        None => {},
    }
}

} // verus!
