//! The two contracts together: the pools, the risk engine and the prices of
//! one deployment, and the query chain that ties them. A pool asks the risk
//! engine before it commits a withdrawal or a borrow; the risk engine reads
//! the balances of every pool and changes none.

use crate::comptroller::contract::{AccountLiquidityResponse, Comptroller};
use crate::comptroller::liquidity::{
    committed, lemma_commit_keeps_solvency, liquidity_spec,
};
use crate::comptroller::msg::{
    delta_view, position_views, DeltaSpec, HypotheticalDelta, MarketInfo, Position, PositionSpec,
};
use crate::comptroller::state::{ComptrollerView, MarketSpec};
use crate::decimal::Decimal;
use crate::error::ContractError;
use crate::ledger::amount_of;
use crate::market::contract::{
    deposit_spec, lemma_totals_are_sums, local_check, rejected, repay_spec, borrow_spec,
    withdraw_spec, Pool, PoolResponse, UserBalancesResponse,
};
use crate::market::msg::{ExecuteMsg, InstantiateMsg};
use vstd::prelude::*;

verus! {

/// One asset of the deployment: its pool and its current unit price, if the
/// price source has one.
pub struct Listing {
    pub pool: Pool,
    pub price: Option<u128>,
}

/// The mathematical content of a deployment.
pub struct MoneyMarketView {
    pub engine: ComptrollerView,
    pub listings: Seq<Listing>,
}

/// A deployment: one risk engine and one pool per listed asset.
pub struct MoneyMarket {
    engine: Comptroller,
    listings: Vec<Listing>,
}

impl View for MoneyMarket {
    type V = MoneyMarketView;

    closed spec fn view(&self) -> MoneyMarketView {
        MoneyMarketView { engine: self.engine@, listings: self.listings@ }
    }
}

/// Every pool is well-formed and instantiated, and no asset has two pools.
pub open spec fn listed(listings: Seq<Listing>) -> bool {
    &&& forall|i: int|
        0 <= i < listings.len() ==> (#[trigger] listings[i]).pool.wf()
            && listings[i].pool.is_initialized()
    &&& forall|i: int, j: int|
        0 <= i < j < listings.len() ==> (#[trigger] listings[i]).pool.asset_id()
            != (#[trigger] listings[j]).pool.asset_id()
}

/// Whether `asset` has a pool.
pub open spec fn has_listing(listings: Seq<Listing>, asset: Seq<char>) -> bool {
    exists|i: int| 0 <= i < listings.len() && (#[trigger] listings[i]).pool.asset_id() == asset
}

/// The place of the pool of `asset`.
pub open spec fn listing_index(listings: Seq<Listing>, asset: Seq<char>) -> int {
    choose|i: int| 0 <= i < listings.len() && (#[trigger] listings[i]).pool.asset_id() == asset
}

/// What one pool and the price source report about `user`.
pub open spec fn position_in(listing: Listing, user: Seq<char>) -> PositionSpec {
    PositionSpec {
        asset_id: listing.pool.asset_id(),
        supplied_balance: listing.pool.supplied_balance(user) as u128,
        borrowed_balance: listing.pool.borrowed_balance(user) as u128,
        price: listing.price,
    }
}

/// What all pools and the price source report about `user`.
pub open spec fn positions_of(listings: Seq<Listing>, user: Seq<char>) -> Seq<PositionSpec> {
    Seq::new(listings.len(), |i: int| position_in(listings[i], user))
}

/// The change that `msg` would make in the pool of `asset`, as far as the
/// risk engine has to hear of it.
pub open spec fn delta_for(asset: Seq<char>, msg: ExecuteMsg) -> Option<DeltaSpec> {
    match msg {
        ExecuteMsg::Withdraw { amount } => Some(
            DeltaSpec { asset_id: asset, withdraw_amount: amount, borrow_amount: 0 },
        ),
        ExecuteMsg::Borrow { amount } => Some(
            DeltaSpec { asset_id: asset, withdraw_amount: 0, borrow_amount: amount },
        ),
        _ => None,
    }
}

impl MoneyMarketView {
    /// The liquidity of `user` as the risk engine computes it from the
    /// pools' present balances.
    pub open spec fn liquidity(&self, user: Seq<char>) -> Result<
        AccountLiquidityResponse,
        ContractError,
    > {
        liquidity_spec(self.engine, user, positions_of(self.listings, user), None)
    }

    /// Whether the liquidity of `user` can be computed and shows collateral
    /// that covers the debt.
    pub open spec fn is_solvent(&self, user: Seq<char>) -> bool {
        self.liquidity(user) matches Ok(liquidity) && liquidity.is_solvent()
    }

    /// `after` is this deployment with nothing changed but the pool at `k`.
    pub open spec fn only_pool_differs(&self, after: MoneyMarketView, k: int) -> bool {
        &&& after.engine == self.engine
        &&& after.listings.len() == self.listings.len()
        &&& after.listings[k].price == self.listings[k].price
        &&& forall|i: int|
            0 <= i < self.listings.len() && i != k ==> #[trigger] after.listings[i]
                == self.listings[i]
    }
}

/// The contract of a pool operation in a deployment.
///
/// An asset without a pool is rejected. Otherwise only that asset's pool can
/// change. What the pool's own state has against the operation is reported
/// first. A deposit and a repayment are then carried out. For a withdrawal
/// and a borrow the risk engine projects the sender's liquidity from the
/// present balances of all pools with the operation applied: where it
/// cannot, its error is reported and nothing changes; where it can, the
/// pool decides on the projection.
pub open spec fn pool_step_spec(
    before: MoneyMarketView,
    after: MoneyMarketView,
    asset: Seq<char>,
    sender: Seq<char>,
    msg: ExecuteMsg,
    r: Result<PoolResponse, ContractError>,
) -> bool {
    if !has_listing(before.listings, asset) {
        r == Err::<PoolResponse, ContractError>(ContractError::PoolNotFound) && after == before
    } else {
        let k = listing_index(before.listings, asset);
        let pool = before.listings[k].pool;
        let changed = after.listings[k].pool;
        &&& before.only_pool_differs(after, k)
        &&& match msg {
            ExecuteMsg::Deposit { amount } => deposit_spec(pool, changed, sender, amount, r),
            ExecuteMsg::Repay { amount } => repay_spec(pool, changed, sender, amount, r),
            ExecuteMsg::Withdraw { amount } => match local_check(pool, sender, msg) {
                Some(error) => rejected(pool, changed, r, error),
                None => match liquidity_spec(
                    before.engine,
                    sender,
                    positions_of(before.listings, sender),
                    delta_for(asset, msg),
                ) {
                    Err(error) => rejected(pool, changed, r, error),
                    Ok(projected) => withdraw_spec(pool, changed, sender, amount, projected, r),
                },
            },
            ExecuteMsg::Borrow { amount } => match local_check(pool, sender, msg) {
                Some(error) => rejected(pool, changed, r, error),
                None => match liquidity_spec(
                    before.engine,
                    sender,
                    positions_of(before.listings, sender),
                    delta_for(asset, msg),
                ) {
                    Err(error) => rejected(pool, changed, r, error),
                    Ok(projected) => borrow_spec(pool, changed, sender, amount, projected, r),
                },
            },
        }
    }
}

/// A committed withdrawal or borrow leaves the account solvent.
///
/// Where a deployment with well-formed pools, one per asset, has taken the
/// step `msg` in the pool of `asset` and the step was a withdrawal or a
/// borrow that succeeded, the liquidity of the sender, computed afresh from
/// the balances after the step, can be computed and shows collateral that
/// covers the debt.
pub proof fn lemma_committed_step_is_solvent(
    before: MoneyMarketView,
    after: MoneyMarketView,
    asset: Seq<char>,
    sender: Seq<char>,
    msg: ExecuteMsg,
    r: Result<PoolResponse, ContractError>,
)
    requires
        before.engine.valid(),
        listed(before.listings),
        listed(after.listings),
        pool_step_spec(before, after, asset, sender, msg, r),
        msg is Withdraw || msg is Borrow,
        r.is_ok(),
    ensures
        after.liquidity(sender) == liquidity_spec(
            before.engine,
            sender,
            positions_of(before.listings, sender),
            delta_for(asset, msg),
        ),
        after.is_solvent(sender),
{
    let k = listing_index(before.listings, asset);
    let pool = before.listings[k].pool;
    let changed = after.listings[k].pool;
    let delta = delta_for(asset, msg)->Some_0;
    let positions = positions_of(before.listings, sender);
    let projected = liquidity_spec(before.engine, sender, positions, Some(delta))->Ok_0;
    lemma_totals_are_sums(pool, sender);
    lemma_totals_are_sums(changed, sender);
    assert(committed(positions, positions_of(after.listings, sender), delta)) by {
        assert forall|i: int| 0 <= i < positions.len() implies {
            let b = #[trigger] positions[i];
            let a = positions_of(after.listings, sender)[i];
            &&& a.asset_id == b.asset_id
            &&& a.price == b.price
            &&& if b.asset_id == delta.asset_id {
                &&& delta.withdraw_amount <= b.supplied_balance
                &&& a.supplied_balance == b.supplied_balance - delta.withdraw_amount
                &&& a.borrowed_balance == b.borrowed_balance + delta.borrow_amount
            } else {
                &&& a.supplied_balance == b.supplied_balance
                &&& a.borrowed_balance == b.borrowed_balance
            }
        } by {
            if i != k {
                assert(after.listings[i] == before.listings[i]);
                assert(before.listings[i].pool.asset_id() != before.listings[k].pool.asset_id());
            }
        }
    }
    lemma_commit_keeps_solvency(
        before.engine,
        sender,
        positions,
        positions_of(after.listings, sender),
        delta,
        projected,
    );
}

/// A pool operation changes nobody's liquidity but the sender's.
///
/// Whatever step the pool of `asset` takes for `sender`, committed or not,
/// every pool reports the same balances for any other user afterwards as
/// before, and so the liquidity of any other user is what it was.
pub proof fn lemma_step_leaves_others_untouched(
    before: MoneyMarketView,
    after: MoneyMarketView,
    asset: Seq<char>,
    sender: Seq<char>,
    msg: ExecuteMsg,
    r: Result<PoolResponse, ContractError>,
    other: Seq<char>,
)
    requires
        listed(before.listings),
        listed(after.listings),
        pool_step_spec(before, after, asset, sender, msg, r),
        other != sender,
    ensures
        positions_of(after.listings, other) == positions_of(before.listings, other),
        after.liquidity(other) == before.liquidity(other),
{
    if has_listing(before.listings, asset) {
        let k = listing_index(before.listings, asset);
        let pool = before.listings[k].pool;
        let changed = after.listings[k].pool;
        assert(amount_of(changed@.supplied, other) == amount_of(pool@.supplied, other));
        assert(amount_of(changed@.borrowed, other) == amount_of(pool@.borrowed, other));
        assert forall|i: int| 0 <= i < before.listings.len() implies position_in(
            after.listings[i],
            other,
        ) == position_in(before.listings[i], other) by {
            if i != k {
                assert(after.listings[i] == before.listings[i]);
            }
        }
    }
    assert(positions_of(after.listings, other) =~= positions_of(before.listings, other));
}

impl MoneyMarket {
    /// The deployment's invariant: a well-formed risk engine, and
    /// well-formed, instantiated pools, one per asset.
    pub closed spec fn wf(&self) -> bool {
        &&& self.engine.wf()
        &&& listed(self.listings@)
    }

    /// A well-formed deployment has valid engine content and listed pools.
    pub proof fn lemma_wf_valid(&self)
        requires
            self.wf(),
        ensures
            self@.engine.valid(),
            listed(self@.listings),
    {
        self.engine.lemma_wf_valid();
    }

    /// A deployment with an empty registry and no pools.
    pub fn new() -> (r: MoneyMarket)
        ensures
            r.wf(),
            r@.listings.len() == 0,
            r@.engine.assets.len() == 0,
            r@.engine.markets == Map::<Seq<char>, MarketSpec>::empty(),
            r@.engine.memberships.len() == 0,
    {
        MoneyMarket {
            engine: crate::comptroller::contract::instantiate(
                crate::comptroller::msg::InstantiateMsg {  },
            ),
            listings: Vec::new(),
        }
    }

    fn find_listing(&self, asset: &String) -> (r: Option<usize>)
        requires
            self.wf(),
        ensures
            match r {
                Some(k) => has_listing(self@.listings, asset@) && k == listing_index(
                    self@.listings,
                    asset@,
                ) && k < self@.listings.len() && self@.listings[k as int].pool.asset_id()
                    == asset@,
                None => !has_listing(self@.listings, asset@),
            },
    {
        let mut i: usize = 0;
        while i < self.listings.len()
            invariant
                i <= self.listings.len(),
                listed(self.listings@),
                forall|j: int| 0 <= j < i ==> (#[trigger] self.listings@[j]).pool.asset_id()
                    != asset@,
            decreases self.listings.len() - i,
        {
            let found = match self.listings[i].pool.state() {
                Some(state) => state.asset_id == *asset,
                None => false,
            };
            if found {
                return Some(i);
            }
            i += 1;
        }
        None
    }

    /// What all pools and the price source report about `user`.
    fn positions(&self, user: &String) -> (r: Vec<Position>)
        requires
            self.wf(),
        ensures
            position_views(r@) == positions_of(self@.listings, user@),
    {
        let mut positions: Vec<Position> = Vec::new();
        let mut i: usize = 0;
        while i < self.listings.len()
            invariant
                i <= self.listings.len(),
                listed(self.listings@),
                positions@.len() == i,
                forall|j: int|
                    0 <= j < i ==> (#[trigger] positions@[j])@ == position_in(
                        self.listings@[j],
                        user@,
                    ),
            decreases self.listings.len() - i,
        {
            let listing = &self.listings[i];
            let balances = crate::market::contract::query_balances(&listing.pool, user);
            let asset_id = listing.pool.state().as_ref().unwrap().asset_id.clone();
            positions.push(
                Position {
                    asset_id,
                    supplied_balance: balances.supplied_balance,
                    borrowed_balance: balances.borrowed_balance,
                    price: listing.price,
                },
            );
            i += 1;
        }
        assert(position_views(positions@) =~= positions_of(self@.listings, user@));
        positions
    }

    /// Creates and instantiates the pool of a new asset, without a price. A
    /// second pool for an asset that has one is refused.
    pub fn instantiate_pool(&mut self, msg: InstantiateMsg) -> (r: Result<(), ContractError>)
        requires
            old(self).wf(),
        ensures
            final(self).wf(),
            final(self)@.engine == old(self)@.engine,
            has_listing(old(self)@.listings, msg.asset_id@) ==> r == Err::<(), ContractError>(
                ContractError::PoolAlreadyInitialized,
            ) && final(self)@ == old(self)@,
            !has_listing(old(self)@.listings, msg.asset_id@) ==> {
                let added = final(self)@.listings[old(self)@.listings.len() as int];
                &&& r.is_ok()
                &&& final(self)@.listings.len() == old(self)@.listings.len() + 1
                &&& forall|i: int|
                    0 <= i < old(self)@.listings.len() ==> #[trigger] final(self)@.listings[i]
                        == old(self)@.listings[i]
                &&& added.price.is_none()
                &&& added.pool.asset_id() == msg.asset_id@
                &&& added.pool.underlying_denom() == msg.underlying_denom@
                &&& added.pool.total_supplied() == 0
                &&& added.pool.total_borrowed() == 0
                &&& added.pool.reserves() == 0
                &&& forall|u: Seq<char>|
                    added.pool.supplied_balance(u) == 0 && added.pool.borrowed_balance(u) == 0
            },
    {
        if self.find_listing(&msg.asset_id).is_some() {
            return Err(ContractError::PoolAlreadyInitialized);
        }
        let ghost asset = msg.asset_id@;
        let mut pool = Pool::new();
        match crate::market::contract::instantiate(&mut pool, msg) {
            Ok(()) => {},
            Err(error) => {
                return Err(error);
            },
        }
        self.listings.push(Listing { pool, price: None });
        proof {
            let listings = self.listings@;
            let n = old(self).listings@.len() as int;
            assert forall|i: int, j: int| 0 <= i < j < listings.len()
                implies (#[trigger] listings[i]).pool.asset_id()
                != (#[trigger] listings[j]).pool.asset_id() by {
                if j < n {
                    assert(old(self).listings@[i].pool.asset_id() != old(
                        self,
                    ).listings@[j].pool.asset_id());
                } else {
                    assert(old(self).listings@[i].pool.asset_id() != asset);
                }
            }
        }
        Ok(())
    }

    /// Sets or clears the price of a listed asset.
    pub fn set_price(&mut self, asset: &String, price: Option<u128>) -> (r: Result<
        (),
        ContractError,
    >)
        requires
            old(self).wf(),
        ensures
            final(self).wf(),
            !has_listing(old(self)@.listings, asset@) ==> r == Err::<(), ContractError>(
                ContractError::PoolNotFound,
            ) && final(self)@ == old(self)@,
            has_listing(old(self)@.listings, asset@) ==> {
                let k = listing_index(old(self)@.listings, asset@);
                &&& r.is_ok()
                &&& final(self)@.engine == old(self)@.engine
                &&& final(self)@.listings.len() == old(self)@.listings.len()
                &&& final(self)@.listings[k].price == price
                &&& final(self)@.listings[k].pool == old(self)@.listings[k].pool
                &&& forall|i: int|
                    0 <= i < old(self)@.listings.len() && i != k
                        ==> #[trigger] final(self)@.listings[i] == old(self)@.listings[i]
            },
    {
        let k: usize = match self.find_listing(asset) {
            Some(k) => k,
            None => {
                return Err(ContractError::PoolNotFound);
            },
        };
        let mut listing = self.listings.remove(k);
        listing.price = price;
        self.listings.insert(k, listing);
        proof {
            let listings = self.listings@;
            assert forall|i: int, j: int| 0 <= i < j < listings.len()
                implies (#[trigger] listings[i]).pool.asset_id()
                != (#[trigger] listings[j]).pool.asset_id() by {
                assert(old(self).listings@[i].pool.asset_id() != old(
                    self,
                ).listings@[j].pool.asset_id());
            }
            assert forall|i: int| 0 <= i < listings.len() implies (#[trigger] listings[i]).pool.wf()
                && listings[i].pool.is_initialized() by {
                assert(old(self).listings@[i].pool.wf());
            }
        }
        Ok(())
    }

    /// Carries out a request to the risk engine on behalf of `sender`, with
    /// the pools' present balances at its disposal.
    pub fn execute_comptroller(
        &mut self,
        sender: &String,
        msg: crate::comptroller::msg::ExecuteMsg,
    ) -> (r: Result<(), ContractError>)
        requires
            old(self).wf(),
        ensures
            final(self).wf(),
            final(self)@.listings == old(self)@.listings,
            crate::comptroller::contract::execute_spec(
                old(self)@.engine,
                final(self)@.engine,
                sender@,
                msg,
                positions_of(old(self)@.listings, sender@),
                r,
            ),
    {
        let positions = self.positions(sender);
        crate::comptroller::contract::execute(&mut self.engine, sender, msg, &positions)
    }

    /// Carries out a pool operation on behalf of `sender` in the pool of
    /// `asset`, asking the risk engine where the operation could reduce the
    /// sender's liquidity.
    pub fn execute_pool(&mut self, asset: &String, sender: &String, msg: ExecuteMsg) -> (r: Result<
        PoolResponse,
        ContractError,
    >)
        requires
            old(self).wf(),
        ensures
            final(self).wf(),
            pool_step_spec(old(self)@, final(self)@, asset@, sender@, msg, r),
            r.is_ok() && (msg is Withdraw || msg is Borrow) ==> final(self)@.is_solvent(sender@),
    {
        let k: usize = match self.find_listing(asset) {
            Some(k) => k,
            None => {
                return Err(ContractError::PoolNotFound);
            },
        };
        let delta = match crate::market::contract::liquidity_request(
            &self.listings[k].pool,
            sender,
            &msg,
        ) {
            Ok(delta) => delta,
            Err(error) => {
                return Err(error);
            },
        };
        assert(delta_view(delta) == delta_for(asset@, msg));
        let projected = if delta.is_some() {
            let positions = self.positions(sender);
            match crate::comptroller::contract::query_account_liquidity(
                &self.engine,
                sender,
                &positions,
                &delta,
            ) {
                Ok(projected) => projected,
                Err(error) => {
                    return Err(error);
                },
            }
        } else {
            AccountLiquidityResponse {
                collateral_value: 0,
                debt_value: 0,
                health_factor: Decimal::max_value(),
            }
        };
        let mut listing = self.listings.remove(k);
        let r = crate::market::contract::execute(&mut listing.pool, sender, msg, &projected);
        self.listings.insert(k, listing);
        proof {
            let before = old(self).listings@;
            let listings = self.listings@;
            assert forall|i: int| 0 <= i < before.len() && i != k implies #[trigger] listings[i]
                == before[i] by {}
            assert forall|i: int, j: int| 0 <= i < j < listings.len()
                implies (#[trigger] listings[i]).pool.asset_id()
                != (#[trigger] listings[j]).pool.asset_id() by {
                assert(before[i].pool.asset_id() != before[j].pool.asset_id());
            }
            assert forall|i: int| 0 <= i < listings.len() implies (#[trigger] listings[i]).pool.wf()
                && listings[i].pool.is_initialized() by {
                assert(before[i].pool.wf());
            }
            assert(pool_step_spec(old(self)@, self@, asset@, sender@, msg, r));
            if r.is_ok() && (msg is Withdraw || msg is Borrow) {
                old(self).engine.lemma_wf_valid();
                lemma_committed_step_is_solvent(old(self)@, self@, asset@, sender@, msg, r);
            }
        }
        r
    }

    /// The balances of `user` in the pool of `asset`.
    pub fn query_balances(&self, asset: &String, user: &String) -> (r: Result<
        UserBalancesResponse,
        ContractError,
    >)
        requires
            self.wf(),
        ensures
            !has_listing(self@.listings, asset@) ==> r == Err::<
                UserBalancesResponse,
                ContractError,
            >(ContractError::PoolNotFound),
            has_listing(self@.listings, asset@) ==> {
                let pool = self@.listings[listing_index(self@.listings, asset@)].pool;
                &&& r matches Ok(balances)
                &&& balances.supplied_balance == pool.supplied_balance(user@)
                &&& balances.borrowed_balance == pool.borrowed_balance(user@)
            },
    {
        match self.find_listing(asset) {
            Some(k) => Ok(crate::market::contract::query_balances(&self.listings[k].pool, user)),
            None => Err(ContractError::PoolNotFound),
        }
    }

    /// The registry entry of `asset`.
    pub fn query_market(&self, asset: &String) -> (r: Result<MarketInfo, ContractError>)
        requires
            self.wf(),
        ensures
            crate::comptroller::contract::market_spec(self@.engine, asset@, r),
    {
        crate::comptroller::contract::query_market(&self.engine, asset)
    }

    /// The liquidity of `user`, computed from the present balances of all
    /// pools, with `hypothetical` applied where one is given.
    pub fn query_account_liquidity(
        &self,
        user: &String,
        hypothetical: &Option<HypotheticalDelta>,
    ) -> (r: Result<AccountLiquidityResponse, ContractError>)
        requires
            self.wf(),
        ensures
            r == liquidity_spec(
                self@.engine,
                user@,
                positions_of(self@.listings, user@),
                delta_view(*hypothetical),
            ),
            hypothetical.is_none() ==> r == self@.liquidity(user@),
    {
        let positions = self.positions(user);
        crate::comptroller::contract::query_account_liquidity(
            &self.engine,
            user,
            &positions,
            hypothetical,
        )
    }
}

} // verus!
