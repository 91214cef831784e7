//! The solvency computation: what an account's pledged collateral is worth,
//! what it owes, and how a change that has not happened yet would move both.

use crate::comptroller::contract::AccountLiquidityResponse;
use crate::comptroller::msg::{
    delta_view, position_views, DeltaSpec, HypotheticalDelta, Position, PositionSpec,
};
use crate::comptroller::state::{
    distinct_assets, engine_view, lemma_registry_at, pledges, registry, ComptrollerView,
    MarketRecord, Membership, MembershipSpec,
};
use crate::decimal::{fits, health_factor_spec, priced_floor, Decimal};
use crate::error::ContractError;
use vstd::prelude::*;

verus! {

/// Whether a position was supplied for `asset`.
pub open spec fn has_position(positions: Seq<PositionSpec>, asset: Seq<char>) -> bool {
    exists|i: int| 0 <= i < positions.len() && (#[trigger] positions[i]).asset_id == asset
}

/// Whether `i` is the first position for `asset`.
pub open spec fn is_first_position(positions: Seq<PositionSpec>, asset: Seq<char>, i: int) -> bool {
    &&& 0 <= i < positions.len()
    &&& positions[i].asset_id == asset
    &&& forall|j: int| 0 <= j < i ==> (#[trigger] positions[j]).asset_id != asset
}

/// The first position for `asset`.
pub open spec fn position_of(positions: Seq<PositionSpec>, asset: Seq<char>) -> PositionSpec {
    positions[choose|i: int| is_first_position(positions, asset, i)]
}

/// Whether the computation can read `asset`: a position was supplied for it
/// and the position carries a price.
pub open spec fn readable(positions: Seq<PositionSpec>, asset: Seq<char>) -> bool {
    has_position(positions, asset) && position_of(positions, asset).price.is_some()
}

/// Why `asset` cannot be read.
pub open spec fn lookup_error(positions: Seq<PositionSpec>, asset: Seq<char>) -> ContractError {
    if !has_position(positions, asset) {
        ContractError::PoolNotFound
    } else {
        ContractError::PriceUnavailable
    }
}

/// The unit price that a position carries.
pub open spec fn price_of(position: PositionSpec) -> nat {
    position.price->Some_0 as nat
}

/// Whether `delta` changes the pool that `position` reports on.
pub open spec fn touches(delta: Option<DeltaSpec>, position: PositionSpec) -> bool {
    delta matches Some(d) && d.asset_id == position.asset_id
}

/// The supplied balance with the delta's withdrawal applied, never below zero.
pub open spec fn projected_supplied(position: PositionSpec, delta: Option<DeltaSpec>) -> nat {
    if touches(delta, position) {
        if delta->Some_0.withdraw_amount >= position.supplied_balance {
            0
        } else {
            (position.supplied_balance - delta->Some_0.withdraw_amount) as nat
        }
    } else {
        position.supplied_balance as nat
    }
}

/// The borrowed balance with the delta's borrow applied.
pub open spec fn projected_borrowed(position: PositionSpec, delta: Option<DeltaSpec>) -> nat {
    if touches(delta, position) {
        (position.borrowed_balance + delta->Some_0.borrow_amount) as nat
    } else {
        position.borrowed_balance as nat
    }
}

/// What the deposit in one pool counts for: the projected balance times the
/// price times the collateral factor, rounded down.
pub open spec fn collateral_term(
    factor: Decimal,
    position: PositionSpec,
    delta: Option<DeltaSpec>,
) -> nat {
    priced_floor(projected_supplied(position, delta), price_of(position), factor)
}

/// What the debt in one pool counts for: the projected balance times the
/// price.
pub open spec fn debt_term(position: PositionSpec, delta: Option<DeltaSpec>) -> nat {
    projected_borrowed(position, delta) * price_of(position)
}

/// The collateral value over the first `n` memberships: the sum of the
/// collateral terms of those that belong to `user`.
pub open spec fn collateral_sum(
    engine: ComptrollerView,
    user: Seq<char>,
    positions: Seq<PositionSpec>,
    delta: Option<DeltaSpec>,
    n: int,
) -> nat
    decreases n,
{
    if n <= 0 {
        0
    } else {
        let m = engine.memberships[n - 1];
        collateral_sum(engine, user, positions, delta, n - 1) + if m.user == user {
            collateral_term(
                engine.markets[m.asset_id].collateral_factor,
                position_of(positions, m.asset_id),
                delta,
            )
        } else {
            0
        }
    }
}

/// The debt value over the first `n` registered markets: the sum of their
/// debt terms. Debt counts in every registered market, whether the user has
/// entered it or not.
pub open spec fn debt_sum(
    engine: ComptrollerView,
    positions: Seq<PositionSpec>,
    delta: Option<DeltaSpec>,
    n: int,
) -> nat
    decreases n,
{
    if n <= 0 {
        0
    } else {
        debt_sum(engine, positions, delta, n - 1) + debt_term(
            position_of(positions, engine.assets[n - 1]),
            delta,
        )
    }
}

/// Why the first of the first `n` registered markets that cannot be read
/// cannot be read; `None` where all of them can.
pub open spec fn first_unreadable(
    engine: ComptrollerView,
    positions: Seq<PositionSpec>,
    n: int,
) -> Option<ContractError>
    decreases n,
{
    if n <= 0 {
        None
    } else {
        match first_unreadable(engine, positions, n - 1) {
            Some(error) => Some(error),
            None => if !readable(positions, engine.assets[n - 1]) {
                Some(lookup_error(positions, engine.assets[n - 1]))
            } else {
                None
            },
        }
    }
}

/// The account's liquidity.
///
/// A delta has to name a registered market. Every registered market has to
/// be readable; the first that is not, in the order of registration,
/// decides the error. The collateral value sums the collateral terms of the
/// markets that the user has entered; the debt value sums the debt terms of
/// all registered markets. Both have to fit in 128 bits.
pub open spec fn liquidity_spec(
    engine: ComptrollerView,
    user: Seq<char>,
    positions: Seq<PositionSpec>,
    delta: Option<DeltaSpec>,
) -> Result<AccountLiquidityResponse, ContractError> {
    let listed = engine.assets.len() as int;
    if delta.is_some() && !engine.markets.contains_key(delta->Some_0.asset_id) {
        Err(ContractError::MarketNotFound)
    } else if first_unreadable(engine, positions, listed).is_some() {
        Err(first_unreadable(engine, positions, listed)->Some_0)
    } else {
        let collateral = collateral_sum(
            engine,
            user,
            positions,
            delta,
            engine.memberships.len() as int,
        );
        let debt = debt_sum(engine, positions, delta, listed);
        if collateral > u128::MAX || debt > u128::MAX {
            Err(ContractError::Overflow)
        } else {
            Ok(
                AccountLiquidityResponse {
                    collateral_value: collateral as u128,
                    debt_value: debt as u128,
                    health_factor: Decimal {
                        atomics: health_factor_spec(collateral, debt) as u128,
                    },
                },
            )
        }
    }
}

/// The first position for an asset is the one that `position_of` reads.
pub proof fn lemma_position_found(positions: Seq<PositionSpec>, asset: Seq<char>, i: int)
    requires
        is_first_position(positions, asset, i),
    ensures
        has_position(positions, asset),
        position_of(positions, asset) == positions[i],
{
    let c = choose|c: int| is_first_position(positions, asset, c);
    assert(is_first_position(positions, asset, c));
    if c < i {
        assert(positions[c].asset_id != asset);
    }
    if i < c {
        assert(positions[i].asset_id != asset);
    }
}

/// Once a market cannot be read, the error stays what it is however many
/// more markets are looked at.
pub proof fn lemma_unreadable_persists(
    engine: ComptrollerView,
    positions: Seq<PositionSpec>,
    k: int,
    n: int,
)
    requires
        0 <= k <= n,
        first_unreadable(engine, positions, k).is_some(),
    ensures
        first_unreadable(engine, positions, n) == first_unreadable(engine, positions, k),
    decreases n - k,
{
    if k < n {
        lemma_unreadable_persists(engine, positions, k, n - 1);
    }
}

/// Where none of the first `n` registered markets is unreadable, each of
/// them can be read.
pub proof fn lemma_all_readable(
    engine: ComptrollerView,
    positions: Seq<PositionSpec>,
    k: int,
    n: int,
)
    requires
        0 <= k < n,
        first_unreadable(engine, positions, n).is_none(),
    ensures
        readable(positions, engine.assets[k]),
    decreases n,
{
    if k < n - 1 {
        lemma_all_readable(engine, positions, k, n - 1);
    }
}

/// Where every registered market can be read, so can the market of every
/// membership.
pub proof fn lemma_member_readable(
    engine: ComptrollerView,
    positions: Seq<PositionSpec>,
    i: int,
)
    requires
        engine.valid(),
        first_unreadable(engine, positions, engine.assets.len() as int).is_none(),
        0 <= i < engine.memberships.len(),
    ensures
        readable(positions, engine.memberships[i].asset_id),
{
    let asset = engine.memberships[i].asset_id;
    assert(engine.markets.contains_key(asset));
    assert(engine.assets.contains(asset));
    let k = choose|k: int| 0 <= k < engine.assets.len() && engine.assets[k] == asset;
    lemma_all_readable(engine, positions, k, engine.assets.len() as int);
}

/// Where some position is for `asset`, one of them is the first.
pub proof fn lemma_first_position_exists(positions: Seq<PositionSpec>, asset: Seq<char>, k: int)
    requires
        0 <= k < positions.len(),
        positions[k].asset_id == asset,
    ensures
        exists|i: int| is_first_position(positions, asset, i),
    decreases k,
{
    if exists|j: int| 0 <= j < k && (#[trigger] positions[j]).asset_id == asset {
        let j = choose|j: int| 0 <= j < k && (#[trigger] positions[j]).asset_id == asset;
        lemma_first_position_exists(positions, asset, j);
    } else {
        assert(is_first_position(positions, asset, k));
    }
}

/// `after` is `before` with `delta` carried out: the pool that the delta
/// names reports the withdrawal and the borrow in its balances, and nothing
/// else differs.
pub open spec fn committed(
    before: Seq<PositionSpec>,
    after: Seq<PositionSpec>,
    delta: DeltaSpec,
) -> bool {
    &&& after.len() == before.len()
    &&& forall|i: int|
        0 <= i < before.len() ==> {
            let b = #[trigger] before[i];
            let a = after[i];
            &&& a.asset_id == b.asset_id
            &&& a.price == b.price
            &&& if b.asset_id == delta.asset_id {
                &&& delta.withdraw_amount <= b.supplied_balance
                &&& a.supplied_balance == b.supplied_balance - delta.withdraw_amount
                &&& a.borrowed_balance == b.borrowed_balance + delta.borrow_amount
            } else {
                &&& a.supplied_balance == b.supplied_balance
                &&& a.borrowed_balance == b.borrowed_balance
            }
        }
}

/// What the positions after a commit say of one asset is what the
/// projection said of it before.
pub proof fn lemma_committed_position(
    before: Seq<PositionSpec>,
    after: Seq<PositionSpec>,
    delta: DeltaSpec,
    asset: Seq<char>,
)
    requires
        committed(before, after, delta),
    ensures
        has_position(after, asset) == has_position(before, asset),
        readable(after, asset) == readable(before, asset),
        lookup_error(after, asset) == lookup_error(before, asset),
        has_position(before, asset) ==> {
            let b = position_of(before, asset);
            let a = position_of(after, asset);
            &&& a.price == b.price
            &&& projected_supplied(a, None) == projected_supplied(b, Some(delta))
            &&& projected_borrowed(a, None) == projected_borrowed(b, Some(delta))
        },
{
    if has_position(before, asset) {
        let k = choose|k: int| 0 <= k < before.len() && (#[trigger] before[k]).asset_id == asset;
        lemma_first_position_exists(before, asset, k);
        let i = choose|i: int| is_first_position(before, asset, i);
        assert(is_first_position(after, asset, i)) by {
            assert(before[i].asset_id == asset);
            assert forall|j: int| 0 <= j < i implies (#[trigger] after[j]).asset_id != asset by {
                assert(before[j].asset_id != asset);
            }
        }
        lemma_position_found(before, asset, i);
        lemma_position_found(after, asset, i);
        assert(before[i].asset_id == asset);
    } else if has_position(after, asset) {
        let k = choose|k: int| 0 <= k < after.len() && (#[trigger] after[k]).asset_id == asset;
        assert(before[k].asset_id == asset);
    }
}

/// The errors and the debt sum over the positions after a commit are those
/// that were projected before.
pub proof fn lemma_committed_debt(
    engine: ComptrollerView,
    before: Seq<PositionSpec>,
    after: Seq<PositionSpec>,
    delta: DeltaSpec,
    n: int,
)
    requires
        committed(before, after, delta),
        n <= engine.assets.len(),
    ensures
        first_unreadable(engine, after, n) == first_unreadable(engine, before, n),
        first_unreadable(engine, before, n).is_none() ==> debt_sum(engine, after, None, n)
            == debt_sum(engine, before, Some(delta), n),
    decreases n,
{
    if n > 0 {
        lemma_committed_debt(engine, before, after, delta, n - 1);
        lemma_committed_position(before, after, delta, engine.assets[n - 1]);
    }
}

/// Where every registered market can be read, the collateral sum over the
/// positions after a commit is the one that was projected before.
pub proof fn lemma_committed_collateral(
    engine: ComptrollerView,
    user: Seq<char>,
    before: Seq<PositionSpec>,
    after: Seq<PositionSpec>,
    delta: DeltaSpec,
    n: int,
)
    requires
        engine.valid(),
        committed(before, after, delta),
        first_unreadable(engine, before, engine.assets.len() as int).is_none(),
        n <= engine.memberships.len(),
    ensures
        collateral_sum(engine, user, after, None, n) == collateral_sum(
            engine,
            user,
            before,
            Some(delta),
            n,
        ),
    decreases n,
{
    if n > 0 {
        lemma_committed_collateral(engine, user, before, after, delta, n - 1);
        lemma_member_readable(engine, before, n - 1);
        lemma_committed_position(before, after, delta, engine.memberships[n - 1].asset_id);
    }
}

/// The projection is the liquidity after the commit.
///
/// Where the liquidity projected for `delta` could be computed, the
/// liquidity computed after the pools have carried the delta out is the
/// projected one: the same collateral value, the same debt value, the same
/// health factor. So an account whose projection was solvent is solvent
/// after the commit.
pub proof fn lemma_commit_keeps_solvency(
    engine: ComptrollerView,
    user: Seq<char>,
    before: Seq<PositionSpec>,
    after: Seq<PositionSpec>,
    delta: DeltaSpec,
    projected: AccountLiquidityResponse,
)
    requires
        engine.valid(),
        committed(before, after, delta),
        liquidity_spec(engine, user, before, Some(delta)) == Ok::<
            AccountLiquidityResponse,
            ContractError,
        >(projected),
    ensures
        liquidity_spec(engine, user, after, None) == Ok::<AccountLiquidityResponse, ContractError>(
            projected,
        ),
{
    lemma_committed_debt(engine, before, after, delta, engine.assets.len() as int);
    lemma_committed_collateral(
        engine,
        user,
        before,
        after,
        delta,
        engine.memberships.len() as int,
    );
}

/// While every market looked at can be read and no position carries debt,
/// the debt sum is zero.
pub proof fn lemma_debt_sum_zero(engine: ComptrollerView, positions: Seq<PositionSpec>, n: int)
    requires
        forall|i: int| 0 <= i < positions.len() ==> (#[trigger] positions[i]).borrowed_balance == 0,
        first_unreadable(engine, positions, n).is_none(),
    ensures
        debt_sum(engine, positions, None, n) == 0,
    decreases n,
{
    if n > 0 {
        lemma_debt_sum_zero(engine, positions, n - 1);
        let asset = engine.assets[n - 1];
        let k = choose|k: int|
            0 <= k < positions.len() && (#[trigger] positions[k]).asset_id == asset;
        lemma_first_position_exists(positions, asset, k);
        let i = choose|i: int| is_first_position(positions, asset, i);
        lemma_position_found(positions, asset, i);
        assert(debt_term(positions[i], None) == 0) by (nonlinear_arith)
            requires
                debt_term(positions[i], None) == 0 * price_of(positions[i]),
        ;
    }
}

/// An account without debt is solvent, whatever its collateral is worth.
///
/// Where no pool reports a borrowed balance for the user and the liquidity
/// can be computed, the debt value is zero and the account is solvent.
pub proof fn lemma_no_debt_is_solvent(
    engine: ComptrollerView,
    user: Seq<char>,
    positions: Seq<PositionSpec>,
)
    requires
        forall|i: int| 0 <= i < positions.len() ==> (#[trigger] positions[i]).borrowed_balance == 0,
    ensures
        liquidity_spec(engine, user, positions, None) matches Ok(liquidity) ==> {
            &&& liquidity.debt_value == 0
            &&& liquidity.is_solvent()
            &&& liquidity.health_factor.atomics == u128::MAX
        },
{
    let n = engine.assets.len() as int;
    if first_unreadable(engine, positions, n).is_none() {
        lemma_debt_sum_zero(engine, positions, n);
    }
}

pub(crate) fn find_position(positions: &Vec<Position>, asset: &String) -> (r: Option<usize>)
    ensures
        match r {
            Some(i) => is_first_position(position_views(positions@), asset@, i as int),
            None => !has_position(position_views(positions@), asset@),
        },
{
    let mut i: usize = 0;
    while i < positions.len()
        invariant
            i <= positions.len(),
            forall|j: int|
                0 <= j < i ==> (#[trigger] position_views(positions@)[j]).asset_id != asset@,
        decreases positions.len() - i,
    {
        if positions[i].asset_id == *asset {
            return Some(i);
        }
        i += 1;
    }
    None
}

pub(crate) fn find_market(markets: &Vec<MarketRecord>, asset: &String) -> (r: Option<usize>)
    requires
        distinct_assets(markets@),
    ensures
        match r {
            Some(i) => {
                &&& i < markets@.len()
                &&& markets@[i as int].asset_id@ == asset@
                &&& registry(markets@).contains_key(asset@)
                &&& registry(markets@)[asset@] == markets@[i as int].market@
            },
            None => !registry(markets@).contains_key(asset@),
        },
{
    let mut i: usize = 0;
    while i < markets.len()
        invariant
            i <= markets.len(),
            distinct_assets(markets@),
            forall|j: int| 0 <= j < i ==> (#[trigger] markets@[j]).asset_id@ != asset@,
        decreases markets.len() - i,
    {
        if markets[i].asset_id == *asset {
            proof {
                lemma_registry_at(markets@, i as int);
            }
            return Some(i);
        }
        i += 1;
    }
    None
}

pub(crate) fn find_membership(memberships: &Vec<Membership>, user: &String, asset: &String) -> (r:
    Option<usize>)
    ensures
        match r {
            Some(i) => {
                &&& i < memberships@.len()
                &&& pledges(memberships@)[i as int] == (MembershipSpec {
                    user: user@,
                    asset_id: asset@,
                })
            },
            None => !pledges(memberships@).contains(
                MembershipSpec { user: user@, asset_id: asset@ },
            ),
        },
{
    let mut i: usize = 0;
    while i < memberships.len()
        invariant
            i <= memberships.len(),
            forall|j: int|
                0 <= j < i ==> (#[trigger] pledges(memberships@)[j]) != (MembershipSpec {
                    user: user@,
                    asset_id: asset@,
                }),
        decreases memberships.len() - i,
    {
        if memberships[i].user == *user && memberships[i].asset_id == *asset {
            return Some(i);
        }
        i += 1;
    }
    None
}

/// The balances of `position` as they would be with `delta` applied: the
/// projected supplied balance, and what the delta adds to the borrowed one.
fn projected_balances(position: &Position, delta: &Option<HypotheticalDelta>) -> (r: (u128, u128))
    ensures
        r.0 == projected_supplied(position@, delta_view(*delta)),
        position.borrowed_balance + r.1 == projected_borrowed(position@, delta_view(*delta)),
{
    match delta {
        Some(d) => {
            if d.asset_id == position.asset_id {
                let left: u128 = if d.withdraw_amount >= position.supplied_balance {
                    0
                } else {
                    position.supplied_balance - d.withdraw_amount
                };
                (left, d.borrow_amount)
            } else {
                (position.supplied_balance, 0)
            }
        },
        None => (position.supplied_balance, 0),
    }
}

/// The value of a debt of `borrowed + extra`, where it fits.
fn debt_value_of(borrowed: u128, extra: u128, price: u128) -> (r: Option<u128>)
    ensures
        r == fits(((borrowed + extra) * price) as nat),
{
    if price == 0 {
        assert((borrowed + extra) * 0 == 0);
        return Some(0);
    }
    match borrowed.checked_add(extra) {
        Some(owed) => owed.checked_mul(price),
        None => {
            assert((borrowed + extra) * price > u128::MAX) by (nonlinear_arith)
                requires
                    borrowed + extra > u128::MAX,
                    price >= 1,
            ;
            None
        },
    }
}

/// The sum of two values that may each have overflowed already.
fn checked_sum(a: Option<u128>, b: Option<u128>, Ghost(x): Ghost<nat>, Ghost(y): Ghost<nat>) -> (r:
    Option<u128>)
    requires
        a == fits(x),
        b == fits(y),
    ensures
        r == fits(x + y),
{
    match (a, b) {
        (Some(a), Some(b)) => a.checked_add(b),
        _ => None,
    }
}

/// Computes the liquidity of `user` from the registry, the memberships and
/// the positions that the pools and the price source reported.
pub(crate) fn compute_liquidity(
    markets: &Vec<MarketRecord>,
    memberships: &Vec<Membership>,
    user: &String,
    positions: &Vec<Position>,
    delta: &Option<HypotheticalDelta>,
) -> (r: Result<AccountLiquidityResponse, ContractError>)
    requires
        distinct_assets(markets@),
        engine_view(markets@, memberships@).valid(),
    ensures
        r == liquidity_spec(
            engine_view(markets@, memberships@),
            user@,
            position_views(positions@),
            delta_view(*delta),
        ),
{
    let ghost engine = engine_view(markets@, memberships@);
    let ghost views = position_views(positions@);
    let ghost listed = markets@.len() as int;
    match delta {
        Some(d) => {
            if find_market(markets, &d.asset_id).is_none() {
                return Err(ContractError::MarketNotFound);
            }
        },
        None => {},
    }
    let mut debt: Option<u128> = Some(0);
    let mut i: usize = 0;
    while i < markets.len()
        invariant
            i <= markets.len(),
            listed == markets@.len(),
            engine == engine_view(markets@, memberships@),
            views == position_views(positions@),
            delta.is_some() ==> engine.markets.contains_key(delta->Some_0.asset_id@),
            first_unreadable(engine, views, i as int).is_none(),
            debt == fits(debt_sum(engine, views, delta_view(*delta), i as int)),
        decreases markets.len() - i,
    {
        let asset = &markets[i].asset_id;
        assert(engine.assets[i as int] == asset@);
        let position = match find_position(positions, asset) {
            Some(k) => {
                proof {
                    lemma_position_found(views, asset@, k as int);
                }
                &positions[k]
            },
            None => {
                proof {
                    lemma_unreadable_persists(engine, views, i as int + 1, listed);
                }
                return Err(ContractError::PoolNotFound);
            },
        };
        let price: u128 = match position.price {
            Some(price) => price,
            None => {
                proof {
                    lemma_unreadable_persists(engine, views, i as int + 1, listed);
                }
                return Err(ContractError::PriceUnavailable);
            },
        };
        let (_, extra) = projected_balances(position, delta);
        let debt_here = debt_value_of(position.borrowed_balance, extra, price);
        debt = checked_sum(
            debt,
            debt_here,
            Ghost(debt_sum(engine, views, delta_view(*delta), i as int)),
            Ghost(debt_term(position@, delta_view(*delta))),
        );
        i += 1;
    }
    let mut collateral: Option<u128> = Some(0);
    let mut k: usize = 0;
    while k < memberships.len()
        invariant
            k <= memberships.len(),
            listed == markets@.len(),
            engine == engine_view(markets@, memberships@),
            views == position_views(positions@),
            distinct_assets(markets@),
            engine.valid(),
            first_unreadable(engine, views, listed).is_none(),
            collateral == fits(
                collateral_sum(engine, user@, views, delta_view(*delta), k as int),
            ),
        decreases memberships.len() - k,
    {
        let m = &memberships[k];
        assert(engine.memberships[k as int] == m@);
        if m.user == *user {
            let found = find_market(markets, &m.asset_id);
            assert(found.is_some()) by {
                assert(engine.markets.contains_key(engine.memberships[k as int].asset_id));
            }
            let factor = markets[found.unwrap()].market.collateral_factor;
            proof {
                lemma_member_readable(engine, views, k as int);
            }
            let at = find_position(positions, &m.asset_id);
            proof {
                lemma_position_found(views, m.asset_id@, at.unwrap() as int);
            }
            let position = &positions[at.unwrap()];
            let (supplied, _) = projected_balances(position, delta);
            let collateral_here = factor.value_floor(supplied, position.price.unwrap());
            collateral = checked_sum(
                collateral,
                collateral_here,
                Ghost(collateral_sum(engine, user@, views, delta_view(*delta), k as int)),
                Ghost(collateral_term(factor, position@, delta_view(*delta))),
            );
        }
        k += 1;
    }
    match (collateral, debt) {
        (Some(collateral_value), Some(debt_value)) => Ok(
            AccountLiquidityResponse {
                collateral_value,
                debt_value,
                health_factor: Decimal::health_factor(collateral_value, debt_value),
            },
        ),
        _ => Err(ContractError::Overflow),
    }
}

} // verus!
