//! The risk engine's operations: the market registry, the collateral
//! memberships, and the queries on both.

use crate::comptroller::liquidity::{
    compute_liquidity, find_market, find_membership, liquidity_spec,
};
use crate::comptroller::msg::{
    delta_view, position_views, ExecuteMsg, HypotheticalDelta, InstantiateMsg, MarketInfo,
    Position, PositionSpec, QueryMsg,
};
use crate::comptroller::state::{
    distinct_assets, engine_view, lemma_listing_matches, lemma_registry_pushed,
    lemma_registry_replaced, lemma_valid_after_enter, lemma_valid_after_insert, pledges, registry,
    ComptrollerView, Market, MarketRecord, MarketSpec, Membership, MembershipSpec,
};
use crate::decimal::Decimal;
use crate::error::ContractError;
use vstd::prelude::*;

verus! {

/// The liquidity of one account: what its pledged collateral is worth after
/// discounting, what it owes, and the ratio of the two.
#[derive(Clone, Copy, Debug, PartialEq, Eq, Structural)]
pub struct AccountLiquidityResponse {
    pub collateral_value: u128,
    pub debt_value: u128,
    pub health_factor: Decimal,
}

impl AccountLiquidityResponse {
    /// An account is solvent when its collateral covers its debt; an account
    /// without debt always is.
    pub open spec fn is_solvent(&self) -> bool {
        self.collateral_value >= self.debt_value
    }

    /// Decides `is_solvent`.
    pub fn solvent(&self) -> (r: bool)
        ensures
            r == self.is_solvent(),
            self.debt_value == 0 ==> r,
    {
        self.collateral_value >= self.debt_value
    }
}

impl View for MarketInfo {
    type V = MarketSpec;

    open spec fn view(&self) -> MarketSpec {
        MarketSpec {
            pool_address: self.pool_address@,
            collateral_factor: self.collateral_factor,
        }
    }
}

/// The answer to a query.
#[derive(Clone, Debug, PartialEq, Eq)]
pub enum QueryResponse {
    Market(MarketInfo),
    AccountLiquidity(AccountLiquidityResponse),
}

/// The risk engine: the registry of markets and the memberships of users.
pub struct Comptroller {
    markets: Vec<MarketRecord>,
    memberships: Vec<Membership>,
}

impl View for Comptroller {
    type V = ComptrollerView;

    closed spec fn view(&self) -> ComptrollerView {
        engine_view(self.markets@, self.memberships@)
    }
}

impl Comptroller {
    /// The engine's invariant: it stores one record per asset, and its
    /// content is valid.
    pub closed spec fn wf(&self) -> bool {
        &&& distinct_assets(self.markets@)
        &&& self@.valid()
    }

    /// Rebuilds an engine from what was stored earlier: the registry's
    /// records and the memberships. The parts are accepted as they are if no
    /// asset has two records and the content is valid, and refused
    /// otherwise.
    pub fn restore(markets: Vec<MarketRecord>, memberships: Vec<Membership>) -> (r: Option<
        Comptroller,
    >)
        ensures
            match r {
                Some(engine) => engine.wf() && engine@ == engine_view(markets@, memberships@),
                None => !distinct_assets(markets@) || !engine_view(markets@, memberships@).valid(),
            },
    {
        let ghost view = engine_view(markets@, memberships@);
        let mut i: usize = 0;
        while i < markets.len()
            invariant
                i <= markets.len(),
                view == engine_view(markets@, memberships@),
                forall|a: int, b: int|
                    0 <= a < b < i ==> (#[trigger] markets@[a]).asset_id@
                        != (#[trigger] markets@[b]).asset_id@,
                forall|a: int|
                    0 <= a < i ==> (#[trigger] markets@[a]).market.collateral_factor.is_fraction(),
            decreases markets.len() - i,
        {
            let mut j: usize = 0;
            while j < i
                invariant
                    j <= i,
                    i < markets.len(),
                    forall|a: int|
                        0 <= a < j ==> (#[trigger] markets@[a]).asset_id@
                            != markets@[i as int].asset_id@,
                decreases i - j,
            {
                if markets[j].asset_id == markets[i].asset_id {
                    return None;
                }
                j += 1;
            }
            if !markets[i].market.collateral_factor.at_most_one() {
                proof {
                    if distinct_assets(markets@) {
                        crate::comptroller::state::lemma_registry_at(markets@, i as int);
                        assert(view.markets.contains_key(markets@[i as int].asset_id@));
                        let key = markets@[i as int].asset_id@;
                        assert(!view.markets[key].collateral_factor.is_fraction());
                        assert(!view.valid());
                    }
                }
                return None;
            }
            i += 1;
        }
        assert(distinct_assets(markets@));
        let mut k: usize = 0;
        while k < memberships.len()
            invariant
                k <= memberships.len(),
                distinct_assets(markets@),
                view == engine_view(markets@, memberships@),
                forall|a: int, b: int|
                    0 <= a < b < k ==> (#[trigger] view.memberships[a]) != (
                    #[trigger] view.memberships[b]),
                forall|a: int|
                    0 <= a < k ==> view.markets.contains_key(
                        (#[trigger] view.memberships[a]).asset_id,
                    ),
            decreases memberships.len() - k,
        {
            let mut j: usize = 0;
            while j < k
                invariant
                    j <= k,
                    k < memberships.len(),
                    view.memberships == pledges(memberships@),
                    forall|a: int|
                        0 <= a < j ==> (#[trigger] view.memberships[a])
                            != view.memberships[k as int],
                decreases k - j,
            {
                if memberships[j].user == memberships[k].user && memberships[j].asset_id
                    == memberships[k].asset_id {
                    assert(view.memberships[j as int] == view.memberships[k as int]);
                    return None;
                }
                j += 1;
            }
            if find_market(&markets, &memberships[k].asset_id).is_none() {
                assert(!view.markets.contains_key(view.memberships[k as int].asset_id));
                return None;
            }
            k += 1;
        }
        proof {
            lemma_listing_matches(markets@);
            assert forall|asset: Seq<char>| #[trigger]
                view.markets.contains_key(asset)
                    implies view.markets[asset].collateral_factor.is_fraction() by {
                let a = choose|a: int| 0 <= a < markets@.len()
                    && (#[trigger] markets@[a]).asset_id@ == asset;
                crate::comptroller::state::lemma_registry_at(markets@, a);
            }
            assert forall|a: int, b: int|
                0 <= a < view.memberships.len() && 0 <= b < view.memberships.len() && a
                    != b implies view.memberships[a]
                != view.memberships[b] by {
                if a < b {
                    assert(view.memberships[a] != view.memberships[b]);
                } else {
                    assert(view.memberships[b] != view.memberships[a]);
                }
            }
        }
        Some(Comptroller { markets, memberships })
    }

    /// A well-formed engine has valid content.
    pub proof fn lemma_wf_valid(&self)
        requires
            self.wf(),
        ensures
            self@.valid(),
    {
    }
}

/// The assets among the first `n` memberships that `user` has pledged, in
/// the order in which they were entered.
pub open spec fn assets_of(memberships: Seq<MembershipSpec>, user: Seq<char>, n: int) -> Seq<
    Seq<char>,
>
    decreases n,
{
    if n <= 0 {
        Seq::empty()
    } else if memberships[n - 1].user == user {
        assets_of(memberships, user, n - 1).push(memberships[n - 1].asset_id)
    } else {
        assets_of(memberships, user, n - 1)
    }
}

/// The failure `error`, with the engine's content left as it was.
pub open spec fn refused(
    before: ComptrollerView,
    after: ComptrollerView,
    r: Result<(), ContractError>,
    error: ContractError,
) -> bool {
    r == Err::<(), ContractError>(error) && after == before
}

/// The contract of a registration: the asset's entry is created or
/// overwritten.
pub open spec fn register_spec(
    before: ComptrollerView,
    after: ComptrollerView,
    asset: Seq<char>,
    pool_address: Seq<char>,
    factor: Decimal,
    r: Result<(), ContractError>,
) -> bool {
    if !factor.is_fraction() {
        refused(before, after, r,
            ContractError::InvalidCollateralFactor { atomics: factor.atomics })
    } else {
        &&& r == Ok::<(), ContractError>(())
        &&& after.assets == before.assets_with(asset)
        &&& after.markets == before.markets.insert(
            asset,
            MarketSpec { pool_address, collateral_factor: factor },
        )
        &&& after.memberships == before.memberships
    }
}

/// The contract of a collateral-factor update: the factor of an existing
/// entry is replaced and its pool address kept.
pub open spec fn update_spec(
    before: ComptrollerView,
    after: ComptrollerView,
    asset: Seq<char>,
    factor: Decimal,
    r: Result<(), ContractError>,
) -> bool {
    if !before.markets.contains_key(asset) {
        refused(before, after, r, ContractError::MarketNotFound)
    } else if !factor.is_fraction() {
        refused(before, after, r,
            ContractError::InvalidCollateralFactor { atomics: factor.atomics })
    } else {
        &&& r == Ok::<(), ContractError>(())
        &&& after.assets == before.assets
        &&& after.markets == before.markets.insert(
            asset,
            MarketSpec {
                pool_address: before.markets[asset].pool_address,
                collateral_factor: factor,
            },
        )
        &&& after.memberships == before.memberships
    }
}

/// The contract of entering a market: the membership exists afterwards, once.
pub open spec fn enter_spec(
    before: ComptrollerView,
    after: ComptrollerView,
    user: Seq<char>,
    asset: Seq<char>,
    r: Result<(), ContractError>,
) -> bool {
    if !before.markets.contains_key(asset) {
        refused(before, after, r, ContractError::MarketNotFound)
    } else {
        &&& r == Ok::<(), ContractError>(())
        &&& after.assets == before.assets
        &&& after.markets == before.markets
        &&& after.memberships == if before.is_member(user, asset) {
            before.memberships
        } else {
            before.memberships.push(MembershipSpec { user, asset_id: asset })
        }
    }
}

/// The engine's content without the membership of `user` in `asset`.
pub open spec fn without_membership(
    before: ComptrollerView,
    user: Seq<char>,
    asset: Seq<char>,
) -> ComptrollerView {
    let m = MembershipSpec { user, asset_id: asset };
    ComptrollerView {
        assets: before.assets,
        markets: before.markets,
        memberships: before.memberships.remove(before.memberships.index_of(m)),
    }
}

/// The contract of leaving a market. Leaving a market that the user is not
/// in changes nothing. Otherwise the account's liquidity is computed as it
/// would be without the membership: the exit is committed if the account is
/// solvent then, and refused, with nothing changed, if it is not or if the
/// liquidity cannot be computed.
pub open spec fn exit_spec(
    before: ComptrollerView,
    after: ComptrollerView,
    user: Seq<char>,
    asset: Seq<char>,
    positions: Seq<PositionSpec>,
    r: Result<(), ContractError>,
) -> bool {
    if !before.is_member(user, asset) {
        r == Ok::<(), ContractError>(()) && after == before
    } else {
        match liquidity_spec(without_membership(before, user, asset), user, positions, None) {
            Err(error) => refused(before, after, r, error),
            Ok(liquidity) => if liquidity.is_solvent() {
                r == Ok::<(), ContractError>(()) && after == without_membership(
                    before,
                    user,
                    asset,
                )
            } else {
                refused(
                    before,
                    after,
                    r,
                    ContractError::ActiveCollateralInUse {
                        collateral_value: liquidity.collateral_value,
                        debt_value: liquidity.debt_value,
                    },
                )
            },
        }
    }
}

/// The contract of any of the four state-changing requests.
pub open spec fn execute_spec(
    before: ComptrollerView,
    after: ComptrollerView,
    sender: Seq<char>,
    msg: ExecuteMsg,
    positions: Seq<PositionSpec>,
    r: Result<(), ContractError>,
) -> bool {
    match msg {
        ExecuteMsg::RegisterMarket { asset_id, pool_address, collateral_factor } => register_spec(
            before,
            after,
            asset_id@,
            pool_address@,
            collateral_factor,
            r,
        ),
        ExecuteMsg::UpdateCollateralFactor { asset_id, factor } => update_spec(
            before,
            after,
            asset_id@,
            factor,
            r,
        ),
        ExecuteMsg::EnterMarket { asset_id } => enter_spec(before, after, sender, asset_id@, r),
        ExecuteMsg::ExitMarket { asset_id } => exit_spec(
            before,
            after,
            sender,
            asset_id@,
            positions,
            r,
        ),
    }
}

/// The contract of a market query.
pub open spec fn market_spec(
    engine: ComptrollerView,
    asset: Seq<char>,
    r: Result<MarketInfo, ContractError>,
) -> bool {
    if engine.markets.contains_key(asset) {
        r matches Ok(info) && info@ == engine.markets[asset]
    } else {
        r == Err::<MarketInfo, ContractError>(ContractError::MarketNotFound)
    }
}

/// Entering a market twice is the same as entering it once: after a first
/// entry, a second one succeeds and changes nothing.
pub proof fn lemma_enter_market_idempotent(
    start: ComptrollerView,
    once: ComptrollerView,
    twice: ComptrollerView,
    user: Seq<char>,
    asset: Seq<char>,
    first: Result<(), ContractError>,
    second: Result<(), ContractError>,
)
    requires
        enter_spec(start, once, user, asset, first),
        enter_spec(once, twice, user, asset, second),
    ensures
        second == first,
        twice == once,
{
    if start.markets.contains_key(asset) {
        let m = MembershipSpec { user, asset_id: asset };
        if !start.is_member(user, asset) {
            assert(once.memberships[start.memberships.len() as int] == m);
        }
        assert(once.is_member(user, asset));
    }
}

/// Registering a market twice with the same arguments is the same as
/// registering it once: the second call returns what the first returned and
/// leaves the registry as the first left it.
pub proof fn lemma_register_market_idempotent(
    start: ComptrollerView,
    once: ComptrollerView,
    twice: ComptrollerView,
    asset: Seq<char>,
    pool_address: Seq<char>,
    factor: Decimal,
    first: Result<(), ContractError>,
    second: Result<(), ContractError>,
)
    requires
        register_spec(start, once, asset, pool_address, factor, first),
        register_spec(once, twice, asset, pool_address, factor, second),
    ensures
        second == first,
        twice == once,
{
    if factor.is_fraction() {
        assert(twice.markets =~= once.markets);
    }
}

/// Creates a risk engine with an empty registry and no memberships.
pub fn instantiate(msg: InstantiateMsg) -> (engine: Comptroller)
    ensures
        engine.wf(),
        engine@.assets == Seq::<Seq<char>>::empty(),
        engine@.markets == Map::<Seq<char>, MarketSpec>::empty(),
        engine@.memberships == Seq::<MembershipSpec>::empty(),
{
    let engine = Comptroller { markets: Vec::new(), memberships: Vec::new() };
    assert(engine@.assets =~= Seq::<Seq<char>>::empty());
    assert(engine@.markets =~= Map::<Seq<char>, MarketSpec>::empty());
    assert(engine@.memberships =~= Seq::<MembershipSpec>::empty());
    engine
}

/// Applies one state-changing request on behalf of `sender`. `positions`
/// carries what the pools and the price source report about the sender; only
/// `ExitMarket` reads it.
pub fn execute(
    engine: &mut Comptroller,
    sender: &String,
    msg: ExecuteMsg,
    positions: &Vec<Position>,
) -> (r: Result<(), ContractError>)
    requires
        old(engine).wf(),
    ensures
        final(engine).wf(),
        execute_spec(old(engine)@, final(engine)@, sender@, msg, position_views(positions@), r),
{
    match msg {
        ExecuteMsg::RegisterMarket {
            asset_id,
            pool_address,
            collateral_factor,
        } => execute_register_market(engine, asset_id, pool_address, collateral_factor),
        ExecuteMsg::UpdateCollateralFactor { asset_id, factor } => {
            execute_update_collateral_factor(engine, &asset_id, factor)
        },
        ExecuteMsg::EnterMarket { asset_id } => execute_enter_market(engine, sender, asset_id),
        ExecuteMsg::ExitMarket { asset_id } => execute_exit_market(
            engine,
            sender,
            &asset_id,
            positions,
        ),
    }
}

/// Answers a read-only request. `positions` carries what the pools and the
/// price source report about the user of a liquidity query.
pub fn query(engine: &Comptroller, msg: &QueryMsg, positions: &Vec<Position>) -> (r: Result<
    QueryResponse,
    ContractError,
>)
    requires
        engine.wf(),
    ensures
        match *msg {
            QueryMsg::GetMarket { asset_id } => {
                if engine@.markets.contains_key(asset_id@) {
                    r matches Ok(QueryResponse::Market(info)) && info@ == engine@.markets[asset_id@]
                } else {
                    r == Err::<QueryResponse, ContractError>(ContractError::MarketNotFound)
                }
            },
            QueryMsg::GetAccountLiquidity { user, hypothetical } => match liquidity_spec(
                engine@,
                user@,
                position_views(positions@),
                delta_view(hypothetical),
            ) {
                Ok(liquidity) => r == Ok::<QueryResponse, ContractError>(
                    QueryResponse::AccountLiquidity(liquidity),
                ),
                Err(error) => r == Err::<QueryResponse, ContractError>(error),
            },
        },
{
    match msg {
        QueryMsg::GetMarket { asset_id } => match query_market(engine, asset_id) {
            Ok(info) => Ok(QueryResponse::Market(info)),
            Err(error) => Err(error),
        },
        QueryMsg::GetAccountLiquidity { user, hypothetical } => match query_account_liquidity(
            engine,
            user,
            positions,
            hypothetical,
        ) {
            Ok(liquidity) => Ok(QueryResponse::AccountLiquidity(liquidity)),
            Err(error) => Err(error),
        },
    }
}

/// Creates the entry of `asset_id`, or overwrites it where there is one.
pub fn execute_register_market(
    engine: &mut Comptroller,
    asset_id: String,
    pool_address: String,
    collateral_factor: Decimal,
) -> (r: Result<(), ContractError>)
    requires
        old(engine).wf(),
    ensures
        final(engine).wf(),
        register_spec(
            old(engine)@,
            final(engine)@,
            asset_id@,
            pool_address@,
            collateral_factor,
            r,
        ),
{
    if !collateral_factor.at_most_one() {
        return Err(ContractError::InvalidCollateralFactor { atomics: collateral_factor.atomics });
    }
    let found = find_market(&engine.markets, &asset_id);
    let record = MarketRecord { asset_id, market: Market { pool_address, collateral_factor } };
    proof {
        match found {
            Some(i) => lemma_registry_replaced(engine.markets@, i as int, record),
            None => lemma_registry_pushed(engine.markets@, record),
        }
    }
    let ghost entry = record.market@;
    match found {
        Some(i) => {
            engine.markets.set(i, record);
        },
        None => {
            engine.markets.push(record);
        },
    }
    proof {
        lemma_valid_after_insert(old(engine)@, engine@, asset_id@, entry);
    }
    Ok(())
}

/// Replaces the collateral factor of a registered market.
pub fn execute_update_collateral_factor(
    engine: &mut Comptroller,
    asset_id: &String,
    factor: Decimal,
) -> (r: Result<(), ContractError>)
    requires
        old(engine).wf(),
    ensures
        final(engine).wf(),
        update_spec(old(engine)@, final(engine)@, asset_id@, factor, r),
{
    let i: usize = match find_market(&engine.markets, asset_id) {
        Some(i) => i,
        None => {
            return Err(ContractError::MarketNotFound);
        },
    };
    if !factor.at_most_one() {
        return Err(ContractError::InvalidCollateralFactor { atomics: factor.atomics });
    }
    let record = MarketRecord {
        asset_id: asset_id.clone(),
        market: Market {
            pool_address: engine.markets[i].market.pool_address.clone(),
            collateral_factor: factor,
        },
    };
    let ghost entry = record.market@;
    proof {
        lemma_registry_replaced(engine.markets@, i as int, record);
    }
    engine.markets.set(i, record);
    proof {
        lemma_valid_after_insert(old(engine)@, engine@, asset_id@, entry);
    }
    Ok(())
}

/// Pledges `asset_id` as collateral of `sender`. Entering a market twice is
/// the same as entering it once.
pub fn execute_enter_market(engine: &mut Comptroller, sender: &String, asset_id: String) -> (r:
    Result<(), ContractError>)
    requires
        old(engine).wf(),
    ensures
        final(engine).wf(),
        enter_spec(old(engine)@, final(engine)@, sender@, asset_id@, r),
{
    if find_market(&engine.markets, &asset_id).is_none() {
        return Err(ContractError::MarketNotFound);
    }
    if find_membership(&engine.memberships, sender, &asset_id).is_some() {
        return Ok(());
    }
    let ghost before = engine.memberships@;
    let membership = Membership { user: sender.clone(), asset_id };
    engine.memberships.push(membership);
    proof {
        assert(pledges(engine.memberships@) =~= pledges(before).push(membership@));
        lemma_valid_after_enter(old(engine)@, engine@, membership@);
    }
    Ok(())
}

/// Withdraws the pledge of `asset_id` by `sender`, unless the account would
/// be left with less collateral than debt.
pub fn execute_exit_market(
    engine: &mut Comptroller,
    sender: &String,
    asset_id: &String,
    positions: &Vec<Position>,
) -> (r: Result<(), ContractError>)
    requires
        old(engine).wf(),
    ensures
        final(engine).wf(),
        exit_spec(
            old(engine)@,
            final(engine)@,
            sender@,
            asset_id@,
            position_views(positions@),
            r,
        ),
{
    let i: usize = match find_membership(&engine.memberships, sender, asset_id) {
        Some(i) => i,
        None => {
            return Ok(());
        },
    };
    let ghost before = engine.memberships@;
    let ghost m = MembershipSpec { user: sender@, asset_id: asset_id@ };
    assert(pledges(before).index_of(m) == i);
    let membership = engine.memberships.remove(i);
    proof {
        assert(pledges(engine.memberships@) =~= pledges(before).remove(i as int));
        assert(engine@ == without_membership(old(engine)@, sender@, asset_id@));
        assert(engine@.valid()) by {
            let kept = pledges(before).remove(i as int);
            assert forall|a: int, b: int| 0 <= a < kept.len() && 0 <= b < kept.len() && a
                != b implies kept[a]
                != kept[b] by {
                let a0 = if a < i { a } else { a + 1 };
                let b0 = if b < i { b } else { b + 1 };
                assert(kept[a] == pledges(before)[a0]);
                assert(kept[b] == pledges(before)[b0]);
            }
            assert forall|a: int| 0 <= a < kept.len() implies engine@.markets.contains_key(
                (#[trigger] kept[a]).asset_id,
            ) by {
                let a0 = if a < i { a } else { a + 1 };
                assert(kept[a] == pledges(before)[a0]);
            }
        }
    }
    let outcome = match compute_liquidity(
        &engine.markets,
        &engine.memberships,
        sender,
        positions,
        &None,
    ) {
        Ok(liquidity) => {
            if liquidity.solvent() {
                Ok(())
            } else {
                Err(
                    ContractError::ActiveCollateralInUse {
                        collateral_value: liquidity.collateral_value,
                        debt_value: liquidity.debt_value,
                    },
                )
            }
        },
        Err(error) => Err(error),
    };
    if outcome.is_err() {
        engine.memberships.insert(i, membership);
        proof {
            assert(engine.memberships@ =~= before);
        }
    }
    outcome
}

/// The registry entry of `asset_id`.
pub fn query_market(engine: &Comptroller, asset_id: &String) -> (r: Result<
    MarketInfo,
    ContractError,
>)
    requires
        engine.wf(),
    ensures
        market_spec(engine@, asset_id@, r),
{
    match find_market(&engine.markets, asset_id) {
        Some(i) => Ok(
            MarketInfo {
                pool_address: engine.markets[i].market.pool_address.clone(),
                collateral_factor: engine.markets[i].market.collateral_factor,
            },
        ),
        None => Err(ContractError::MarketNotFound),
    }
}

/// The liquidity of `user`, with `hypothetical` applied where one is given.
/// The computation reads the positions and changes nothing.
pub fn query_account_liquidity(
    engine: &Comptroller,
    user: &String,
    positions: &Vec<Position>,
    hypothetical: &Option<HypotheticalDelta>,
) -> (r: Result<AccountLiquidityResponse, ContractError>)
    requires
        engine.wf(),
    ensures
        r == liquidity_spec(engine@, user@, position_views(positions@), delta_view(*hypothetical)),
{
    compute_liquidity(&engine.markets, &engine.memberships, user, positions, hypothetical)
}

/// The registered assets, in the order of registration: the pools whose
/// positions a liquidity computation needs.
pub fn registered_assets(engine: &Comptroller) -> (r: Vec<String>)
    requires
        engine.wf(),
    ensures
        r@.map_values(|asset: String| asset@) == engine@.assets,
{
    let mut assets: Vec<String> = Vec::new();
    let mut i: usize = 0;
    while i < engine.markets.len()
        invariant
            i <= engine.markets.len(),
            assets@.len() == i,
            forall|j: int| 0 <= j < i ==> (#[trigger] assets@[j])@ == engine.markets@[j].asset_id@,
        decreases engine.markets.len() - i,
    {
        assets.push(engine.markets[i].asset_id.clone());
        i += 1;
    }
    assert(assets@.map_values(|asset: String| asset@) =~= engine@.assets);
    assets
}

/// The assets that `user` has pledged, in the order in which they were
/// entered.
pub fn entered_assets(engine: &Comptroller, user: &String) -> (r: Vec<String>)
    requires
        engine.wf(),
    ensures
        r@.map_values(|asset: String| asset@) == assets_of(
            engine@.memberships,
            user@,
            engine@.memberships.len() as int,
        ),
{
    let mut assets: Vec<String> = Vec::new();
    let mut i: usize = 0;
    assert(assets@.map_values(|asset: String| asset@) =~= assets_of(engine@.memberships, user@, 0));
    while i < engine.memberships.len()
        invariant
            i <= engine.memberships.len(),
            assets@.map_values(|asset: String| asset@) == assets_of(
                engine@.memberships,
                user@,
                i as int,
            ),
        decreases engine.memberships.len() - i,
    {
        let ghost before = assets@;
        if engine.memberships[i].user == *user {
            let asset = engine.memberships[i].asset_id.clone();
            assets.push(asset);
            assert(assets@.map_values(|asset: String| asset@) =~= before.map_values(
                |asset: String| asset@,
            ).push(asset@));
        }
        assert(engine@.memberships[i as int] == engine.memberships@[i as int]@);
        i += 1;
    }
    assets
}

} // verus!
