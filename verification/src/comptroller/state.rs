//! What the risk engine persists: the market registry and the collateral
//! memberships, with their mathematical models.

use crate::decimal::Decimal;
use vstd::prelude::*;

verus! {

/// A registry entry: where the asset's pool lives and how much of a deposit
/// counts as collateral. The risk engine refers to the pool; it never owns
/// the pool's state.
#[derive(Clone, Debug, PartialEq, Eq)]
pub struct Market {
    pub pool_address: String,
    pub collateral_factor: Decimal,
}

/// The model of a registry entry.
pub struct MarketSpec {
    pub pool_address: Seq<char>,
    pub collateral_factor: Decimal,
}

impl View for Market {
    type V = MarketSpec;

    open spec fn view(&self) -> MarketSpec {
        MarketSpec {
            pool_address: self.pool_address@,
            collateral_factor: self.collateral_factor,
        }
    }
}

/// A registry entry under its key.
pub struct MarketRecord {
    pub asset_id: String,
    pub market: Market,
}

/// A user's pledge of one asset as collateral.
pub struct Membership {
    pub user: String,
    pub asset_id: String,
}

/// The model of a membership.
pub struct MembershipSpec {
    pub user: Seq<char>,
    pub asset_id: Seq<char>,
}

impl View for Membership {
    type V = MembershipSpec;

    open spec fn view(&self) -> MembershipSpec {
        MembershipSpec { user: self.user@, asset_id: self.asset_id@ }
    }
}

/// The mathematical content of the risk engine: the registered assets in the
/// order in which they were registered, the registry as a map from asset to
/// entry, and the memberships in the order in which they were made.
pub struct ComptrollerView {
    pub assets: Seq<Seq<char>>,
    pub markets: Map<Seq<char>, MarketSpec>,
    pub memberships: Seq<MembershipSpec>,
}

impl ComptrollerView {
    /// The registered assets are exactly the keys of the registry, each once;
    /// every collateral factor lies in `[0, 1]`; no membership occurs twice;
    /// and every membership is in a registered market.
    pub open spec fn valid(&self) -> bool {
        &&& self.assets.no_duplicates()
        &&& forall|asset: Seq<char>| #[trigger]
            self.markets.contains_key(asset) <==> self.assets.contains(asset)
        &&& forall|asset: Seq<char>| #[trigger]
            self.markets.contains_key(asset) ==> self.markets[asset].collateral_factor.is_fraction()
        &&& self.memberships.no_duplicates()
        &&& forall|i: int|
            0 <= i < self.memberships.len() ==> self.markets.contains_key(
                (#[trigger] self.memberships[i]).asset_id,
            )
    }

    /// Whether `user` has pledged `asset` as collateral.
    pub open spec fn is_member(&self, user: Seq<char>, asset: Seq<char>) -> bool {
        self.memberships.contains(MembershipSpec { user, asset_id: asset })
    }

    /// The registered assets after `asset` has been registered: as before
    /// where it was registered already, with `asset` at the end otherwise.
    pub open spec fn assets_with(&self, asset: Seq<char>) -> Seq<Seq<char>> {
        if self.markets.contains_key(asset) {
            self.assets
        } else {
            self.assets.push(asset)
        }
    }
}

/// Creating or overwriting an entry with a factor in `[0, 1]` keeps the
/// content valid.
pub proof fn lemma_valid_after_insert(
    before: ComptrollerView,
    after: ComptrollerView,
    asset: Seq<char>,
    entry: MarketSpec,
)
    requires
        before.valid(),
        entry.collateral_factor.is_fraction(),
        after.assets == before.assets_with(asset),
        after.markets == before.markets.insert(asset, entry),
        after.memberships == before.memberships,
    ensures
        after.valid(),
{
    assert forall|a: Seq<char>| #[trigger]
        after.markets.contains_key(a) <==> after.assets.contains(a) by {
        if a == asset {
            if !before.markets.contains_key(asset) {
                assert(after.assets[before.assets.len() as int] == asset);
            } else {
                assert(before.assets.contains(asset));
            }
        } else {
            if before.assets.contains(a) {
                let i = choose|i: int| 0 <= i < before.assets.len() && before.assets[i] == a;
                assert(after.assets[i] == a);
            }
            if after.assets.contains(a) {
                let i = choose|i: int| 0 <= i < after.assets.len() && after.assets[i] == a;
                assert(before.assets[i] == a);
            }
            assert(before.markets.contains_key(a) <==> before.assets.contains(a));
        }
    }
    assert(after.assets.no_duplicates()) by {
        if !before.markets.contains_key(asset) {
            assert(!before.assets.contains(asset));
            assert forall|i: int, j: int|
                0 <= i < after.assets.len() && 0 <= j < after.assets.len() && i != j
                implies after.assets[i] != after.assets[j] by {
                let n = before.assets.len() as int;
                if i < n && j < n {
                    assert(before.assets[i] != before.assets[j]);
                } else if i < n {
                    assert(before.assets[i] != asset);
                } else {
                    assert(before.assets[j] != asset);
                }
            }
        }
    }
    assert forall|a: Seq<char>| #[trigger] after.markets.contains_key(a)
        implies after.markets[a].collateral_factor.is_fraction() by {
        if a != asset {
            assert(before.markets.contains_key(a));
        }
    }
    assert forall|i: int| 0 <= i < after.memberships.len() implies after.markets.contains_key(
        (#[trigger] after.memberships[i]).asset_id,
    ) by {
        assert(before.markets.contains_key(before.memberships[i].asset_id));
    }
}

/// Adding a membership that is not there yet, in a registered market, keeps
/// the content valid.
pub proof fn lemma_valid_after_enter(
    before: ComptrollerView,
    after: ComptrollerView,
    membership: MembershipSpec,
)
    requires
        before.valid(),
        before.markets.contains_key(membership.asset_id),
        !before.memberships.contains(membership),
        after.assets == before.assets,
        after.markets == before.markets,
        after.memberships == before.memberships.push(membership),
    ensures
        after.valid(),
{
    let n = before.memberships.len() as int;
    assert forall|i: int, j: int|
        0 <= i < after.memberships.len() && 0 <= j < after.memberships.len() && i != j
            implies after.memberships[i]
        != after.memberships[j] by {
        if i < n && j < n {
            assert(before.memberships[i] != before.memberships[j]);
        } else if i < n {
            assert(before.memberships[i] != membership);
        } else {
            assert(before.memberships[j] != membership);
        }
    }
    assert forall|i: int| 0 <= i < after.memberships.len() implies after.markets.contains_key(
        (#[trigger] after.memberships[i]).asset_id,
    ) by {
        if i < n {
            assert(before.markets.contains_key(before.memberships[i].asset_id));
        }
    }
}

/// No asset has two records.
pub open spec fn distinct_assets(records: Seq<MarketRecord>) -> bool {
    forall|i: int, j: int|
        0 <= i < j < records.len() ==> (#[trigger] records[i]).asset_id@
            != (#[trigger] records[j]).asset_id@
}

/// The registry that a list of records stands for: each asset mapped to its
/// entry.
pub open spec fn registry(records: Seq<MarketRecord>) -> Map<Seq<char>, MarketSpec> {
    Map::new(
        |asset: Seq<char>|
            exists|i: int| 0 <= i < records.len() && (#[trigger] records[i]).asset_id@ == asset,
        |asset: Seq<char>|
            records[choose|i: int|
                0 <= i < records.len() && (#[trigger] records[i]).asset_id@ == asset].market@,
    )
}

/// The registered assets that a list of records stands for, in its order.
pub open spec fn listing(records: Seq<MarketRecord>) -> Seq<Seq<char>> {
    records.map_values(|r: MarketRecord| r.asset_id@)
}

/// The content that the stored records and pledges stand for.
pub open spec fn engine_view(
    records: Seq<MarketRecord>,
    memberships: Seq<Membership>,
) -> ComptrollerView {
    ComptrollerView {
        assets: listing(records),
        markets: registry(records),
        memberships: pledges(memberships),
    }
}

/// With distinct assets, the listing names each key of the registry once.
pub proof fn lemma_listing_matches(records: Seq<MarketRecord>)
    requires
        distinct_assets(records),
    ensures
        listing(records).no_duplicates(),
        forall|asset: Seq<char>| #[trigger]
            registry(records).contains_key(asset) <==> listing(records).contains(asset),
{
    let assets = listing(records);
    assert forall|i: int, j: int| 0 <= i < assets.len() && 0 <= j < assets.len() && i != j
        implies assets[i] != assets[j] by {
        if i < j {
            assert(records[i].asset_id@ != records[j].asset_id@);
        } else {
            assert(records[j].asset_id@ != records[i].asset_id@);
        }
    }
    assert forall|asset: Seq<char>| #[trigger]
        registry(records).contains_key(asset) <==> assets.contains(asset) by {
        if registry(records).contains_key(asset) {
            let i = choose|i: int|
                0 <= i < records.len() && (#[trigger] records[i]).asset_id@ == asset;
            assert(assets[i] == asset);
        }
        if assets.contains(asset) {
            let i = choose|i: int| 0 <= i < assets.len() && assets[i] == asset;
            assert(records[i].asset_id@ == asset);
        }
    }
}

/// The memberships that a list of pledges stands for.
pub open spec fn pledges(memberships: Seq<Membership>) -> Seq<MembershipSpec> {
    memberships.map_values(|m: Membership| m@)
}

/// With distinct assets, the record at `i` is the registry's entry for its
/// asset.
pub proof fn lemma_registry_at(records: Seq<MarketRecord>, i: int)
    requires
        distinct_assets(records),
        0 <= i < records.len(),
    ensures
        registry(records).contains_key(records[i].asset_id@),
        registry(records)[records[i].asset_id@] == records[i].market@,
{
    let asset = records[i].asset_id@;
    let k = choose|k: int| 0 <= k < records.len() && (#[trigger] records[k]).asset_id@ == asset;
    assert(k == i);
}

/// Appending a record for a new asset inserts it into the registry.
pub proof fn lemma_registry_pushed(before: Seq<MarketRecord>, record: MarketRecord)
    requires
        distinct_assets(before),
        !registry(before).contains_key(record.asset_id@),
    ensures
        distinct_assets(before.push(record)),
        listing(before.push(record)) == listing(before).push(record.asset_id@),
        registry(before.push(record)) == registry(before).insert(
            record.asset_id@,
            record.market@,
        ),
{
    let after = before.push(record);
    let n = before.len() as int;
    assert(listing(after) =~= listing(before).push(record.asset_id@));
    assert(distinct_assets(after)) by {
        assert forall|a: int, b: int| 0 <= a < b < after.len()
            implies (#[trigger] after[a]).asset_id@
            != (#[trigger] after[b]).asset_id@ by {
            if b < n {
                assert(before[a].asset_id@ != before[b].asset_id@);
            } else {
                assert(before[a].asset_id@ == after[a].asset_id@);
            }
        }
    }
    let expected = registry(before).insert(record.asset_id@, record.market@);
    assert forall|asset: Seq<char>| registry(after).contains_key(asset)
        implies #[trigger] expected.contains_key(asset)
        && expected[asset] == registry(after)[asset] by {
        let k = choose|k: int| 0 <= k < after.len() && (#[trigger] after[k]).asset_id@ == asset;
        lemma_registry_at(after, k);
        if k < n {
            assert(before[k].asset_id@ == asset);
            lemma_registry_at(before, k);
        }
    }
    assert forall|asset: Seq<char>| expected.contains_key(asset) implies #[trigger] registry(
        after,
    ).contains_key(asset) by {
        if asset == record.asset_id@ {
            assert(after[n].asset_id@ == asset);
        } else {
            let k = choose|k: int| 0 <= k < before.len() && (#[trigger] before[k]).asset_id@
                == asset;
            assert(after[k].asset_id@ == asset);
        }
    }
    assert(registry(after) =~= expected);
}

/// Replacing the record of an asset by another record of the same asset
/// overwrites the registry's entry.
pub proof fn lemma_registry_replaced(before: Seq<MarketRecord>, i: int, record: MarketRecord)
    requires
        distinct_assets(before),
        0 <= i < before.len(),
        before[i].asset_id@ == record.asset_id@,
    ensures
        distinct_assets(before.update(i, record)),
        listing(before.update(i, record)) == listing(before),
        registry(before.update(i, record)) == registry(before).insert(
            record.asset_id@,
            record.market@,
        ),
{
    let after = before.update(i, record);
    assert(listing(after) =~= listing(before));
    assert(distinct_assets(after)) by {
        assert forall|a: int, b: int| 0 <= a < b < after.len()
            implies (#[trigger] after[a]).asset_id@
            != (#[trigger] after[b]).asset_id@ by {
            assert(before[a].asset_id@ != before[b].asset_id@);
        }
    }
    let expected = registry(before).insert(record.asset_id@, record.market@);
    assert forall|asset: Seq<char>| registry(after).contains_key(asset)
        implies #[trigger] expected.contains_key(asset)
        && expected[asset] == registry(after)[asset] by {
        let k = choose|k: int| 0 <= k < after.len() && (#[trigger] after[k]).asset_id@ == asset;
        lemma_registry_at(after, k);
        assert(before[k].asset_id@ == asset);
        lemma_registry_at(before, k);
    }
    assert forall|asset: Seq<char>| expected.contains_key(asset) implies #[trigger] registry(
        after,
    ).contains_key(asset) by {
        if asset == record.asset_id@ {
            assert(after[i].asset_id@ == asset);
        } else {
            let k = choose|k: int| 0 <= k < before.len() && (#[trigger] before[k]).asset_id@
                == asset;
            assert(after[k].asset_id@ == asset);
        }
    }
    assert(registry(after) =~= expected);
}

} // verus!
