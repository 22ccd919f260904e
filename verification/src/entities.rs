//! Plain data shapes of the remote account API: inventory payloads, item
//! metadata, token information and trading-post prices.

use vstd::prelude::*;

verus! {

/// Progress of a background task that eventually yields a `T` or a fixed
/// error message.
#[derive(Debug)]
pub enum LoadingState<T> {
    Init,
    Loading,
    Success(T),
    Error(&'static str),
}

/// Access permission carried by an account API token.
#[derive(Debug, Clone, Copy, PartialEq, Eq, Structural)]
pub enum Gw2Permission {
    Account,
    Builds,
    Characters,
    Guilds,
    Inventories,
    Progression,
    Pvp,
    TradingPost,
    Unlocks,
    Wallet,
}

/// Token information returned by the account API for one API key.
pub struct Gw2ApiKey {
    pub id: String,
    pub name: String,
    pub permissions: Vec<Gw2Permission>,
}

/// One raw inventory slot entry as the account API reports it.
pub struct Gw2PlayerItem {
    pub id: usize,
    pub count: usize,
    pub charges: Option<usize>,
    pub skin: Option<usize>,
    pub upgrades: Option<Vec<usize>>,
    pub infusions: Option<Vec<usize>>,
    pub binding: Option<String>,
}

/// One bag of a character's inventory; empty slots are `None`.
pub struct Gw2Bag {
    pub id: usize,
    pub size: usize,
    pub inventory: Vec<Option<Gw2PlayerItem>>,
}

/// A character's whole inventory: its bags.
pub struct Gw2Inventory {
    pub bags: Vec<Gw2Bag>,
}

/// Category of an item, as the metadata endpoint reports it.
#[derive(Debug, Clone, Copy, PartialEq, Eq, Structural)]
pub enum Gw2ItemType {
    Armor,
    Back,
    Bag,
    Consumable,
    Container,
    CraftingMaterial,
    Gathering,
    Gizmo,
    JadeTechModule,
    Key,
    MiniPet,
    PowerCore,
    Relic,
    Tool,
    Trait,
    Trinket,
    Trophy,
    UpgradeComponent,
    Weapon,
    Unknown,
}

/// Rarity tier of an item, from junk up to legendary.
#[derive(Debug, Clone, Copy, PartialEq, Eq, Structural)]
pub enum Gw2Rarity {
    Junk,
    Basic,
    Fine,
    Masterwork,
    Rare,
    Exotic,
    Ascended,
    Legendary,
}

/// Item metadata resolved from an item id: display name, description text,
/// rarity, category and icon address.
pub struct Gw2Item {
    pub id: usize,
    pub name: String,
    pub description: Option<String>,
    pub rarity: Gw2Rarity,
    pub item_type: Gw2ItemType,
    pub icon: Option<String>,
}

/// One side of a trading-post listing: how many orders stand and at what
/// price, counted in copper coins.
#[derive(Debug, Clone, Copy, PartialEq, Eq, Structural)]
pub struct Gw2TpPrice {
    pub quantity: usize,
    pub unit_price: usize,
}

impl Gw2TpPrice {
    /// Splits the copper price into (gold, silver, copper) display units.
    pub fn units(&self) -> (u: (usize, usize, usize))
        ensures
            u.0 == self.unit_price / 10000,
            u.1 == (self.unit_price / 100) % 100,
            u.2 == self.unit_price % 100,
    {
        (self.unit_price / 10000, (self.unit_price / 100) % 100, self.unit_price % 100)
    }
}

/// Buy and sell listings of one item on the trading post.
#[derive(Debug, Clone, Copy, PartialEq, Eq, Structural)]
pub struct Gw2Tp {
    pub id: usize,
    pub buys: Gw2TpPrice,
    pub sells: Gw2TpPrice,
}

/// Gold, silver and copper display units recombine to the copper price.
pub proof fn lemma_units_recompose(p: Gw2TpPrice)
    ensures
        (p.unit_price / 10000) * 10000 + ((p.unit_price / 100) % 100) * 100 + p.unit_price % 100
            == p.unit_price,
{
    let v = p.unit_price as int;
    assert(v / 10000 * 10000 + (v / 100 % 100) * 100 + v % 100 == v) by (nonlinear_arith);
}

} // verus!
