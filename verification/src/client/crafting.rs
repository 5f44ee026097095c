//! The crafting panel: which recipes are listed, how the list scrolls, and
//! what a click on one asks for.

use vstd::prelude::*;
use vstd::string::*;

use crate::client::hotbar::Wheel;
use crate::client::message::ClientMessage;
use crate::item::{InvSlot, ARMOR_START};
use crate::sim::inventory::{can_craft, Recipe, Station, StationSet};
use crate::text::{decimal, push_decimal};

verus! {

/// Recipes shown at once.
pub const VISIBLE_ROWS: usize = 9;

/// What the station is called.
pub open spec fn spec_station_name(s: Station) -> Seq<char> {
    match s {
        Station::Hands => "By hand"@,
        Station::Workbench => "Workbench"@,
        Station::Furnace => "Furnace"@,
        Station::Anvil => "Anvil"@,
        Station::InfernalForge => "Infernal Forge"@,
        Station::RitualAltar => "Ritual Altar"@,
        Station::Bottle => "Placed Bottle"@,
    }
}

pub fn station_name(s: Station) -> (name: &'static str)
    ensures
        name@ == spec_station_name(s),
{
    match s {
        Station::Hands => "By hand",
        Station::Workbench => "Workbench",
        Station::Furnace => "Furnace",
        Station::Anvil => "Anvil",
        Station::InfernalForge => "Infernal Forge",
        Station::RitualAltar => "Ritual Altar",
        Station::Bottle => "Placed Bottle",
    }
}

/// The line for the station of a recipe.
pub fn station_line(s: Station, nearby: bool) -> (line: String)
    ensures
        line@ == (if nearby {
            spec_station_name(s)
        } else {
            spec_station_name(s) + " (not nearby)"@
        }),
{
    let mut line = String::from_str(station_name(s));
    if !nearby {
        line.append(" (not nearby)");
    }
    line
}

/// The line for an ingredient: "Wood 3/10".
pub fn ingredient_line(name: &str, have: u64, need: u16) -> (line: String)
    ensures
        line@ == name@ + " "@ + decimal(have as nat) + "/"@ + decimal(need as nat),
{
    let mut line = String::from_str(name);
    line.append(" ");
    push_decimal(&mut line, have);
    line.append("/");
    push_decimal(&mut line, need as u64);
    line
}

/// The line for a recipe: its product, and how many if more than one.
pub fn recipe_label(name: &str, count: u16) -> (line: String)
    ensures
        line@ == (if count > 1 {
            name@ + " x"@ + decimal(count as nat)
        } else {
            name@
        }),
{
    let mut line = String::from_str(name);
    if count > 1 {
        line.append(" x");
        push_decimal(&mut line, count as u64);
    }
    line
}

/// A recipe is listed: without a tab, what the stations near can make; under
/// a tab, all of its station.
pub open spec fn listed(r: Recipe, tab: Option<Station>, near: StationSet) -> bool {
    match tab {
        None => near.spec_contains(r.station),
        Some(s) => r.station == s,
    }
}

/// The indices of those of the first `n` recipes that are listed.
pub open spec fn listing(recipes: Seq<Recipe>, tab: Option<Station>, near: StationSet, n: nat) -> Seq<
    usize,
>
    decreases n,
{
    if n == 0 {
        seq![]
    } else if listed(recipes[n - 1], tab, near) {
        listing(recipes, tab, near, (n - 1) as nat).push((n - 1) as usize)
    } else {
        listing(recipes, tab, near, (n - 1) as nat)
    }
}

/// How far a list of `rows` can be scrolled.
pub open spec fn max_scroll(rows: int) -> int {
    if rows > VISIBLE_ROWS {
        rows - VISIBLE_ROWS
    } else {
        0
    }
}

pub open spec fn scrolled(scroll: int, wheel: Wheel, rows: int) -> int {
    let moved = match wheel {
        Wheel::Still => scroll,
        Wheel::Up => if scroll > 0 {
            scroll - 1
        } else {
            0
        },
        Wheel::Down => scroll + 1,
    };
    if moved < max_scroll(rows) {
        moved
    } else {
        max_scroll(rows)
    }
}

/// What a frame does to the panel.
#[derive(Debug, Clone, Copy, PartialEq, Eq, Structural)]
pub struct PanelInput {
    /// The tab that was clicked.
    pub tab: Option<Option<Station>>,
    /// The wheel, while the mouse is on the list.
    pub wheel: Wheel,
    /// The shown row that was clicked.
    pub row: Option<usize>,
    /// The flash of the last click has lasted long enough.
    pub flash_over: bool,
    /// Grows with the time.
    pub now: u64,
}

/// The panel.
#[derive(Debug, Clone, Copy)]
pub struct CraftingUi {
    pub tab: Option<Station>,
    pub scroll: usize,
    /// The recipe that was clicked last, and when.
    pub flash: Option<(u16, u64)>,
}

/// What the panel shows, and what it asks for.
#[derive(Debug)]
pub struct Panel {
    /// Indices of the listed recipes.
    pub rows: Vec<usize>,
    pub craft: Option<ClientMessage>,
}

/// The recipe in a shown row.
pub open spec fn row_recipe(rows: Seq<usize>, scroll: int, row: Option<usize>) -> Option<int> {
    match row {
        Some(r) => if r < VISIBLE_ROWS && scroll + r < rows.len() {
            Some(rows[scroll + r] as int)
        } else {
            None
        },
        None => None,
    }
}

/// Stations are near and ingredients are there.
pub open spec fn craftable(r: Recipe, inv: Seq<Option<InvSlot>>, near: StationSet) -> bool {
    near.spec_contains(r.station) && r.supplied(inv, ARMOR_START as int)
}

impl CraftingUi {
    pub fn new() -> (u: CraftingUi)
        ensures
            u == (CraftingUi { tab: None, scroll: 0, flash: None }),
    {
        CraftingUi { tab: None, scroll: 0, flash: None }
    }

    /// The server changed a slot: the last click is answered.
    pub fn reconcile(&mut self)
        ensures
            *final(self) == (CraftingUi { flash: None, ..*old(self) }),
    {
        self.flash = None;
    }

    /// A frame of the panel.
    pub fn frame(
        &mut self,
        recipes: &Vec<Recipe>,
        inv: &Vec<Option<InvSlot>>,
        near: StationSet,
        input: PanelInput,
    ) -> (p: Panel)
        requires
            inv.len() >= ARMOR_START,
            old(self).scroll < usize::MAX,
        ensures
            ({
                let tab = match input.tab {
                    Some(t) => t,
                    None => old(self).tab,
                };
                let from = match input.tab {
                    Some(_) => 0,
                    None => old(self).scroll as int,
                };
                let rows = listing(recipes@, tab, near, recipes@.len());
                let scroll = scrolled(from, input.wheel, rows.len() as int);
                let chosen = row_recipe(rows, scroll, input.row);
                let made = chosen is Some && craftable(
                    recipes@[chosen->Some_0],
                    inv@,
                    near,
                );
                &&& final(self).tab == tab
                &&& final(self).scroll == scroll
                &&& p.rows@ == rows
                &&& p.craft == (if made {
                    Some(ClientMessage::Craft { recipe_id: recipes@[chosen->Some_0].id })
                } else {
                    None
                })
                &&& final(self).flash == (if made {
                    Some((recipes@[chosen->Some_0].id, input.now))
                } else if input.flash_over {
                    None
                } else {
                    old(self).flash
                })
            }),
    {
        match input.tab {
            Some(t) => {
                self.tab = t;
                self.scroll = 0;
            },
            None => {},
        }
        let mut rows: Vec<usize> = Vec::new();
        let mut i: usize = 0;
        while i < recipes.len()
            invariant
                i <= recipes.len(),
                rows@ == listing(recipes@, self.tab, near, i as nat),
                rows@.len() <= i,
                forall|k: int| 0 <= k < rows@.len() ==> (#[trigger] rows@[k]) < i,
            decreases recipes.len() - i,
        {
            let shown: bool = match self.tab {
                None => near.contains(recipes[i].station),
                Some(s) => recipes[i].station == s,
            };
            if shown {
                rows.push(i);
            }
            i = i + 1;
        }
        match input.wheel {
            Wheel::Still => {},
            Wheel::Up => {
                self.scroll = self.scroll.saturating_sub(1);
            },
            Wheel::Down => {
                self.scroll = self.scroll + 1;
            },
        }
        let most: usize = if rows.len() > VISIBLE_ROWS {
            rows.len() - VISIBLE_ROWS
        } else {
            0
        };
        if self.scroll > most {
            self.scroll = most;
        }
        if input.flash_over {
            self.flash = None;
        }
        let mut craft: Option<ClientMessage> = None;
        match input.row {
            Some(r) => {
                if r < VISIBLE_ROWS && r < rows.len() - self.scroll {
                    let k: usize = rows[self.scroll + r];
                    let recipe = &recipes[k];
                    if near.contains(recipe.station) && can_craft(recipe, inv, ARMOR_START) {
                        craft = Some(ClientMessage::Craft { recipe_id: recipe.id });
                        self.flash = Some((recipe.id, input.now));
                    }
                }
            },
            None => {},
        }
        Panel { rows, craft }
    }
}

/// The list never scrolls past its end.
pub proof fn law_scroll_stays_inside(scroll: int, wheel: Wheel, rows: int)
    requires
        scroll >= 0,
        rows >= 0,
    ensures
        0 <= scrolled(scroll, wheel, rows) <= max_scroll(rows),
        rows > 0 ==> scrolled(scroll, wheel, rows) < rows,
{
}

/// The tab of a station lists what is made there, the first tab what can be made where the
/// player stands, in the order of the recipes.
pub proof fn law_tabs_list_their_recipes(
    recipes: Seq<Recipe>,
    tab: Option<Station>,
    near: StationSet,
    n: nat,
)
    requires
        n <= recipes.len() <= usize::MAX,
    ensures
        ({
            let rows = listing(recipes, tab, near, n);
            &&& forall|i: int| 0 <= i < rows.len() ==> (#[trigger] rows[i]) < n
            &&& forall|i: int, j: int| 0 <= i < j < rows.len() ==> rows[i] < rows[j]
            &&& forall|k: usize|
                k < n ==> (#[trigger] rows.contains(k) <==> match tab {
                    Some(s) => recipes[k as int].station == s,
                    None => near.spec_contains(recipes[k as int].station),
                })
        }),
    decreases n,
{
    if n > 0 {
        law_tabs_list_their_recipes(recipes, tab, near, (n - 1) as nat);
        let before = listing(recipes, tab, near, (n - 1) as nat);
        let rows = listing(recipes, tab, near, n);
        assert forall|k: usize| k < n implies (#[trigger] rows.contains(k) <==> match tab {
            Some(s) => recipes[k as int].station == s,
            None => near.spec_contains(recipes[k as int].station),
        }) by {
            if rows.contains(k) {
                let i = choose|i: int| 0 <= i < rows.len() && rows[i] == k;
                if i < before.len() {
                    assert(before[i] == k);
                    assert(before.contains(k));
                }
            }
            if k < n - 1 {
                if before.contains(k) {
                    let i = choose|i: int| 0 <= i < before.len() && before[i] == k;
                    assert(rows[i] == k);
                }
            } else if listed(recipes[k as int], tab, near) {
                assert(rows[rows.len() - 1] == k);
            }
        }
    }
}

/// The list scrolls by a row, between its top and the place where its last nine rows show.
pub proof fn law_lists_scroll_by_a_row(scroll: int, rows: int)
    requires
        0 <= scroll,
        0 <= rows,
    ensures
        rows <= 9 ==> scrolled(scroll, Wheel::Still, rows) == 0 && scrolled(
            scroll,
            Wheel::Up,
            rows,
        ) == 0 && scrolled(scroll, Wheel::Down, rows) == 0,
        scroll + 9 <= rows ==> scrolled(scroll, Wheel::Still, rows) == scroll,
        0 < scroll && scroll + 9 <= rows ==> scrolled(scroll, Wheel::Up, rows) == scroll - 1,
        scrolled(0, Wheel::Up, rows) == 0,
        scroll + 9 < rows ==> scrolled(scroll, Wheel::Down, rows) == scroll + 1,
        scroll + 9 >= rows >= 9 ==> scrolled(scroll, Wheel::Down, rows) == rows - 9,
{
}

/// A click on a row means the recipe that the row shows.
pub proof fn law_rows_show_recipes(rows: Seq<usize>, scroll: int, row: usize)
    requires
        0 <= scroll,
    ensures
        row_recipe(rows, scroll, None) is None,
        row < 9 && scroll + row < rows.len() ==> row_recipe(rows, scroll, Some(row)) == Some(
            rows[scroll + row] as int,
        ),
        row >= 9 || scroll + row >= rows.len() ==> row_recipe(rows, scroll, Some(row)) is None,
{
}

/// A recipe can be made where its station is near and the first fifty slots hold all it takes.
pub proof fn law_craftable_means_near_and_supplied(
    r: Recipe,
    inv: Seq<Option<InvSlot>>,
    near: StationSet,
)
    ensures
        craftable(r, inv, near) <==> near.spec_contains(r.station) && r.supplied(inv, 50),
{
}

/// Every station has its name.
pub proof fn law_stations_have_names(s: Station)
    ensures
        s is Hands ==> spec_station_name(s) == "By hand"@,
        s is Workbench ==> spec_station_name(s) == "Workbench"@,
        s is Furnace ==> spec_station_name(s) == "Furnace"@,
        s is Anvil ==> spec_station_name(s) == "Anvil"@,
        s is InfernalForge ==> spec_station_name(s) == "Infernal Forge"@,
        s is RitualAltar ==> spec_station_name(s) == "Ritual Altar"@,
        s is Bottle ==> spec_station_name(s) == "Placed Bottle"@,
{
}

} // verus!
