//! What is written about an item under the mouse.

use vstd::prelude::*;
use vstd::string::*;

use crate::client::hud::{coins_text, format_coins};
use crate::sim::combat::{Consumable, WeaponKind};
use crate::sim::interact::ToolKind;
use crate::text::{decimal, push_decimal};

verus! {

/// What an accessory does for its wearer.
#[derive(Debug, Clone, Copy, PartialEq, Eq, Structural)]
pub enum AccessoryEffect {
    RunSpeed,
    DoubleJump,
    NoFallDamage,
    HpRegen,
    FireWard,
    SlimeFriend,
    DamageBoost,
    DefenseBoost,
}

impl AccessoryEffect {
    pub open spec fn text(self) -> Seq<char> {
        match self {
            AccessoryEffect::RunSpeed => "+25% max run speed"@,
            AccessoryEffect::DoubleJump => "Grants a double jump"@,
            AccessoryEffect::NoFallDamage => "Negates fall damage"@,
            AccessoryEffect::HpRegen => "+0.5 HP/s passive regen"@,
            AccessoryEffect::FireWard => "Immune to Burning; lava deals half damage"@,
            AccessoryEffect::SlimeFriend => "Slimes never aggro"@,
            AccessoryEffect::DamageBoost => "+10% all damage"@,
            AccessoryEffect::DefenseBoost => "+4 defense"@,
        }
    }
}

/// One line about an accessory.
pub fn accessory_text(e: AccessoryEffect) -> (s: String)
    ensures
        s@ == e.text(),
{
    String::from_str(
        match e {
            AccessoryEffect::RunSpeed => "+25% max run speed",
            AccessoryEffect::DoubleJump => "Grants a double jump",
            AccessoryEffect::NoFallDamage => "Negates fall damage",
            AccessoryEffect::HpRegen => "+0.5 HP/s passive regen",
            AccessoryEffect::FireWard => "Immune to Burning; lava deals half damage",
            AccessoryEffect::SlimeFriend => "Slimes never aggro",
            AccessoryEffect::DamageBoost => "+10% all damage",
            AccessoryEffect::DefenseBoost => "+4 defense",
        },
    )
}

/// What a full set of armor grants.
#[derive(Debug, Clone, Copy, PartialEq, Eq, Structural)]
pub enum SetBonus {
    Defense(u32),
    EmberFury,
}

/// What is known of an item. The seconds of one use come as text with two
/// decimals; an item that is not used on its own has none.
pub struct ItemFacts {
    pub name: String,
    pub weapon: Option<(WeaponKind, u32, Option<String>)>,
    pub tool: Option<(ToolKind, u32, String)>,
    pub armor: Option<(u32, Option<SetBonus>)>,
    pub accessory: Option<AccessoryEffect>,
    pub consumable: Option<Consumable>,
    pub placeable: bool,
    pub value: u32,
}

pub open spec fn weapon_word(kind: WeaponKind) -> Seq<char> {
    match kind {
        WeaponKind::Melee => "melee"@,
        WeaponKind::Bow => "bow"@,
        WeaponKind::Arrow => "arrow"@,
    }
}

pub open spec fn tool_word(kind: ToolKind) -> Seq<char> {
    match kind {
        ToolKind::Pick => "pick"@,
        ToolKind::Axe => "axe"@,
        ToolKind::Hammer => "hammer"@,
        _ => "tool"@,
    }
}

/// The line about a weapon.
pub open spec fn weapon_line(
    kind: WeaponKind,
    damage: u32,
    use_secs: Option<String>,
) -> Seq<char> {
    let head = decimal(damage as nat) + " damage ("@ + weapon_word(kind);
    match use_secs {
        Some(t) => head + ", "@ + t@ + "s use)"@,
        None => head + ")"@,
    }
}

/// The line about a tool.
pub open spec fn tool_line(kind: ToolKind, power: u32, use_secs: Seq<char>) -> Seq<char> {
    decimal(power as nat) + "% "@ + tool_word(kind) + " power ("@ + use_secs + "s use)"@
}

pub open spec fn bonus_line(b: SetBonus) -> Seq<char> {
    match b {
        SetBonus::Defense(n) => "Set bonus: +"@ + decimal(n as nat) + " defense"@,
        SetBonus::EmberFury => "Set bonus: +10% melee damage, immune to Burning"@,
    }
}

pub open spec fn effect_line(e: Consumable) -> Seq<char> {
    match e {
        Consumable::Heal(hp) => "Restores "@ + decimal(hp as nat) + " HP"@,
        Consumable::MaxHpUp(hp) => "+"@ + decimal(hp as nat) + " max HP (permanent)"@,
        Consumable::SummonBoss => "Summons a boss"@,
        Consumable::TeleportToSpawn => "Teleports you home"@,
    }
}

/// The lines of one kind, none where the item is not of it.
pub open spec fn weapon_lines(f: ItemFacts) -> Seq<Seq<char>> {
    match f.weapon {
        Some((kind, damage, t)) => seq![weapon_line(kind, damage, t)],
        None => Seq::empty(),
    }
}

pub open spec fn tool_lines(f: ItemFacts) -> Seq<Seq<char>> {
    match f.tool {
        Some((kind, power, t)) => seq![tool_line(kind, power, t@)],
        None => Seq::empty(),
    }
}

pub open spec fn armor_lines(f: ItemFacts) -> Seq<Seq<char>> {
    match f.armor {
        Some((defense, None)) => seq![decimal(defense as nat) + " defense"@],
        Some((defense, Some(b))) => seq![decimal(defense as nat) + " defense"@, bonus_line(b)],
        None => Seq::empty(),
    }
}

pub open spec fn accessory_lines(f: ItemFacts) -> Seq<Seq<char>> {
    match f.accessory {
        Some(e) => seq![e.text()],
        None => Seq::empty(),
    }
}

pub open spec fn effect_lines(f: ItemFacts) -> Seq<Seq<char>> {
    match f.consumable {
        Some(e) => seq![effect_line(e)],
        None => Seq::empty(),
    }
}

pub open spec fn placing_lines(f: ItemFacts) -> Seq<Seq<char>> {
    if f.placeable {
        seq!["Can be placed"@]
    } else {
        Seq::empty()
    }
}

pub open spec fn value_lines(f: ItemFacts) -> Seq<Seq<char>> {
    if f.value > 0 {
        seq!["Value: "@ + coins_text(f.value as nat)]
    } else {
        Seq::empty()
    }
}

/// Everything written about an item: its name, then a line for each thing it
/// is good for, its worth last.
pub open spec fn tooltip_text(f: ItemFacts) -> Seq<Seq<char>> {
    seq![f.name@] + weapon_lines(f) + tool_lines(f) + armor_lines(f) + accessory_lines(f)
        + effect_lines(f) + placing_lines(f) + value_lines(f)
}

/// The lines as they are read.
pub open spec fn read(lines: Seq<String>) -> Seq<Seq<char>> {
    lines.map_values(|s: String| s@)
}

fn push_line(lines: &mut Vec<String>, line: String)
    ensures
        read(final(lines)@) == read(old(lines)@) + seq![line@],
{
    lines.push(line);
    assert(read(lines@) =~= read(old(lines)@) + seq![line@]);
}

fn weapon_text(kind: WeaponKind, damage: u32, use_secs: &Option<String>) -> (s: String)
    ensures
        s@ == weapon_line(kind, damage, *use_secs),
{
    let mut s = String::new();
    push_decimal(&mut s, damage as u64);
    s.append(" damage (");
    s.append(
        match kind {
            WeaponKind::Melee => "melee",
            WeaponKind::Bow => "bow",
            WeaponKind::Arrow => "arrow",
        },
    );
    match use_secs {
        Some(t) => {
            s.append(", ");
            s.append(t.as_str());
            s.append("s use)");
        },
        None => {
            s.append(")");
        },
    }
    assert(s@ =~= weapon_line(kind, damage, *use_secs));
    s
}

fn tool_text(kind: ToolKind, power: u32, use_secs: &str) -> (s: String)
    ensures
        s@ == tool_line(kind, power, use_secs@),
{
    let mut s = String::new();
    push_decimal(&mut s, power as u64);
    s.append("% ");
    s.append(
        match kind {
            ToolKind::Pick => "pick",
            ToolKind::Axe => "axe",
            ToolKind::Hammer => "hammer",
            _ => "tool",
        },
    );
    s.append(" power (");
    s.append(use_secs);
    s.append("s use)");
    assert(s@ =~= tool_line(kind, power, use_secs@));
    s
}

fn numbered(before: &str, n: u32, after: &str) -> (s: String)
    ensures
        s@ == before@ + decimal(n as nat) + after@,
{
    let mut s = String::from_str(before);
    push_decimal(&mut s, n as u64);
    s.append(after);
    s
}

fn bonus_text(b: SetBonus) -> (s: String)
    ensures
        s@ == bonus_line(b),
{
    match b {
        SetBonus::Defense(n) => numbered("Set bonus: +", n, " defense"),
        SetBonus::EmberFury => String::from_str("Set bonus: +10% melee damage, immune to Burning"),
    }
}

fn effect_text(e: Consumable) -> (s: String)
    ensures
        s@ == effect_line(e),
{
    match e {
        Consumable::Heal(hp) => numbered("Restores ", hp as u32, " HP"),
        Consumable::MaxHpUp(hp) => numbered("+", hp as u32, " max HP (permanent)"),
        Consumable::SummonBoss => String::from_str("Summons a boss"),
        Consumable::TeleportToSpawn => String::from_str("Teleports you home"),
    }
}

fn push_armor(lines: &mut Vec<String>, f: &ItemFacts)
    ensures
        read(final(lines)@) == read(old(lines)@) + armor_lines(*f),
{
    if let Some((defense, set)) = &f.armor {
        let mut s = String::new();
        push_decimal(&mut s, *defense as u64);
        s.append(" defense");
        assert(s@ =~= decimal(*defense as nat) + " defense"@);
        push_line(lines, s);
        if let Some(b) = set {
            push_line(lines, bonus_text(*b));
        }
    }
    assert(read(lines@) =~= read(old(lines)@) + armor_lines(*f));
}

fn push_use(lines: &mut Vec<String>, f: &ItemFacts)
    ensures
        read(final(lines)@) == read(old(lines)@) + weapon_lines(*f) + tool_lines(*f),
{
    let ghost r = read(lines@);
    if let Some((kind, damage, t)) = &f.weapon {
        push_line(lines, weapon_text(*kind, *damage, t));
    }
    assert(read(lines@) =~= r + weapon_lines(*f));
    let ghost r = read(lines@);
    if let Some((kind, power, t)) = &f.tool {
        push_line(lines, tool_text(*kind, *power, t.as_str()));
    }
    assert(read(lines@) =~= r + tool_lines(*f));
}

fn push_gain(lines: &mut Vec<String>, f: &ItemFacts)
    ensures
        read(final(lines)@) == read(old(lines)@) + accessory_lines(*f) + effect_lines(*f),
{
    let ghost r = read(lines@);
    if let Some(e) = f.accessory {
        push_line(lines, accessory_text(e));
    }
    assert(read(lines@) =~= r + accessory_lines(*f));
    let ghost r = read(lines@);
    if let Some(e) = f.consumable {
        push_line(lines, effect_text(e));
    }
    assert(read(lines@) =~= r + effect_lines(*f));
}

fn push_worth(lines: &mut Vec<String>, f: &ItemFacts)
    ensures
        read(final(lines)@) == read(old(lines)@) + placing_lines(*f) + value_lines(*f),
{
    let ghost r = read(lines@);
    if f.placeable {
        push_line(lines, String::from_str("Can be placed"));
    }
    assert(read(lines@) =~= r + placing_lines(*f));
    let ghost r = read(lines@);
    if f.value > 0 {
        let mut s = String::from_str("Value: ");
        s.append(format_coins(f.value as u64).as_str());
        push_line(lines, s);
    }
    assert(read(lines@) =~= r + value_lines(*f));
}

/// The lines of a tooltip.
pub fn tooltip(f: &ItemFacts) -> (lines: Vec<String>)
    ensures
        read(lines@) == tooltip_text(*f),
{
    let mut lines: Vec<String> = Vec::new();
    push_line(&mut lines, String::from_str(f.name.as_str()));
    assert(read(lines@) =~= seq![f.name@]);
    push_use(&mut lines, f);
    push_armor(&mut lines, f);
    push_gain(&mut lines, f);
    push_worth(&mut lines, f);
    lines
}

/// A tooltip begins with the name and then says what the thing is good for, one line for each use
/// it has: fighting, work, wearing, eating, building and selling.
pub proof fn law_tooltips_have_a_line_per_use(f: ItemFacts)
    ensures
        tooltip_text(f)[0] == f.name@,
        tooltip_text(f).len() == 1 + (if f.weapon is Some {
            1int
        } else {
            0
        }) + (if f.tool is Some {
            1int
        } else {
            0
        }) + (match f.armor {
            None => 0int,
            Some((_, None)) => 1,
            Some((_, Some(_))) => 2,
        }) + (if f.accessory is Some {
            1int
        } else {
            0
        }) + (if f.consumable is Some {
            1int
        } else {
            0
        }) + (if f.placeable {
            1int
        } else {
            0
        }) + (if f.value > 0 {
            1int
        } else {
            0
        }),
        f.value > 0 ==> tooltip_text(f).last() == "Value: "@ + coins_text(f.value as nat),
        f.value == 0 && f.placeable ==> tooltip_text(f).last() == "Can be placed"@,
        f.weapon is Some ==> tooltip_text(f)[1] == weapon_line(
            f.weapon->Some_0.0,
            f.weapon->Some_0.1,
            f.weapon->Some_0.2,
        ),
        f.weapon is None && f.tool is Some ==> tooltip_text(f)[1] == tool_line(
            f.tool->Some_0.0,
            f.tool->Some_0.1,
            f.tool->Some_0.2@,
        ),
{
}

/// A weapon says how hard it hits, with what, and how long a blow takes; a tool says how strong it
/// is.
pub proof fn law_weapons_and_tools_are_described(n: u32, t: String)
    ensures
        weapon_line(WeaponKind::Melee, n, Some(t)) == decimal(n as nat) + " damage ("@ + "melee"@
            + ", "@ + t@ + "s use)"@,
        weapon_line(WeaponKind::Bow, n, Some(t)) == decimal(n as nat) + " damage ("@ + "bow"@
            + ", "@ + t@ + "s use)"@,
        weapon_line(WeaponKind::Arrow, n, None) == decimal(n as nat) + " damage ("@ + "arrow"@
            + ")"@,
        tool_line(ToolKind::Pick, n, t@) == decimal(n as nat) + "% "@ + "pick"@ + " power ("@ + t@
            + "s use)"@,
        tool_line(ToolKind::Axe, n, t@) == decimal(n as nat) + "% "@ + "axe"@ + " power ("@ + t@
            + "s use)"@,
        tool_line(ToolKind::Hammer, n, t@) == decimal(n as nat) + "% "@ + "hammer"@ + " power ("@
            + t@ + "s use)"@,
        bonus_line(SetBonus::Defense(n)) == "Set bonus: +"@ + decimal(n as nat) + " defense"@,
        bonus_line(SetBonus::EmberFury) == "Set bonus: +10% melee damage, immune to Burning"@,
{
}

/// What is eaten or drunk says what it does.
pub proof fn law_effects_are_described(e: Consumable)
    ensures
        e is SummonBoss ==> effect_line(e) == "Summons a boss"@,
        e is TeleportToSpawn ==> effect_line(e) == "Teleports you home"@,
        e matches Consumable::Heal(n) ==> effect_line(e) == "Restores "@ + decimal(n as nat)
            + " HP"@,
        e matches Consumable::MaxHpUp(n) ==> effect_line(e) == "+"@ + decimal(n as nat)
            + " max HP (permanent)"@,
{
}

/// What is worn says what it does.
pub proof fn law_accessories_are_described(e: AccessoryEffect)
    ensures
        e is RunSpeed ==> e.text() == "+25% max run speed"@,
        e is DoubleJump ==> e.text() == "Grants a double jump"@,
        e is NoFallDamage ==> e.text() == "Negates fall damage"@,
        e is HpRegen ==> e.text() == "+0.5 HP/s passive regen"@,
        e is FireWard ==> e.text() == "Immune to Burning; lava deals half damage"@,
        e is SlimeFriend ==> e.text() == "Slimes never aggro"@,
        e is DamageBoost ==> e.text() == "+10% all damage"@,
        e is DefenseBoost ==> e.text() == "+4 defense"@,
{
}

/// Armour says how well it protects, and then what a full set adds.
pub proof fn law_armour_is_described(f: ItemFacts)
    ensures
        f.armor is None ==> armor_lines(f).len() == 0,
        f.armor is Some ==> armor_lines(f)[0] == decimal(f.armor->Some_0.0 as nat) + " defense"@,
        f.armor is Some && f.armor->Some_0.1 is Some ==> armor_lines(f)[1] == bonus_line(
            f.armor->Some_0.1->Some_0,
        ),
{
}

} // verus!
