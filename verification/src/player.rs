//! The players: their state, and what input, damage and time do to it.

use vstd::prelude::*;
pub use crate::attacks::player_attack;
use crate::enchantments::{
    is_regen_due, regen_due, tick, ticked, Effect, Enchantable, Enchantment, EnchantmentKind,
    EnchantmentSet,
};
use crate::items::{ItemInfo, ItemType};
use crate::map::{tile_of, world_to_tile, Floor, FloorInfo, Object, Door};
use crate::math::IVec2;
use crate::monsters::{monster_polygon, monster_views, MonsterObj, MonsterView};
use crate::math::{
    aabb_collision, div_trunc, easy_polygon, easy_polygon_spec, saturate, trunc_div, clamp_i32, Angle,
    AsPolygon, Polygon, Vec2, UNIT,
};

verus! {

/// Edge length of a player, in fixed-point units.
pub const PLAYER_SIZE: i32 = 12000;

/// Half the edge length of a player, in fixed-point units.
pub const HALF_PLAYER_SIZE: i32 = 6000;

/// How far a player moves in a frame, in fixed-point units.
pub const PLAYER_SPEED: i32 = 2200;

#[derive(Clone, Copy, Debug, PartialEq, Eq, Structural)]
pub enum PlayerClass {
    Warrior,
    Wizard,
    Rogue,
}

#[derive(Clone, Copy, Debug, PartialEq, Eq, Structural)]
pub struct PlayerClassError;

/// The lower-case form of a text, as `str::to_lowercase` gives it.
pub uninterp spec fn lowercase_of(text: Seq<char>) -> Seq<char>;

/// Calls `str::to_lowercase`. The contract names the result: it is the
/// lower-case form of the text, which depends on the text alone.
#[verifier::external_body]
fn to_lowercase(text: &str) -> (lower: String)
    ensures
        lower@ == lowercase_of(text@),
{
    text.to_lowercase()
}

/// The class that a name in lower case stands for. The rogue cannot be
/// chosen by name.
pub open spec fn class_named(lower: Seq<char>) -> Option<PlayerClass> {
    if lower == "warrior"@ {
        Some(PlayerClass::Warrior)
    } else if lower == "wizard"@ {
        Some(PlayerClass::Wizard)
    } else {
        None
    }
}

/// The class that a name in lower case stands for.
pub fn class_from_lowercase(lower: &str) -> (r: Result<PlayerClass, PlayerClassError>)
    ensures
        r == (match class_named(lower@) {
            Some(class) => Ok::<PlayerClass, PlayerClassError>(class),
            None => Err::<PlayerClass, PlayerClassError>(PlayerClassError),
        }),
{
    if str_equal(lower, "warrior") {
        Ok(PlayerClass::Warrior)
    } else if str_equal(lower, "wizard") {
        Ok(PlayerClass::Wizard)
    } else {
        Err(PlayerClassError)
    }
}

/// Whether two texts are the same.
pub fn str_equal(a: &str, b: &str) -> (r: bool)
    ensures
        r == (a@ == b@),
{
    let x = a.to_owned();
    let y = b.to_owned();
    x == y
}

impl PlayerClass {
    /// The class with the given name, in any mix of upper and lower case.
    pub fn try_from(value: &str) -> (r: Result<PlayerClass, PlayerClassError>)
        ensures
            r == (match class_named(lowercase_of(value@)) {
                Some(class) => Ok::<PlayerClass, PlayerClassError>(class),
                None => Err::<PlayerClass, PlayerClassError>(PlayerClassError),
            }),
    {
        let lower = to_lowercase(value);
        class_from_lowercase(lower.as_str())
    }

    /// The name of the class.
    pub fn name(&self) -> (s: &'static str)
        ensures
            s@ == (match self {
                PlayerClass::Warrior => "Warrior"@,
                PlayerClass::Wizard => "Wizard"@,
                PlayerClass::Rogue => "Rogue"@,
            }),
    {
        match self {
            PlayerClass::Warrior => "Warrior",
            PlayerClass::Wizard => "Wizard",
            PlayerClass::Rogue => "Rogue",
        }
    }
}

/// Info regarding points such as HP or MP
#[derive(Clone, Copy, Debug, PartialEq, Eq, Structural)]
pub struct PointInfo {
    /// Currently number of points
    pub points: u16,
    /// The number of frames until your points go up by 1, lower is better
    pub regen_rate: u16,
    pub max_points: u16,
    pub time_til_regen: u16,
}

impl PointInfo {
    /// The points after one frame: below the maximum the countdown runs,
    /// and when it runs out one point is gained and the countdown starts
    /// again from the regeneration rate.
    pub open spec fn regenerated(self) -> PointInfo {
        if self.points < self.max_points {
            if self.time_til_regen <= 1 {
                PointInfo {
                    points: (self.points + 1) as u16,
                    time_til_regen: self.regen_rate,
                    ..self
                }
            } else {
                PointInfo { time_til_regen: (self.time_til_regen - 1) as u16, ..self }
            }
        } else {
            self
        }
    }

    pub fn regen(&mut self)
        ensures
            *final(self) == old(self).regenerated(),
            old(self).points <= old(self).max_points ==> final(self).points <= final(self).max_points,
    {
        if self.points < self.max_points {
            self.time_til_regen = self.time_til_regen.saturating_sub(1);
            if self.time_til_regen == 0 {
                self.points = self.points + 1;
                self.time_til_regen = self.regen_rate;
            }
        }
    }
}

#[derive(Clone, Copy, Debug, PartialEq, Eq, Structural)]
pub enum Spell {
    BlindingLight,
    MagicMissile,
}

impl Spell {
    /// The name of the spell.
    pub fn name(&self) -> (s: &'static str)
        ensures
            s@ == (match self {
                Spell::BlindingLight => "Blinding Light"@,
                Spell::MagicMissile => "Magic Missile"@,
            }),
    {
        match self {
            Spell::BlindingLight => "Blinding Light",
            Spell::MagicMissile => "Magic Missile",
        }
    }
}

#[derive(Clone, Copy, Debug, PartialEq, Eq, Structural)]
pub enum SelectionType {
    Hovered,
    Selected,
}

#[derive(Clone, Copy, Debug, PartialEq, Eq, Structural)]
pub struct ItemSelectedInfo {
    pub index: usize,
    pub selection_type: SelectionType,
}

#[derive(Clone, Debug)]
pub struct PlayerInventory {
    pub primary_item: Option<ItemInfo>,
    pub secondary_item: Option<ItemInfo>,
    pub selected_item: Option<ItemSelectedInfo>,
    pub items: Vec<ItemInfo>,
}

/// The place of the first of `items` whose type is `item_type`.
pub open spec fn first_of_type(items: Seq<ItemInfo>, item_type: ItemType) -> Option<int>
    decreases items.len(),
{
    if items.len() == 0 {
        None
    } else {
        match first_of_type(items.drop_last(), item_type) {
            Some(k) => Some(k),
            None => if items.last().item_type == item_type {
                Some(items.len() - 1)
            } else {
                None
            },
        }
    }
}

/// `item` with one more in its stack; the count stops at 255.
pub open spec fn stacked(item: ItemInfo) -> ItemInfo {
    ItemInfo {
        stack_count: match item.stack_count {
            Some(n) => Some(if n == 255 {
                255u8
            } else {
                (n + 1) as u8
            }),
            None => Some(1u8),
        },
        ..item
    }
}

fn stack_one_more(item: ItemInfo) -> (r: ItemInfo)
    ensures
        r == stacked(item),
{
    ItemInfo {
        cursed: item.cursed,
        item_type: item.item_type,
        tile_pos: item.tile_pos,
        stack_count: match item.stack_count {
            Some(n) => Some(if n == 255 {
                255
            } else {
                n + 1
            }),
            None => Some(1),
        },
    }
}

impl PlayerInventory {
    pub fn new(primary_item: Option<ItemInfo>, secondary_item: Option<ItemInfo>) -> (inv:
        PlayerInventory)
        ensures
            inv.primary_item == primary_item,
            inv.secondary_item == secondary_item,
            inv.selected_item is None,
            inv.items@.len() == 0,
    {
        PlayerInventory { primary_item, secondary_item, selected_item: None, items: Vec::new() }
    }

    /// Takes `new_item` in. An item that does not stack is put at the end of
    /// the loose items. One that stacks raises the count of the first stack
    /// of its type, looking through the loose items, then at the primary and
    /// then at the secondary item; where the player has no such stack, the
    /// item is lost.
    pub fn add_item(&mut self, new_item: ItemInfo)
        ensures
            final(self).selected_item == old(self).selected_item,
            new_item.stack_count is None ==> final(self).items@ == old(self).items@.push(new_item)
                && final(self).primary_item == old(self).primary_item && final(self).secondary_item == old(self).secondary_item,
            new_item.stack_count is Some ==> match first_of_type(
                old(self).items@,
                new_item.item_type,
            ) {
                Some(k) => final(self).items@ == old(self).items@.update(
                    k,
                    stacked(old(self).items@[k]),
                ) && final(self).primary_item == old(self).primary_item && final(self).secondary_item == old(self).secondary_item,
                None => final(self).items@ == old(self).items@ && (if old(self).primary_item is Some
                    && old(self).primary_item->0.item_type == new_item.item_type {
                    final(self).primary_item == Some(stacked(old(self).primary_item->0)) && final(self).secondary_item == old(self).secondary_item
                } else if old(self).secondary_item is Some && old(self).secondary_item->0.item_type
                    == new_item.item_type {
                    final(self).primary_item == old(self).primary_item && final(self).secondary_item == Some(stacked(old(self).secondary_item->0))
                } else {
                    final(self).primary_item == old(self).primary_item && final(self).secondary_item == old(self).secondary_item
                }),
            },
    {
        if new_item.stack_count.is_some() {
            let mut i: usize = 0;
            while i < self.items.len()
                invariant
                    i <= self.items@.len(),
                    new_item.stack_count is Some,
                    *self == *old(self),
                    first_of_type(self.items@.take(i as int), new_item.item_type) is None,
                decreases self.items@.len() - i,
            {
                assert(self.items@.take(i + 1).drop_last() =~= self.items@.take(i as int));
                if self.items[i].item_type == new_item.item_type {
                    let more = stack_one_more(self.items[i]);
                    proof {
                        lemma_first_of_type_prefix(self.items@, new_item.item_type, i as int);
                    }
                    self.items[i] = more;
                    return ;
                }
                i = i + 1;
            }
            assert(self.items@.take(i as int) =~= self.items@);
            match self.primary_item {
                Some(item) => {
                    if item.item_type == new_item.item_type {
                        self.primary_item = Some(stack_one_more(item));
                        return ;
                    }
                },
                None => {},
            }
            match self.secondary_item {
                Some(item) => {
                    if item.item_type == new_item.item_type {
                        self.secondary_item = Some(stack_one_more(item));
                    }
                },
                None => {},
            }
        } else {
            self.items.push(new_item);
        }
    }
}

/// Where the first `i` items hold none of a type and the next one is of
/// that type, it is the first of the type in the whole list.
pub proof fn lemma_first_of_type_prefix(items: Seq<ItemInfo>, item_type: ItemType, i: int)
    requires
        0 <= i < items.len(),
        first_of_type(items.take(i), item_type) is None,
        items[i].item_type == item_type,
    ensures
        first_of_type(items, item_type) == Some(i),
    decreases items.len(),
{
    if items.len() - 1 == i {
        assert(items.drop_last() =~= items.take(i));
    } else {
        assert(items.drop_last().take(i) =~= items.take(i));
        lemma_first_of_type_prefix(items.drop_last(), item_type, i);
    }
}

#[derive(Clone, Debug)]
pub struct Player {
    pub angle: Angle,
    pub pos: Vec2,
    pub speed: i32,
    pub hp: PointInfo,
    pub mp: PointInfo,
    /// The ability to resist magical enchantments
    pub willpower: u16,
    pub invincibility_frames: u16,
    pub primary_cooldown: u16,
    pub secondary_cooldown: u16,
    pub spells: Vec<Spell>,
    pub changing_spell: bool,
    pub time_til_change_spell: u8,
    pub xp: u32,
    pub level: u32,
    pub gold: u32,
    pub in_inventory: bool,
    pub inventory: PlayerInventory,
    pub enchantments: EnchantmentSet,
}

/// Whether `p` is a player of the given class as it starts out at `pos`:
/// it looks along the x axis, has the points, the items and the spells of
/// its class, and nothing else.
pub open spec fn newly_made(p: Player, class: PlayerClass, pos: Vec2) -> bool {
    &&& p.pos == pos
    &&& p.angle == Angle::zero_spec()
    &&& p.speed == PLAYER_SPEED
    &&& p.hp == starting_hp(class)
    &&& p.mp == starting_mp(class)
    &&& p.willpower == (match class {
        PlayerClass::Wizard => 20u16,
        PlayerClass::Warrior => 10u16,
        PlayerClass::Rogue => 15u16,
    })
    &&& p.invincibility_frames == 0
    &&& p.primary_cooldown == 0
    &&& p.secondary_cooldown == 0
    &&& p.spells@ == (if class is Wizard {
        seq![Spell::MagicMissile, Spell::BlindingLight]
    } else {
        Seq::<Spell>::empty()
    })
    &&& !p.changing_spell
    &&& p.time_til_change_spell == 0
    &&& p.xp == 0
    &&& p.level == 0
    &&& p.gold == 0
    &&& !p.in_inventory
    &&& p.inventory.primary_item == Some(starting_primary(class))
    &&& p.inventory.secondary_item == (if class is Wizard {
        Some(
            ItemInfo {
                cursed: false,
                item_type: ItemType::WizardsDagger,
                tile_pos: None,
                stack_count: None,
            },
        )
    } else {
        None::<ItemInfo>
    })
    &&& p.inventory.selected_item is None
    &&& p.inventory.items@.len() == 0
    &&& p.enchantments == (EnchantmentSet { blinded: None, sticky: None, regenerating: None })
}

/// The hit points with which a player of the class starts.
pub open spec fn starting_hp(class: PlayerClass) -> PointInfo {
    PointInfo {
        points: if class is Warrior {
            30
        } else {
            20
        },
        max_points: if class is Warrior {
            30
        } else {
            20
        },
        regen_rate: 900,
        time_til_regen: 0,
    }
}

/// The mana points with which a player of the class starts.
pub open spec fn starting_mp(class: PlayerClass) -> PointInfo {
    match class {
        PlayerClass::Wizard => PointInfo {
            points: 6,
            max_points: 6,
            regen_rate: 420,
            time_til_regen: 0,
        },
        PlayerClass::Warrior => PointInfo {
            points: 3,
            max_points: 3,
            regen_rate: 600,
            time_til_regen: 0,
        },
        PlayerClass::Rogue => PointInfo {
            points: 4,
            max_points: 4,
            regen_rate: 540,
            time_til_regen: 0,
        },
    }
}

/// The item that a player of the class starts with in the primary slot.
pub open spec fn starting_primary(class: PlayerClass) -> ItemInfo {
    match class {
        PlayerClass::Warrior => ItemInfo {
            cursed: false,
            item_type: ItemType::ShortSword,
            tile_pos: None,
            stack_count: None,
        },
        PlayerClass::Wizard => ItemInfo {
            cursed: false,
            item_type: ItemType::WizardGlove,
            tile_pos: None,
            stack_count: None,
        },
        PlayerClass::Rogue => ItemInfo {
            cursed: false,
            item_type: ItemType::ThrowingKnife,
            tile_pos: None,
            stack_count: Some(5u8),
        },
    }
}

/// How much experience the next level takes; `None` at the highest level.
pub open spec fn xp_to_level_up(level: u32) -> Option<u32> {
    if level == 0 {
        Some(14u32)
    } else if level == 1 {
        Some(16u32)
    } else {
        None
    }
}

/// `v + n`, stopping at the end of the `u16` range.
pub open spec fn add_u16(v: u16, n: int) -> u16 {
    if v + n > u16::MAX {
        u16::MAX
    } else {
        (v + n) as u16
    }
}

/// `v + n`, stopping at the end of the `u32` range.
pub open spec fn add_u32(v: u32, n: int) -> u32 {
    if v + n > u32::MAX {
        u32::MAX
    } else {
        (v + n) as u32
    }
}

/// `v - n`, stopping at zero.
pub open spec fn sub_u16(v: u16, n: int) -> u16 {
    if v - n < 0 {
        0
    } else {
        (v - n) as u16
    }
}

impl Player {
    /// A player of the given class at `pos`, with the points, the items and
    /// the spells that the class starts with.
    pub fn new(class: PlayerClass, pos: Vec2) -> (p: Player)
        ensures
            newly_made(p, class, pos),
            p.pos == pos,
            p.angle == Angle::zero_spec(),
            p.speed == PLAYER_SPEED,
            p.hp == starting_hp(class),
            p.mp == starting_mp(class),
            p.willpower == (match class {
                PlayerClass::Wizard => 20u16,
                PlayerClass::Warrior => 10u16,
                PlayerClass::Rogue => 15u16,
            }),
            p.invincibility_frames == 0,
            p.primary_cooldown == 0,
            p.secondary_cooldown == 0,
            p.spells@ == (if class is Wizard {
                seq![Spell::MagicMissile, Spell::BlindingLight]
            } else {
                Seq::<Spell>::empty()
            }),
            !p.changing_spell,
            p.time_til_change_spell == 0,
            p.xp == 0,
            p.level == 0,
            p.gold == 0,
            !p.in_inventory,
            p.inventory.primary_item == Some(starting_primary(class)),
            p.inventory.secondary_item == (if class is Wizard {
                Some(
                    ItemInfo {
                        cursed: false,
                        item_type: ItemType::WizardsDagger,
                        tile_pos: None,
                        stack_count: None,
                    },
                )
            } else {
                None::<ItemInfo>
            }),
            p.inventory.selected_item is None,
            p.inventory.items@.len() == 0,
            p.enchantments == (EnchantmentSet { blinded: None, sticky: None, regenerating: None }),
    {
        let primary_item = Some(
            match class {
                PlayerClass::Warrior => ItemInfo::new(ItemType::ShortSword, None),
                PlayerClass::Wizard => ItemInfo::new(ItemType::WizardGlove, None),
                PlayerClass::Rogue => {
                    let mut item = ItemInfo::new(ItemType::ThrowingKnife, None);
                    item.stack_count = Some(5);
                    item
                },
            },
        );
        let secondary_item = match class {
            PlayerClass::Wizard => Some(ItemInfo::new(ItemType::WizardsDagger, None)),
            _ => None,
        };
        let hp = match class {
            PlayerClass::Wizard => PointInfo {
                points: 20,
                max_points: 20,
                // 15 seconds
                regen_rate: 900,
                time_til_regen: 0,
            },
            PlayerClass::Warrior => PointInfo {
                points: 30,
                max_points: 30,
                // 15 seconds
                regen_rate: 900,
                time_til_regen: 0,
            },
            PlayerClass::Rogue => PointInfo {
                points: 20,
                max_points: 20,
                // 15 seconds
                regen_rate: 900,
                time_til_regen: 0,
            },
        };
        let mp = match class {
            PlayerClass::Wizard => PointInfo {
                points: 6,
                max_points: 6,
                // 7 seconds
                regen_rate: 420,
                time_til_regen: 0,
            },
            PlayerClass::Warrior => PointInfo {
                points: 3,
                max_points: 3,
                // 10 seconds
                regen_rate: 600,
                time_til_regen: 0,
            },
            PlayerClass::Rogue => PointInfo {
                points: 4,
                max_points: 4,
                // 9 seconds
                regen_rate: 540,
                time_til_regen: 0,
            },
        };
        let willpower: u16 = match class {
            PlayerClass::Wizard => 20,
            PlayerClass::Warrior => 10,
            PlayerClass::Rogue => 15,
        };
        let mut spells: Vec<Spell> = Vec::new();
        match class {
            PlayerClass::Wizard => {
                spells.push(Spell::MagicMissile);
                spells.push(Spell::BlindingLight);
            },
            _ => {},
        }
        assert(class is Wizard ==> spells@ =~= seq![Spell::MagicMissile, Spell::BlindingLight]);
        Player {
            pos,
            angle: Angle::zero(),
            speed: PLAYER_SPEED,
            primary_cooldown: 0,
            secondary_cooldown: 0,
            hp,
            mp,
            willpower,
            invincibility_frames: 0,
            spells,
            changing_spell: false,
            time_til_change_spell: 0,
            xp: 0,
            level: 0,
            gold: 0,
            in_inventory: false,
            inventory: PlayerInventory::new(primary_item, secondary_item),
            enchantments: EnchantmentSet::new(),
        }
    }

    /// The player after gaining `xp` points of experience. When the points
    /// reach what the next level takes, they start again from zero, the
    /// level rises by one, and the player gains two points of mana and one
    /// hit point, both in the maximum and at once. Past the highest level
    /// the points only add up.
    pub open spec fn with_xp(self, xp: u32) -> Player {
        let total = add_u32(self.xp, xp as int);
        match xp_to_level_up(self.level) {
            Some(needed) => if total >= needed {
                Player {
                    xp: 0,
                    level: (self.level + 1) as u32,
                    mp: PointInfo {
                        max_points: add_u16(self.mp.max_points, 2),
                        points: add_u16(self.mp.points, 2),
                        ..self.mp
                    },
                    hp: PointInfo {
                        max_points: add_u16(self.hp.max_points, 1),
                        points: add_u16(self.hp.points, 1),
                        ..self.hp
                    },
                    ..self
                }
            } else {
                Player { xp: total, ..self }
            },
            None => Player { xp: total, ..self },
        }
    }

    pub fn add_xp(&mut self, xp: u32)
        ensures
            *final(self) == old(self).with_xp(xp),
    {
        self.xp = self.xp.saturating_add(xp);
        let xp_to_level_up: u32 = if self.level == 0 {
            14
        } else if self.level == 1 {
            16
        } else {
            return ;
        };
        if self.xp >= xp_to_level_up {
            self.xp = 0;
            self.level = self.level + 1;
            self.mp.max_points = self.mp.max_points.saturating_add(2);
            self.mp.points = self.mp.points.saturating_add(2);
            self.hp.max_points = self.hp.max_points.saturating_add(1);
            self.hp.points = self.hp.points.saturating_add(1);
        }
    }

    pub fn inventory(&self) -> (inv: &PlayerInventory)
        ensures
            inv == &self.inventory,
    {
        &self.inventory
    }

    pub fn set_selected_item(&mut self, i: Option<ItemSelectedInfo>)
        ensures
            final(self).inventory.selected_item == i,
            final(self).inventory.items == old(self).inventory.items,
            final(self).inventory.primary_item == old(self).inventory.primary_item,
            final(self).inventory.secondary_item == old(self).inventory.secondary_item,
            *final(self) == (Player { inventory: final(self).inventory, ..*old(self) }),
    {
        self.inventory.selected_item = i;
    }

    pub fn get_item_selection_type(&self) -> (r: Option<SelectionType>)
        ensures
            r == (match self.inventory.selected_item {
                Some(info) => Some(info.selection_type),
                None => None,
            }),
    {
        match self.inventory.selected_item {
            Some(info) => Some(info.selection_type),
            None => None,
        }
    }

    /// Replace the first and last items in the spells Vec
    pub fn cycle_spells(&mut self)
        ensures
            old(self).spells@.len() == 0 ==> *final(self) == *old(self),
            old(self).spells@.len() > 0 ==> final(self).spells@ == old(self).spells@.update(
                0,
                old(self).spells@.last(),
            ).update(old(self).spells@.len() - 1, old(self).spells@[0]),
            *final(self) == (Player { spells: final(self).spells, ..*old(self) }),
    {
        let spells_len = self.spells.len();
        if spells_len > 0 {
            let first = self.spells[0];
            let last = self.spells[spells_len - 1];
            self.spells[0] = last;
            self.spells[spells_len - 1] = first;
        }
    }

    pub fn pos(&self) -> (v: Vec2)
        ensures
            v == self.pos,
    {
        self.pos
    }

    pub fn hp(&self) -> (points: u16)
        ensures
            points == self.hp.points,
    {
        self.hp.points
    }

    pub fn mp(&self) -> (points: u16)
        ensures
            points == self.mp.points,
    {
        self.mp.points
    }

    pub fn spells(&self) -> (spells: &Vec<Spell>)
        ensures
            spells == &self.spells,
    {
        &self.spells
    }

    pub fn enchantments(&self) -> (set: &EnchantmentSet)
        ensures
            set == &self.enchantments,
    {
        &self.enchantments
    }

    /// How far the player moves in a frame: the speed, divided by the
    /// strength of the stickiness on the player, if there is any.
    pub open spec fn pace(&self) -> int {
        match self.enchantments.sticky {
            Some(e) => if e.enchantment.strength == 0 {
                self.speed as int
            } else {
                div_trunc(self.speed as int, e.enchantment.strength as int)
            },
            None => self.speed as int,
        }
    }

    /// The player after one frame of enchantments: regeneration heals one
    /// hit point when it is due and the player is below the maximum, and
    /// every enchantment loses a frame.
    pub open spec fn enchantments_updated(self) -> Player {
        let heal = match self.enchantments.regenerating {
            Some(e) => regen_due(e.enchantment.strength, e.frames_left) && self.hp.points
                < self.hp.max_points,
            None => false,
        };
        Player {
            hp: if heal {
                PointInfo { points: (self.hp.points + 1) as u16, ..self.hp }
            } else {
                self.hp
            },
            enchantments: self.enchantments.all_ticked(),
            ..self
        }
    }

    /// The player once `enchantment` is put on: an enchantment of a kind
    /// that is already at work changes nothing; a new one lasts 60 frames,
    /// and regeneration lasts 480.
    pub open spec fn enchanted(self, enchantment: Enchantment) -> Player {
        if self.enchantments.slot(enchantment.kind) is Some {
            self
        } else {
            Player {
                enchantments: self.enchantments.with(
                    enchantment.kind,
                    Some(
                        Effect {
                            enchantment,
                            frames_left: if enchantment.kind is Regenerating {
                                480
                            } else {
                                60
                            },
                        },
                    ),
                ),
                ..self
            }
        }
    }
}

impl AsPolygon for Player {
    open spec fn polygon(&self) -> Polygon {
        easy_polygon_spec(
            self.pos.moved(HALF_PLAYER_SIZE as int, HALF_PLAYER_SIZE as int),
            Vec2 { x: HALF_PLAYER_SIZE, y: HALF_PLAYER_SIZE },
            Angle::zero_spec(),
        )
    }

    fn as_polygon(&self) -> (p: Polygon) {
        let half = Vec2 { x: HALF_PLAYER_SIZE, y: HALF_PLAYER_SIZE };
        easy_polygon(self.pos.plus(half), half, Angle::zero())
    }
}

impl Enchantable for Player {
    fn apply_enchantment(&mut self, enchantment: Enchantment)
        ensures
            *final(self) == old(self).enchanted(enchantment),
    {
        if !self.enchantments.contains_key(enchantment.kind) {
            let enchantment_time: u16 = match enchantment.kind {
                EnchantmentKind::Blinded => 60,
                EnchantmentKind::Sticky => 60,
                EnchantmentKind::Regenerating => 480,
            };
            self.enchantments.insert(
                enchantment.kind,
                Effect { enchantment, frames_left: enchantment_time },
            );
        }
    }

    fn update_enchantments(&mut self)
        ensures
            *final(self) == old(self).enchantments_updated(),
            old(self).hp.points <= old(self).hp.max_points ==> final(self).hp.points <= final(self).hp.max_points,
    {
        // Regenerates the player's health
        match self.enchantments.regenerating {
            Some(e) => {
                if is_regen_due(e.enchantment.strength, e.frames_left) {
                    if self.hp.points < self.hp.max_points {
                        self.hp.points = self.hp.points + 1;
                    }
                }
            },
            None => {},
        }
        self.enchantments.blinded = tick(self.enchantments.blinded);
        self.enchantments.sticky = tick(self.enchantments.sticky);
        self.enchantments.regenerating = tick(self.enchantments.regenerating);
    }
}

/// The displacement of a step along `angle` at the given speed per axis.
pub open spec fn stride(angle: Angle, speed: Vec2) -> Vec2 {
    Vec2 {
        x: clamp_i32(div_trunc(angle.cos_spec() * speed.x, UNIT as int)) as i32,
        y: clamp_i32(div_trunc(angle.sin_spec() * speed.y, UNIT as int)) as i32,
    }
}

/// The speed with which `move_player` moves the player: the one given, or
/// the player's own pace along both axes.
pub open spec fn speed_of(player: Player, speed: Option<Vec2>) -> Vec2 {
    match speed {
        Some(s) => s,
        None => Vec2 { x: player.pace() as i32, y: player.pace() as i32 },
    }
}

/// The player after a step along `angle`: the step is taken along each axis
/// on its own, and only along an axis on which it runs into nothing.
pub open spec fn moved_player(player: Player, angle: Angle, speed: Option<Vec2>, floor: &Floor) -> Player {
    let distance = stride(angle, speed_of(player, speed));
    Player {
        pos: Vec2 {
            x: if floor.blocked(player.polygon(), distance.x as int, 0) {
                player.pos.x
            } else {
                clamp_i32(player.pos.x + distance.x) as i32
            },
            y: if floor.blocked(player.polygon(), 0, distance.y as int) {
                player.pos.y
            } else {
                clamp_i32(player.pos.y + distance.y) as i32
            },
        },
        ..player
    }
}

pub fn move_player(player: &mut Player, angle: Angle, speed: Option<Vec2>, floor_info: &Floor)
    ensures
        *final(player) == moved_player(*old(player), angle, speed, floor_info),
{
    let speed = match speed {
        Some(s) => s,
        None => {
            let pace: i32 = match player.enchantments.sticky {
                Some(e) => if e.enchantment.strength == 0 {
                    player.speed
                } else {
                    trunc_div(player.speed as i64, e.enchantment.strength as i64) as i32
                },
                None => player.speed,
            };
            Vec2 { x: pace, y: pace }
        },
    };
    let c: i64 = angle.cos() as i64;
    let s: i64 = angle.sin() as i64;
    assert(-0x7d0_0000_0000 <= c * speed.x <= 0x7d0_0000_0000) by (nonlinear_arith)
        requires
            -1000 <= c <= 1000,
            -0x8000_0000 <= speed.x < 0x8000_0000,
    ;
    assert(-0x7d0_0000_0000 <= s * speed.y <= 0x7d0_0000_0000) by (nonlinear_arith)
        requires
            -1000 <= s <= 1000,
            -0x8000_0000 <= speed.y < 0x8000_0000,
    ;
    let distance = Vec2 {
        x: saturate(trunc_div(c * (speed.x as i64), UNIT as i64)),
        y: saturate(trunc_div(s * (speed.y as i64), UNIT as i64)),
    };
    let collision_info = floor_info.collision_dir(player, distance);
    if !collision_info.x {
        player.pos.x = saturate(player.pos.x as i64 + distance.x as i64);
    }
    if !collision_info.y {
        player.pos.y = saturate(player.pos.y as i64 + distance.y as i64);
    }
}

/// The player after being hit for `damage` from `damage_direction`: nothing
/// happens to a player who is still invincible; otherwise the hit points go
/// down, the player flinches by its own size along the direction, and is
/// invincible for twice as many frames as the damage.
pub open spec fn damaged_player(player: Player, damage: u16, damage_direction: Angle, floor: &Floor) -> Player {
    if player.invincibility_frames > 0 {
        player
    } else {
        let hurt = Player {
            hp: PointInfo { points: sub_u16(player.hp.points, damage as int), ..player.hp },
            ..player
        };
        Player {
            invincibility_frames: add_u16(damage, damage as int),
            ..moved_player(
                hurt,
                damage_direction,
                Some(Vec2 { x: PLAYER_SIZE, y: PLAYER_SIZE }),
                floor,
            )
        }
    }
}

pub fn damage_player(player: &mut Player, damage: u16, damage_direction: Angle, floor: &Floor)
    ensures
        *final(player) == damaged_player(*old(player), damage, damage_direction, floor),
{
    if player.invincibility_frames > 0 {
        return ;
    }
    player.hp.points = player.hp.points.saturating_sub(damage);
    // Have the player "flinch" away from damage
    move_player(player, damage_direction, Some(Vec2 { x: PLAYER_SIZE, y: PLAYER_SIZE }), floor);
    player.invincibility_frames = damage.saturating_add(damage);
}

/// Whether `after` is `before` one frame of cooldowns later. A player
/// without hit points is left alone. For any other, the two attack
/// cooldowns, the frames of invincibility and the countdown to the change of
/// spell go down by one; a change of spell that was asked for happens when
/// its countdown is over; and hit points and mana regenerate.
pub open spec fn cooled_down(before: Player, after: Player) -> bool {
    if before.hp.points == 0 {
        after == before
    } else {
        let cycling = before.changing_spell && before.time_til_change_spell <= 1
            && before.spells@.len() > 0;
        &&& after == (Player {
            primary_cooldown: sub_u16(before.primary_cooldown, 1),
            secondary_cooldown: sub_u16(before.secondary_cooldown, 1),
            invincibility_frames: sub_u16(before.invincibility_frames, 1),
            time_til_change_spell: if before.time_til_change_spell == 0 {
                0u8
            } else {
                (before.time_til_change_spell - 1) as u8
            },
            changing_spell: before.changing_spell && !cycling,
            hp: before.hp.regenerated(),
            mp: before.mp.regenerated(),
            spells: after.spells,
            ..before
        })
        &&& after.spells@ == (if cycling {
            before.spells@.update(0, before.spells@.last()).update(
                before.spells@.len() - 1,
                before.spells@[0],
            )
        } else {
            before.spells@
        })
    }
}

/// Lets one frame of cooldowns pass for one player.
pub fn update_cooldown(player: &mut Player)
    ensures
        cooled_down(*old(player), *final(player)),
{
    if player.hp.points != 0 {
        player.primary_cooldown = player.primary_cooldown.saturating_sub(1);
        player.secondary_cooldown = player.secondary_cooldown.saturating_sub(1);
        player.invincibility_frames = player.invincibility_frames.saturating_sub(1);
        player.time_til_change_spell = player.time_til_change_spell.saturating_sub(1);
        if player.changing_spell && player.time_til_change_spell == 0 && player.spells.len() > 0 {
            player.cycle_spells();
            player.changing_spell = false;
        }
        player.hp.regen();
        player.mp.regen();
    }
}

/// Lets one frame of cooldowns pass for every player.
pub fn update_cooldowns(players: &mut Vec<Player>)
    ensures
        final(players)@.len() == old(players)@.len(),
        forall|i: int|
            0 <= i < old(players)@.len() ==> cooled_down(
                old(players)@[i],
                #[trigger] final(players)@[i],
            ),
{
    let mut i: usize = 0;
    while i < players.len()
        invariant
            i <= players@.len(),
            players@.len() == old(players)@.len(),
            forall|j: int| 0 <= j < i ==> cooled_down(old(players)@[j], #[trigger] players@[j]),
            forall|j: int| i <= j < players@.len() ==> players@[j] == old(players)@[j],
        decreases players@.len() - i,
    {
        update_cooldown(&mut players[i]);
        i = i + 1;
    }
}

pub fn toggle_inventory(player: &mut Player)
    ensures
        *final(player) == (Player { in_inventory: !old(player).in_inventory, ..*old(player) }),
{
    player.in_inventory = !player.in_inventory;
}

/// Edge length of an item's box on the inventory screen, in fixed-point
/// units.
pub const ITEM_INVENTORY_SIZE: i32 = 50000;

/// Where the box of the `i`-th item stands on the inventory screen: the
/// boxes fill rows of ten.
pub fn item_pos_from_index(i: usize) -> (v: Vec2)
    requires
        i <= u32::MAX,
    ensures
        v.x == clamp_i32(150000 + (i % 10) * 50000),
        v.y == clamp_i32(200000 + (i / 10) * 50000),
{
    let col: i64 = (i % 10) as i64;
    let row: i64 = (i / 10) as i64;
    Vec2 {
        x: saturate(150000 + col * (ITEM_INVENTORY_SIZE as i64)),
        y: saturate(200000 + row * (ITEM_INVENTORY_SIZE as i64)),
    }
}

#[derive(Clone, Copy, Debug, PartialEq, Eq, Structural)]
pub struct DamageInfo {
    pub damage: u16,
    pub direction: Angle,
    pub player: usize,
}

#[derive(Clone, Copy, Debug, PartialEq, Eq, Structural)]
pub enum DoorInteraction {
    Opening,
    Closing,
    Toggle,
}

/// Whether one of `monsters` stands on `tile`.
pub open spec fn monster_on(monsters: Seq<MonsterView>, tile: IVec2) -> bool {
    exists|k: int|
        0 <= k < monsters.len() && tile_of(monster_polygon(#[trigger] monsters[k]).center) == tile
}

/// Whether one of `monsters` stands on `tile`.
pub fn is_monster_on(monsters: &Vec<MonsterObj>, tile: IVec2) -> (r: bool)
    ensures
        r == monster_on(monster_views(monsters@), tile),
{
    let mut k: usize = 0;
    while k < monsters.len()
        invariant
            k <= monsters@.len(),
            forall|j: int|
                0 <= j < k ==> tile_of(
                    monster_polygon(#[trigger] monster_views(monsters@)[j]).center,
                ) != tile,
        decreases monsters@.len() - k,
    {
        let shape = monsters[k].as_polygon();
        assert(monster_views(monsters@)[k as int] == monsters@[k as int]@);
        if world_to_tile(shape.center) == tile {
            return true;
        }
        k = k + 1;
    }
    false
}

/// Whether somebody standing on the tile `from` can work the door on
/// `o`: the tile carries a door, it is next to `from`, also diagonally, it
/// is not `from` itself, and no monster stands in the doorway.
pub open spec fn door_in_reach(o: Object, monsters: Seq<MonsterView>, from: IVec2) -> bool {
    &&& o.door is Some
    &&& -1 <= o.pos.x - from.x <= 1
    &&& -1 <= o.pos.y - from.y <= 1
    &&& o.pos != from
    &&& !monster_on(monsters, o.pos)
}

/// The places, among the first `n` tiles, of the doors in reach of `from`.
pub open spec fn doors_in_reach(objects: Seq<Object>, monsters: Seq<MonsterView>, from: IVec2, n: int) -> Seq<
    usize,
>
    decreases n,
{
    if n <= 0 || n > objects.len() {
        Seq::empty()
    } else if door_in_reach(objects[n - 1], monsters, from) {
        doors_in_reach(objects, monsters, from, n - 1).push((n - 1) as usize)
    } else {
        doors_in_reach(objects, monsters, from, n - 1)
    }
}

/// Whether the interaction changes the state of a door.
pub open spec fn affects(door_interaction: DoorInteraction, door: Door) -> bool {
    match door_interaction {
        DoorInteraction::Opening => !door.is_open,
        DoorInteraction::Closing => door.is_open,
        DoorInteraction::Toggle => true,
    }
}

/// Which of two doors is meant: of two that the interaction would change,
/// the first if the entity touches it and else the second; otherwise the
/// first if the interaction would change it, and else the second.
pub open spec fn preferred(
    objects: Seq<Object>,
    first: usize,
    second: usize,
    entity: Polygon,
    door_interaction: DoorInteraction,
) -> usize {
    let a = objects[first as int];
    let b = objects[second as int];
    if affects(door_interaction, a.door->0) && affects(door_interaction, b.door->0) {
        if a.polygon().collides(entity, 0, 0) {
            first
        } else {
            second
        }
    } else if affects(door_interaction, a.door->0) {
        first
    } else {
        second
    }
}

/// The door that is meant among the first `n` of `places`.
pub open spec fn door_meant(
    objects: Seq<Object>,
    places: Seq<usize>,
    entity: Polygon,
    door_interaction: DoorInteraction,
    n: int,
) -> Option<usize>
    decreases n,
{
    if n <= 0 || n > places.len() {
        None
    } else {
        match door_meant(objects, places, entity, door_interaction, n - 1) {
            Some(best) => Some(preferred(objects, best, places[n - 1], entity, door_interaction)),
            None => Some(places[n - 1]),
        }
    }
}

/// The tile with its door as the interaction leaves it.
pub open spec fn door_worked(o: Object, door_interaction: DoorInteraction) -> Object {
    match o.door {
        Some(d) => Object {
            door: Some(
                Door {
                    is_open: match door_interaction {
                        DoorInteraction::Opening => true,
                        DoorInteraction::Closing => false,
                        DoorInteraction::Toggle => !d.is_open,
                    },
                    ..d
                },
            ),
            ..o
        },
        None => o,
    }
}

/// The tiles after `entity` has worked a door: the door that is meant among
/// those in its reach is opened, closed or toggled.
#[verifier::opaque]
pub open spec fn doors_after(
    objects: Seq<Object>,
    monsters: Seq<MonsterView>,
    entity: Polygon,
    door_interaction: DoorInteraction,
) -> Seq<Object> {
    let places = doors_in_reach(objects, monsters, tile_of(entity.center), objects.len() as int);
    match door_meant(objects, places, entity, door_interaction, places.len() as int) {
        Some(place) => objects.update(
            place as int,
            door_worked(objects[place as int], door_interaction),
        ),
        None => objects,
    }
}

/// The places of the doors in reach of somebody on the tile `from`.
pub fn find_doors_in_reach(floor_info: &FloorInfo, from: IVec2) -> (places: Vec<usize>)
    ensures
        places@ == doors_in_reach(
            floor_info.floor.objects@,
            monster_views(floor_info.monsters@),
            from,
            floor_info.floor.objects@.len() as int,
        ),
        forall|k: int|
            0 <= k < places@.len() ==> (#[trigger] places@[k]) < floor_info.floor.objects@.len()
                && floor_info.floor.objects@[places@[k] as int].door is Some,
{
    let mut places: Vec<usize> = Vec::new();
    let mut i: usize = 0;
    while i < floor_info.floor.objects.len()
        invariant
            i <= floor_info.floor.objects@.len(),
            places@ == doors_in_reach(
                floor_info.floor.objects@,
                monster_views(floor_info.monsters@),
                from,
                i as int,
            ),
            forall|k: int|
                0 <= k < places@.len() ==> (#[trigger] places@[k]) < i
                    && floor_info.floor.objects@[places@[k] as int].door is Some,
        decreases floor_info.floor.objects@.len() - i,
    {
        let o = &floor_info.floor.objects[i];
        if o.door.is_some() {
            let dx: i64 = o.pos.x as i64 - from.x as i64;
            let dy: i64 = o.pos.y as i64 - from.y as i64;
            // You can't open or close doors that you're inside of
            if -1 <= dx && dx <= 1 && -1 <= dy && dy <= 1 && !(o.pos == from) && !is_monster_on(
                &floor_info.monsters,
                o.pos,
            ) {
                places.push(i);
            }
        }
        i = i + 1;
    }
    places
}

/// The door that is meant among `places`.
pub fn find_door_meant(floor: &Floor, places: &Vec<usize>, shape: &Polygon, door_interaction: DoorInteraction) -> (best:
    Option<usize>)
    requires
        forall|k: int|
            0 <= k < places@.len() ==> (#[trigger] places@[k]) < floor.objects@.len()
                && floor.objects@[places@[k] as int].door is Some,
    ensures
        best == door_meant(floor.objects@, places@, *shape, door_interaction, places@.len() as int),
        best matches Some(b) ==> b < floor.objects@.len() && floor.objects@[b as int].door is Some,
{
    let mut best: Option<usize> = None;
    let mut n: usize = 0;
    while n < places.len()
        invariant
            n <= places@.len(),
            forall|k: int|
                0 <= k < places@.len() ==> (#[trigger] places@[k]) < floor.objects@.len()
                    && floor.objects@[places@[k] as int].door is Some,
            best == door_meant(floor.objects@, places@, *shape, door_interaction, n as int),
            best matches Some(b) ==> b < floor.objects@.len() && floor.objects@[b as int].door is Some,
        decreases places@.len() - n,
    {
        let second = places[n];
        best = match best {
            Some(first) => {
                let door = floor.objects[first].door.unwrap();
                let door2 = floor.objects[second].door.unwrap();
                // First, depending on the action the player is taking, we can pretty easily
                // decide of the player wants to open or close the door
                let door_will_be_affected = match door_interaction {
                    DoorInteraction::Opening => !door.is_open,
                    DoorInteraction::Closing => door.is_open,
                    DoorInteraction::Toggle => true,
                };
                let door2_will_be_affected = match door_interaction {
                    DoorInteraction::Opening => !door2.is_open,
                    DoorInteraction::Closing => door2.is_open,
                    DoorInteraction::Toggle => true,
                };
                if door_will_be_affected && door2_will_be_affected {
                    // Check which door the plyer is touching
                    let tile = floor.objects[first].as_polygon();
                    if crate::math::polygons_collide(&tile, shape, Vec2 { x: 0, y: 0 }) {
                        Some(first)
                    } else {
                        Some(second)
                    }
                } else if door_will_be_affected {
                    Some(first)
                } else {
                    Some(second)
                }
            },
            None => Some(second),
        };
        n = n + 1;
    }
    best
}

/// Opens, closes or toggles the door that `entity` means: the doors next to
/// the tile under the entity's center are looked at, and where several can
/// be meant, one whose state the interaction would change is taken, and of
/// two such the one that the entity touches.
pub fn interact_with_door<A: AsPolygon>(
    entity: &A,
    door_interaction: DoorInteraction,
    floor_info: &mut FloorInfo,
)
    ensures
        old(floor_info).same_but_monsters_and_floor(*final(floor_info)),
        final(floor_info).monsters == old(floor_info).monsters,
        final(floor_info).floor.objects@ == doors_after(
            old(floor_info).floor.objects@,
            monster_views(old(floor_info).monsters@),
            entity.polygon(),
            door_interaction,
        ),
        old(floor_info).floor.wf() ==> final(floor_info).floor.wf(),
{
    reveal(doors_after);
    // First, see if the player is in contact with a door
    let shape = entity.as_polygon();
    let entity_tile_pos = world_to_tile(shape.center);
    // Find all door that's within one tile distance of the player, then pick the
    // closest one
    let places = find_doors_in_reach(floor_info, entity_tile_pos);
    match find_door_meant(&floor_info.floor, &places, &shape, door_interaction) {
        Some(place) => {
            match door_interaction {
                DoorInteraction::Opening => floor_info.floor.objects[place].open_door(),
                DoorInteraction::Closing => floor_info.floor.objects[place].close_door(),
                DoorInteraction::Toggle => {
                    if floor_info.floor.objects[place].door.unwrap().is_open {
                        floor_info.floor.objects[place].close_door()
                    } else {
                        floor_info.floor.objects[place].open_door()
                    }
                },
            }
            assert(floor_info.floor.objects@ =~= old(floor_info).floor.objects@.update(
                place as int,
                door_worked(old(floor_info).floor.objects@[place as int], door_interaction),
            ));
        },
        None => {},
    }
}

/// The place of the first of `items`, at or after `from`, that touches
/// `poly`.
pub open spec fn first_item_touching(items: Seq<ItemInfo>, poly: Polygon, from: int) -> Option<int>
    decreases items.len() - from,
{
    if from < 0 || from >= items.len() {
        None
    } else if items[from].polygon().collides(poly, 0, 0) {
        Some(from)
    } else {
        first_item_touching(items, poly, from + 1)
    }
}

/// The first item on the floor that touches `poly`: the place of its tile,
/// looking from the tile at place `from` on, and its place among the items
/// on that tile.
pub open spec fn first_pickup(objects: Seq<Object>, poly: Polygon, from: int) -> Option<(int, int)>
    decreases objects.len() - from,
{
    if from < 0 || from >= objects.len() {
        None
    } else {
        match first_item_touching(objects[from].items@, poly, 0) {
            Some(i) => Some((from, i)),
            None => first_pickup(objects, poly, from + 1),
        }
    }
}

/// Whether `after` is the player `before` with `item` taken in: gold adds
/// to the player's gold, anything else goes into the inventory.
pub open spec fn took(before: Player, after: Player, item: ItemInfo) -> bool {
    match item.item_type {
        ItemType::Gold(gold) => after == (Player { gold: add_u32(before.gold, gold as int), ..before }),
        _ => after == (Player { inventory: after.inventory, ..before }) && inventory_took(
            before.inventory,
            after.inventory,
            item,
        ),
    }
}

/// Whether `after` is the inventory `before` with `new_item` taken in, as
/// `PlayerInventory::add_item` does it.
pub open spec fn inventory_took(before: PlayerInventory, after: PlayerInventory, new_item: ItemInfo) -> bool {
    &&& after.selected_item == before.selected_item
    &&& new_item.stack_count is None ==> after.items@ == before.items@.push(new_item)
        && after.primary_item == before.primary_item && after.secondary_item
        == before.secondary_item
    &&& new_item.stack_count is Some ==> match first_of_type(before.items@, new_item.item_type) {
        Some(k) => after.items@ == before.items@.update(k, stacked(before.items@[k]))
            && after.primary_item == before.primary_item && after.secondary_item
            == before.secondary_item,
        None => after.items@ == before.items@ && (if before.primary_item is Some
            && before.primary_item->0.item_type == new_item.item_type {
            after.primary_item == Some(stacked(before.primary_item->0)) && after.secondary_item
                == before.secondary_item
        } else if before.secondary_item is Some && before.secondary_item->0.item_type
            == new_item.item_type {
            after.primary_item == before.primary_item && after.secondary_item == Some(
                stacked(before.secondary_item->0),
            )
        } else {
            after.primary_item == before.primary_item && after.secondary_item
                == before.secondary_item
        }),
    }
}

/// The place of the first of `items` that touches `poly`.
pub fn find_item_touching(items: &Vec<ItemInfo>, poly: &Polygon) -> (r: Option<usize>)
    ensures
        match r {
            Some(k) => Some(k as int),
            None => None,
        } == first_item_touching(items@, *poly, 0),
        r matches Some(k) ==> k < items@.len(),
{
    let mut i: usize = 0;
    while i < items.len()
        invariant
            i <= items@.len(),
            first_item_touching(items@, *poly, 0) == first_item_touching(items@, *poly, i as int),
        decreases items@.len() - i,
    {
        let item_shape = items[i].as_polygon();
        if crate::math::polygons_collide(&item_shape, poly, Vec2 { x: 0, y: 0 }) {
            return Some(i);
        }
        i = i + 1;
    }
    None
}

/// The first item on the floor that touches `poly`.
pub fn find_pickup(floor: &Floor, poly: &Polygon) -> (r: Option<(usize, usize)>)
    ensures
        match r {
            Some((o, i)) => Some((o as int, i as int)),
            None => None,
        } == first_pickup(floor.objects@, *poly, 0),
        r matches Some((o, i)) ==> o < floor.objects@.len() && i < floor.objects@[o as int].items@.len(),
{
    let mut o: usize = 0;
    while o < floor.objects.len()
        invariant
            o <= floor.objects@.len(),
            first_pickup(floor.objects@, *poly, 0) == first_pickup(floor.objects@, *poly, o as int),
        decreases floor.objects@.len() - o,
    {
        match find_item_touching(&floor.objects[o].items, poly) {
            Some(i) => {
                return Some((o, i));
            },
            None => {},
        }
        o = o + 1;
    }
    None
}

/// Lets `player` pick up the first item on the floor that it touches:
/// tiles are looked at in array order and the items of a tile in their
/// order.
pub fn pickup_items(player: &mut Player, floor: &mut Floor)
    ensures
        final(floor).objects@.len() == old(floor).objects@.len(),
        match first_pickup(old(floor).objects@, old(player).polygon(), 0) {
            Some((o, i)) => {
                &&& final(floor).objects@ == old(floor).objects@.update(
                    o,
                    Object { items: final(floor).objects@[o].items, ..old(floor).objects@[o] },
                )
                &&& final(floor).objects@[o].items@ == old(floor).objects@[o].items@.remove(i)
                &&& took(*old(player), *final(player), old(floor).objects@[o].items@[i])
            },
            None => *final(floor) == *old(floor) && *final(player) == *old(player),
        },
        old(floor).wf() ==> final(floor).wf(),
{
    let shape = player.as_polygon();
    match find_pickup(floor, &shape) {
        Some((o, i)) => {
            let item = floor.objects[o].items.remove(i);
            assert(floor.objects@ =~= old(floor).objects@.update(
                o as int,
                Object { items: floor.objects@[o as int].items, ..old(floor).objects@[o as int] },
            ));
            match item.item_type {
                ItemType::Gold(gold) => {
                    player.gold = player.gold.saturating_add(gold);
                },
                _ => {
                    player.inventory.add_item(item);
                },
            }
        },
        None => {},
    }
}

/// What regeneration does to a player in one frame. The hit points never
/// pass the maximum. They rise by one, and by no more, exactly when a
/// regeneration is at work, is due in this frame, and the player is below
/// the maximum. A regeneration in its last frame is gone afterwards, and
/// without a regeneration nothing is gained.
pub proof fn lemma_regeneration(player: Player)
    requires
        player.hp.points <= player.hp.max_points,
    ensures
        player.enchantments_updated().hp.points <= player.enchantments_updated().hp.max_points,
        player.enchantments_updated().hp.points == player.hp.points
            || player.enchantments_updated().hp.points == player.hp.points + 1,
        player.enchantments_updated().hp.points == player.hp.points + 1 <==> (
        player.enchantments.regenerating is Some && regen_due(
            player.enchantments.regenerating->0.enchantment.strength,
            player.enchantments.regenerating->0.frames_left,
        ) && player.hp.points < player.hp.max_points),
        player.enchantments.regenerating is None ==> player.enchantments_updated().hp == player.hp
            && player.enchantments_updated().enchantments.regenerating is None,
        player.enchantments.regenerating is Some
            && player.enchantments.regenerating->0.frames_left <= 1
            ==> player.enchantments_updated().enchantments.regenerating is None,
        player.enchantments.regenerating is Some
            && player.enchantments.regenerating->0.frames_left > 1
            ==> player.enchantments_updated().enchantments.regenerating == Some(
            Effect {
                frames_left: (player.enchantments.regenerating->0.frames_left - 1) as u16,
                ..player.enchantments.regenerating->0
            },
        ),
{
}

/// Regeneration of a strength from 1 to 30 is due in every frame in which
/// the frames left are a multiple of 30 divided by the strength.
pub proof fn lemma_regeneration_period(strength: u8, frames_left: u16)
    requires
        1 <= strength <= 30,
    ensures
        30int / (strength as int) >= 1,
        regen_due(strength, frames_left) <==> frames_left as int % (30int / (strength as int)) == 0,
{
    assert(30int / (strength as int) >= 1) by (nonlinear_arith)
        requires
            1 <= strength <= 30,
    ;
}

} // verus!
