//! Items that lie on the floor or in a player's inventory.

use vstd::prelude::*;
use vstd::string::StringExecFns;
pub use crate::attacks::attack_with_item;
use crate::enchantments::{Enchantable, Enchantment, EnchantmentKind};
use crate::map::Floor;
use crate::player::Player;
use crate::math::{easy_polygon, easy_polygon_spec, saturate, clamp_i32, Angle, AsPolygon, IVec2, Polygon, Vec2};

verus! {

#[derive(Clone, Copy, Debug, PartialEq, Eq, Structural, Hash)]
pub enum PotionType {
    Regeneration,
}

#[derive(Clone, Copy, Debug, PartialEq, Eq, Structural, Hash)]
pub enum ItemType {
    ShortSword,
    WizardsDagger,
    WizardGlove,
    ThrowingKnife,
    Gold(u32),
    Potion(PotionType),
}

#[derive(Clone, Copy, Debug, PartialEq, Eq, Structural)]
pub enum ItemPos {
    TilePos(IVec2),
    InventoryPos(u8),
}

/// One item, or one stack of items of a kind that stacks.
#[derive(Clone, Copy, Debug, PartialEq, Eq, Structural)]
pub struct ItemInfo {
    pub cursed: bool,
    pub item_type: ItemType,
    /// The tile on which the item lies; `None` while a player carries it.
    pub tile_pos: Option<IVec2>,
    pub stack_count: Option<u8>,
}

/// The character for the digit `d`.
pub open spec fn digit(d: nat) -> char {
    if d == 0 {
        '0'
    } else if d == 1 {
        '1'
    } else if d == 2 {
        '2'
    } else if d == 3 {
        '3'
    } else if d == 4 {
        '4'
    } else if d == 5 {
        '5'
    } else if d == 6 {
        '6'
    } else if d == 7 {
        '7'
    } else if d == 8 {
        '8'
    } else {
        '9'
    }
}

/// The number `n` written in decimal digits, without leading zeros.
pub open spec fn decimal(n: nat) -> Seq<char>
    decreases n,
{
    if n < 10 {
        seq![digit(n)]
    } else {
        decimal(n / 10).push(digit(n % 10))
    }
}

/// The name of an item of the given type.
pub open spec fn item_name(item_type: ItemType) -> Seq<char> {
    match item_type {
        ItemType::ShortSword => "Short Sword"@,
        ItemType::WizardGlove => "Wizard's Glove"@,
        ItemType::WizardsDagger => "Wizard's Dagger"@,
        ItemType::ThrowingKnife => "Throwing Knife"@,
        ItemType::Gold(amount) => decimal(amount as nat) + " gold"@,
        ItemType::Potion(potion_type) => match potion_type {
            PotionType::Regeneration => "Potion of Regeneration"@,
        },
    }
}

/// The text of the digit `d`.
pub fn digit_text(d: u32) -> (text: &'static str)
    requires
        d < 10,
    ensures
        text@ == seq![digit(d as nat)],
{
    proof {
        reveal_strlit("0");
        reveal_strlit("1");
        reveal_strlit("2");
        reveal_strlit("3");
        reveal_strlit("4");
        reveal_strlit("5");
        reveal_strlit("6");
        reveal_strlit("7");
        reveal_strlit("8");
        reveal_strlit("9");
    }
    let text = if d == 0 {
        "0"
    } else if d == 1 {
        "1"
    } else if d == 2 {
        "2"
    } else if d == 3 {
        "3"
    } else if d == 4 {
        "4"
    } else if d == 5 {
        "5"
    } else if d == 6 {
        "6"
    } else if d == 7 {
        "7"
    } else if d == 8 {
        "8"
    } else {
        "9"
    };
    assert(text@ =~= seq![digit(d as nat)]);
    text
}

/// The number `n` as text, in decimal digits.
pub fn decimal_text(n: u32) -> (text: String)
    ensures
        text@ == decimal(n as nat),
    decreases n,
{
    if n < 10 {
        digit_text(n).to_owned()
    } else {
        let text = decimal_text(n / 10).concat(digit_text(n % 10));
        assert(text@ =~= decimal((n / 10) as nat).push(digit((n % 10) as nat)));
        text
    }
}

/// Edge length of a potion on the floor, in fixed-point units.
pub const POTION_SIZE: i32 = 18000;

/// Edge length of any other item on the floor, in fixed-point units.
pub const ITEM_SIZE: i32 = 30000;

/// Whether items of this type are kept in stacks.
pub open spec fn stacks(item_type: ItemType) -> bool {
    item_type is ThrowingKnife || item_type is Potion
}

impl ItemInfo {
    /// A fresh, uncursed item. Knives and potions start as a stack of one.
    pub fn new(item_type: ItemType, tile_pos: Option<IVec2>) -> (item: ItemInfo)
        ensures
            item == (ItemInfo {
                cursed: false,
                item_type,
                tile_pos,
                stack_count: if stacks(item_type) {
                    Some(1u8)
                } else {
                    None
                },
            }),
    {
        ItemInfo {
            cursed: false,
            item_type,
            tile_pos,
            stack_count: match item_type {
                ItemType::ThrowingKnife => Some(1),
                ItemType::Potion(_) => Some(1),
                _ => None,
            },
        }
    }

    pub fn tile_pos(&self) -> (pos: Option<IVec2>)
        ensures
            pos == self.tile_pos,
    {
        self.tile_pos
    }

    /// Edge length of the item's square on the floor.
    pub open spec fn size_spec(&self) -> int {
        if self.item_type is Potion {
            POTION_SIZE as int
        } else {
            ITEM_SIZE as int
        }
    }

    pub fn size(&self) -> (v: Vec2)
        ensures
            v.x == self.size_spec(),
            v.y == self.size_spec(),
    {
        match self.item_type {
            ItemType::Potion(_) => Vec2 { x: POTION_SIZE, y: POTION_SIZE },
            _ => Vec2 { x: ITEM_SIZE, y: ITEM_SIZE },
        }
    }

    /// The tile that the item counts as lying on: the origin for a carried
    /// item.
    pub open spec fn tile_or_origin(&self) -> IVec2 {
        match self.tile_pos {
            Some(p) => p,
            None => IVec2 { x: 0, y: 0 },
        }
    }

    /// Where the item is drawn: the corner of its tile, moved in by half the
    /// item's size.
    pub open spec fn pos_spec(&self) -> Vec2 {
        Vec2 {
            x: clamp_i32(self.tile_or_origin().x * crate::map::TILE_UNITS + self.size_spec() / 2) as i32,
            y: clamp_i32(self.tile_or_origin().y * crate::map::TILE_UNITS + self.size_spec() / 2) as i32,
        }
    }

    pub fn pos(&self) -> (v: Vec2)
        ensures
            v == self.pos_spec(),
    {
        let tile = match self.tile_pos {
            Some(p) => p,
            None => IVec2 { x: 0, y: 0 },
        };
        let half: i64 = (self.size().x / 2) as i64;
        assert(-0x8000_0000 * 25000 <= tile.x * 25000 <= 0x8000_0000 * 25000) by (nonlinear_arith)
            requires
                -0x8000_0000 <= tile.x < 0x8000_0000,
        ;
        assert(-0x8000_0000 * 25000 <= tile.y * 25000 <= 0x8000_0000 * 25000) by (nonlinear_arith)
            requires
                -0x8000_0000 <= tile.y < 0x8000_0000,
        ;
        Vec2 {
            x: saturate(tile.x as i64 * (crate::map::TILE_UNITS as i64) + half),
            y: saturate(tile.y as i64 * (crate::map::TILE_UNITS as i64) + half),
        }
    }

    /// The sprite that shows the item.
    pub fn texture(&self) -> (name: &'static str)
        ensures
            name@ == (match self.item_type {
                ItemType::Potion(_) => "potion_of_regeneration.webp"@,
                ItemType::ThrowingKnife => "throwing_knife.webp"@,
                _ => "gold.webp"@,
            }),
    {
        match self.item_type {
            ItemType::Potion(_) => "potion_of_regeneration.webp",
            ItemType::ThrowingKnife => "throwing_knife.webp",
            _ => "gold.webp",
        }
    }

    /// The name of the item, for the player to read.
    pub fn name(&self) -> (name: String)
        ensures
            name@ == item_name(self.item_type),
    {
        match self.item_type {
            ItemType::ShortSword => "Short Sword".to_owned(),
            ItemType::WizardGlove => "Wizard's Glove".to_owned(),
            ItemType::WizardsDagger => "Wizard's Dagger".to_owned(),
            ItemType::ThrowingKnife => "Throwing Knife".to_owned(),
            ItemType::Gold(amount) => decimal_text(amount).concat(" gold"),
            ItemType::Potion(potion_type) => match potion_type {
                PotionType::Regeneration => "Potion of Regeneration".to_owned(),
            },
        }
    }

    /// What the item is, for the player to read. A cursed item says so on a
    /// second line.
    pub fn description(&self) -> (text: &'static str)
        ensures
            text@ == (match (self.item_type, self.cursed) {
                (ItemType::WizardGlove, false) => "A glove wielded by mighty sorcerers. Thiey alow magic users to directly tough the energy around them and manipulate it to their will."@,
                (ItemType::WizardGlove, true) => "A glove wielded by mighty sorcerers. Thiey alow magic users to directly tough the energy around them and manipulate it to their will.\nMalevolant energy slithers from it."@,
                (ItemType::ShortSword, false) => "A sturdy short sword, passed down from many generations."@,
                (ItemType::ShortSword, true) => "A sturdy short sword, passed down from many generations.\nMalevolant energy slithers from it."@,
                (ItemType::WizardsDagger, false) => "A dagger engraved with mystical runes"@,
                (ItemType::WizardsDagger, true) => "A dagger engraved with mystical runes\nMalevolant energy slithers from it."@,
                (ItemType::ThrowingKnife, false) => "A small but very sharp knife"@,
                (ItemType::ThrowingKnife, true) => "A small but very sharp knife\nMalevolant energy slithers from it."@,
                (ItemType::Gold(_), false) => "Gold! Currency! Can be used at shops to purchase items"@,
                (ItemType::Gold(_), true) => "Gold! Currency! Can be used at shops to purchase items\nMalevolant energy slithers from it."@,
                (ItemType::Potion(_), false) => "Helps the body to recover from damage"@,
                (ItemType::Potion(_), true) => "Helps the body to recover from damage\nMalevolant energy slithers from it."@,
            }),
    {
        match (self.item_type, self.cursed) {
            (ItemType::WizardGlove, false) => "A glove wielded by mighty sorcerers. Thiey alow magic users to directly tough the energy around them and manipulate it to their will.",
            (ItemType::WizardGlove, true) => "A glove wielded by mighty sorcerers. Thiey alow magic users to directly tough the energy around them and manipulate it to their will.\nMalevolant energy slithers from it.",
            (ItemType::ShortSword, false) => "A sturdy short sword, passed down from many generations.",
            (ItemType::ShortSword, true) => "A sturdy short sword, passed down from many generations.\nMalevolant energy slithers from it.",
            (ItemType::WizardsDagger, false) => "A dagger engraved with mystical runes",
            (ItemType::WizardsDagger, true) => "A dagger engraved with mystical runes\nMalevolant energy slithers from it.",
            (ItemType::ThrowingKnife, false) => "A small but very sharp knife",
            (ItemType::ThrowingKnife, true) => "A small but very sharp knife\nMalevolant energy slithers from it.",
            (ItemType::Gold(_), false) => "Gold! Currency! Can be used at shops to purchase items",
            (ItemType::Gold(_), true) => "Gold! Currency! Can be used at shops to purchase items\nMalevolant energy slithers from it.",
            (ItemType::Potion(_), false) => "Helps the body to recover from damage",
            (ItemType::Potion(_), true) => "Helps the body to recover from damage\nMalevolant energy slithers from it.",
        }
    }
}

impl AsPolygon for ItemInfo {
    /// The item's square: its size taken from its drawing position.
    open spec fn polygon(&self) -> Polygon {
        easy_polygon_spec(
            self.pos_spec().moved(self.size_spec() / 2, self.size_spec() / 2),
            Vec2 { x: (self.size_spec() / 2) as i32, y: (self.size_spec() / 2) as i32 },
            Angle::zero_spec(),
        )
    }

    fn as_polygon(&self) -> (p: Polygon) {
        let half: i32 = self.size().x / 2;
        let half_size = Vec2 { x: half, y: half };
        easy_polygon(self.pos().plus(half_size), half_size, Angle::zero())
    }
}

/// Uses `item` on `player`, and tells whether the item is one that can be
/// used: a potion of regeneration starts regeneration of strength one.
pub fn use_item(item: &ItemInfo, player: &mut Player, _floor: &mut Floor) -> (used: bool)
    ensures
        used == item.item_type is Potion,
        *final(_floor) == *old(_floor),
        *final(player) == (if used {
            old(player).enchanted(Enchantment { kind: EnchantmentKind::Regenerating, strength: 1 })
        } else {
            *old(player)
        }),
{
    match item.item_type {
        ItemType::Potion(potion) => match potion {
            PotionType::Regeneration => {
                player.apply_enchantment(
                    Enchantment { kind: EnchantmentKind::Regenerating, strength: 1 },
                );
                true
            },
        },
        _ => false,
    }
}

} // verus!
