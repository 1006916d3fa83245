//! Timed status effects on players and monsters.

use vstd::prelude::*;

verus! {

#[derive(Clone, Copy, Debug, PartialEq, Eq, Structural, Hash)]
pub enum EnchantmentKind {
    Blinded,
    Sticky,
    Regenerating,
}

#[derive(Clone, Copy, Debug, PartialEq, Eq, Structural, Hash)]
pub struct Enchantment {
    pub kind: EnchantmentKind,
    pub strength: u8,
}

/// Anything that status effects can be put on. `apply_enchantment` starts an
/// effect; `update_enchantments` lets one frame pass for all of them.
pub trait Enchantable {
    fn apply_enchantment(&mut self, enchantment: Enchantment);

    fn update_enchantments(&mut self);
}

/// An enchantment at work, with the frames that it still lasts.
#[derive(Clone, Copy, Debug, PartialEq, Eq, Structural, Hash)]
pub struct Effect {
    pub enchantment: Enchantment,
    pub frames_left: u16,
}

/// The enchantments at work on one entity: at most one of each kind.
#[derive(Clone, Copy, Debug, PartialEq, Eq, Structural)]
pub struct EnchantmentSet {
    pub blinded: Option<Effect>,
    pub sticky: Option<Effect>,
    pub regenerating: Option<Effect>,
}

/// How many frames lie between two points of healing under regeneration
/// of the given strength: 30 divided by the strength, but at least one.
/// Zero tells that a strength of zero never heals.
pub open spec fn regen_period(strength: u8) -> int {
    if strength == 0 {
        0
    } else if strength > 30 {
        1
    } else {
        30int / (strength as int)
    }
}

/// Whether regeneration of the given strength heals in the frame in which
/// `frames_left` frames of it are left.
pub open spec fn regen_due(strength: u8, frames_left: u16) -> bool {
    regen_period(strength) > 0 && frames_left as int % regen_period(strength) == 0
}

/// Whether regeneration of the given strength heals in the frame in which
/// `frames_left` frames of it are left.
pub fn is_regen_due(strength: u8, frames_left: u16) -> (r: bool)
    ensures
        r == regen_due(strength, frames_left),
{
    if strength == 0 {
        false
    } else if strength > 30 {
        true
    } else {
        assert(30int / (strength as int) >= 1) by (nonlinear_arith)
            requires
                1 <= strength <= 30,
        ;
        let period: u16 = 30 / (strength as u16);
        frames_left % period == 0
    }
}

/// The effect after one more frame: gone when no frame is left.
pub open spec fn ticked(slot: Option<Effect>) -> Option<Effect> {
    match slot {
        Some(e) => if e.frames_left <= 1 {
            None
        } else {
            Some(Effect { frames_left: (e.frames_left - 1) as u16, ..e })
        },
        None => None,
    }
}

/// The effect after one more frame: gone when no frame is left.
pub fn tick(slot: Option<Effect>) -> (r: Option<Effect>)
    ensures
        r == ticked(slot),
{
    match slot {
        Some(e) => if e.frames_left <= 1 {
            None
        } else {
            Some(Effect { enchantment: e.enchantment, frames_left: e.frames_left - 1 })
        },
        None => None,
    }
}

/// The effect with half of its frames left, rounded down.
pub open spec fn halved(slot: Option<Effect>) -> Option<Effect> {
    match slot {
        Some(e) => Some(Effect { frames_left: e.frames_left / 2, ..e }),
        None => None,
    }
}

impl EnchantmentSet {
    /// The effect of the given kind, if one is at work.
    pub open spec fn slot(self, kind: EnchantmentKind) -> Option<Effect> {
        match kind {
            EnchantmentKind::Blinded => self.blinded,
            EnchantmentKind::Sticky => self.sticky,
            EnchantmentKind::Regenerating => self.regenerating,
        }
    }

    /// The set with the slot of `kind` holding `effect`.
    pub open spec fn with(self, kind: EnchantmentKind, effect: Option<Effect>) -> EnchantmentSet {
        match kind {
            EnchantmentKind::Blinded => EnchantmentSet { blinded: effect, ..self },
            EnchantmentKind::Sticky => EnchantmentSet { sticky: effect, ..self },
            EnchantmentKind::Regenerating => EnchantmentSet { regenerating: effect, ..self },
        }
    }

    /// The set after one more frame.
    pub open spec fn all_ticked(self) -> EnchantmentSet {
        EnchantmentSet {
            blinded: ticked(self.blinded),
            sticky: ticked(self.sticky),
            regenerating: ticked(self.regenerating),
        }
    }

    /// The set with the frames left of every effect halved.
    pub open spec fn all_halved(self) -> EnchantmentSet {
        EnchantmentSet {
            blinded: halved(self.blinded),
            sticky: halved(self.sticky),
            regenerating: halved(self.regenerating),
        }
    }

    pub fn new() -> (set: EnchantmentSet)
        ensures
            set == (EnchantmentSet { blinded: None, sticky: None, regenerating: None }),
    {
        EnchantmentSet { blinded: None, sticky: None, regenerating: None }
    }

    pub fn get(&self, kind: EnchantmentKind) -> (r: Option<Effect>)
        ensures
            r == self.slot(kind),
    {
        match kind {
            EnchantmentKind::Blinded => self.blinded,
            EnchantmentKind::Sticky => self.sticky,
            EnchantmentKind::Regenerating => self.regenerating,
        }
    }

    pub fn contains_key(&self, kind: EnchantmentKind) -> (r: bool)
        ensures
            r == self.slot(kind) is Some,
    {
        self.get(kind).is_some()
    }

    /// Puts `effect` in the slot of `kind`, over whatever was there.
    pub fn insert(&mut self, kind: EnchantmentKind, effect: Effect)
        ensures
            *final(self) == old(self).with(kind, Some(effect)),
    {
        match kind {
            EnchantmentKind::Blinded => {
                self.blinded = Some(effect);
            },
            EnchantmentKind::Sticky => {
                self.sticky = Some(effect);
            },
            EnchantmentKind::Regenerating => {
                self.regenerating = Some(effect);
            },
        }
    }

    /// Halves the frames left of every effect.
    pub fn halve(&mut self)
        ensures
            *final(self) == old(self).all_halved(),
    {
        self.blinded = match self.blinded {
            Some(e) => Some(Effect { enchantment: e.enchantment, frames_left: e.frames_left / 2 }),
            None => None,
        };
        self.sticky = match self.sticky {
            Some(e) => Some(Effect { enchantment: e.enchantment, frames_left: e.frames_left / 2 }),
            None => None,
        };
        self.regenerating = match self.regenerating {
            Some(e) => Some(Effect { enchantment: e.enchantment, frames_left: e.frames_left / 2 }),
            None => None,
        };
    }
}

} // verus!
