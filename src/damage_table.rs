use vstd::prelude::*;

use crate::tetromino::MinoVariant;

verus! {

/// A group of attacks: each field that is set must match; an unset field matches anything.
#[derive(Clone, Copy, Debug, PartialEq, Eq, Structural)]
pub struct Attack {
    pub combo: Option<u16>,
    pub b2b: Option<u16>,
    pub piece: Option<MinoVariant>,
    pub lines: Option<u8>,
    pub spin: Option<bool>,
}

/// One attack, with every feature that can decide its damage.
#[derive(Clone, Copy, Debug, PartialEq, Eq, Structural, Hash)]
pub struct AttackKey {
    pub combo: u16,
    pub b2b: u16,
    pub piece: MinoVariant,
    pub lines: u8,
    pub spin: bool,
}

/// Whether `attack` covers `key`.
pub open spec fn attack_matches(attack: Attack, key: AttackKey) -> bool {
    &&& (attack.combo matches Some(c) ==> c == key.combo)
    &&& (attack.b2b matches Some(b) ==> b == key.b2b)
    &&& (attack.piece matches Some(p) ==> p == key.piece)
    &&& (attack.lines matches Some(l) ==> l == key.lines)
    &&& (attack.spin matches Some(s) ==> s == key.spin)
}

impl Attack {
    pub fn matches(&self, key: &AttackKey) -> (r: bool)
        ensures
            r == attack_matches(*self, *key),
    {
        let combo = match self.combo {
            Some(c) => c == key.combo,
            None => true,
        };
        let b2b = match self.b2b {
            Some(b) => b == key.b2b,
            None => true,
        };
        let piece = match self.piece {
            Some(p) => p == key.piece,
            None => true,
        };
        let lines = match self.lines {
            Some(l) => l == key.lines,
            None => true,
        };
        let spin = match self.spin {
            Some(s) => s == key.spin,
            None => true,
        };
        combo && b2b && piece && lines && spin
    }
}

/// The damage of the first entry of `specific`, from index `i` on, whose key is `key`.
pub open spec fn specific_damage(specific: Seq<(AttackKey, u16)>, key: AttackKey, i: int) -> Option<u16>
    decreases specific.len() - i,
{
    if i < 0 || i >= specific.len() {
        None
    } else if specific[i].0 == key {
        Some(specific[i].1)
    } else {
        specific_damage(specific, key, i + 1)
    }
}

/// The damage of the first group of `general`, from index `i` on, that covers `key`.
pub open spec fn general_damage(general: Seq<(Attack, u16)>, key: AttackKey, i: int) -> Option<u16>
    decreases general.len() - i,
{
    if i < 0 || i >= general.len() {
        None
    } else if attack_matches(general[i].0, key) {
        Some(general[i].1)
    } else {
        general_damage(general, key, i + 1)
    }
}

/// How much damage each attack sends. Entries for exact attacks come first; then groups of
/// attacks are tried in order, so groups go from most to least specific.
#[derive(Clone, Debug)]
pub struct DamageTable {
    pub general: Vec<(Attack, u16)>,
    /// Exact attacks; a key appears at most once.
    pub specific: Vec<(AttackKey, u16)>,
}

impl DamageTable {
    /// No key appears twice among the exact attacks.
    pub open spec fn wf(&self) -> bool {
        forall|i: int, j: int|
            0 <= i < j < self.specific@.len() ==> (#[trigger] self.specific@[i]).0 != (#[trigger] self.specific@[j]).0
    }

    /// The damage of `index`: its exact entry if it has one, else the first group that covers
    /// it.
    pub fn get(&self, index: &AttackKey) -> (r: Option<u16>)
        ensures
            r == match specific_damage(self.specific@, *index, 0) {
                Some(d) => Some(d),
                None => general_damage(self.general@, *index, 0),
            },
    {
        let mut i: usize = 0;
        while i < self.specific.len()
            invariant
                i <= self.specific@.len(),
                specific_damage(self.specific@, *index, 0) == specific_damage(self.specific@, *index, i as int),
            decreases self.specific@.len() - i,
        {
            let (k, d) = self.specific[i];
            if k == *index {
                return Some(d);
            }
            i = i + 1;
        }
        let mut j: usize = 0;
        while j < self.general.len()
            invariant
                j <= self.general@.len(),
                specific_damage(self.specific@, *index, 0) is None,
                general_damage(self.general@, *index, 0) == general_damage(self.general@, *index, j as int),
            decreases self.general@.len() - j,
        {
            let (a, d) = self.general[j];
            if a.matches(index) {
                return Some(d);
            }
            j = j + 1;
        }
        None
    }
}

} // verus!
