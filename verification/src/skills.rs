use crate::resources::ResourceKind;
use vstd::prelude::*;

verus! {

pub const MAX_SKILL_VALUE: u32 = 10_000;

pub const SKILL_KIND_COUNT: usize = 6;

/// The trades in which NPCs gain experience.
#[derive(Debug, Clone, Copy, PartialEq, Eq, Hash, Structural)]
pub enum SkillKind {
    Builder,
    Farmer,
    Lumberjack,
    Quarryman,
    Forager,
    Prospector,
}

impl SkillKind {
    pub const ALL: [SkillKind; 6] = [
        SkillKind::Builder,
        SkillKind::Farmer,
        SkillKind::Lumberjack,
        SkillKind::Quarryman,
        SkillKind::Forager,
        SkillKind::Prospector,
    ];

    /// Position of the kind in `ALL`.
    pub open spec fn ordinal(self) -> int {
        match self {
            SkillKind::Builder => 0,
            SkillKind::Farmer => 1,
            SkillKind::Lumberjack => 2,
            SkillKind::Quarryman => 3,
            SkillKind::Forager => 4,
            SkillKind::Prospector => 5,
        }
    }

    pub fn index(self) -> (r: usize)
        ensures
            r == self.ordinal(),
            r < SKILL_KIND_COUNT,
    {
        match self {
            SkillKind::Builder => 0,
            SkillKind::Farmer => 1,
            SkillKind::Lumberjack => 2,
            SkillKind::Quarryman => 3,
            SkillKind::Forager => 4,
            SkillKind::Prospector => 5,
        }
    }

    pub open spec fn label_text(self) -> Seq<char> {
        match self {
            SkillKind::Builder => "Builder"@,
            SkillKind::Farmer => "Farmer"@,
            SkillKind::Lumberjack => "Lumberjack"@,
            SkillKind::Quarryman => "Quarryman"@,
            SkillKind::Forager => "Forager"@,
            SkillKind::Prospector => "Prospector"@,
        }
    }

    pub fn label(self) -> (r: &'static str)
        ensures
            r@ == self.label_text(),
    {
        match self {
            SkillKind::Builder => "Builder",
            SkillKind::Farmer => "Farmer",
            SkillKind::Lumberjack => "Lumberjack",
            SkillKind::Quarryman => "Quarryman",
            SkillKind::Forager => "Forager",
            SkillKind::Prospector => "Prospector",
        }
    }

    /// The skill trained by gathering a resource kind.
    pub open spec fn gathering_skill(kind: ResourceKind) -> SkillKind {
        match kind {
            ResourceKind::Wood => SkillKind::Lumberjack,
            ResourceKind::Stone => SkillKind::Quarryman,
            ResourceKind::Food => SkillKind::Forager,
            ResourceKind::Gold => SkillKind::Prospector,
        }
    }

    pub fn for_gathered_resource(kind: ResourceKind) -> (r: SkillKind)
        ensures
            r == Self::gathering_skill(kind),
    {
        match kind {
            ResourceKind::Wood => SkillKind::Lumberjack,
            ResourceKind::Stone => SkillKind::Quarryman,
            ResourceKind::Food => SkillKind::Forager,
            ResourceKind::Gold => SkillKind::Prospector,
        }
    }
}

/// Named proficiency bands of a skill value.
#[derive(Debug, Clone, Copy, PartialEq, Eq, Structural)]
pub enum SkillRank {
    Untrained,
    Novice,
    Apprentice,
    Journeyman,
    Skilled,
    Expert,
    Master,
    GrandMaster,
}

/// The rank of a skill value; values above the maximum rank as the maximum.
pub open spec fn rank_of(value: int) -> SkillRank {
    if value <= 0 {
        SkillRank::Untrained
    } else if value <= 999 {
        SkillRank::Novice
    } else if value <= 2499 {
        SkillRank::Apprentice
    } else if value <= 4999 {
        SkillRank::Journeyman
    } else if value <= 7499 {
        SkillRank::Skilled
    } else if value <= 9499 {
        SkillRank::Expert
    } else if value <= 9999 {
        SkillRank::Master
    } else {
        SkillRank::GrandMaster
    }
}

impl SkillRank {
    pub fn from_value(value: u32) -> (r: Self)
        ensures
            r == rank_of(value as int),
    {
        let v = if value < MAX_SKILL_VALUE { value } else { MAX_SKILL_VALUE };
        if v == 0 {
            SkillRank::Untrained
        } else if v <= 999 {
            SkillRank::Novice
        } else if v <= 2499 {
            SkillRank::Apprentice
        } else if v <= 4999 {
            SkillRank::Journeyman
        } else if v <= 7499 {
            SkillRank::Skilled
        } else if v <= 9499 {
            SkillRank::Expert
        } else if v <= 9999 {
            SkillRank::Master
        } else {
            SkillRank::GrandMaster
        }
    }

    pub open spec fn label_text(self) -> Seq<char> {
        match self {
            SkillRank::Untrained => "Untrained"@,
            SkillRank::Novice => "Novice"@,
            SkillRank::Apprentice => "Apprentice"@,
            SkillRank::Journeyman => "Journeyman"@,
            SkillRank::Skilled => "Skilled"@,
            SkillRank::Expert => "Expert"@,
            SkillRank::Master => "Master"@,
            SkillRank::GrandMaster => "GrandMaster"@,
        }
    }

    pub fn label(self) -> (r: &'static str)
        ensures
            r@ == self.label_text(),
    {
        match self {
            SkillRank::Untrained => "Untrained",
            SkillRank::Novice => "Novice",
            SkillRank::Apprentice => "Apprentice",
            SkillRank::Journeyman => "Journeyman",
            SkillRank::Skilled => "Skilled",
            SkillRank::Expert => "Expert",
            SkillRank::Master => "Master",
            SkillRank::GrandMaster => "GrandMaster",
        }
    }
}

/// `min(value, MAX_SKILL_VALUE)`.
pub open spec fn clamp_skill(value: int) -> int {
    if value < MAX_SKILL_VALUE { value } else { MAX_SKILL_VALUE as int }
}

/// A skill value as a rounded percentage of the maximum.
pub open spec fn percent_of(value: int) -> int {
    (clamp_skill(value) * 100 + MAX_SKILL_VALUE / 2) / (MAX_SKILL_VALUE as int)
}

/// Experience of an NPC in every skill, each kept within `0..=MAX_SKILL_VALUE`.
#[derive(Debug, Clone, Copy, PartialEq, Eq)]
pub struct NpcSkills {
    values: [u32; 6],
}

impl NpcSkills {
    /// The value of one skill.
    pub closed spec fn skill(self, kind: SkillKind) -> u32 {
        self.values@[kind.ordinal()]
    }

    /// No skill exceeds the maximum value.
    pub open spec fn wf(self) -> bool {
        forall|k: SkillKind| #[trigger] self.skill(k) <= MAX_SKILL_VALUE
    }

    pub fn zero() -> (r: Self)
        ensures
            forall|k: SkillKind| #[trigger] r.skill(k) == 0,
            r.wf(),
    {
        Self { values: [0, 0, 0, 0, 0, 0] }
    }

    /// Skills from raw values, each clamped to the maximum.
    pub fn new(values: [u32; 6]) -> (r: Self)
        ensures
            forall|k: SkillKind| #[trigger] r.skill(k) == clamp_skill(values@[k.ordinal()] as int),
            r.wf(),
    {
        let mut clamped = [0u32, 0, 0, 0, 0, 0];
        let mut i: usize = 0;
        while i < 6
            invariant
                0 <= i <= 6,
                clamped@.len() == 6,
                values@.len() == 6,
                forall|j: int| 0 <= j < i ==> #[trigger] clamped@[j] == clamp_skill(values@[j] as int),
            decreases 6 - i,
        {
            let v = values[i];
            clamped[i] = if v < MAX_SKILL_VALUE { v } else { MAX_SKILL_VALUE };
            i = i + 1;
        }
        let r = Self { values: clamped };
        assert forall|k: SkillKind| #[trigger] r.skill(k) <= MAX_SKILL_VALUE by {
            assert(0 <= k.ordinal() < 6);
        }
        r
    }

    pub fn value(self, kind: SkillKind) -> (r: u32)
        ensures
            r == self.skill(kind),
    {
        self.values[kind.index()]
    }

    /// Adds experience to one skill, saturating at the maximum value.
    pub fn add_xp(&mut self, kind: SkillKind, xp: u32)
        ensures
            final(self).skill(kind) == clamp_skill(old(self).skill(kind) + xp),
            forall|k: SkillKind| k != kind ==> #[trigger] final(self).skill(k) == old(self).skill(k),
            old(self).wf() ==> final(self).wf(),
    {
        let value = self.value(kind);
        let sum = value.saturating_add(xp);
        let next = if sum < MAX_SKILL_VALUE { sum } else { MAX_SKILL_VALUE };
        self.values[kind.index()] = next;
        proof {
            assert forall|k: SkillKind| k != kind implies #[trigger] self.skill(k) == old(self).skill(k) by {
                assert(k.ordinal() != kind.ordinal());
            }
        }
    }

    pub fn rank(self, kind: SkillKind) -> (r: SkillRank)
        ensures
            r == rank_of(self.skill(kind) as int),
    {
        SkillRank::from_value(self.value(kind))
    }

    pub fn percent(self, kind: SkillKind) -> (r: u32)
        ensures
            r == percent_of(self.skill(kind) as int),
    {
        skill_percent(self.value(kind))
    }
}

impl Default for NpcSkills {
    fn default() -> (r: Self)
        ensures
            forall|k: SkillKind| #[trigger] r.skill(k) == 0,
            r.wf(),
    {
        Self::zero()
    }
}

/// A skill value as a percentage of the maximum, rounded half up and clamped to 100.
pub fn skill_percent(value: u32) -> (r: u32)
    ensures
        r == percent_of(value as int),
        r <= 100,
{
    let clamped = if value < MAX_SKILL_VALUE { value } else { MAX_SKILL_VALUE };
    let p = (clamped * 100 + MAX_SKILL_VALUE / 2) / MAX_SKILL_VALUE;
    p
}

/// Skill percentages never decrease as the skill value grows.
pub proof fn lemma_percent_monotonic(a: int, b: int)
    requires
        0 <= a <= b,
    ensures
        percent_of(a) <= percent_of(b),
        0 <= percent_of(b) <= 100,
{
    vstd::arithmetic::div_mod::lemma_div_is_ordered(
        clamp_skill(a) * 100 + 5000,
        clamp_skill(b) * 100 + 5000,
        10000,
    );
    vstd::arithmetic::div_mod::lemma_div_is_ordered(clamp_skill(b) * 100 + 5000, 1005000, 10000);
    vstd::arithmetic::div_mod::lemma_div_pos_is_pos(clamp_skill(b) * 100 + 5000, 10000);
}

} // verus!
