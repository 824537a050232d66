use game_engine::resources::ResourceKind;
use game_engine::skills::{skill_percent, NpcSkills, SkillKind, SkillRank, MAX_SKILL_VALUE};

#[test]
fn npc_skills_default_to_zero() {
    let skills = NpcSkills::default();

    for kind in SkillKind::ALL {
        assert_eq!(skills.value(kind), 0);
        assert_eq!(skills.rank(kind), SkillRank::Untrained);
        assert_eq!(skills.percent(kind), 0);
    }
}

#[test]
fn skill_kind_order_and_labels_are_fixed() {
    assert_eq!(
        SkillKind::ALL.map(SkillKind::label),
        ["Builder", "Farmer", "Lumberjack", "Quarryman", "Forager", "Prospector",]
    );
}

#[test]
fn resource_kinds_map_to_gathering_skills() {
    assert_eq!(SkillKind::for_gathered_resource(ResourceKind::Wood), SkillKind::Lumberjack);
    assert_eq!(SkillKind::for_gathered_resource(ResourceKind::Stone), SkillKind::Quarryman);
    assert_eq!(SkillKind::for_gathered_resource(ResourceKind::Food), SkillKind::Forager);
    assert_eq!(SkillKind::for_gathered_resource(ResourceKind::Gold), SkillKind::Prospector);
}

#[test]
fn skill_rank_boundaries_match_design() {
    let cases = [
        (0, SkillRank::Untrained),
        (1, SkillRank::Novice),
        (999, SkillRank::Novice),
        (1000, SkillRank::Apprentice),
        (2499, SkillRank::Apprentice),
        (2500, SkillRank::Journeyman),
        (4999, SkillRank::Journeyman),
        (5000, SkillRank::Skilled),
        (7499, SkillRank::Skilled),
        (7500, SkillRank::Expert),
        (9499, SkillRank::Expert),
        (9500, SkillRank::Master),
        (9999, SkillRank::Master),
        (10000, SkillRank::GrandMaster),
        (10001, SkillRank::GrandMaster),
    ];

    for (value, rank) in cases {
        assert_eq!(SkillRank::from_value(value), rank);
    }
}

#[test]
fn skill_percent_rounds_and_clamps() {
    assert_eq!(skill_percent(0), 0);
    assert_eq!(skill_percent(49), 0);
    assert_eq!(skill_percent(50), 1);
    assert_eq!(skill_percent(149), 1);
    assert_eq!(skill_percent(150), 2);
    assert_eq!(skill_percent(9_949), 99);
    assert_eq!(skill_percent(9_950), 100);
    assert_eq!(skill_percent(10_000), 100);
    assert_eq!(skill_percent(10_001), 100);
}

#[test]
fn xp_saturates_at_max_value() {
    let mut skills = NpcSkills::new([0, 0, 9_999, 0, 0, 0]);

    skills.add_xp(SkillKind::Lumberjack, 10);

    assert_eq!(skills.value(SkillKind::Lumberjack), MAX_SKILL_VALUE);
}

#[test]
fn new_skills_clamp_each_value_and_xp_touches_one_skill() {
    let mut skills = NpcSkills::new([u32::MAX, 5, 10_001, 7, 0, 10_000]);
    assert_eq!(skills.value(SkillKind::Builder), MAX_SKILL_VALUE);
    assert_eq!(skills.value(SkillKind::Farmer), 5);
    assert_eq!(skills.value(SkillKind::Lumberjack), MAX_SKILL_VALUE);
    skills.add_xp(SkillKind::Farmer, u32::MAX);
    assert_eq!(skills.value(SkillKind::Farmer), MAX_SKILL_VALUE);
    assert_eq!(skills.value(SkillKind::Quarryman), 7);
    assert_eq!(skills.rank(SkillKind::Quarryman), SkillRank::Novice);
    assert_eq!(skills.percent(SkillKind::Prospector), 100);
    assert_eq!(SkillRank::GrandMaster.label(), "GrandMaster");
}
