use game_engine::entity::EntityId;
use game_engine::tasks::{
    maintain_construction_tasks, AiConstructionLabor, TaskRecord,
    ProgressBuildingConstruction, ProgressBuildingConstructionTaskBundle, TaskAssignment,
};

fn e(i: u64) -> EntityId {
    EntityId::from_bits(i)
}

#[test]
fn task_assignment_tracks_its_worker() {
    let mut assignment = TaskAssignment::unassigned();
    assert_eq!(assignment.worker(), None);
    assignment.assign(e(3));
    assert_eq!(assignment.worker(), Some(e(3)));
    assignment.clear();
    assert_eq!(assignment.worker(), None);
}

#[test]
fn construction_task_components_name_their_blueprint() {
    assert_eq!(ProgressBuildingConstruction::new(e(4)).blueprint(), e(4));
    assert_eq!(ProgressBuildingConstruction::label(), "ProgressBuildingConstruction");
    assert_eq!(ProgressBuildingConstructionTaskBundle::new(e(5)).construction.blueprint(), e(5));
    assert_eq!(AiConstructionLabor::new(e(6)).site(), e(6));
}

#[test]
fn every_blueprint_keeps_exactly_one_task() {
    let blueprints = [e(10), e(11), e(12)];
    let tasks = [
        TaskRecord { task: e(1), target: e(10) },
        TaskRecord { task: e(2), target: e(99) },
        TaskRecord { task: e(3), target: e(10) },
        TaskRecord { task: e(4), target: e(12) },
    ];
    let plan = maintain_construction_tasks(&blueprints, &tasks);
    assert_eq!(plan.despawn, vec![e(2), e(3)]);
    assert_eq!(plan.spawn_for, vec![e(11)]);
}

#[test]
fn nothing_changes_when_tasks_match_blueprints() {
    let blueprints = [e(10)];
    let tasks = [TaskRecord { task: e(1), target: e(10) }];
    let plan = maintain_construction_tasks(&blueprints, &tasks);
    assert!(plan.despawn.is_empty());
    assert!(plan.spawn_for.is_empty());
}
