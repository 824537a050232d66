use vstd::prelude::*;
use crate::buildings::{
    spec_refinery_takes, name_in_use, building_name_exists, refinery_takes, Building, BuildingActivity,
    BuildingName, RefineryPullConfig, StorageInventory, StoragePullConfig,
};
use crate::entity::EntityId;
use crate::names::{trim, trimmed};
use crate::resources::ResourceKind;
use crate::simulation::{
    validate_target_surface, BuildingCommandError, BuildingTarget, SurfaceId, WarehouseFilterError,
};
use vstd::string::*;

verus! {

/// What building commands read and change of one entity: its building (or
/// whether it is a blueprint), name, activity switch, storage inventory
/// and pull switches, each where the entity has it.
#[derive(Debug, Clone)]
pub struct BuildingEntity {
    pub building: Option<Building>,
    pub blueprint: bool,
    pub name: Option<BuildingName>,
    pub activity: Option<BuildingActivity>,
    pub storage: Option<StorageInventory>,
    pub storage_pull: Option<StoragePullConfig>,
    pub refinery_pull: Option<RefineryPullConfig>,
}

/// A command's entity must exist and be a building or a blueprint.
pub open spec fn spec_building_check(e: Option<BuildingEntity>) -> Result<(), BuildingCommandError> {
    match e {
        None => Err(BuildingCommandError::MissingEntity),
        Some(b) => if b.building is Some || b.blueprint {
            Ok(())
        } else {
            Err(BuildingCommandError::NotBuilding)
        },
    }
}

/// A completed building: a building entity that is not a blueprint.
pub open spec fn spec_completed_building(e: Option<BuildingEntity>) -> Result<Building, BuildingCommandError> {
    match spec_building_check(e) {
        Err(x) => Err(x),
        Ok(_) => match e.unwrap().building {
            Some(b) => Ok(b),
            None => Err(BuildingCommandError::BlueprintIneligible),
        },
    }
}

/// A completed storage building with its inventory.
pub open spec fn spec_completed_storage(e: Option<BuildingEntity>) -> Result<Building, BuildingCommandError> {
    match spec_completed_building(e) {
        Err(x) => Err(x),
        Ok(b) => if b.kind.spec_is_storage() && e.unwrap().storage is Some {
            Ok(b)
        } else {
            Err(BuildingCommandError::UnsupportedBuilding)
        },
    }
}

/// A completed refinery with pull switches and a recipe taking the kind.
pub open spec fn spec_completed_refinery_supporting(e: Option<BuildingEntity>, kind: ResourceKind) -> Result<Building, BuildingCommandError> {
    match spec_completed_building(e) {
        Err(x) => Err(x),
        Ok(b) => if !b.kind.spec_is_refinery() || e.unwrap().refinery_pull is None {
            Err(BuildingCommandError::UnsupportedBuilding)
        } else if !spec_refinery_takes(b.kind, kind) {
            Err(BuildingCommandError::UnsupportedResource)
        } else {
            Ok(b)
        },
    }
}

pub fn validate_building_entity(e: &Option<BuildingEntity>) -> (r: Result<(), BuildingCommandError>)
    ensures
        r == spec_building_check(*e),
{
    match e {
        None => Err(BuildingCommandError::MissingEntity),
        Some(b) => if b.building.is_some() || b.blueprint {
            Ok(())
        } else {
            Err(BuildingCommandError::NotBuilding)
        },
    }
}

pub fn completed_building(e: &Option<BuildingEntity>) -> (r: Result<Building, BuildingCommandError>)
    ensures
        r == spec_completed_building(*e),
{
    match validate_building_entity(e) {
        Err(x) => Err(x),
        Ok(_) => match e {
            Some(b) => match b.building {
                Some(building) => Ok(building),
                None => Err(BuildingCommandError::BlueprintIneligible),
            },
            None => Err(BuildingCommandError::MissingEntity),
        },
    }
}

pub fn completed_storage(e: &Option<BuildingEntity>) -> (r: Result<Building, BuildingCommandError>)
    ensures
        r == spec_completed_storage(*e),
{
    let building = match completed_building(e) {
        Err(x) => return Err(x),
        Ok(b) => b,
    };
    let has_storage = match e {
        Some(b) => b.storage.is_some(),
        None => false,
    };
    if building.kind.is_storage() && has_storage {
        Ok(building)
    } else {
        Err(BuildingCommandError::UnsupportedBuilding)
    }
}

pub fn completed_refinery_supporting(e: &Option<BuildingEntity>, kind: ResourceKind) -> (r: Result<Building, BuildingCommandError>)
    ensures
        r == spec_completed_refinery_supporting(*e, kind),
{
    let building = match completed_building(e) {
        Err(x) => return Err(x),
        Ok(b) => b,
    };
    let has_pull = match e {
        Some(b) => b.refinery_pull.is_some(),
        None => false,
    };
    if !building.kind.is_refinery() || !has_pull {
        return Err(BuildingCommandError::UnsupportedBuilding);
    }
    if !refinery_takes(building.kind, kind) {
        return Err(BuildingCommandError::UnsupportedResource);
    }
    Ok(building)
}

/// The name of a building, or why there is none to give.
pub open spec fn spec_building_name(requested: SurfaceId, target: BuildingTarget, e: Option<BuildingEntity>) -> Result<Seq<char>, BuildingCommandError> {
    if requested != target.surface_id {
        Err(BuildingCommandError::WrongSurface)
    } else {
        match spec_building_check(e) {
            Err(x) => Err(x),
            Ok(_) => match e.unwrap().name {
                Some(n) => Ok(n.text()),
                None => Err(BuildingCommandError::NotBuilding),
            },
        }
    }
}

/// A building's name (see `spec_building_name`).
pub fn building_name<'a>(requested: SurfaceId, target: BuildingTarget, e: &'a Option<BuildingEntity>) -> (r: Result<&'a str, BuildingCommandError>)
    ensures
        match (r, spec_building_name(requested, target, *e)) {
            (Ok(s), Ok(t)) => s@ == t,
            (Err(a), Err(b)) => a == b,
            _ => false,
        },
{
    match validate_target_surface(requested, target) {
        Err(x) => return Err(x),
        Ok(_) => {},
    }
    match validate_building_entity(e) {
        Err(x) => return Err(x),
        Ok(_) => {},
    }
    match e {
        Some(b) => match &b.name {
            Some(n) => Ok(n.as_str()),
            None => Err(BuildingCommandError::NotBuilding),
        },
        None => Err(BuildingCommandError::MissingEntity),
    }
}

/// Renaming a building: the requested name, trimmed, must have 1 to 64
/// characters and no other entity's name may equal it trimmed and in
/// lowercase.
pub open spec fn spec_rename_building(
    requested: SurfaceId,
    target: BuildingTarget,
    e: Option<BuildingEntity>,
    requested_name: Seq<char>,
    names: Seq<(EntityId, BuildingName)>,
) -> Result<(), BuildingCommandError> {
    let t = trimmed(requested_name);
    if requested != target.surface_id {
        Err(BuildingCommandError::WrongSurface)
    } else if !(1 <= t.len() <= 64) {
        Err(BuildingCommandError::InvalidName)
    } else {
        match spec_building_check(e) {
            Err(x) => Err(x),
            Ok(_) => if name_in_use(names, t, Some(target.entity)) {
                Err(BuildingCommandError::DuplicateName)
            } else if e.unwrap().name is None {
                Err(BuildingCommandError::NotBuilding)
            } else {
                Ok(())
            },
        }
    }
}

/// Renames a building (see `spec_rename_building`) to the trimmed name;
/// `names` lists the named entities of its surface. Nothing changes on an
/// error.
pub fn rename_building(
    requested: SurfaceId,
    target: BuildingTarget,
    e: &mut Option<BuildingEntity>,
    requested_name: &str,
    names: &[(EntityId, BuildingName)],
) -> (r: Result<(), BuildingCommandError>)
    ensures
        r == spec_rename_building(requested, target, *old(e), requested_name@, names@),
        r is Err ==> *final(e) == *old(e),
        r is Ok ==> (*final(e) matches Some(b) && *old(e) matches Some(a) && {
            &&& b.name matches Some(n) && n.text() == trimmed(requested_name@)
            &&& b.building == a.building && b.blueprint == a.blueprint && b.activity == a.activity
            &&& b.storage == a.storage && b.storage_pull == a.storage_pull && b.refinery_pull == a.refinery_pull
        }),
{
    match validate_target_surface(requested, target) {
        Err(x) => return Err(x),
        Ok(_) => {},
    }
    let t = trim(requested_name);
    let count = t.unicode_len();
    if count < 1 || count > 64 {
        return Err(BuildingCommandError::InvalidName);
    }
    match validate_building_entity(e) {
        Err(x) => return Err(x),
        Ok(_) => {},
    }
    if building_name_exists(names, t, Some(target.entity)) {
        return Err(BuildingCommandError::DuplicateName);
    }
    let has_name = match e {
        Some(b) => b.name.is_some(),
        None => false,
    };
    if !has_name {
        return Err(BuildingCommandError::NotBuilding);
    }
    let mut b = e.take().unwrap();
    b.name = Some(BuildingName::new(t));
    *e = Some(b);
    Ok(())
}

/// Whether a configurable building is switched on, or why it cannot say.
pub open spec fn spec_building_active(requested: SurfaceId, target: BuildingTarget, e: Option<BuildingEntity>) -> Result<bool, BuildingCommandError> {
    if requested != target.surface_id {
        Err(BuildingCommandError::WrongSurface)
    } else {
        match spec_completed_building(e) {
            Err(x) => Err(x),
            Ok(b) => if !b.kind.spec_is_storage() && !b.kind.spec_is_refinery() {
                Err(BuildingCommandError::UnsupportedBuilding)
            } else {
                match e.unwrap().activity {
                    Some(a) => Ok(a.active),
                    None => Err(BuildingCommandError::UnsupportedBuilding),
                }
            },
        }
    }
}

pub fn building_active(requested: SurfaceId, target: BuildingTarget, e: &Option<BuildingEntity>) -> (r: Result<bool, BuildingCommandError>)
    ensures
        r == spec_building_active(requested, target, *e),
{
    match validate_target_surface(requested, target) {
        Err(x) => return Err(x),
        Ok(_) => {},
    }
    let building = match completed_building(e) {
        Err(x) => return Err(x),
        Ok(b) => b,
    };
    if !building.kind.is_logistics_configurable() {
        return Err(BuildingCommandError::UnsupportedBuilding);
    }
    match e {
        Some(b) => match b.activity {
            Some(a) => Ok(a.is_active()),
            None => Err(BuildingCommandError::UnsupportedBuilding),
        },
        None => Err(BuildingCommandError::MissingEntity),
    }
}

/// Switches a configurable building on or off; on success only its switch
/// changes (the caller then cancels work involving a building switched
/// off). Nothing changes on an error.
pub fn set_building_active(
    requested: SurfaceId,
    target: BuildingTarget,
    e: &mut Option<BuildingEntity>,
    active: bool,
) -> (r: Result<(), BuildingCommandError>)
    ensures
        r == match spec_building_active(requested, target, *old(e)) {
            Ok(_) => Ok::<(), BuildingCommandError>(()),
            Err(x) => Err(x),
        },
        r is Err ==> *final(e) == *old(e),
        r is Ok ==> (*final(e) matches Some(b) && *old(e) matches Some(a) && {
            &&& b.activity == Some(BuildingActivity { active })
            &&& b.building == a.building && b.blueprint == a.blueprint && b.name == a.name
            &&& b.storage == a.storage && b.storage_pull == a.storage_pull && b.refinery_pull == a.refinery_pull
        }),
{
    match building_active(requested, target, e) {
        Err(x) => return Err(x),
        Ok(_) => {},
    }
    let mut b = e.take().unwrap();
    let mut activity = b.activity.unwrap();
    activity.set_active(active);
    b.activity = Some(activity);
    *e = Some(b);
    Ok(())
}

/// Whether a completed storage building accepts a resource kind.
pub open spec fn spec_storage_resource_allowed(requested: SurfaceId, target: BuildingTarget, e: Option<BuildingEntity>, kind: ResourceKind) -> Result<bool, BuildingCommandError> {
    if requested != target.surface_id {
        Err(BuildingCommandError::WrongSurface)
    } else {
        match spec_completed_storage(e) {
            Err(x) => Err(x),
            Ok(_) => Ok(e.unwrap().storage.unwrap().spec_filter().allows(kind)),
        }
    }
}

pub fn storage_resource_allowed(requested: SurfaceId, target: BuildingTarget, e: &Option<BuildingEntity>, kind: ResourceKind) -> (r: Result<bool, BuildingCommandError>)
    ensures
        r == spec_storage_resource_allowed(requested, target, *e, kind),
{
    match validate_target_surface(requested, target) {
        Err(x) => return Err(x),
        Ok(_) => {},
    }
    match completed_storage(e) {
        Err(x) => return Err(x),
        Ok(_) => {},
    }
    match e {
        Some(b) => match b.storage {
            Some(s) => Ok(s.is_allowed(kind)),
            None => Err(BuildingCommandError::UnsupportedBuilding),
        },
        None => Err(BuildingCommandError::MissingEntity),
    }
}

/// Storage filter `s2` is `s1` with one kind set to `allowed`.
pub open spec fn filter_set(s1: StorageInventory, s2: StorageInventory, kind: ResourceKind, allowed: bool) -> bool {
    &&& s2.spec_filter().allows(kind) == allowed
    &&& forall|k: ResourceKind| k != kind ==> #[trigger] s2.spec_filter().allows(k) == s1.spec_filter().allows(k)
    &&& s2.store() == s1.store()
}

/// Pull switches `p2` are `p1` with one kind set to `enabled`.
pub open spec fn pull_set(p1: StoragePullConfig, p2: StoragePullConfig, kind: ResourceKind, enabled: bool) -> bool {
    &&& p2.pulls.allows(kind) == enabled
    &&& forall|k: ResourceKind| k != kind ==> #[trigger] p2.pulls.allows(k) == p1.pulls.allows(k)
}

/// Sets whether a completed storage building accepts a kind; refusing a
/// kind it can pull from refineries also stops that pull. The storage must
/// have pull switches when that happens.
pub fn set_storage_resource_allowed(
    requested: SurfaceId,
    target: BuildingTarget,
    e: &mut Option<BuildingEntity>,
    kind: ResourceKind,
    allowed: bool,
) -> (r: Result<(), BuildingCommandError>)
    requires
        requested == target.surface_id && spec_completed_storage(*old(e)) is Ok && !allowed
            && StoragePullConfig::spec_supports(kind) ==> old(e).unwrap().storage_pull is Some,
    ensures
        r == match spec_storage_resource_allowed(requested, target, *old(e), kind) {
            Ok(_) => Ok::<(), BuildingCommandError>(()),
            Err(x) => Err(x),
        },
        r is Err ==> *final(e) == *old(e),
        r is Ok ==> (*final(e) matches Some(b) && *old(e) matches Some(a) && {
            &&& b.storage matches Some(s2) && a.storage matches Some(s1) && filter_set(s1, s2, kind, allowed)
            &&& if !allowed && StoragePullConfig::spec_supports(kind) {
                b.storage_pull matches Some(p2) && a.storage_pull matches Some(p1) && pull_set(p1, p2, kind, false)
            } else {
                b.storage_pull == a.storage_pull
            }
            &&& b.building == a.building && b.blueprint == a.blueprint && b.name == a.name
            &&& b.activity == a.activity && b.refinery_pull == a.refinery_pull
        }),
{
    match storage_resource_allowed(requested, target, e, kind) {
        Err(x) => return Err(x),
        Ok(_) => {},
    }
    let mut b = e.take().unwrap();
    let mut storage = b.storage.unwrap();
    storage.set_allowed(kind, allowed);
    b.storage = Some(storage);
    if !allowed && StoragePullConfig::supports(kind) {
        let mut pull = b.storage_pull.unwrap();
        pull.set_pulls_from_refineries(kind, false);
        b.storage_pull = Some(pull);
    }
    *e = Some(b);
    Ok(())
}

/// Whether a completed storage building pulls a kind from refineries.
pub open spec fn spec_storage_pulls_from_refineries(requested: SurfaceId, target: BuildingTarget, e: Option<BuildingEntity>, kind: ResourceKind) -> Result<bool, BuildingCommandError> {
    if requested != target.surface_id {
        Err(BuildingCommandError::WrongSurface)
    } else if !StoragePullConfig::spec_supports(kind) {
        Err(BuildingCommandError::UnsupportedResource)
    } else {
        match spec_completed_storage(e) {
            Err(x) => Err(x),
            Ok(_) => Ok(e.unwrap().storage_pull.unwrap().pulls.allows(kind)),
        }
    }
}

/// Whether a pull command reaches a storage's pull switches.
pub open spec fn reaches_storage_pull(requested: SurfaceId, target: BuildingTarget, e: Option<BuildingEntity>, kind: ResourceKind) -> bool {
    requested == target.surface_id && StoragePullConfig::spec_supports(kind) && spec_completed_storage(e) is Ok
}

/// Whether a storage building pulls a kind from refineries; a storage
/// reached this way must have pull switches.
pub fn storage_pulls_from_refineries(requested: SurfaceId, target: BuildingTarget, e: &Option<BuildingEntity>, kind: ResourceKind) -> (r: Result<bool, BuildingCommandError>)
    requires
        reaches_storage_pull(requested, target, *e, kind) ==> e.unwrap().storage_pull is Some,
    ensures
        r == spec_storage_pulls_from_refineries(requested, target, *e, kind),
{
    match validate_target_surface(requested, target) {
        Err(x) => return Err(x),
        Ok(_) => {},
    }
    if !StoragePullConfig::supports(kind) {
        return Err(BuildingCommandError::UnsupportedResource);
    }
    match completed_storage(e) {
        Err(x) => return Err(x),
        Ok(_) => {},
    }
    match e {
        Some(b) => match b.storage_pull {
            Some(p) => Ok(p.pulls_from_refineries(kind)),
            None => Err(BuildingCommandError::UnsupportedBuilding),
        },
        None => Err(BuildingCommandError::MissingEntity),
    }
}

/// Sets whether a storage building pulls a kind from refineries; enabling a
/// pull also makes the storage accept the kind.
pub fn set_storage_pulls_from_refineries(
    requested: SurfaceId,
    target: BuildingTarget,
    e: &mut Option<BuildingEntity>,
    kind: ResourceKind,
    enabled: bool,
) -> (r: Result<(), BuildingCommandError>)
    requires
        reaches_storage_pull(requested, target, *old(e), kind) ==> old(e).unwrap().storage_pull is Some,
    ensures
        r == match spec_storage_pulls_from_refineries(requested, target, *old(e), kind) {
            Ok(_) => Ok::<(), BuildingCommandError>(()),
            Err(x) => Err(x),
        },
        r is Err ==> *final(e) == *old(e),
        r is Ok ==> (*final(e) matches Some(b) && *old(e) matches Some(a) && {
            &&& b.storage_pull matches Some(p2) && a.storage_pull matches Some(p1) && pull_set(p1, p2, kind, enabled)
            &&& if enabled {
                b.storage matches Some(s2) && a.storage matches Some(s1) && filter_set(s1, s2, kind, true)
            } else {
                b.storage == a.storage
            }
            &&& b.building == a.building && b.blueprint == a.blueprint && b.name == a.name
            &&& b.activity == a.activity && b.refinery_pull == a.refinery_pull
        }),
{
    match storage_pulls_from_refineries(requested, target, e, kind) {
        Err(x) => return Err(x),
        Ok(_) => {},
    }
    let mut b = e.take().unwrap();
    let mut pull = b.storage_pull.unwrap();
    pull.set_pulls_from_refineries(kind, enabled);
    b.storage_pull = Some(pull);
    if enabled {
        let mut storage = b.storage.unwrap();
        storage.set_allowed(kind, true);
        b.storage = Some(storage);
    }
    *e = Some(b);
    Ok(())
}

/// Whether a completed refinery pulls a kind it refines from storage.
pub open spec fn spec_refinery_pulls_from_storage(requested: SurfaceId, target: BuildingTarget, e: Option<BuildingEntity>, kind: ResourceKind) -> Result<bool, BuildingCommandError> {
    if requested != target.surface_id {
        Err(BuildingCommandError::WrongSurface)
    } else {
        match spec_completed_refinery_supporting(e, kind) {
            Err(x) => Err(x),
            Ok(_) => Ok(e.unwrap().refinery_pull.unwrap().pulls.allows(kind)),
        }
    }
}

pub fn refinery_pulls_from_storage(requested: SurfaceId, target: BuildingTarget, e: &Option<BuildingEntity>, kind: ResourceKind) -> (r: Result<bool, BuildingCommandError>)
    ensures
        r == spec_refinery_pulls_from_storage(requested, target, *e, kind),
{
    match validate_target_surface(requested, target) {
        Err(x) => return Err(x),
        Ok(_) => {},
    }
    match completed_refinery_supporting(e, kind) {
        Err(x) => return Err(x),
        Ok(_) => {},
    }
    match e {
        Some(b) => match b.refinery_pull {
            Some(p) => Ok(p.pulls_from_storage(kind)),
            None => Err(BuildingCommandError::UnsupportedBuilding),
        },
        None => Err(BuildingCommandError::MissingEntity),
    }
}

/// Sets whether a refinery pulls a kind it refines from storage.
pub fn set_refinery_pulls_from_storage(
    requested: SurfaceId,
    target: BuildingTarget,
    e: &mut Option<BuildingEntity>,
    kind: ResourceKind,
    enabled: bool,
) -> (r: Result<(), BuildingCommandError>)
    ensures
        r == match spec_refinery_pulls_from_storage(requested, target, *old(e), kind) {
            Ok(_) => Ok::<(), BuildingCommandError>(()),
            Err(x) => Err(x),
        },
        r is Err ==> *final(e) == *old(e),
        r is Ok ==> (*final(e) matches Some(b) && *old(e) matches Some(a) && {
            &&& b.refinery_pull matches Some(p2) && a.refinery_pull matches Some(p1) && p2.pulls.allows(kind) == enabled
                && forall|k: ResourceKind| k != kind ==> #[trigger] p2.pulls.allows(k) == p1.pulls.allows(k)
            &&& b.building == a.building && b.blueprint == a.blueprint && b.name == a.name
            &&& b.activity == a.activity && b.storage == a.storage && b.storage_pull == a.storage_pull
        }),
{
    match refinery_pulls_from_storage(requested, target, e, kind) {
        Err(x) => return Err(x),
        Ok(_) => {},
    }
    let mut b = e.take().unwrap();
    let mut pull = b.refinery_pull.unwrap();
    pull.set_pulls_from_storage(kind, enabled);
    b.refinery_pull = Some(pull);
    *e = Some(b);
    Ok(())
}

/// Whether a completed warehouse (any entity with a storage inventory)
/// accepts a kind.
pub open spec fn spec_warehouse_resource_allowed(e: Option<BuildingEntity>, kind: ResourceKind) -> Result<bool, WarehouseFilterError> {
    match e {
        None => Err(WarehouseFilterError::MissingEntity),
        Some(b) => match b.storage {
            Some(s) => Ok(s.spec_filter().allows(kind)),
            None => Err(WarehouseFilterError::NotCompletedWarehouse),
        },
    }
}

pub fn warehouse_resource_allowed(e: &Option<BuildingEntity>, kind: ResourceKind) -> (r: Result<bool, WarehouseFilterError>)
    ensures
        r == spec_warehouse_resource_allowed(*e, kind),
{
    match e {
        None => Err(WarehouseFilterError::MissingEntity),
        Some(b) => match b.storage {
            Some(s) => Ok(s.is_allowed(kind)),
            None => Err(WarehouseFilterError::NotCompletedWarehouse),
        },
    }
}

/// Sets whether a warehouse accepts a kind; nothing else changes.
pub fn set_warehouse_resource_allowed(e: &mut Option<BuildingEntity>, kind: ResourceKind, allowed: bool) -> (r: Result<(), WarehouseFilterError>)
    ensures
        r == match spec_warehouse_resource_allowed(*old(e), kind) {
            Ok(_) => Ok::<(), WarehouseFilterError>(()),
            Err(x) => Err(x),
        },
        r is Err ==> *final(e) == *old(e),
        r is Ok ==> (*final(e) matches Some(b) && *old(e) matches Some(a) && {
            &&& b.storage matches Some(s2) && a.storage matches Some(s1) && filter_set(s1, s2, kind, allowed)
            &&& b.building == a.building && b.blueprint == a.blueprint && b.name == a.name
            &&& b.activity == a.activity && b.storage_pull == a.storage_pull && b.refinery_pull == a.refinery_pull
        }),
{
    match warehouse_resource_allowed(e, kind) {
        Err(x) => return Err(x),
        Ok(_) => {},
    }
    let mut b = e.take().unwrap();
    let mut storage = b.storage.unwrap();
    storage.set_allowed(kind, allowed);
    b.storage = Some(storage);
    *e = Some(b);
    Ok(())
}

} // verus!
