use vstd::prelude::*;

pub mod entity;
pub mod grid;
pub mod housing;
pub mod time;
pub mod work;
pub mod resources;
pub mod plots;
pub mod skills;
pub mod sorting;
pub mod ai;
pub mod buildings;
pub mod components;
pub mod navigation;
pub mod collision;
pub mod farming;
pub mod forestry;
pub mod refining;
pub mod logistics;
pub mod npcs;
pub mod roads;
pub mod tasks;
pub mod movement;
pub mod tile;
pub mod simulation;
pub mod resource_nodes;
pub mod names;
pub mod commands;
