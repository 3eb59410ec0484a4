//! Game rules of hexagolm: hit points, weapon wielding, inventories,
//! prefab instance tracking and the bookkeeping of dying entities.
pub mod combat;
pub mod entity;
pub mod world;
pub mod items;
pub mod graphics;
pub mod draw;
pub mod phys;
pub mod config;
pub mod farm;
pub mod props;
pub mod state;
pub mod gui;
