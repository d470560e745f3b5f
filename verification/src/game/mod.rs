pub mod character;
pub mod command;
pub mod direction;
pub mod exit;
pub mod feature;
pub mod ids;
pub mod item;
pub mod item_location;
pub mod naming;
pub mod npc;
pub mod quest;
pub mod room;
pub mod table;
pub mod world;
pub mod event;
pub mod rules;
pub mod game;
pub mod progress;
pub mod laws;
