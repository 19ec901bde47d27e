//! Rules engine for a four-player settlement-building board game on a fixed
//! hexagonal map: board topology, bank, hands, the action state machine,
//! trading and the longest-road search.

pub mod action;
pub mod actions;
pub mod audit;
pub mod awards;
pub mod bank;
pub mod board;
pub mod bookkeeping;
pub mod building;
pub mod cards;
mod chance;
pub mod construction;
pub mod development;
pub mod edge;
pub mod game;
pub mod mapping;
pub mod node;
pub mod play;
pub mod player;
pub mod port;
pub mod production;
pub mod resource;
pub mod road;
pub mod robber;
pub mod setup;
pub mod terrain;
pub mod tile;
pub mod trade;
pub mod trade_offer;
pub mod turn;
