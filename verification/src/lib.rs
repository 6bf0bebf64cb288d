//! Simulation core of a vanilla game server.
pub mod aoi;
pub mod auth;
pub mod capture;
pub mod casting;
pub mod cell;
pub mod character;
pub mod character_screen;
pub mod client;
pub mod clock;
pub mod command;
pub mod config;
pub mod corpses;
pub mod creature;
pub mod creature_ai;
pub mod database;
pub mod departures;
pub mod dice;
pub mod entities;
pub mod gm_command;
pub mod gm_parser;
pub mod gm_reply;
pub mod inventory;
pub mod item;
pub mod keyed;
pub mod loadtest;
pub mod logon;
pub mod map_state;
pub mod movement;
pub mod net_stats;
pub mod notice;
pub mod numeric;
pub mod outbound;
pub mod pacer;
pub mod pathfinding;
pub mod phases;
pub mod player;
pub mod rank;
pub mod schedule;
pub mod server;
pub mod simulated_player;
pub mod slabs;
pub mod snapshot;
pub mod spatial;
pub mod spawning;
pub mod spells;
pub mod swing;
pub mod tables;
pub mod telling;
pub mod text;
pub mod tick;
pub mod update_object;
pub mod walking;
pub mod world;
pub mod world_db;
