//! Verified core of a Rocket League replay analyzer: command-line argument
//! parsing, the actor bookkeeping of the network stream, ball-hit
//! classification, kickoff, stint and game-clock bookkeeping, touch indexes,
//! boost pickup detection, rotation roles and events, header goal rows, and
//! the layout and column selection of exported tables.

mod text;
pub mod sorting;
pub mod touches;
pub mod boost;
pub mod rotation;
pub mod stints;
pub mod cli;
pub mod events;
pub mod post;
pub mod stats;
pub mod presence;
pub mod official;
pub mod row_order;
pub mod header;
pub mod ball_events;
pub mod cooldown;
pub mod zones;
pub mod flip_resets;
pub mod columns;
pub mod goal_rows;
pub mod roster;
pub mod components;
pub mod player_values;
pub mod hit_filter;
pub mod inspect;
pub mod clock;
pub mod pipeline;
pub mod stats_rows;
pub mod replay_context;
pub mod replay_parse;
pub mod stat_credit;
