//! The core of an A/B video comparison player.
pub mod app;
pub mod capsule;
pub mod commands;
pub mod crop;
pub mod decode;
pub mod deliver;
pub mod font;
pub mod frame;
pub mod geometry;
pub mod gestures;
pub mod hud;
pub mod ids;
pub mod input;
pub mod items;
pub mod keys;
pub mod laws;
pub mod logo;
pub mod marks;
pub mod mask;
pub mod metadata;
pub mod numerals;
pub mod open;
pub mod pace;
pub mod palette;
pub mod panning;
pub mod parse;
pub mod paths;
pub mod player;
pub mod pngfile;
pub mod pointer;
pub mod probe;
pub mod quads;
pub mod queues;
pub mod rates;
pub mod readout;
pub mod render;
pub mod runner;
pub mod save;
pub mod scene;
pub mod schedule;
pub mod startup;
pub mod statusline;
pub mod sync;
pub mod text;
pub mod textures;
pub mod tick;
pub mod timing;
pub mod transport;
pub mod units;
pub mod views;
pub mod zoom;
