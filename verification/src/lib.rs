//! The verified core of the SpoolEase console: the spool store and its record
//! file, print tracking, gcode reading, the printer's file transfer dialogue and
//! the decisions behind the display and the web pages.

pub mod bambu;
pub mod bambu_print;
pub mod csvdb;
pub mod display;
pub mod filament_info;
pub mod filament_staging;
pub mod gcode_analysis;
pub mod gcode_analysis_task;
pub mod gcode_jobs;
pub mod grams;
pub mod hex_text;
pub mod my_ftp;
pub mod net;
pub mod nfc;
pub mod numbers;
pub mod settings;
pub mod spool_record;
pub mod store;
pub mod text;
pub mod text_map;
pub mod translations;
pub mod types;
pub mod view_model;
pub mod web_app;
