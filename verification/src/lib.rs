//! Logic of the FindX2 file index: journal records, index planning, wire formats and settings.
#![allow(unused_imports)]

use vstd::prelude::*;

pub mod app_update;
pub mod autostart;
pub mod backfill;
pub mod bytes;
pub mod cli;
pub mod clsid;
pub mod context_menu;
pub mod desktop;
pub mod elevate;
pub mod everything_ipc;
pub mod file_actions;
pub mod findx_settings;
pub mod frontend_build;
pub mod full_index_build;
pub mod gui_search;
pub mod index_status;
pub mod indexing;
pub mod ipc_dispatch;
pub mod lists;
pub mod load_state;
pub mod metadata_fill;
pub mod mft;
pub mod mft_read;
pub mod model;
pub mod nt_dir_query;
pub mod open_by_id;
pub mod overlay;
pub mod paths;
pub mod pipe_server;
pub mod preview_data;
pub mod preview_handler;
pub mod rebuild;
pub mod run;
pub mod run_unix;
pub mod service_start;
pub mod session_spawn;
pub mod sort;
pub mod startup_compact;
pub mod stat_queue;
pub mod text;
pub mod tray;
pub mod unix_path;
pub mod update_download;
pub mod usn;
pub mod utf16;
pub mod volume_scan;
pub mod volumes;
pub mod watch;
pub mod watch_health;
pub mod win_preview;
pub mod win_service;
pub mod window_layout;
