//! The decisions of Kuvatin, a batch image converter and small video editor.

pub mod applog;
pub mod assoc;
pub mod batch;
pub mod calendar;
pub mod cli;
pub mod clip;
pub mod collect;
pub mod dialogs;
pub mod export;
pub mod file_rows;
pub mod gather;
pub mod history;
pub mod image_history;
pub mod image_mode;
pub mod import;
pub mod launch;
pub mod order;
pub mod paths;
pub mod playback;
pub mod presets;
pub mod project_file;
pub mod progress;
pub mod quickrun;
pub mod recorder;
pub mod rendezvous;
pub mod sequence_render;
pub mod settings;
pub mod sorted_map;
pub mod text;
pub mod timeline;
pub mod timeline_apply;
pub mod timeline_laws;
pub mod timeline_rows;
pub mod timeline_undo;
pub mod updates;
pub mod utf16;
pub mod waves;
pub mod win_drop;
pub mod window_size;
