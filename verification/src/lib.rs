pub mod backend;
pub mod cmdrunner;
pub mod command;
pub mod desktop_file;
pub mod desktop_index;
pub mod dispatcher;
pub mod fields;
pub mod focus_or_launch;
pub mod fresh;
pub mod ipc;
pub mod jan_client;
pub mod json;
pub mod memory;
pub mod paths;
pub mod personality;
pub mod plan;
pub mod research;
pub mod server;
pub mod text;
pub mod ui;
pub mod voice;
