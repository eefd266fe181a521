pub mod text;
pub mod settings;
pub mod shortcuts;
pub mod localization;
pub mod window;
pub mod settings_commands;
pub mod player;
pub mod player_command;
pub mod mini_player;
pub mod media;
pub mod discord;
pub mod discord_session;
pub mod tray;
pub mod settings_store;
pub mod runtime_settings;
pub mod player_log;
