pub mod app;
pub mod cards;
pub mod editing;
pub mod game;
pub mod hand;
pub mod input;
pub mod live_widgets;
pub mod main_menu_widgets;
pub mod players;
pub mod rank_count_editor;
pub mod settings;
pub mod solver_worker;
pub mod table;
pub mod text;
pub mod view_model;
