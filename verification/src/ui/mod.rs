pub mod canvas;
pub mod chart;
pub mod console;
pub mod inspector;
pub mod modals;
pub mod palette;
pub mod toolbar;
