pub mod document;
pub mod placement;
pub mod save;
pub mod scene;
pub mod workcell;
