//! Manufacturing economics for a crafting game: known recipes
//! ("blueprints"), the goods they reference ("items"), configured
//! manufacturing jobs ("production runs"), and the derivation of material
//! requirements, costs and sell values from them.

pub mod records;
pub mod error;
pub mod text;
pub mod database;
pub mod production;
pub mod shopping;
pub mod bootstrap;
pub mod laws;
pub mod menu;

pub use database::Database;
pub use error::DbError;
pub use records::{BlueprintDef, Item, T1Blueprint, T1ProductionRun};
pub use menu::ChoiceMenu;
