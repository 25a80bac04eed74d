pub mod clausewitz;
pub mod text;
pub mod numbers;
pub mod flags;
pub mod discovery;
pub mod gather;
pub mod actions;
pub mod addresses;
pub mod values;
pub mod model;
pub mod planner;
pub mod save;
pub mod order;
pub mod dlc;
pub mod eligibility;
pub mod install;
pub mod catalog_sync;
pub mod paths;
pub mod icons;
pub mod catalog;
pub mod progression;
pub mod run_facts;
pub mod documents;
