pub mod asset_store;
pub mod file_store;
pub mod image_store;
pub mod ledger;
pub mod traits;
