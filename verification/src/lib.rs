pub mod ledger;
pub mod links;
pub mod state;
pub mod urls;
