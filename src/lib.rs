//! Fractional ownership of listed properties: a ledger of properties, investor
//! positions and custody vaults, each stored at an address derived from its keys.

pub mod address;
pub mod error;
pub mod laws;
pub mod listing;
pub mod purchase;
pub mod state;
pub mod table;

pub use address::Address;
pub use error::EstateError;
pub use listing::{list_property, ListProperty};
pub use purchase::{buy_share, prepare_buy, BuyShare, PaymentAccount, Purchase};
pub use state::{Ledger, Property, UserInvestment, Vault};
