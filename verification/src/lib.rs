//! Clubs on chain: clubs created by root, owned by accounts, with paid, self-renewing
//! memberships. The state of the pallet is held by [`Pallet`]; the calls that charge an
//! account take the runtime's transfer as a function `pay(from, to, amount)`.

pub mod types;
pub mod dispatch;

pub use types::{Club, ClubId, MemberShipData};
pub use dispatch::{CallError, DispatchResult, Error, Event, Origin, Payment};
pub mod keys;
pub mod account;
pub mod search;
pub mod pallet;
pub mod calls;
pub mod expiry;
pub mod laws;
pub mod outcomes;

pub use pallet::{ClubsOf, Config, Pallet, Paid, PalletState};
pub use search::Entry;
