//! The client's bookkeeping: searches, users, shares and transfers.

pub mod control;
pub mod dispatch;
pub mod event;
pub mod ip_bans;
pub mod requests;
pub mod search;
pub mod session;
pub mod shares;
pub mod speed;
pub mod users;
pub mod transfers;
