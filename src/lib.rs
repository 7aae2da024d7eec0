//! Fund settlement for a decentralized organization: exact proportional
//! shares of a balance, and the decisions of a two-phase payout protocol.
pub mod decimal;
pub mod fraction;
pub mod settlement;
