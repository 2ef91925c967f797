//! Verified core logic of the Renaissance contracts: the counter, the
//! match-result oracle, the session-key registry with its whitelist, the
//! betting entry check and payout rule, and the player NFT contract name.
//!
//! Everything here works on plain values. Reading and writing contract
//! storage, checking signatures, reading the ledger clock and publishing
//! events belong to the host and happen around these functions.

pub mod address;
pub mod betting;
pub mod counter;
pub mod oracle;
pub mod player_nft;
pub mod session;

pub use address::{contains_address, Address};
pub use betting::{PayoutError, PlatformError, RenaissanceBettingContract};
pub use counter::{CounterContract, COUNTER_TTL_EXTEND_TO, COUNTER_TTL_THRESHOLD};
pub use oracle::{
    record_is_consistent, AlreadyInitialized, MatchRecord, MatchResult, OracleContract,
    OracleError,
};
pub use player_nft::PlayerNftContract;
pub use session::{session_ttl_ledgers, SessionContract, SessionData, SessionError};
