use vstd::prelude::*;

verus! {

/// The player NFT contract. It has no ownership logic yet; it only names
/// itself.
pub struct PlayerNftContract;

impl PlayerNftContract {
    /// The contract's name, `player_nft`, the same on every call.
    pub fn contract_name() -> (name: &'static str)
        ensures
            name@ == "player_nft"@,
    {
        "player_nft"
    }
}

} // verus!
