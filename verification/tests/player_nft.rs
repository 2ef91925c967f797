use renaissance_contract::PlayerNftContract;

#[test]
fn contract_name_is_stable() {
    assert_eq!(PlayerNftContract::contract_name(), "player_nft");
    assert_eq!(PlayerNftContract::contract_name(), PlayerNftContract::contract_name());
}
