use trace_matcher::admin::{
    available_admin_address, destroy, set_admin, suicide, DestroyFacts, DestroyStep,
    SetAdminFacts, SetAdminStep, Settlement, Space, SuicideFacts, SuicidePlan,
};

fn hard_refund_to_other() -> SuicideFacts {
    SuicideFacts {
        cip151: false,
        created_in_same_tx: false,
        creating_contract: false,
        refund_to_self: false,
        refund_address_valid: true,
        refund_space: Space::Native,
        contract_space: Space::Native,
    }
}

#[test]
fn contract_is_killed_and_refunds_another_account() {
    assert_eq!(
        suicide(&hard_refund_to_other()),
        SuicidePlan { kill: true, settlement: Settlement::Refund }
    );
}

#[test]
fn killed_contract_that_refunds_itself_burns_its_balance() {
    let facts = SuicideFacts { refund_to_self: true, ..hard_refund_to_other() };
    assert_eq!(
        suicide(&facts),
        SuicidePlan { kill: true, settlement: Settlement::Burn { evm_tokens: false } }
    );
}

#[test]
fn burnt_balance_of_the_ethereum_space_leaves_its_total() {
    let facts = SuicideFacts {
        refund_to_self: true,
        refund_space: Space::Ethereum,
        contract_space: Space::Ethereum,
        ..hard_refund_to_other()
    };
    assert_eq!(
        suicide(&facts),
        SuicidePlan { kill: true, settlement: Settlement::Burn { evm_tokens: true } }
    );
}

#[test]
fn refund_to_an_unaccepted_native_address_is_burnt() {
    let facts = SuicideFacts { refund_address_valid: false, ..hard_refund_to_other() };
    assert_eq!(
        suicide(&facts),
        SuicidePlan { kill: true, settlement: Settlement::Burn { evm_tokens: false } }
    );
}

#[test]
fn refund_to_an_unaccepted_ethereum_address_is_paid() {
    let facts = SuicideFacts {
        refund_address_valid: false,
        refund_space: Space::Ethereum,
        contract_space: Space::Ethereum,
        ..hard_refund_to_other()
    };
    assert_eq!(suicide(&facts), SuicidePlan { kill: true, settlement: Settlement::Refund });
}

#[test]
fn old_contract_under_cip151_only_moves_its_balance() {
    let facts = SuicideFacts { cip151: true, ..hard_refund_to_other() };
    assert_eq!(suicide(&facts), SuicidePlan { kill: false, settlement: Settlement::Refund });
}

#[test]
fn old_contract_under_cip151_that_refunds_itself_keeps_its_balance() {
    let facts = SuicideFacts { cip151: true, refund_to_self: true, ..hard_refund_to_other() };
    assert_eq!(suicide(&facts), SuicidePlan { kill: false, settlement: Settlement::Keep });
}

#[test]
fn contract_of_the_running_transaction_is_killed_under_cip151() {
    let created = SuicideFacts { cip151: true, created_in_same_tx: true, ..hard_refund_to_other() };
    let creating = SuicideFacts { cip151: true, creating_contract: true, ..hard_refund_to_other() };
    assert!(suicide(&created).kill);
    assert!(suicide(&creating).kill);
}

#[test]
fn user_accounts_and_the_null_address_may_be_admin() {
    assert!(available_admin_address(true, false));
    assert!(available_admin_address(false, true));
    assert!(!available_admin_address(false, false));
}

fn nothing_read() -> SetAdminFacts {
    SetAdminFacts {
        clear_admin_in_create: false,
        new_admin_available: true,
        is_contract: None,
        exists: None,
        admin_is_requester: None,
    }
}

#[test]
fn set_admin_reads_in_order() {
    let facts = nothing_read();
    assert_eq!(set_admin(&facts), SetAdminStep::AskIsContract);
    let facts = SetAdminFacts { is_contract: Some(true), ..facts };
    assert_eq!(set_admin(&facts), SetAdminStep::AskExists);
    let facts = SetAdminFacts { exists: Some(true), ..facts };
    assert_eq!(set_admin(&facts), SetAdminStep::AskAdmin);
    let facts = SetAdminFacts { admin_is_requester: Some(true), ..facts };
    assert_eq!(set_admin(&facts), SetAdminStep::Grant);
}

#[test]
fn set_admin_stops_at_the_first_reading_that_refuses() {
    let no_contract = SetAdminFacts { is_contract: Some(false), ..nothing_read() };
    assert_eq!(set_admin(&no_contract), SetAdminStep::Leave);
    let missing =
        SetAdminFacts { is_contract: Some(true), exists: Some(false), ..nothing_read() };
    assert_eq!(set_admin(&missing), SetAdminStep::Leave);
}

#[test]
fn only_the_admin_sets_the_admin() {
    let stranger = SetAdminFacts {
        is_contract: Some(true),
        exists: Some(true),
        admin_is_requester: Some(false),
        ..nothing_read()
    };
    assert_eq!(set_admin(&stranger), SetAdminStep::Leave);
}

#[test]
fn admin_may_be_cleared_while_the_contract_is_created() {
    let clearing = SetAdminFacts {
        clear_admin_in_create: true,
        is_contract: Some(true),
        exists: Some(true),
        admin_is_requester: Some(false),
        ..nothing_read()
    };
    assert_eq!(set_admin(&clearing), SetAdminStep::Grant);
}

#[test]
fn contract_cannot_be_made_admin() {
    let to_contract = SetAdminFacts {
        new_admin_available: false,
        is_contract: Some(true),
        exists: Some(true),
        admin_is_requester: Some(true),
        ..nothing_read()
    };
    assert_eq!(set_admin(&to_contract), SetAdminStep::Leave);
}

fn request() -> DestroyFacts {
    DestroyFacts {
        admin_is_requester: true,
        cip151: false,
        creating_contract: false,
        admin_is_contract: false,
        admin_address_valid: true,
        created_in_same_tx: None,
    }
}

#[test]
fn stranger_destroys_nothing() {
    let facts = DestroyFacts { admin_is_requester: false, ..request() };
    assert_eq!(destroy(&facts), DestroyStep::Leave);
    let facts = DestroyFacts { created_in_same_tx: Some(true), ..facts };
    assert_eq!(destroy(&facts), DestroyStep::Leave);
}

#[test]
fn admin_destroys_after_the_state_was_read() {
    assert_eq!(destroy(&request()), DestroyStep::AskCreatedInSameTx);
    let facts = DestroyFacts { created_in_same_tx: Some(false), ..request() };
    assert_eq!(
        destroy(&facts),
        DestroyStep::Carry(SuicidePlan { kill: true, settlement: Settlement::Refund })
    );
}

#[test]
fn destroy_under_cip151_spares_an_old_contract() {
    let facts = DestroyFacts { cip151: true, created_in_same_tx: Some(false), ..request() };
    assert_eq!(
        destroy(&facts),
        DestroyStep::Carry(SuicidePlan { kill: false, settlement: Settlement::Refund })
    );
}

#[test]
fn destroy_burns_when_the_admin_is_the_contract() {
    let facts =
        DestroyFacts { admin_is_contract: true, created_in_same_tx: Some(true), ..request() };
    assert_eq!(
        destroy(&facts),
        DestroyStep::Carry(SuicidePlan {
            kill: true,
            settlement: Settlement::Burn { evm_tokens: false }
        })
    );
}
