//! The decisions of the admin-control contract: who may set a contract's
//! admin, and what becomes of a contract and its balance when it is
//! destroyed. The node reads its state and carries the decisions out; what
//! is decided, from what was read, is here.

use vstd::prelude::*;

verus! {

/// The address space in which an account lives.
#[derive(Clone, Copy, Debug, PartialEq, Eq, Structural)]
pub enum Space {
    Native,
    Ethereum,
}

/// What is known when a contract is to be destroyed.
#[derive(Clone, Copy, Debug, PartialEq, Eq, Structural)]
pub struct SuicideFacts {
    /// Whether contracts may only be killed in the transaction that created
    /// them (CIP-151).
    pub cip151: bool,
    /// Whether the state records the contract as created in the running
    /// transaction.
    pub created_in_same_tx: bool,
    /// Whether the contract is still being created.
    pub creating_contract: bool,
    /// Whether the refund goes to the contract itself.
    pub refund_to_self: bool,
    /// Whether the refund address is one that the node accepts.
    pub refund_address_valid: bool,
    /// The space of the refund address.
    pub refund_space: Space,
    /// The space of the contract.
    pub contract_space: Space,
}

/// What becomes of the balance of a destroyed contract.
#[derive(Clone, Copy, Debug, PartialEq, Eq, Structural)]
pub enum Settlement {
    /// The balance is burnt and taken off the total issued; `evm_tokens`
    /// says whether it is also taken off the total of the Ethereum space.
    Burn { evm_tokens: bool },
    /// The balance moves to the refund address.
    Refund,
    /// The balance stays where it is.
    Keep,
}

/// What the node is to do for a destroyed contract.
#[derive(Clone, Copy, Debug, PartialEq, Eq, Structural)]
pub struct SuicidePlan {
    /// Whether the contract is put among those to be killed.
    pub kill: bool,
    /// What becomes of its balance.
    pub settlement: Settlement,
}

impl SuicideFacts {
    /// Under CIP-151 a contract that was not created in the running
    /// transaction is not killed; only its balance moves.
    pub open spec fn soft(self) -> bool {
        self.cip151 && !(self.created_in_same_tx || self.creating_contract)
    }

    /// The balance is burnt when a contract that is killed refunds itself,
    /// and when the refund would go to an address of the native space that
    /// the node does not accept.
    pub open spec fn burns(self) -> bool {
        (self.refund_to_self && !self.soft()) || (!self.refund_address_valid
            && self.refund_space is Native)
    }

    /// The plan for these facts.
    pub open spec fn plan(self) -> SuicidePlan {
        SuicidePlan {
            kill: !self.soft(),
            settlement: if self.burns() {
                Settlement::Burn { evm_tokens: self.contract_space is Ethereum }
            } else if !self.refund_to_self {
                Settlement::Refund
            } else {
                Settlement::Keep
            },
        }
    }
}

/// Decides what is done for a contract that destroys itself or is
/// destroyed.
pub fn suicide(facts: &SuicideFacts) -> (plan: SuicidePlan)
    ensures
        plan == facts.plan(),
{
    let contract_create_in_same_tx = facts.created_in_same_tx || facts.creating_contract;
    let soft_suicide = facts.cip151 && !contract_create_in_same_tx;
    let refund_native = match facts.refund_space {
        Space::Native => true,
        Space::Ethereum => false,
    };
    let settlement = if (facts.refund_to_self && !soft_suicide) || (!facts.refund_address_valid
        && refund_native) {
        let evm_tokens = match facts.contract_space {
            Space::Native => false,
            Space::Ethereum => true,
        };
        Settlement::Burn { evm_tokens }
    } else if !facts.refund_to_self {
        Settlement::Refund
    } else {
        Settlement::Keep
    };
    SuicidePlan { kill: !soft_suicide, settlement }
}

/// A contract that is killed never keeps its balance, and a contract keeps
/// its balance only when it refunds itself without being killed.
pub proof fn lemma_kept_balance_is_soft_self_refund(facts: SuicideFacts)
    ensures
        facts.plan().settlement is Keep <==> facts.refund_to_self && facts.soft() && !facts.burns(),
        facts.plan().kill ==> !(facts.plan().settlement is Keep),
{
}

/// Whether an address may be made admin: a user account, or the null
/// address, which clears the admin.
pub fn available_admin_address(is_user_account: bool, is_null: bool) -> (available: bool)
    ensures
        available == (is_user_account || is_null),
{
    is_user_account || is_null
}

/// What has been read so far for a request to set a contract's admin. What
/// has not been read yet is `None`.
#[derive(Clone, Copy, Debug, PartialEq, Eq, Structural)]
pub struct SetAdminFacts {
    /// Whether the contract is being created by the running frame with
    /// admin control, and the new admin is the null address.
    pub clear_admin_in_create: bool,
    /// Whether the new admin may be made admin.
    pub new_admin_available: bool,
    /// Whether the address is that of a contract.
    pub is_contract: Option<bool>,
    /// Whether the contract exists in the state.
    pub exists: Option<bool>,
    /// Whether the requester is the contract's admin.
    pub admin_is_requester: Option<bool>,
}

/// What the node is to do next for a request to set a contract's admin.
#[derive(Clone, Copy, Debug, PartialEq, Eq, Structural)]
pub enum SetAdminStep {
    /// Read whether the address is that of a contract.
    AskIsContract,
    /// Read whether the contract exists.
    AskExists,
    /// Read the contract's admin.
    AskAdmin,
    /// Make the new admin the contract's admin.
    Grant,
    /// Leave the admin as it is.
    Leave,
}

impl SetAdminFacts {
    /// The request is granted when the address is an existing contract,
    /// the requester is its admin or the admin is being cleared during the
    /// contract's creation, and the new admin may be made admin.
    pub open spec fn granted(self) -> bool {
        &&& self.is_contract == Some(true)
        &&& self.exists == Some(true)
        &&& self.admin_is_requester is Some
        &&& (self.admin_is_requester == Some(true) || self.clear_admin_in_create)
        &&& self.new_admin_available
    }

    /// The next step: the first reading that is missing, as long as the
    /// readings before it leave the request open; else to set or to leave.
    pub open spec fn step(self) -> SetAdminStep {
        if self.is_contract is None {
            SetAdminStep::AskIsContract
        } else if self.is_contract == Some(false) {
            SetAdminStep::Leave
        } else if self.exists is None {
            SetAdminStep::AskExists
        } else if self.exists == Some(false) {
            SetAdminStep::Leave
        } else if self.admin_is_requester is None {
            SetAdminStep::AskAdmin
        } else if self.granted() {
            SetAdminStep::Grant
        } else {
            SetAdminStep::Leave
        }
    }
}

/// Decides the next step for a request to set a contract's admin.
pub fn set_admin(facts: &SetAdminFacts) -> (step: SetAdminStep)
    ensures
        step == facts.step(),
        step is Grant <==> facts.granted(),
{
    match facts.is_contract {
        None => SetAdminStep::AskIsContract,
        Some(false) => SetAdminStep::Leave,
        Some(true) => match facts.exists {
            None => SetAdminStep::AskExists,
            Some(false) => SetAdminStep::Leave,
            Some(true) => match facts.admin_is_requester {
                None => SetAdminStep::AskAdmin,
                Some(is_requester) => {
                    if (is_requester || facts.clear_admin_in_create)
                        && facts.new_admin_available {
                        SetAdminStep::Grant
                    } else {
                        SetAdminStep::Leave
                    }
                },
            },
        },
    }
}

/// What has been read so far for a request to destroy a contract.
#[derive(Clone, Copy, Debug, PartialEq, Eq, Structural)]
pub struct DestroyFacts {
    /// Whether the requester is the contract's admin.
    pub admin_is_requester: bool,
    /// Whether contracts may only be killed in the transaction that created
    /// them (CIP-151).
    pub cip151: bool,
    /// Whether the contract is still being created.
    pub creating_contract: bool,
    /// Whether the admin is the contract itself.
    pub admin_is_contract: bool,
    /// Whether the admin's address is one that the node accepts.
    pub admin_address_valid: bool,
    /// Whether the state records the contract as created in the running
    /// transaction; `None` until it has been read.
    pub created_in_same_tx: Option<bool>,
}

/// What the node is to do next for a request to destroy a contract.
#[derive(Clone, Copy, Debug, PartialEq, Eq, Structural)]
pub enum DestroyStep {
    /// Leave the contract as it is.
    Leave,
    /// Read whether the contract was created in the running transaction.
    AskCreatedInSameTx,
    /// Destroy the contract after this plan.
    Carry(SuicidePlan),
}

impl DestroyFacts {
    /// The facts of the destruction that a granted request leads to: a
    /// contract of the native space that refunds its admin.
    pub open spec fn suicide_facts(self) -> SuicideFacts
        recommends
            self.created_in_same_tx is Some,
    {
        SuicideFacts {
            cip151: self.cip151,
            created_in_same_tx: self.created_in_same_tx->0,
            creating_contract: self.creating_contract,
            refund_to_self: self.admin_is_contract,
            refund_address_valid: self.admin_address_valid,
            refund_space: Space::Native,
            contract_space: Space::Native,
        }
    }

    /// The next step: nothing for a requester who is not the admin; else
    /// the missing reading, or the plan.
    pub open spec fn step(self) -> DestroyStep {
        if !self.admin_is_requester {
            DestroyStep::Leave
        } else if self.created_in_same_tx is None {
            DestroyStep::AskCreatedInSameTx
        } else {
            DestroyStep::Carry(self.suicide_facts().plan())
        }
    }
}

/// Decides the next step for a request to destroy a contract: only the
/// contract's admin may destroy it, and the balance then goes to the admin.
pub fn destroy(facts: &DestroyFacts) -> (step: DestroyStep)
    ensures
        step == facts.step(),
        step is Leave <==> !facts.admin_is_requester,
        step matches DestroyStep::Carry(plan) ==> !(plan.settlement matches Settlement::Burn {
            evm_tokens: true,
        }),
{
    if !facts.admin_is_requester {
        return DestroyStep::Leave;
    }
    match facts.created_in_same_tx {
        None => DestroyStep::AskCreatedInSameTx,
        Some(created_in_same_tx) => {
            let suicide_facts = SuicideFacts {
                cip151: facts.cip151,
                created_in_same_tx,
                creating_contract: facts.creating_contract,
                refund_to_self: facts.admin_is_contract,
                refund_address_valid: facts.admin_address_valid,
                refund_space: Space::Native,
                contract_space: Space::Native,
            };
            DestroyStep::Carry(suicide(&suicide_facts))
        },
    }
}

} // verus!
