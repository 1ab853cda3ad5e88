//! The rules by which a transaction builder picks its inputs: which addresses take part,
//! which available inputs can be used at all, the requirements that outputs, burns and
//! selected inputs impose, and how each requirement is fulfilled.

use vstd::prelude::*;

use crate::address_options::addresses_view;
use crate::amount::{inputs_view, outputs_view};
use crate::token_amount::TokenAmount;
use crate::amounts::{lookup, AddressAmounts};
use crate::burn::{ids_view, Burn};
use crate::ledger::{
    is_null_id, Address, AddressKind, AddressV, Bip44, CommittableAgeRange, Id, InputSigningData, InputV, Output,
    OutputId, OutputIdV, OutputKind, OutputV,
};
use crate::ordered_inputs::{dependents_address, dependents_address_exec, OrderedInputs, OrderedInputsV};
use crate::requirement::{
    is_account_with_id, is_delegation_with_id, is_nft_with_id, spec_is_account_with_id, Requirement,
    RequirementV,
};

verus! {

/// The address under which a given address takes part in the selection: the Ed25519
/// address that backs it, if any.
pub open spec fn selection_address(a: AddressV) -> AddressV {
    match a.backing_ed25519() {
        Some(h) => AddressV::ed25519(h),
        None => a,
    }
}

/// The addresses that take part in the selection: the given ones, each by its selection
/// address, and the account and nft addresses of the available inputs.
pub open spec fn selection_address_set(given: Seq<AddressV>, inputs: Seq<InputV>) -> Set<AddressV> {
    Set::new(
        |a: AddressV|
            (exists|i: int| 0 <= i < given.len() && a == selection_address(#[trigger] given[i]))
                || (exists|j: int|
                0 <= j < inputs.len() && dependents_address(#[trigger] inputs[j]) == Some(a)),
    )
}

/// Whether the list `s` holds `a`.
fn contains_address(s: &Vec<Address>, a: &Address) -> (r: bool)
    ensures
        r == addresses_view(s@).contains(a@),
{
    let mut i: usize = 0;
    while i < s.len()
        invariant
            i <= s@.len(),
            forall|j: int| 0 <= j < i ==> s@[j]@ != a@,
        decreases s@.len() - i,
    {
        if s[i].same(a) {
            assert(addresses_view(s@)[i as int] == a@);
            return true;
        }
        i = i + 1;
    }
    proof {
        if addresses_view(s@).contains(a@) {
            let j = choose|j: int| 0 <= j < s@.len() && addresses_view(s@)[j] == a@;
            assert(s@[j]@ == a@);
        }
    }
    false
}

/// The addresses that take part in the selection, each as often as it is found.
pub fn selection_addresses(given: &Vec<Address>, inputs: &Vec<InputSigningData>) -> (r: Vec<Address>)
    ensures
        addresses_view(r@).to_set() == selection_address_set(
            addresses_view(given@),
            inputs_view(inputs@),
        ),
{
    let ghost g = addresses_view(given@);
    let ghost xs = inputs_view(inputs@);
    let mut r: Vec<Address> = Vec::new();
    let mut i: usize = 0;
    while i < given.len()
        invariant
            i <= given@.len(),
            g == addresses_view(given@),
            forall|a: AddressV|
                addresses_view(r@).contains(a) <==> exists|k: int|
                    0 <= k < i && a == selection_address(#[trigger] g[k]),
        decreases given@.len() - i,
    {
        let a = match given[i].backing_ed25519() {
            Some(e) => e,
            None => given[i].clone(),
        };
        let ghost before = addresses_view(r@);
        r.push(a);
        proof {
            assert(addresses_view(r@) =~= before.push(a@));
            assert(a@ == selection_address(g[i as int]));
            assert forall|b: AddressV| addresses_view(r@).contains(b) <==> exists|k: int|
                0 <= k < i + 1 && b == selection_address(#[trigger] g[k]) by {
                if addresses_view(r@).contains(b) {
                    let m = choose|m: int| 0 <= m < addresses_view(r@).len() && addresses_view(r@)[m] == b;
                    if m < before.len() {
                        assert(before[m] == b);
                        assert(before.contains(b));
                    }
                }
                if exists|k: int| 0 <= k < i + 1 && b == selection_address(#[trigger] g[k]) {
                    let k = choose|k: int| 0 <= k < i + 1 && b == selection_address(#[trigger] g[k]);
                    if k < i {
                        assert(before.contains(b));
                        let m = choose|m: int| 0 <= m < before.len() && before[m] == b;
                        assert(addresses_view(r@)[m] == b);
                    } else {
                        assert(addresses_view(r@)[before.len() as int] == b);
                    }
                }
            }
        }
        i = i + 1;
    }
    let mut j: usize = 0;
    while j < inputs.len()
        invariant
            j <= inputs@.len(),
            g == addresses_view(given@),
            xs == inputs_view(inputs@),
            forall|a: AddressV|
                addresses_view(r@).contains(a) <==> ((exists|k: int|
                    0 <= k < g.len() && a == selection_address(#[trigger] g[k])) || (exists|l: int|
                    0 <= l < j && dependents_address(#[trigger] xs[l]) == Some(a))),
        decreases inputs@.len() - j,
    {
        match dependents_address_exec(&inputs[j]) {
            Some(d) => {
                let ghost before = addresses_view(r@);
                r.push(d);
                proof {
                    assert(addresses_view(r@) =~= before.push(d@));
                    assert(dependents_address(xs[j as int]) == Some(d@));
                    assert forall|b: AddressV| addresses_view(r@).contains(b) <==> ((exists|k: int|
                        0 <= k < g.len() && b == selection_address(#[trigger] g[k])) || (exists|l: int|
                        0 <= l < j + 1 && dependents_address(#[trigger] xs[l]) == Some(b))) by {
                        if addresses_view(r@).contains(b) {
                            let m = choose|m: int|
                                0 <= m < addresses_view(r@).len() && addresses_view(r@)[m] == b;
                            if m < before.len() {
                                assert(before[m] == b);
                                assert(before.contains(b));
                            }
                        }
                        if exists|l: int| 0 <= l < j + 1 && dependents_address(#[trigger] xs[l]) == Some(b) {
                            let l = choose|l: int|
                                0 <= l < j + 1 && dependents_address(#[trigger] xs[l]) == Some(b);
                            if l < j {
                                assert(before.contains(b));
                                let m = choose|m: int| 0 <= m < before.len() && before[m] == b;
                                assert(addresses_view(r@)[m] == b);
                            } else {
                                assert(addresses_view(r@)[before.len() as int] == b);
                            }
                        }
                        if exists|k: int| 0 <= k < g.len() && b == selection_address(#[trigger] g[k]) {
                            assert(before.contains(b));
                            let m = choose|m: int| 0 <= m < before.len() && before[m] == b;
                            assert(addresses_view(r@)[m] == b);
                        }
                    }
                }
            },
            None => {
                proof {
                    assert(dependents_address(xs[j as int]) is None);
                    assert forall|b: AddressV| addresses_view(r@).contains(b) <==> ((exists|k: int|
                        0 <= k < g.len() && b == selection_address(#[trigger] g[k])) || (exists|l: int|
                        0 <= l < j + 1 && dependents_address(#[trigger] xs[l]) == Some(b))) by {
                        if exists|l: int| 0 <= l < j + 1 && dependents_address(#[trigger] xs[l]) == Some(b) {
                            let l = choose|l: int|
                                0 <= l < j + 1 && dependents_address(#[trigger] xs[l]) == Some(b);
                            assert(l < j);
                        }
                    }
                }
            },
        }
        j = j + 1;
    }
    proof {
        let set = selection_address_set(g, xs);
        assert forall|a: AddressV| addresses_view(r@).to_set().contains(a) <==> set.contains(a) by {}
        assert(addresses_view(r@).to_set() =~= set);
    }
    r
}

/// Whether an available input can take part in the selection: a basic, account, foundry
/// or nft output that no timelock holds, whose unlocking address is known and is one of
/// the addresses (an implicit account only where the input is required, through its
/// Ed25519 address); or a delegation output that is to be burned.
pub open spec fn keeps_input(
    x: InputV,
    addresses: Set<AddressV>,
    required: Set<OutputIdV>,
    burn_delegations: Option<Set<Seq<u8>>>,
    slot: u32,
    min_committable_age: u32,
    range: CommittableAgeRange,
) -> bool {
    let o = x.output;
    if !(o.kind == OutputKind::Basic || o.kind == OutputKind::Account || o.kind == OutputKind::Foundry
        || o.kind == OutputKind::Nft) {
        o.kind == OutputKind::Delegation && (burn_delegations matches Some(d) && d.contains(
            o.chain_id_non_null(x.output_id),
        ))
    } else if o.is_timelocked(slot, min_committable_age) {
        false
    } else {
        match o.required_address(slot, range) {
            None => false,
            Some(a) => {
                let a = a.inner();
                match a.kind {
                    AddressKind::Anchor => false,
                    AddressKind::ImplicitAccountCreation => required.contains(x.output_id)
                        && addresses.contains(AddressV::ed25519(a.id)),
                    _ => addresses.contains(a),
                }
            },
        }
    }
}

/// The inputs of `s` that `keeps_input` keeps, in order.
pub open spec fn kept_inputs(
    s: Seq<InputV>,
    addresses: Set<AddressV>,
    required: Set<OutputIdV>,
    burn_delegations: Option<Set<Seq<u8>>>,
    slot: u32,
    min_committable_age: u32,
    range: CommittableAgeRange,
) -> Seq<InputV>
    decreases s.len(),
{
    if s.len() == 0 {
        Seq::empty()
    } else {
        let rest = kept_inputs(
            s.drop_last(),
            addresses,
            required,
            burn_delegations,
            slot,
            min_committable_age,
            range,
        );
        if keeps_input(
            s.last(),
            addresses,
            required,
            burn_delegations,
            slot,
            min_committable_age,
            range,
        ) {
            rest.push(s.last())
        } else {
            rest
        }
    }
}

/// The values of a list of output ids.
pub open spec fn output_ids_view(s: Seq<OutputId>) -> Seq<OutputIdV> {
    s.map_values(|o: OutputId| o@)
}

/// Whether the list `s` holds `id`.
pub(crate) fn contains_output_id(s: &Vec<OutputId>, id: &OutputId) -> (r: bool)
    ensures
        r == output_ids_view(s@).contains(id@),
{
    let mut i: usize = 0;
    while i < s.len()
        invariant
            i <= s@.len(),
            forall|j: int| 0 <= j < i ==> s@[j]@ != id@,
        decreases s@.len() - i,
    {
        if s[i].same(id) {
            assert(output_ids_view(s@)[i as int] == id@);
            return true;
        }
        i = i + 1;
    }
    proof {
        if output_ids_view(s@).contains(id@) {
            let j = choose|j: int| 0 <= j < s@.len() && output_ids_view(s@)[j] == id@;
            assert(s@[j]@ == id@);
        }
    }
    false
}

/// Whether the list `s` holds the identifier `id`.
pub(crate) fn contains_id(s: &Vec<Id>, id: &Id) -> (r: bool)
    ensures
        r == ids_view(s@).contains(id@),
{
    let mut i: usize = 0;
    while i < s.len()
        invariant
            i <= s@.len(),
            forall|j: int| 0 <= j < i ==> s@[j]@ != id@,
        decreases s@.len() - i,
    {
        if s[i].same(id) {
            assert(ids_view(s@)[i as int] == id@);
            return true;
        }
        i = i + 1;
    }
    proof {
        if ids_view(s@).contains(id@) {
            let j = choose|j: int| 0 <= j < s@.len() && ids_view(s@)[j] == id@;
            assert(s@[j]@ == id@);
        }
    }
    false
}

/// The delegations that a burn burns, if there is a burn.
pub open spec fn burn_delegations(burn: Option<Burn>) -> Option<Set<Seq<u8>>> {
    match burn {
        Some(b) => Some(b@.delegations),
        None => None,
    }
}

/// Decides `keeps_input`.
fn keeps_input_exec(
    x: &InputSigningData,
    addresses: &Vec<Address>,
    required: &Vec<OutputId>,
    burn: &Option<Burn>,
    slot: u32,
    min_committable_age: u32,
    range: CommittableAgeRange,
) -> (r: bool)
    ensures
        r == keeps_input(
            x@,
            addresses_view(addresses@).to_set(),
            output_ids_view(required@).to_set(),
            burn_delegations(*burn),
            slot,
            min_committable_age,
            range,
        ),
{
    let o = &x.output;
    if !(o.kind == OutputKind::Basic || o.kind == OutputKind::Account || o.kind == OutputKind::Foundry
        || o.kind == OutputKind::Nft) {
        if o.kind == OutputKind::Delegation {
            match burn {
                Some(b) => {
                    let id = o.chain_id_non_null_exec(&x.output_id);
                    return contains_id(b.delegations(), &id);
                },
                None => {},
            }
        }
        return false;
    }
    if o.is_timelocked_at(slot, min_committable_age) {
        return false;
    }
    match o.required_address_at(slot, range) {
        None => false,
        Some(a) => {
            let a = a.inner();
            match a.kind {
                AddressKind::Anchor => false,
                AddressKind::ImplicitAccountCreation => {
                    let e = Address::new(AddressKind::Ed25519, a.id.clone());
                    contains_output_id(required, &x.output_id) && contains_address(addresses, &e)
                },
                _ => contains_address(addresses, &a),
            }
        },
    }
}

/// Keeps the available inputs that can take part in the selection, in their order.
pub fn filter_inputs(
    inputs: Vec<InputSigningData>,
    addresses: &Vec<Address>,
    required: &Vec<OutputId>,
    burn: &Option<Burn>,
    slot: u32,
    min_committable_age: u32,
    range: CommittableAgeRange,
) -> (r: Vec<InputSigningData>)
    ensures
        inputs_view(r@) == kept_inputs(
            inputs_view(inputs@),
            addresses_view(addresses@).to_set(),
            output_ids_view(required@).to_set(),
            burn_delegations(*burn),
            slot,
            min_committable_age,
            range,
        ),
{
    let ghost all = inputs_view(inputs@);
    let ghost aset = addresses_view(addresses@).to_set();
    let ghost rset = output_ids_view(required@).to_set();
    let ghost bd = burn_delegations(*burn);
    let mut r: Vec<InputSigningData> = Vec::new();
    let mut src = inputs;
    let n = src.len();
    let mut i: usize = 0;
    assert(all.take(0) =~= Seq::<InputV>::empty());
    assert(inputs_view(r@) =~= Seq::<InputV>::empty());
    while src.len() > 0
        invariant
            src@.len() + i == n,
            n == all.len(),
            inputs_view(src@) =~= all.subrange(i as int, n as int),
            inputs_view(r@) == kept_inputs(all.take(i as int), aset, rset, bd, slot, min_committable_age, range),
            aset == addresses_view(addresses@).to_set(),
            rset == output_ids_view(required@).to_set(),
            bd == burn_delegations(*burn),
        decreases src@.len(),
    {
        let ghost before = inputs_view(src@);
        let x = src.remove(0);
        proof {
            assert(before[0] == x@);
            assert(inputs_view(src@) =~= before.drop_first());
            assert(all.take(i + 1).drop_last() =~= all.take(i as int));
            assert(all.take(i + 1).last() == all[i as int]);
            assert(all[i as int] == x@);
        }
        let ghost kept = inputs_view(r@);
        if keeps_input_exec(&x, addresses, required, burn, slot, min_committable_age, range) {
            r.push(x);
            assert(inputs_view(r@) =~= kept.push(all[i as int]));
        }
        i = i + 1;
        assert(inputs_view(src@) =~= all.subrange(i as int, n as int));
    }
    assert(all.take(i as int) =~= all);
    r
}

/// The errors of input selection.
#[derive(Debug)]
pub enum SelectionError {
    /// A chain is both burned and transitioned.
    BurnAndTransition(Id),
    /// No available input fulfils the requirement.
    UnfulfillableRequirement(Requirement),
    /// A required input is not among the available inputs.
    RequiredInputIsNotAvailable(OutputId),
    /// An address of this kind cannot be asked for as a sender.
    UnsupportedAddressType(AddressKind),
    /// Selecting one more input would pass the number of inputs a transaction can have.
    InvalidInputCount(usize),
    /// The available inputs do not hold enough of a native token.
    InsufficientNativeTokenAmount { token_id: Id, found: TokenAmount, required: TokenAmount },
    /// An input can only be unlocked through an address that no earlier input unlocks and
    /// that no signature can unlock.
    MissingInputWithEd25519Address,
    /// The block layer supports no unlock by an address of this kind.
    UnsupportedAddressKind(AddressKind),
    /// The account is asked to begin staking while it stakes already.
    AlreadyStaking(Id),
    /// The account is asked to extend or end a staking that it does not have.
    NotStaking(Id),
    /// A renewed staking would last fewer epochs than the staking unbonding period.
    StakingPeriodLessThanMin { additional_epochs: u32, min: u32 },
    /// The account is asked to change block issuer keys that it does not have.
    MissingBlockIssuerFeature(Id),
    /// An output that does not create an implicit account is asked to become an account.
    TransitionNonImplicitAccount(OutputId),
    /// An output holds less than the storage deposit it needs.
    InsufficientStorageDepositAmount { amount: u64, required: u64 },
    /// The number of outputs is outside the range a transaction allows.
    InvalidOutputCount(usize),
    /// Mana rewards are given for an output that no selected input spends.
    ExtraManaRewards(OutputId),
    /// No available input was provided.
    NoAvailableInputsProvided,
    /// The inputs bring less mana than the outputs need; the slots until enough is generated.
    InsufficientMana { found: u64, required: u64, slots_remaining: u32 },
    /// The inputs bring less amount than the outputs need.
    InsufficientAmount { found: u64, required: u64 },
    /// The finished transaction fails semantic validation.
    Semantic(TransactionFailure),
    /// The requirement needs more inputs, but selecting more inputs is disabled.
    AdditionalInputsRequired(Requirement),
}

/// Why a finished transaction fails semantic validation.
#[derive(Debug, Clone, Copy, PartialEq, Eq, Structural)]
pub enum TransactionFailure {
    /// The outputs do not hold the amount that the inputs bring.
    InputOutputBaseTokenMismatch,
    /// The outputs and allotments take more mana than the inputs bring.
    InputOutputManaMismatch,
    /// Mana is left over while the transaction may not burn mana.
    CapabilitiesManaBurningNotAllowed,
}

/// The value of a selection error.
pub enum SelectionErrorV {
    BurnAndTransition(Seq<u8>),
    UnfulfillableRequirement(RequirementV),
    RequiredInputIsNotAvailable(OutputIdV),
    UnsupportedAddressType(AddressKind),
    InvalidInputCount(nat),
    InsufficientNativeTokenAmount { token_id: Seq<u8>, found: nat, required: nat },
    MissingInputWithEd25519Address,
    UnsupportedAddressKind(AddressKind),
    AlreadyStaking(Seq<u8>),
    NotStaking(Seq<u8>),
    StakingPeriodLessThanMin { additional_epochs: u32, min: u32 },
    MissingBlockIssuerFeature(Seq<u8>),
    TransitionNonImplicitAccount(OutputIdV),
    InsufficientStorageDepositAmount { amount: u64, required: u64 },
    InvalidOutputCount(nat),
    ExtraManaRewards(OutputIdV),
    NoAvailableInputsProvided,
    InsufficientMana { found: u64, required: u64, slots_remaining: u32 },
    InsufficientAmount { found: u64, required: u64 },
    Semantic(TransactionFailure),
    AdditionalInputsRequired(RequirementV),
}

impl View for SelectionError {
    type V = SelectionErrorV;

    open spec fn view(&self) -> SelectionErrorV {
        match self {
            SelectionError::BurnAndTransition(id) => SelectionErrorV::BurnAndTransition(id@),
            SelectionError::UnfulfillableRequirement(r) => SelectionErrorV::UnfulfillableRequirement(r@),
            SelectionError::RequiredInputIsNotAvailable(o) => SelectionErrorV::RequiredInputIsNotAvailable(
                o@,
            ),
            SelectionError::UnsupportedAddressType(k) => SelectionErrorV::UnsupportedAddressType(*k),
            SelectionError::InvalidInputCount(n) => SelectionErrorV::InvalidInputCount(*n as nat),
            SelectionError::InsufficientNativeTokenAmount { token_id, found, required } =>
                SelectionErrorV::InsufficientNativeTokenAmount {
                token_id: token_id@,
                found: found@,
                required: required@,
            },
            SelectionError::MissingInputWithEd25519Address => SelectionErrorV::MissingInputWithEd25519Address,
            SelectionError::UnsupportedAddressKind(k) => SelectionErrorV::UnsupportedAddressKind(*k),
            SelectionError::AlreadyStaking(id) => SelectionErrorV::AlreadyStaking(id@),
            SelectionError::NotStaking(id) => SelectionErrorV::NotStaking(id@),
            SelectionError::StakingPeriodLessThanMin { additional_epochs, min } =>
                SelectionErrorV::StakingPeriodLessThanMin {
                additional_epochs: *additional_epochs,
                min: *min,
            },
            SelectionError::MissingBlockIssuerFeature(id) => SelectionErrorV::MissingBlockIssuerFeature(id@),
            SelectionError::TransitionNonImplicitAccount(o) => SelectionErrorV::TransitionNonImplicitAccount(o@),
            SelectionError::InsufficientStorageDepositAmount { amount, required } =>
                SelectionErrorV::InsufficientStorageDepositAmount { amount: *amount, required: *required },
            SelectionError::InvalidOutputCount(n) => SelectionErrorV::InvalidOutputCount(*n as nat),
            SelectionError::ExtraManaRewards(o) => SelectionErrorV::ExtraManaRewards(o@),
            SelectionError::NoAvailableInputsProvided => SelectionErrorV::NoAvailableInputsProvided,
            SelectionError::InsufficientMana { found, required, slots_remaining } =>
                SelectionErrorV::InsufficientMana {
                found: *found,
                required: *required,
                slots_remaining: *slots_remaining,
            },
            SelectionError::InsufficientAmount { found, required } =>
                SelectionErrorV::InsufficientAmount { found: *found, required: *required },
            SelectionError::Semantic(f) => SelectionErrorV::Semantic(*f),
            SelectionError::AdditionalInputsRequired(q) => SelectionErrorV::AdditionalInputsRequired(q@),
        }
    }
}

/// The values of a list of requirements.
pub open spec fn requirements_view(s: Seq<Requirement>) -> Seq<RequirementV> {
    s.map_values(|r: Requirement| r@)
}

/// Whether every input has an address that unlocks it at `slot`.
pub open spec fn all_unlockable(s: Seq<InputV>, slot: u32, range: CommittableAgeRange) -> bool {
    forall|i: int| 0 <= i < s.len() ==> (#[trigger] s[i]).output.required_address(slot, range) is Some
}

/// The requirement that selecting `x` adds: the account or nft whose address unlocks it.
pub open spec fn input_requirement(x: InputV, slot: u32, range: CommittableAgeRange) -> Option<
    RequirementV,
> {
    let a = x.output.required_address(slot, range)->0.inner();
    match a.kind {
        AddressKind::Account => Some(RequirementV::Account(a.id)),
        AddressKind::Nft => Some(RequirementV::Nft(a.id)),
        _ => None,
    }
}

/// The requirement that selecting `input` adds: the account or nft whose address unlocks
/// it, if it is unlocked through one.
pub fn required_account_nft_addresses(
    input: &InputSigningData,
    slot: u32,
    range: CommittableAgeRange,
) -> (r: Option<Requirement>)
    requires
        input@.output.required_address(slot, range) is Some,
    ensures
        match input_requirement(input@, slot, range) {
            Some(q) => r matches Some(x) && x@ == q,
            None => r is None,
        },
{
    match input.output.required_address_at(slot, range) {
        Some(a) => {
            let a = a.inner();
            match a.kind {
                AddressKind::Account => Some(Requirement::Account(a.id)),
                AddressKind::Nft => Some(Requirement::Nft(a.id)),
                _ => None,
            }
        },
        None => None,
    }
}

/// The most inputs a transaction can have.
pub const INPUT_COUNT_MAX: usize = 128;

/// The most outputs a transaction can have.
pub const OUTPUT_COUNT_MAX: usize = 128;

/// Selects `input`: stores it with the address that unlocks it, and adds the requirement
/// of the account or nft through which it is unlocked. Refused once the transaction has
/// as many inputs as it can have.
pub fn select_input(
    selected: &mut OrderedInputs,
    requirements: &mut Vec<Requirement>,
    input: InputSigningData,
    slot: u32,
    range: CommittableAgeRange,
) -> (r: Result<(), SelectionError>)
    requires
        old(selected)@.wf(),
        old(selected)@.len <= INPUT_COUNT_MAX,
        input@.output.required_address(slot, range) is Some,
    ensures
        final(selected)@.wf(),
        final(selected)@.len <= INPUT_COUNT_MAX,
        old(selected)@.len >= INPUT_COUNT_MAX ==> (r matches Err(e) && e@
            == SelectionErrorV::InvalidInputCount(old(selected)@.len + 1)
            && final(selected)@ == old(selected)@ && final(requirements)@ == old(requirements)@),
        old(selected)@.len < INPUT_COUNT_MAX ==> (r is Ok && final(selected)@ == old(selected)@.insert(
            input@.output.required_address(slot, range)->0,
            input@,
        ) && requirements_view(final(requirements)@) == requirements_view(old(requirements)@) + match input_requirement(input@, slot, range) {
            Some(q) => seq![q],
            None => Seq::empty(),
        }),
{
    if selected.len() >= INPUT_COUNT_MAX {
        return Err(SelectionError::InvalidInputCount(selected.len() + 1));
    }
    let ghost before = requirements_view(requirements@);
    match required_account_nft_addresses(&input, slot, range) {
        Some(q) => {
            requirements.push(q);
            assert(requirements_view(requirements@) =~= before + seq![input_requirement(input@, slot, range)->0]);
        },
        None => {
            assert(requirements_view(requirements@) =~= before + Seq::empty());
        },
    }
    match input.output.required_address_at(slot, range) {
        Some(a) => {
            selected.insert(a, input);
        },
        None => {},
    }
    Ok(())
}

/// The first position at which `s` holds an element that `p` accepts.
pub open spec fn first_where<A>(s: Seq<A>, p: spec_fn(A) -> bool) -> Option<int>
    decreases s.len(),
{
    if s.len() == 0 {
        None
    } else if p(s[0]) {
        Some(0)
    } else {
        match first_where(s.drop_first(), p) {
            Some(i) => Some(i + 1),
            None => None,
        }
    }
}

/// `first_where` finds the first accepted element, or nothing where none is accepted.
pub proof fn lemma_first_where<A>(s: Seq<A>, p: spec_fn(A) -> bool)
    ensures
        match first_where(s, p) {
            Some(i) => 0 <= i < s.len() && p(s[i]) && forall|j: int| 0 <= j < i ==> !p(#[trigger] s[j]),
            None => forall|j: int| 0 <= j < s.len() ==> !p(#[trigger] s[j]),
        },
    decreases s.len(),
{
    if s.len() > 0 && !p(s[0]) {
        lemma_first_where(s.drop_first(), p);
        assert forall|j: int| 1 <= j < s.len() implies s[j] == s.drop_first()[j - 1] by {}
    }
}

/// An accepted element with no accepted element before it is the first one.
pub proof fn lemma_first_where_unique<A>(s: Seq<A>, p: spec_fn(A) -> bool, i: int)
    requires
        0 <= i < s.len(),
        p(s[i]),
        forall|j: int| 0 <= j < i ==> !p(#[trigger] s[j]),
    ensures
        first_where(s, p) == Some(i),
{
    lemma_first_where(s, p);
    match first_where(s, p) {
        Some(k) => {
            if k < i {
                assert(!p(s[k]));
            } else if k > i {
                assert(!p(s[i]));
            }
        },
        None => {
            assert(!p(s[i]));
        },
    }
}

/// Whether `x` is unlocked by the Ed25519 address `a` itself.
pub open spec fn unlocks_address(x: InputV, a: AddressV, slot: u32, range: CommittableAgeRange) -> bool {
    x.output.required_address(slot, range) == Some(a)
}

/// Whether `x` is unlocked by the address `a` itself.
pub open spec fn unlocked_by(a: AddressV, slot: u32, range: CommittableAgeRange) -> spec_fn(InputV) -> bool {
    |x: InputV| unlocks_address(x, a, slot, range)
}

/// Whether some input of `s` is one that `p` accepts.
pub open spec fn already_by(s: Seq<InputV>, p: spec_fn(InputV) -> bool) -> bool {
    exists|i: int| 0 <= i < s.len() && p(#[trigger] s[i])
}

/// Whether the Ed25519 key hash of `a` backs the address that unlocks `x`.
pub open spec fn has_ed25519_address(x: InputV, a: AddressV, slot: u32, range: CommittableAgeRange) -> bool {
    x.output.required_address(slot, range) matches Some(r) && r.backing_ed25519() == Some(a.id)
}

/// Whether `x` is a basic output whose unlocking address the key hash of `a` backs.
pub open spec fn basic_backed_by(a: AddressV, slot: u32, range: CommittableAgeRange) -> spec_fn(InputV) -> bool {
    |x: InputV| x.output.kind == OutputKind::Basic && has_ed25519_address(x, a, slot, range)
}

/// Whether `x` is another output whose unlocking address the key hash of `a` backs.
pub open spec fn other_backed_by(a: AddressV, slot: u32, range: CommittableAgeRange) -> spec_fn(InputV) -> bool {
    |x: InputV| x.output.kind != OutputKind::Basic && has_ed25519_address(x, a, slot, range)
}

/// The available input that fulfils an Ed25519 requirement: the first basic output that
/// the address backs, or else the first other output that it backs.
pub open spec fn ed25519_pick(s: Seq<InputV>, a: AddressV, slot: u32, range: CommittableAgeRange) -> Option<int> {
    match first_where(s, basic_backed_by(a, slot, range)) {
        Some(i) => Some(i),
        None => first_where(s, other_backed_by(a, slot, range)),
    }
}

/// The available inputs after the one at `i` is taken: the last one takes its place.
pub open spec fn take_at(s: Seq<InputV>, i: int) -> Seq<InputV> {
    s.update(i, s.last()).drop_last()
}

/// How a requirement that picks one available input ends: nothing to do where a selected
/// input fulfils it already; else the picked input, taken from the available ones; else
/// the error `e`.
pub open spec fn fulfil_outcome(
    already: bool,
    pick: Option<int>,
    avail: Seq<InputV>,
    e: SelectionErrorV,
    r: Result<Seq<InputV>, SelectionErrorV>,
    avail_after: Seq<InputV>,
) -> bool {
    if already {
        r == Ok::<Seq<InputV>, SelectionErrorV>(Seq::empty()) && avail_after == avail
    } else {
        match pick {
            Some(i) => r == Ok::<Seq<InputV>, SelectionErrorV>(seq![avail[i]]) && avail_after == take_at(avail, i),
            None => r == Err::<Seq<InputV>, SelectionErrorV>(e) && avail_after == avail,
        }
    }
}

/// The result of a fulfilment, by value.
pub open spec fn fulfil_view(r: Result<Vec<InputSigningData>, SelectionError>) -> Result<Seq<InputV>, SelectionErrorV> {
    match r {
        Ok(v) => Ok(inputs_view(v@)),
        Err(e) => Err(e@),
    }
}

/// Takes the available input at `i` and returns it alone.
fn take_input(available: &mut Vec<InputSigningData>, i: usize) -> (r: Vec<InputSigningData>)
    requires
        i < old(available)@.len(),
    ensures
        inputs_view(r@) == seq![inputs_view(old(available)@)[i as int]],
        inputs_view(final(available)@) == take_at(inputs_view(old(available)@), i as int),
{
    let ghost s0 = available@;
    let x = available.swap_remove(i);
    let mut v: Vec<InputSigningData> = Vec::new();
    v.push(x);
    assert(inputs_view(v@) =~= seq![inputs_view(s0)[i as int]]);
    assert(inputs_view(available@) =~= take_at(inputs_view(s0), i as int));
    v
}

fn unlocks_address_exec(x: &InputSigningData, a: &Address, slot: u32, range: CommittableAgeRange) -> (r: bool)
    ensures
        r == unlocks_address(x@, a@, slot, range),
{
    match x.output.required_address_at(slot, range) {
        Some(b) => b.same(a),
        None => false,
    }
}

fn has_ed25519_address_exec(x: &InputSigningData, a: &Address, slot: u32, range: CommittableAgeRange) -> (r: bool)
    ensures
        r == has_ed25519_address(x@, a@, slot, range),
{
    match x.output.required_address_at(slot, range) {
        Some(b) => match b.backing_ed25519() {
            Some(e) => e.id.same(&a.id),
            None => false,
        },
        None => false,
    }
}

/// Fulfils an Ed25519 requirement: nothing to do where a selected input is unlocked by
/// the address; else the first available basic output whose unlocking address the key
/// hash backs, or else the first other such output.
pub fn fulfill_ed25519_requirement(
    available: &mut Vec<InputSigningData>,
    selected: &Vec<InputSigningData>,
    address: &Address,
    slot: u32,
    range: CommittableAgeRange,
) -> (r: Result<Vec<InputSigningData>, SelectionError>)
    ensures
        fulfil_outcome(
            already_by(inputs_view(selected@), unlocked_by(address@, slot, range)),
            ed25519_pick(inputs_view(old(available)@), address@, slot, range),
            inputs_view(old(available)@),
            SelectionErrorV::UnfulfillableRequirement(RequirementV::Ed25519(address@)),
            fulfil_view(r),
            inputs_view(final(available)@),
        ),
{
    let ghost sel = inputs_view(selected@);
    let ghost av = inputs_view(available@);
    let mut k: usize = 0;
    while k < selected.len()
        invariant
            k <= selected@.len(),
            sel == inputs_view(selected@),
            forall|j: int| 0 <= j < k ==> !unlocks_address(#[trigger] sel[j], address@, slot, range),
        decreases selected@.len() - k,
    {
        if unlocks_address_exec(&selected[k], address, slot, range) {
            assert(unlocked_by(address@, slot, range)(inputs_view(selected@)[k as int]));
            let none: Vec<InputSigningData> = Vec::new();
            assert(inputs_view(none@) =~= Seq::<InputV>::empty());
            return Ok(none);
        }
        k = k + 1;
    }
    let ghost pb = basic_backed_by(address@, slot, range);
    let ghost po = other_backed_by(address@, slot, range);
    let mut i: usize = 0;
    while i < available.len()
        invariant
            i <= available@.len(),
            av == inputs_view(available@),
            available@ == old(available)@,
            sel == inputs_view(selected@),
            forall|j: int| 0 <= j < selected@.len() ==> !unlocks_address(#[trigger] sel[j], address@, slot, range),
            pb == basic_backed_by(address@, slot, range),
            forall|j: int| 0 <= j < i ==> !pb(#[trigger] av[j]),
        decreases available@.len() - i,
    {
        if available[i].output.is_basic() && has_ed25519_address_exec(&available[i], address, slot, range) {
            proof {
                lemma_first_where_unique(av, pb, i as int);
                assert(ed25519_pick(av, address@, slot, range) == Some(i as int));
            }
            let v = take_input(available, i);
            assert(fulfil_view(Ok(v)) == Ok::<Seq<InputV>, SelectionErrorV>(seq![av[i as int]]));
            return Ok(v);
        }
        i = i + 1;
    }
    proof {
        lemma_first_where(av, pb);
    }
    let mut i: usize = 0;
    while i < available.len()
        invariant
            i <= available@.len(),
            av == inputs_view(available@),
            available@ == old(available)@,
            sel == inputs_view(selected@),
            forall|j: int| 0 <= j < selected@.len() ==> !unlocks_address(#[trigger] sel[j], address@, slot, range),
            po == other_backed_by(address@, slot, range),
            first_where(av, basic_backed_by(address@, slot, range)) is None,
            forall|j: int| 0 <= j < i ==> !po(#[trigger] av[j]),
        decreases available@.len() - i,
    {
        if !available[i].output.is_basic() && has_ed25519_address_exec(&available[i], address, slot, range) {
            proof {
                lemma_first_where_unique(av, po, i as int);
            }
            return Ok(take_input(available, i));
        }
        i = i + 1;
    }
    proof {
        lemma_first_where(av, po);
    }
    Err(SelectionError::UnfulfillableRequirement(Requirement::Ed25519(address.clone())))
}

/// Whether `x` is the account with id `id` (an account output, or a basic output that creates it as an implicit account).
pub open spec fn account_with(id: Seq<u8>) -> spec_fn(InputV) -> bool {
    |x: InputV| spec_is_account_with_id(x.output, id, x.output_id)
}

/// Fulfils a requirement for the account with id `id`: nothing to do where a selected input
/// is it; else the first available input that is it.
pub fn fulfill_account_requirement(
    available: &mut Vec<InputSigningData>,
    selected: &Vec<InputSigningData>,
    id: &Id,
) -> (r: Result<Vec<InputSigningData>, SelectionError>)
    ensures
        fulfil_outcome(
            already_by(inputs_view(selected@), account_with(id@)),
            first_where(inputs_view(old(available)@), account_with(id@)),
            inputs_view(old(available)@),
            SelectionErrorV::UnfulfillableRequirement(RequirementV::Account(id@)),
            fulfil_view(r),
            inputs_view(final(available)@),
        ),
{
    let ghost sel = inputs_view(selected@);
    let ghost av = inputs_view(available@);
    let ghost p = account_with(id@);
    let mut k: usize = 0;
    while k < selected.len()
        invariant
            k <= selected@.len(),
            sel == inputs_view(selected@),
            p == account_with(id@),
            forall|j: int| 0 <= j < k ==> !p(#[trigger] sel[j]),
        decreases selected@.len() - k,
    {
        if is_account_with_id(&selected[k].output, id, &selected[k].output_id) {
            assert(p(inputs_view(selected@)[k as int]));
            let none: Vec<InputSigningData> = Vec::new();
            assert(inputs_view(none@) =~= Seq::<InputV>::empty());
            return Ok(none);
        }
        k = k + 1;
    }
    let mut i: usize = 0;
    while i < available.len()
        invariant
            i <= available@.len(),
            av == inputs_view(available@),
            available@ == old(available)@,
            sel == inputs_view(selected@),
            p == account_with(id@),
            forall|j: int| 0 <= j < selected@.len() ==> !p(#[trigger] sel[j]),
            forall|j: int| 0 <= j < i ==> !p(#[trigger] av[j]),
        decreases available@.len() - i,
    {
        if is_account_with_id(&available[i].output, id, &available[i].output_id) {
            proof {
                lemma_first_where_unique(av, p, i as int);
            }
            return Ok(take_input(available, i));
        }
        i = i + 1;
    }
    proof {
        lemma_first_where(av, p);
    }
    Err(SelectionError::UnfulfillableRequirement(Requirement::Account(id.clone())))
}

/// Whether `x` is the nft with id `id`.
pub open spec fn nft_with(id: Seq<u8>) -> spec_fn(InputV) -> bool {
    |x: InputV| x.output.kind == OutputKind::Nft && x.output.chain_id_non_null(x.output_id) == id
}

/// Fulfils a requirement for the nft with id `id`: nothing to do where a selected input
/// is it; else, where selecting more inputs is disabled, the error that more are needed;
/// else the first available input that is it.
pub fn fulfill_nft_requirement(
    available: &mut Vec<InputSigningData>,
    selected: &Vec<InputSigningData>,
    id: &Id,
    allow_additional: bool,
) -> (r: Result<Vec<InputSigningData>, SelectionError>)
    ensures
        !allow_additional && !already_by(inputs_view(selected@), nft_with(id@)) ==> fulfil_view(r) == Err::<
            Seq<InputV>,
            SelectionErrorV,
        >(SelectionErrorV::AdditionalInputsRequired(RequirementV::Nft(id@))) && final(available)@ == old(
            available,
        )@,
        allow_additional || already_by(inputs_view(selected@), nft_with(id@)) ==> fulfil_outcome(
            already_by(inputs_view(selected@), nft_with(id@)),
            first_where(inputs_view(old(available)@), nft_with(id@)),
            inputs_view(old(available)@),
            SelectionErrorV::UnfulfillableRequirement(RequirementV::Nft(id@)),
            fulfil_view(r),
            inputs_view(final(available)@),
        ),
{
    let ghost sel = inputs_view(selected@);
    let ghost av = inputs_view(available@);
    let ghost p = nft_with(id@);
    let mut k: usize = 0;
    while k < selected.len()
        invariant
            k <= selected@.len(),
            sel == inputs_view(selected@),
            p == nft_with(id@),
            forall|j: int| 0 <= j < k ==> !p(#[trigger] sel[j]),
        decreases selected@.len() - k,
    {
        if is_nft_with_id(&selected[k].output, id, &selected[k].output_id) {
            assert(p(inputs_view(selected@)[k as int]));
            let none: Vec<InputSigningData> = Vec::new();
            assert(inputs_view(none@) =~= Seq::<InputV>::empty());
            return Ok(none);
        }
        k = k + 1;
    }
    if !allow_additional {
        return Err(SelectionError::AdditionalInputsRequired(Requirement::Nft(id.clone())));
    }
    let mut i: usize = 0;
    while i < available.len()
        invariant
            allow_additional,
            i <= available@.len(),
            av == inputs_view(available@),
            available@ == old(available)@,
            sel == inputs_view(selected@),
            p == nft_with(id@),
            forall|j: int| 0 <= j < selected@.len() ==> !p(#[trigger] sel[j]),
            forall|j: int| 0 <= j < i ==> !p(#[trigger] av[j]),
        decreases available@.len() - i,
    {
        if is_nft_with_id(&available[i].output, id, &available[i].output_id) {
            proof {
                lemma_first_where_unique(av, p, i as int);
            }
            return Ok(take_input(available, i));
        }
        i = i + 1;
    }
    proof {
        lemma_first_where(av, p);
    }
    Err(SelectionError::UnfulfillableRequirement(Requirement::Nft(id.clone())))
}

/// Whether `x` is the delegation with id `id`.
pub open spec fn delegation_with(id: Seq<u8>) -> spec_fn(InputV) -> bool {
    |x: InputV| x.output.kind == OutputKind::Delegation && x.output.chain_id_non_null(x.output_id) == id
}

/// Fulfils a requirement for the delegation with id `id`: nothing to do where a selected input
/// is it; else the first available input that is it.
pub fn fulfill_delegation_requirement(
    available: &mut Vec<InputSigningData>,
    selected: &Vec<InputSigningData>,
    id: &Id,
) -> (r: Result<Vec<InputSigningData>, SelectionError>)
    ensures
        fulfil_outcome(
            already_by(inputs_view(selected@), delegation_with(id@)),
            first_where(inputs_view(old(available)@), delegation_with(id@)),
            inputs_view(old(available)@),
            SelectionErrorV::UnfulfillableRequirement(RequirementV::Delegation(id@)),
            fulfil_view(r),
            inputs_view(final(available)@),
        ),
{
    let ghost sel = inputs_view(selected@);
    let ghost av = inputs_view(available@);
    let ghost p = delegation_with(id@);
    let mut k: usize = 0;
    while k < selected.len()
        invariant
            k <= selected@.len(),
            sel == inputs_view(selected@),
            p == delegation_with(id@),
            forall|j: int| 0 <= j < k ==> !p(#[trigger] sel[j]),
        decreases selected@.len() - k,
    {
        if is_delegation_with_id(&selected[k].output, id, &selected[k].output_id) {
            assert(p(inputs_view(selected@)[k as int]));
            let none: Vec<InputSigningData> = Vec::new();
            assert(inputs_view(none@) =~= Seq::<InputV>::empty());
            return Ok(none);
        }
        k = k + 1;
    }
    let mut i: usize = 0;
    while i < available.len()
        invariant
            i <= available@.len(),
            av == inputs_view(available@),
            available@ == old(available)@,
            sel == inputs_view(selected@),
            p == delegation_with(id@),
            forall|j: int| 0 <= j < selected@.len() ==> !p(#[trigger] sel[j]),
            forall|j: int| 0 <= j < i ==> !p(#[trigger] av[j]),
        decreases available@.len() - i,
    {
        if is_delegation_with_id(&available[i].output, id, &available[i].output_id) {
            proof {
                lemma_first_where_unique(av, p, i as int);
            }
            return Ok(take_input(available, i));
        }
        i = i + 1;
    }
    proof {
        lemma_first_where(av, p);
    }
    Err(SelectionError::UnfulfillableRequirement(Requirement::Delegation(id.clone())))
}

/// The outcome of a sender requirement for the address `a`, taken without its
/// restriction: an Ed25519 address as an Ed25519 requirement, an account or nft address
/// as a requirement for that account or nft, each failing as a sender requirement; any
/// other kind is not supported.
pub open spec fn sender_outcome(
    a: AddressV,
    sel: Seq<InputV>,
    avail: Seq<InputV>,
    slot: u32,
    range: CommittableAgeRange,
    allow_additional: bool,
    r: Result<Seq<InputV>, SelectionErrorV>,
    avail_after: Seq<InputV>,
) -> bool {
    let a = a.inner();
    let e = SelectionErrorV::UnfulfillableRequirement(RequirementV::Sender(a));
    match a.kind {
        AddressKind::Ed25519 => fulfil_outcome(
            already_by(sel, unlocked_by(a, slot, range)),
            ed25519_pick(avail, a, slot, range),
            avail,
            e,
            r,
            avail_after,
        ),
        AddressKind::Account => fulfil_outcome(
            already_by(sel, account_with(a.id)),
            first_where(avail, account_with(a.id)),
            avail,
            e,
            r,
            avail_after,
        ),
        AddressKind::Nft => if !allow_additional && !already_by(sel, nft_with(a.id)) {
            r == Err::<Seq<InputV>, SelectionErrorV>(
                SelectionErrorV::AdditionalInputsRequired(RequirementV::Nft(a.id)),
            ) && avail_after == avail
        } else {
            fulfil_outcome(already_by(sel, nft_with(a.id)), first_where(avail, nft_with(a.id)), avail, e, r, avail_after)
        },
        _ => r == Err::<Seq<InputV>, SelectionErrorV>(SelectionErrorV::UnsupportedAddressType(a.kind))
            && avail_after == avail,
    }
}

/// Fulfils a sender requirement: a restricted address by its inner address; an Ed25519,
/// account or nft address through the requirement of that kind (only the nft requirement
/// heeds that selecting more inputs may be disabled).
pub fn fulfill_sender_requirement(
    available: &mut Vec<InputSigningData>,
    selected: &Vec<InputSigningData>,
    address: &Address,
    slot: u32,
    range: CommittableAgeRange,
    allow_additional: bool,
) -> (r: Result<Vec<InputSigningData>, SelectionError>)
    ensures
        sender_outcome(
            address@,
            inputs_view(selected@),
            inputs_view(old(available)@),
            slot,
            range,
            allow_additional,
            fulfil_view(r),
            inputs_view(final(available)@),
        ),
{
    let a = address.inner();
    match a.kind {
        AddressKind::Ed25519 => match fulfill_ed25519_requirement(available, selected, &a, slot, range) {
            Ok(v) => Ok(v),
            Err(_) => Err(SelectionError::UnfulfillableRequirement(Requirement::Sender(a))),
        },
        AddressKind::Account => match fulfill_account_requirement(available, selected, &a.id) {
            Ok(v) => Ok(v),
            Err(_) => Err(SelectionError::UnfulfillableRequirement(Requirement::Sender(a))),
        },
        AddressKind::Nft => match fulfill_nft_requirement(available, selected, &a.id, allow_additional) {
            Ok(v) => Ok(v),
            Err(SelectionError::AdditionalInputsRequired(q)) => Err(SelectionError::AdditionalInputsRequired(q)),
            Err(_) => Err(SelectionError::UnfulfillableRequirement(Requirement::Sender(a))),
        },
        _ => Err(SelectionError::UnsupportedAddressType(a.kind)),
    }
}

/// Fulfils an issuer requirement as the sender requirement of the same address; where that
/// cannot be fulfilled, the error names the issuer requirement.
pub fn fulfill_issuer_requirement(
    available: &mut Vec<InputSigningData>,
    selected: &Vec<InputSigningData>,
    address: &Address,
    slot: u32,
    range: CommittableAgeRange,
    allow_additional: bool,
) -> (r: Result<Vec<InputSigningData>, SelectionError>)
    ensures
        exists|r0: Result<Seq<InputV>, SelectionErrorV>|
            sender_outcome(
                address@,
                inputs_view(selected@),
                inputs_view(old(available)@),
                slot,
                range,
                allow_additional,
                r0,
                inputs_view(final(available)@),
            ) && fulfil_view(r) == match r0 {
                Err(SelectionErrorV::UnfulfillableRequirement(RequirementV::Sender(_))) => Err(
                    SelectionErrorV::UnfulfillableRequirement(RequirementV::Issuer(address@)),
                ),
                _ => r0,
            },
{
    let r = fulfill_sender_requirement(available, selected, address, slot, range, allow_additional);
    let ghost r0 = fulfil_view(r);
    match r {
        Err(SelectionError::UnfulfillableRequirement(Requirement::Sender(_))) => Err(
            SelectionError::UnfulfillableRequirement(Requirement::Issuer(address.clone())),
        ),
        other => other,
    }
}

/// Whether `inputs` holds the foundry with id `id`.
pub open spec fn has_foundry_input(inputs: Seq<InputV>, id: Seq<u8>) -> bool {
    exists|i: int|
        0 <= i < inputs.len() && (#[trigger] inputs[i]).output.kind == OutputKind::Foundry
            && inputs[i].output.chain_id == id
}

/// Whether the output creates its chain rather than transitioning it: an account, nft or
/// delegation with a null id, or a foundry that no input holds.
pub open spec fn creates_chain(o: OutputV, inputs: Seq<InputV>) -> bool {
    match o.kind {
        OutputKind::Account | OutputKind::Nft | OutputKind::Delegation => is_null_id(o.chain_id),
        OutputKind::Foundry => !has_foundry_input(inputs, o.chain_id),
        _ => false,
    }
}

/// The requirements that an output imposes: the chain it transitions (and, for a
/// foundry, its controlling account), its sender, and the issuer of a chain it creates.
pub open spec fn output_requirements(o: OutputV, inputs: Seq<InputV>) -> Seq<RequirementV> {
    let created = creates_chain(o, inputs);
    let chain = match o.kind {
        OutputKind::Account => if created {
            Seq::empty()
        } else {
            seq![RequirementV::Account(o.chain_id)]
        },
        OutputKind::Foundry => (if created {
            Seq::empty()
        } else {
            seq![RequirementV::Foundry(o.chain_id)]
        }).push(RequirementV::Account(o.address.id)),
        OutputKind::Nft => if created {
            Seq::empty()
        } else {
            seq![RequirementV::Nft(o.chain_id)]
        },
        OutputKind::Delegation => if created {
            Seq::empty()
        } else {
            seq![RequirementV::Delegation(o.chain_id)]
        },
        _ => Seq::empty(),
    };
    let sender = match o.sender {
        Some(a) => seq![RequirementV::Sender(a)],
        None => Seq::empty(),
    };
    let issuer = match o.issuer {
        Some(a) => if created {
            seq![RequirementV::Issuer(a)]
        } else {
            Seq::empty()
        },
        None => Seq::empty(),
    };
    chain + sender + issuer
}

/// The requirements of all outputs, output after output.
pub open spec fn outputs_requirements_spec(outputs: Seq<OutputV>, inputs: Seq<InputV>) -> Seq<RequirementV>
    decreases outputs.len(),
{
    if outputs.len() == 0 {
        Seq::empty()
    } else {
        outputs_requirements_spec(outputs.drop_last(), inputs) + output_requirements(
            outputs.last(),
            inputs,
        )
    }
}

/// Whether `v` holds the foundry with id `id`.
fn has_foundry_input_exec(v: &Vec<InputSigningData>, id: &Id) -> (r: bool)
    ensures
        r == has_foundry_input(inputs_view(v@), id@),
{
    let mut i: usize = 0;
    while i < v.len()
        invariant
            i <= v@.len(),
            forall|j: int|
                0 <= j < i ==> !((#[trigger] inputs_view(v@)[j]).output.kind == OutputKind::Foundry
                    && inputs_view(v@)[j].output.chain_id == id@),
        decreases v@.len() - i,
    {
        if v[i].output.kind == OutputKind::Foundry && v[i].output.chain_id.same(id) {
            assert(inputs_view(v@)[i as int].output.chain_id == id@);
            return true;
        }
        i = i + 1;
    }
    false
}

fn clone_address(a: &Address) -> (r: Address)
    ensures
        r@ == a@,
{
    a.clone()
}

/// The requirements of one output, appended to `r`.
fn push_output_requirements(
    r: &mut Vec<Requirement>,
    o: &Output,
    available: &Vec<InputSigningData>,
    selected: &Vec<InputSigningData>,
)
    ensures
        requirements_view(final(r)@) == requirements_view(old(r)@) + output_requirements(
            o@,
            inputs_view(available@) + inputs_view(selected@),
        ),
{
    let ghost ins = inputs_view(available@) + inputs_view(selected@);
    let ghost r0 = requirements_view(r@);
    let created = match o.kind {
        OutputKind::Account | OutputKind::Nft | OutputKind::Delegation => o.chain_id.is_null(),
        OutputKind::Foundry => {
            let a = has_foundry_input_exec(available, &o.chain_id);
            let b = has_foundry_input_exec(selected, &o.chain_id);
            proof {
                if has_foundry_input(ins, o@.chain_id) {
                    let i = choose|i: int|
                        0 <= i < ins.len() && (#[trigger] ins[i]).output.kind == OutputKind::Foundry
                            && ins[i].output.chain_id == o@.chain_id;
                    if i < inputs_view(available@).len() {
                        assert(inputs_view(available@)[i] == ins[i]);
                    } else {
                        assert(inputs_view(selected@)[i - inputs_view(available@).len()] == ins[i]);
                    }
                }
                if a {
                    let i = choose|i: int|
                        0 <= i < inputs_view(available@).len() && (#[trigger] inputs_view(
                            available@,
                        )[i]).output.kind == OutputKind::Foundry && inputs_view(available@)[i].output.chain_id
                            == o@.chain_id;
                    assert(ins[i] == inputs_view(available@)[i]);
                }
                if b {
                    let i = choose|i: int|
                        0 <= i < inputs_view(selected@).len() && (#[trigger] inputs_view(
                            selected@,
                        )[i]).output.kind == OutputKind::Foundry && inputs_view(selected@)[i].output.chain_id
                            == o@.chain_id;
                    assert(ins[inputs_view(available@).len() + i] == inputs_view(selected@)[i]);
                }
            }
            !(a || b)
        },
        _ => false,
    };
    assert(created == creates_chain(o@, ins));
    match o.kind {
        OutputKind::Account => {
            if !created {
                r.push(Requirement::Account(o.chain_id.clone()));
            }
        },
        OutputKind::Foundry => {
            if !created {
                r.push(Requirement::Foundry(o.chain_id.clone()));
            }
            r.push(Requirement::Account(o.address.id.clone()));
        },
        OutputKind::Nft => {
            if !created {
                r.push(Requirement::Nft(o.chain_id.clone()));
            }
        },
        OutputKind::Delegation => {
            if !created {
                r.push(Requirement::Delegation(o.chain_id.clone()));
            }
        },
        _ => {},
    }
    let ghost r1 = requirements_view(r@);
    match &o.sender {
        Some(a) => {
            r.push(Requirement::Sender(clone_address(a)));
        },
        None => {},
    }
    let ghost r2 = requirements_view(r@);
    match &o.issuer {
        Some(a) => {
            if created {
                r.push(Requirement::Issuer(clone_address(a)));
            }
        },
        None => {},
    }
    proof {
        let q = output_requirements(o@, ins);
        assert(requirements_view(r@) =~= r0 + q);
    }
}

/// The requirements that the outputs impose, output after output; whether a foundry
/// output creates its foundry is decided over the available and the selected inputs.
pub fn outputs_requirements(
    outputs: &Vec<Output>,
    available: &Vec<InputSigningData>,
    selected: &Vec<InputSigningData>,
) -> (r: Vec<Requirement>)
    ensures
        requirements_view(r@) == outputs_requirements_spec(
            outputs_view(outputs@),
            inputs_view(available@) + inputs_view(selected@),
        ),
{
    let ghost ins = inputs_view(available@) + inputs_view(selected@);
    let ghost outs = outputs_view(outputs@);
    let mut r: Vec<Requirement> = Vec::new();
    let mut i: usize = 0;
    assert(requirements_view(r@) =~= Seq::<RequirementV>::empty());
    assert(outs.take(0) =~= Seq::<OutputV>::empty());
    while i < outputs.len()
        invariant
            i <= outputs@.len(),
            outs == outputs_view(outputs@),
            ins == inputs_view(available@) + inputs_view(selected@),
            requirements_view(r@) == outputs_requirements_spec(outs.take(i as int), ins),
        decreases outputs@.len() - i,
    {
        push_output_requirements(&mut r, &outputs[i], available, selected);
        proof {
            assert(outs.take(i + 1).drop_last() =~= outs.take(i as int));
            assert(outs.take(i + 1).last() == outputs@[i as int]@);
        }
        i = i + 1;
    }
    assert(outs.take(i as int) =~= outs);
    r
}

/// The chain id that a chain requirement names.
pub open spec fn requirement_chain(q: RequirementV) -> Seq<u8> {
    match q {
        RequirementV::Account(id) => id,
        RequirementV::Foundry(id) => id,
        RequirementV::Nft(id) => id,
        RequirementV::Delegation(id) => id,
        _ => Seq::empty(),
    }
}

/// Whether an output transitions the chain that the requirement names.
pub open spec fn transitioned_by(outputs: Seq<OutputV>) -> spec_fn(RequirementV) -> bool {
    |q: RequirementV|
        exists|i: int|
            0 <= i < outputs.len() && (match q {
                RequirementV::Account(id) => (#[trigger] outputs[i]).kind == OutputKind::Account
                    && outputs[i].chain_id == id,
                RequirementV::Foundry(id) => outputs[i].kind == OutputKind::Foundry
                    && outputs[i].chain_id == id,
                RequirementV::Nft(id) => outputs[i].kind == OutputKind::Nft && outputs[i].chain_id == id,
                RequirementV::Delegation(id) => outputs[i].kind == OutputKind::Delegation
                    && outputs[i].chain_id == id,
                _ => false,
            })
}

/// The requirements of a burn: its accounts, foundries, nfts and delegations, each in the
/// order in which the burn lists them.
pub open spec fn burn_items(b: Burn) -> Seq<RequirementV> {
    b.accounts_list().map_values(|id: Seq<u8>| RequirementV::Account(id)) + b.foundries_list().map_values(
        |id: Seq<u8>| RequirementV::Foundry(id),
    ) + b.nfts_list().map_values(|id: Seq<u8>| RequirementV::Nft(id)) + b.delegations_list().map_values(
        |id: Seq<u8>| RequirementV::Delegation(id),
    )
}

/// The requirements of a burn, or the chain that the outputs both burn and transition:
/// the first such chain in the order of `burn_items`.
pub open spec fn burn_outcome(b: Burn, outputs: Seq<OutputV>) -> Result<Seq<RequirementV>, SelectionErrorV> {
    match first_where(burn_items(b), transitioned_by(outputs)) {
        Some(i) => Err(SelectionErrorV::BurnAndTransition(requirement_chain(burn_items(b)[i]))),
        None => Ok(burn_items(b)),
    }
}

/// Whether an output of the given kind has the chain id `id`.
fn transitioned_exec(outputs: &Vec<Output>, kind: OutputKind, id: &Id) -> (r: bool)
    ensures
        r == exists|i: int|
            0 <= i < outputs@.len() && (#[trigger] outputs_view(outputs@)[i]).kind == kind
                && outputs_view(outputs@)[i].chain_id == id@,
{
    let mut i: usize = 0;
    while i < outputs.len()
        invariant
            i <= outputs@.len(),
            forall|j: int|
                0 <= j < i ==> !((#[trigger] outputs_view(outputs@)[j]).kind == kind
                    && outputs_view(outputs@)[j].chain_id == id@),
        decreases outputs@.len() - i,
    {
        if outputs[i].kind == kind && outputs[i].chain_id.same(id) {
            assert(outputs_view(outputs@)[i as int].chain_id == id@);
            return true;
        }
        i = i + 1;
    }
    false
}

/// The requirements of one list of burned chains of the given kind, appended to `r`.
fn push_burn_items(
    r: &mut Vec<Requirement>,
    ids: &Vec<Id>,
    kind: OutputKind,
    outputs: &Vec<Output>,
    Ghost(items): Ghost<Seq<RequirementV>>,
    Ghost(start): Ghost<int>,
) -> (conflict: Option<usize>)
    requires
        kind == OutputKind::Account || kind == OutputKind::Foundry || kind == OutputKind::Nft
            || kind == OutputKind::Delegation,
        requirements_view(old(r)@) == items.take(start),
        0 <= start,
        start + ids@.len() <= items.len(),
        forall|j: int| 0 <= j < start ==> !transitioned_by(outputs_view(outputs@))(#[trigger] items[j]),
        forall|j: int|
            0 <= j < ids@.len() ==> #[trigger] items[start + j] == (match kind {
                OutputKind::Account => RequirementV::Account(ids@[j]@),
                OutputKind::Foundry => RequirementV::Foundry(ids@[j]@),
                OutputKind::Nft => RequirementV::Nft(ids@[j]@),
                _ => RequirementV::Delegation(ids@[j]@),
            }),
    ensures
        match conflict {
            Some(j) => j < ids@.len() && transitioned_by(outputs_view(outputs@))(items[start + j])
                && forall|k: int| 0 <= k < start + j ==> !transitioned_by(outputs_view(outputs@))(#[trigger] items[k]),
            None => requirements_view(final(r)@) == items.take(start + ids@.len())
                && forall|k: int| 0 <= k < start + ids@.len() ==> !transitioned_by(outputs_view(outputs@))(#[trigger] items[k]),
        },
{
    let ghost outs = outputs_view(outputs@);
    let mut i: usize = 0;
    while i < ids.len()
        invariant
            i <= ids@.len(),
            outs == outputs_view(outputs@),
            kind == OutputKind::Account || kind == OutputKind::Foundry || kind == OutputKind::Nft
                || kind == OutputKind::Delegation,
            start + ids@.len() <= items.len(),
            0 <= start,
            requirements_view(r@) == items.take(start + i),
            forall|j: int| 0 <= j < start + i ==> !transitioned_by(outs)(#[trigger] items[j]),
            forall|j: int|
                0 <= j < ids@.len() ==> #[trigger] items[start + j] == (match kind {
                    OutputKind::Account => RequirementV::Account(ids@[j]@),
                    OutputKind::Foundry => RequirementV::Foundry(ids@[j]@),
                    OutputKind::Nft => RequirementV::Nft(ids@[j]@),
                    _ => RequirementV::Delegation(ids@[j]@),
                }),
        decreases ids@.len() - i,
    {
        let ghost q = items[start + i];
        let t = transitioned_exec(outputs, kind, &ids[i]);
        proof {
            assert(items[start + i as int] == q);
            if t {
                let w = choose|w: int|
                    0 <= w < outputs@.len() && (#[trigger] outputs_view(outputs@)[w]).kind == kind
                        && outputs_view(outputs@)[w].chain_id == ids@[i as int]@;
                assert(outs[w].kind == kind && outs[w].chain_id == ids@[i as int]@);
                assert(transitioned_by(outs)(q));
            } else {
                assert(!transitioned_by(outs)(q)) by {
                    if transitioned_by(outs)(q) {
                        let w = choose|w: int|
                            0 <= w < outs.len() && (match q {
                                RequirementV::Account(id) => (#[trigger] outs[w]).kind == OutputKind::Account
                                    && outs[w].chain_id == id,
                                RequirementV::Foundry(id) => outs[w].kind == OutputKind::Foundry
                                    && outs[w].chain_id == id,
                                RequirementV::Nft(id) => outs[w].kind == OutputKind::Nft && outs[w].chain_id == id,
                                RequirementV::Delegation(id) => outs[w].kind == OutputKind::Delegation
                                    && outs[w].chain_id == id,
                                _ => false,
                            });
                        assert(outputs_view(outputs@)[w] == outs[w]);
                    }
                }
            }
        }
        if t {
            return Some(i);
        }
        let id = ids[i].clone();
        let q_exec = match kind {
            OutputKind::Account => Requirement::Account(id),
            OutputKind::Foundry => Requirement::Foundry(id),
            OutputKind::Nft => Requirement::Nft(id),
            _ => Requirement::Delegation(id),
        };
        r.push(q_exec);
        proof {
            assert(items.take(start + i + 1) =~= items.take(start + i).push(q));
            assert(requirements_view(r@) =~= items.take(start + i + 1));
        }
        i = i + 1;
    }
    None
}

/// The requirements of a burn: each listed account, foundry, nft and delegation must be
/// an input. A chain that the outputs also transition cannot be burned.
pub fn burn_requirements(burn: &Burn, outputs: &Vec<Output>) -> (r: Result<Vec<Requirement>, SelectionError>)
    ensures
        match r {
            Ok(v) => burn_outcome(*burn, outputs_view(outputs@)) == Ok::<Seq<RequirementV>, SelectionErrorV>(requirements_view(v@)),
            Err(e) => burn_outcome(*burn, outputs_view(outputs@)) == Err::<Seq<RequirementV>, SelectionErrorV>(e@),
        },
{
    let ghost items = burn_items(*burn);
    let ghost outs = outputs_view(outputs@);
    let accounts = burn.accounts();
    let foundries = burn.foundries();
    let nfts = burn.nfts();
    let delegations = burn.delegations();
    let ghost na = accounts@.len() as int;
    let ghost nf = foundries@.len() as int;
    let ghost nn = nfts@.len() as int;
    let ghost nd = delegations@.len() as int;
    proof {
        assert(items.len() == na + nf + nn + nd);
        assert forall|j: int| 0 <= j < na implies #[trigger] items[0 + j] == RequirementV::Account(accounts@[j]@) by {
            assert(ids_view(accounts@)[j] == accounts@[j]@);
        }
        assert forall|j: int| 0 <= j < nf implies #[trigger] items[na + j] == RequirementV::Foundry(foundries@[j]@) by {
            assert(ids_view(foundries@)[j] == foundries@[j]@);
        }
        assert forall|j: int| 0 <= j < nn implies #[trigger] items[na + nf + j] == RequirementV::Nft(nfts@[j]@) by {
            assert(ids_view(nfts@)[j] == nfts@[j]@);
        }
        assert forall|j: int| 0 <= j < nd implies #[trigger] items[na + nf + nn + j] == RequirementV::Delegation(delegations@[j]@) by {
            assert(ids_view(delegations@)[j] == delegations@[j]@);
        }
    }
    let mut r: Vec<Requirement> = Vec::new();
    assert(requirements_view(r@) =~= items.take(0));
    match push_burn_items(&mut r, accounts, OutputKind::Account, outputs, Ghost(items), Ghost(0)) {
        Some(j) => {
            proof {
                lemma_first_where_unique(items, transitioned_by(outs), j as int);
            }
            return Err(SelectionError::BurnAndTransition(accounts[j].clone()));
        },
        None => {},
    }
    match push_burn_items(&mut r, foundries, OutputKind::Foundry, outputs, Ghost(items), Ghost(na)) {
        Some(j) => {
            proof {
                lemma_first_where_unique(items, transitioned_by(outs), na + j);
            }
            return Err(SelectionError::BurnAndTransition(foundries[j].clone()));
        },
        None => {},
    }
    match push_burn_items(&mut r, nfts, OutputKind::Nft, outputs, Ghost(items), Ghost(na + nf)) {
        Some(j) => {
            proof {
                lemma_first_where_unique(items, transitioned_by(outs), na + nf + j);
            }
            return Err(SelectionError::BurnAndTransition(nfts[j].clone()));
        },
        None => {},
    }
    match push_burn_items(&mut r, delegations, OutputKind::Delegation, outputs, Ghost(items), Ghost(na + nf + nn)) {
        Some(j) => {
            proof {
                lemma_first_where_unique(items, transitioned_by(outs), na + nf + nn + j);
            }
            return Err(SelectionError::BurnAndTransition(delegations[j].clone()));
        },
        None => {},
    }
    proof {
        lemma_first_where(items, transitioned_by(outs));
        assert(items.take(items.len() as int) =~= items);
    }
    Ok(r)
}

/// The part of the selection state that selecting inputs changes: the available inputs,
/// the selected ones, and the pending requirements.
pub struct SelectionStateV {
    pub available: Seq<InputV>,
    pub selected: OrderedInputsV,
    pub requirements: Seq<RequirementV>,
}

/// The state after `x` is selected, or the error where no more input fits.
pub open spec fn select_spec(st: SelectionStateV, x: InputV, slot: u32, range: CommittableAgeRange) -> Result<
    SelectionStateV,
    SelectionErrorV,
> {
    if st.selected.len >= INPUT_COUNT_MAX {
        Err(SelectionErrorV::InvalidInputCount(st.selected.len + 1))
    } else {
        Ok(
            SelectionStateV {
                selected: st.selected.insert(x.output.required_address(slot, range)->0, x),
                requirements: st.requirements + match input_requirement(x, slot, range) {
                    Some(q) => seq![q],
                    None => Seq::empty(),
                },
                ..st
            },
        )
    }
}

/// Whether `x` spends the output `id`.
pub open spec fn spends(id: OutputIdV) -> spec_fn(InputV) -> bool {
    |x: InputV| x.output_id == id
}

/// The state after the required inputs `ids` are selected in order: each is taken from
/// the available inputs (the last one takes its place) and selected; the first that is
/// not available, or that does not fit, ends the selection with an error.
pub open spec fn required_spec(st: SelectionStateV, ids: Seq<OutputIdV>, slot: u32, range: CommittableAgeRange) -> Result<
    SelectionStateV,
    SelectionErrorV,
>
    decreases ids.len(),
{
    if ids.len() == 0 {
        Ok(st)
    } else {
        match required_spec(st, ids.drop_last(), slot, range) {
            Err(e) => Err(e),
            Ok(s1) => match first_where(s1.available, spends(ids.last())) {
                None => Err(SelectionErrorV::RequiredInputIsNotAvailable(ids.last())),
                Some(i) => select_spec(
                    SelectionStateV { available: take_at(s1.available, i), ..s1 },
                    s1.available[i],
                    slot,
                    range,
                ),
            },
        }
    }
}

/// Once the selection of a prefix of the required inputs fails, the whole fails alike.
proof fn lemma_required_err(
    st: SelectionStateV,
    ids: Seq<OutputIdV>,
    k: int,
    slot: u32,
    range: CommittableAgeRange,
)
    requires
        0 <= k <= ids.len(),
        required_spec(st, ids.take(k), slot, range) is Err,
    ensures
        required_spec(st, ids, slot, range) == required_spec(st, ids.take(k), slot, range),
    decreases ids.len() - k,
{
    if k < ids.len() {
        assert(ids.take(k + 1).drop_last() =~= ids.take(k));
        lemma_required_err(st, ids, k + 1, slot, range);
    } else {
        assert(ids.take(k) =~= ids);
    }
}

/// Whether some selected input spends the output `id`.
pub open spec fn selected_spends(sel: OrderedInputsV, id: OutputIdV) -> bool {
    exists|x: InputV| sel.all().to_multiset().contains(x) && x.output_id == id
}

/// Selecting the required inputs moves each of them from the available inputs to the
/// selected ones: together these hold the same inputs as before, what was selected stays
/// selected, and each required output is spent by a selected input.
pub proof fn lemma_required_moves_inputs(
    st: SelectionStateV,
    ids: Seq<OutputIdV>,
    slot: u32,
    range: CommittableAgeRange,
)
    ensures
        required_spec(st, ids, slot, range) matches Ok(s2) ==> {
            &&& (s2.available + s2.selected.all()).to_multiset() == (st.available + st.selected.all()).to_multiset()
            &&& forall|x: InputV| #[trigger] st.selected.all().to_multiset().contains(x) ==> s2.selected.all().to_multiset().contains(x)
            &&& forall|k: int| 0 <= k < ids.len() ==> #[trigger] selected_spends(s2.selected, ids[k])
        },
    decreases ids.len(),
{
    broadcast use vstd::multiset::group_multiset_axioms;
    broadcast use vstd::seq_lib::lemma_multiset_commutative;
    broadcast use vstd::seq_lib::to_multiset_build;

    if ids.len() > 0 {
        let init = ids.drop_last();
        lemma_required_moves_inputs(st, init, slot, range);
        match required_spec(st, init, slot, range) {
            Err(_) => {},
            Ok(s1) => {
                lemma_first_where(s1.available, spends(ids.last()));
                match first_where(s1.available, spends(ids.last())) {
                    None => {},
                    Some(i) => {
                        let x = s1.available[i];
                        if s1.selected.len < INPUT_COUNT_MAX {
                            let a = x.output.required_address(slot, range)->0;
                            let sel2 = s1.selected.insert(a, x);
                            let av2 = take_at(s1.available, i);
                            crate::ordered_inputs::lemma_insert_all(s1.selected, a, x);
                            lemma_take_at_keeps_inputs(s1.available, i);
                            assert((av2 + sel2.all()).to_multiset() =~= (s1.available + s1.selected.all()).to_multiset());
                            assert(sel2.all().to_multiset().contains(x));
                            assert forall|k: int| 0 <= k < ids.len() implies #[trigger] selected_spends(sel2, ids[k]) by {
                                if k < init.len() {
                                    assert(init[k] == ids[k]);
                                    assert(selected_spends(s1.selected, init[k]));
                                    let y = choose|y: InputV| s1.selected.all().to_multiset().contains(y) && y.output_id == init[k];
                                    assert(sel2.all().to_multiset().contains(y));
                                } else {
                                    assert(x.output_id == ids.last());
                                    assert(sel2.all().to_multiset().contains(x));
                                }
                            }
                        }
                    },
                }
            },
        }
    }
}

/// The state after an input is selected, by value.
pub open spec fn state_view(
    available: Seq<InputSigningData>,
    selected: OrderedInputsV,
    requirements: Seq<Requirement>,
) -> SelectionStateV {
    SelectionStateV {
        available: inputs_view(available),
        selected,
        requirements: requirements_view(requirements),
    }
}

/// Selects the required inputs in order: each is taken from the available inputs and
/// selected; one that is not available is an error.
pub fn select_required_inputs(
    available: &mut Vec<InputSigningData>,
    selected: &mut OrderedInputs,
    requirements: &mut Vec<Requirement>,
    required: &Vec<OutputId>,
    slot: u32,
    range: CommittableAgeRange,
) -> (r: Result<(), SelectionError>)
    requires
        old(selected)@.wf(),
        old(selected)@.len <= INPUT_COUNT_MAX,
        all_unlockable(inputs_view(old(available)@), slot, range),
    ensures
        final(selected)@.wf(),
        final(selected)@.len <= INPUT_COUNT_MAX,
        match r {
            Ok(()) => required_spec(
                state_view(old(available)@, old(selected)@, old(requirements)@),
                output_ids_view(required@),
                slot,
                range,
            ) == Ok::<SelectionStateV, SelectionErrorV>(
                state_view(final(available)@, final(selected)@, final(requirements)@),
            ),
            Err(e) => required_spec(
                state_view(old(available)@, old(selected)@, old(requirements)@),
                output_ids_view(required@),
                slot,
                range,
            ) == Err::<SelectionStateV, SelectionErrorV>(e@),
        },
{
    let ghost st0 = state_view(available@, selected@, requirements@);
    let ghost ids = output_ids_view(required@);
    let mut k: usize = 0;
    while k < required.len()
        invariant
            k <= required@.len(),
            ids == output_ids_view(required@),
            st0 == state_view(old(available)@, old(selected)@, old(requirements)@),
            selected@.wf(),
            selected@.len <= INPUT_COUNT_MAX,
            all_unlockable(inputs_view(available@), slot, range),
            required_spec(st0, ids.take(k as int), slot, range) == Ok::<SelectionStateV, SelectionErrorV>(
                state_view(available@, selected@, requirements@),
            ),
        decreases required@.len() - k,
    {
        let ghost s1 = state_view(available@, selected@, requirements@);
        let ghost av = inputs_view(available@);
        let ghost p = spends(ids[k as int]);
        proof {
            assert(ids.take(k + 1).drop_last() =~= ids.take(k as int));
            assert(ids.take(k + 1).last() == ids[k as int]);
        }
        let mut i: usize = 0;
        while i < available.len() && !available[i].output_id.same(&required[k])
            invariant
                i <= available@.len(),
                av == inputs_view(available@),
                p == spends(ids[k as int]),
                ids == output_ids_view(required@),
                k < required@.len(),
                forall|j: int| 0 <= j < i ==> !p(#[trigger] av[j]),
            decreases available@.len() - i,
        {
            i = i + 1;
        }
        if i == available.len() {
            proof {
                lemma_first_where(av, p);
                assert(required_spec(st0, ids.take(k + 1), slot, range) == Err::<SelectionStateV, SelectionErrorV>(
                    SelectionErrorV::RequiredInputIsNotAvailable(ids[k as int]),
                ));
                lemma_required_err(st0, ids, k + 1, slot, range);
            }
            return Err(SelectionError::RequiredInputIsNotAvailable(required[k].clone()));
        }
        proof {
            lemma_first_where_unique(av, p, i as int);
            assert(all_unlockable(inputs_view(available@), slot, range));
            assert(av[i as int].output.required_address(slot, range) is Some);
        }
        let ghost before = available@;
        let input = available.swap_remove(i);
        proof {
            assert(inputs_view(available@) =~= take_at(av, i as int));
            assert(input@ == av[i as int]);
            assert forall|j: int| 0 <= j < inputs_view(available@).len() implies (#[trigger] inputs_view(
                available@,
            )[j]).output.required_address(slot, range) is Some by {
                if j == i {
                    assert(inputs_view(available@)[j] == av[av.len() - 1]);
                } else {
                    assert(inputs_view(available@)[j] == av[j]);
                }
            }
        }
        match select_input(selected, requirements, input, slot, range) {
            Ok(()) => {},
            Err(e) => {
                proof {
                    lemma_required_err(st0, ids, k + 1, slot, range);
                }
                return Err(e);
            },
        }
        k = k + 1;
    }
    proof {
        assert(ids.take(k as int) =~= ids);
    }
    Ok(())
}

/// Taking an input from the available ones neither loses nor duplicates an input: the
/// remaining inputs with the taken one are the inputs before.
pub proof fn lemma_take_at_keeps_inputs(s: Seq<InputV>, i: int)
    requires
        0 <= i < s.len(),
    ensures
        take_at(s, i).push(s[i]).to_multiset() == s.to_multiset(),
{
    broadcast use vstd::multiset::group_multiset_axioms;
    broadcast use vstd::seq_lib::to_multiset_build;

    let u = s.update(i, s.last());
    let t = take_at(s, i);
    assert(u =~= t.push(s.last()));
    vstd::seq_lib::to_multiset_update(s, i, s.last());
    vstd::seq_lib::to_multiset_contains(s, s[i]);
    assert(s.contains(s[i]));
    assert(t.push(s[i]).to_multiset() =~= s.to_multiset()) by {
        assert forall|x: InputV| t.push(s[i]).to_multiset().count(x) == s.to_multiset().count(x) by {
            assert(t.push(s.last()).to_multiset().count(x) == t.to_multiset().count(x) + (if x == s.last() {
                1nat
            } else {
                0nat
            }));
        }
    }
}

/// Fulfilling a requirement neither loses nor duplicates inputs: the available inputs
/// after it, with the inputs that it returns, are the available inputs before it.
pub proof fn lemma_fulfil_keeps_inputs(
    already: bool,
    pick: Option<int>,
    avail: Seq<InputV>,
    e: SelectionErrorV,
    r: Result<Seq<InputV>, SelectionErrorV>,
    after: Seq<InputV>,
)
    requires
        fulfil_outcome(already, pick, avail, e, r, after),
        pick matches Some(i) ==> 0 <= i < avail.len(),
        r is Ok,
    ensures
        (after + r->Ok_0).to_multiset() == avail.to_multiset(),
{
    if already {
        assert(after + r->Ok_0 =~= avail);
    } else {
        let i = pick->0;
        lemma_take_at_keeps_inputs(avail, i);
        assert(after + r->Ok_0 =~= take_at(avail, i).push(avail[i]));
    }
}

/// The picks of the fulfilments are positions of available inputs.
pub proof fn lemma_picks_in_range(s: Seq<InputV>, a: AddressV, slot: u32, range: CommittableAgeRange, id: Seq<u8>)
    ensures
        ed25519_pick(s, a, slot, range) matches Some(i) ==> 0 <= i < s.len(),
        first_where(s, account_with(id)) matches Some(i) ==> 0 <= i < s.len(),
        first_where(s, nft_with(id)) matches Some(i) ==> 0 <= i < s.len(),
        first_where(s, delegation_with(id)) matches Some(i) ==> 0 <= i < s.len(),
{
    lemma_first_where(s, basic_backed_by(a, slot, range));
    lemma_first_where(s, other_backed_by(a, slot, range));
    lemma_first_where(s, account_with(id));
    lemma_first_where(s, nft_with(id));
    lemma_first_where(s, delegation_with(id));
}

/// An input that the filter keeps is one of the given inputs that `keeps_input` accepts;
/// every kept input other than a burned delegation has an address that unlocks it.
pub proof fn lemma_kept_inputs(
    s: Seq<InputV>,
    addresses: Set<AddressV>,
    required: Set<OutputIdV>,
    burn_delegations: Option<Set<Seq<u8>>>,
    slot: u32,
    min_committable_age: u32,
    range: CommittableAgeRange,
)
    ensures
        forall|k: int|
            0 <= k < kept_inputs(s, addresses, required, burn_delegations, slot, min_committable_age, range).len()
                ==> {
                let x = #[trigger] kept_inputs(
                    s,
                    addresses,
                    required,
                    burn_delegations,
                    slot,
                    min_committable_age,
                    range,
                )[k];
                &&& s.contains(x)
                &&& keeps_input(x, addresses, required, burn_delegations, slot, min_committable_age, range)
                &&& (x.output.kind != OutputKind::Delegation ==> x.output.required_address(slot, range) is Some)
            },
    decreases s.len(),
{
    if s.len() > 0 {
        lemma_kept_inputs(s.drop_last(), addresses, required, burn_delegations, slot, min_committable_age, range);
        let t = kept_inputs(s.drop_last(), addresses, required, burn_delegations, slot, min_committable_age, range);
        let u = kept_inputs(s, addresses, required, burn_delegations, slot, min_committable_age, range);
        assert forall|k: int| 0 <= k < u.len() implies s.contains(#[trigger] u[k]) by {
            if k < t.len() {
                assert(u[k] == t[k]);
                let m = choose|m: int| 0 <= m < s.drop_last().len() && s.drop_last()[m] == t[k];
                assert(s[m] == t[k]);
            } else {
                assert(u[k] == s.last());
                assert(s[s.len() - 1] == s.last());
            }
        }
        assert forall|k: int| 0 <= k < u.len() implies keeps_input(#[trigger] u[k], addresses, required, burn_delegations, slot, min_committable_age, range) by {
            if k < t.len() {
                assert(u[k] == t[k]);
            }
        }
    }
}

/// Keeping some inputs of a list in which no input occurs twice gives such a list.
pub proof fn lemma_kept_inputs_distinct(
    s: Seq<InputV>,
    addresses: Set<AddressV>,
    required: Set<OutputIdV>,
    burn_delegations: Option<Set<Seq<u8>>>,
    slot: u32,
    min_committable_age: u32,
    range: CommittableAgeRange,
)
    requires
        s.no_duplicates(),
    ensures
        kept_inputs(s, addresses, required, burn_delegations, slot, min_committable_age, range).no_duplicates(),
    decreases s.len(),
{
    if s.len() > 0 {
        let d = s.drop_last();
        assert(d.no_duplicates());
        lemma_kept_inputs_distinct(d, addresses, required, burn_delegations, slot, min_committable_age, range);
        lemma_kept_inputs(d, addresses, required, burn_delegations, slot, min_committable_age, range);
        let t = kept_inputs(d, addresses, required, burn_delegations, slot, min_committable_age, range);
        assert forall|k: int| 0 <= k < t.len() implies #[trigger] t[k] != s.last() by {
            let m = choose|m: int| 0 <= m < d.len() && d[m] == t[k];
            assert(s[m] == d[m]);
            assert(s[s.len() - 1] == s.last());
        }
    }
}

/// Whether the address that unlocks `x` is backed by an Ed25519 key hash.
pub open spec fn backed_input(slot: u32, range: CommittableAgeRange) -> spec_fn(InputV) -> bool {
    |x: InputV| x.output.required_address(slot, range) matches Some(a) && a.backing_ed25519() is Some
}

/// The address that receives the remainder, with the BIP-44 chain of its key where an
/// input shows it: the configured address (with the chain of the first available or
/// selected input that it unlocks); else the Ed25519 address that backs the address
/// unlocking the first such selected input.
pub open spec fn remainder_address_spec(
    configured: Option<AddressV>,
    available: Seq<InputV>,
    selected: Seq<InputV>,
    slot: u32,
    range: CommittableAgeRange,
) -> Option<(AddressV, Option<Bip44>)> {
    match configured {
        Some(a) => match first_where(available + selected, unlocked_by(a, slot, range)) {
            Some(i) => Some((a, (available + selected)[i].chain)),
            None => Some((a, None)),
        },
        None => match first_where(selected, backed_input(slot, range)) {
            Some(i) => Some(
                (
                    AddressV::ed25519(
                        selected[i].output.required_address(slot, range)->0.backing_ed25519()->0,
                    ),
                    selected[i].chain,
                ),
            ),
            None => None,
        },
    }
}

/// Finds the address that receives the remainder, with the BIP-44 chain of its key where
/// an input shows it.
pub fn get_remainder_address(
    configured: &Option<Address>,
    available: &Vec<InputSigningData>,
    selected: &Vec<InputSigningData>,
    slot: u32,
    range: CommittableAgeRange,
) -> (r: Option<(Address, Option<Bip44>)>)
    ensures
        match remainder_address_spec(
            match configured {
                Some(a) => Some(a@),
                None => None,
            },
            inputs_view(available@),
            inputs_view(selected@),
            slot,
            range,
        ) {
            Some((a, c)) => r matches Some((b, d)) && b@ == a && d == c,
            None => r is None,
        },
{
    let ghost av = inputs_view(available@);
    let ghost sv = inputs_view(selected@);
    match configured {
        Some(a) => {
            let ghost p = unlocked_by(a@, slot, range);
            let ghost all = av + sv;
            let mut i: usize = 0;
            while i < available.len()
                invariant
                    i <= available@.len(),
                    av == inputs_view(available@),
                    all == av + sv,
                    sv == inputs_view(selected@),
                    *configured == Some(*a),
                    p == unlocked_by(a@, slot, range),
                    forall|j: int| 0 <= j < i ==> !p(#[trigger] all[j]),
                decreases available@.len() - i,
            {
                if unlocks_address_exec(&available[i], a, slot, range) {
                    proof {
                        assert(all[i as int] == av[i as int]);
                        lemma_first_where_unique(all, p, i as int);
                        assert(first_where(inputs_view(available@) + inputs_view(selected@), unlocked_by(a@, slot, range)) == Some(i as int));
                        assert(remainder_address_spec(Some(a@), inputs_view(available@), inputs_view(selected@), slot, range) == Some((a@, av[i as int].chain)));
                    }
                    let c = a.clone();
                    let ch = available[i].chain;
                    assert(ch == av[i as int].chain);
                    return Some((c, ch));
                }
                assert(all[i as int] == av[i as int]);
                i = i + 1;
            }
            let mut k: usize = 0;
            while k < selected.len()
                invariant
                    k <= selected@.len(),
                    av == inputs_view(available@),
                    sv == inputs_view(selected@),
                    all == av + sv,
                    *configured == Some(*a),
                    p == unlocked_by(a@, slot, range),
                    forall|j: int| 0 <= j < av.len() + k ==> !p(#[trigger] all[j]),
                decreases selected@.len() - k,
            {
                if unlocks_address_exec(&selected[k], a, slot, range) {
                    proof {
                        assert(all[av.len() + k] == sv[k as int]);
                        lemma_first_where_unique(all, p, av.len() + k);
                    }
                    return Some((a.clone(), selected[k].chain));
                }
                assert(all[av.len() + k] == sv[k as int]);
                k = k + 1;
            }
            proof {
                lemma_first_where(all, p);
            }
            Some((a.clone(), None))
        },
        None => {
            let ghost p = backed_input(slot, range);
            let mut k: usize = 0;
            while k < selected.len()
                invariant
                    k <= selected@.len(),
                    sv == inputs_view(selected@),
                    av == inputs_view(available@),
                    *configured == None::<Address>,
                    p == backed_input(slot, range),
                    forall|j: int| 0 <= j < k ==> !p(#[trigger] sv[j]),
                decreases selected@.len() - k,
            {
                match selected[k].output.required_address_at(slot, range) {
                    Some(a) => match a.backing_ed25519() {
                        Some(e) => {
                            proof {
                                lemma_first_where_unique(sv, p, k as int);
                            }
                            return Some((e, selected[k].chain));
                        },
                        None => {},
                    },
                    None => {},
                }
                k = k + 1;
            }
            proof {
                lemma_first_where(sv, p);
            }
            None
        },
    }
}

/// A basic output of `amount` base tokens that only `address` unlocks.
pub open spec fn basic_output_to(address: AddressV, amount: u64) -> OutputV {
    OutputV {
        kind: OutputKind::Basic,
        amount,
        mana: 0,
        chain_id: Seq::empty(),
        address,
        storage_deposit_return: None,
        expiration: None,
        timelock: None,
        native_token: None,
        circulating_supply: None,
        sender: None,
        issuer: None,
        block_issuer: None,
        staking: None,
        foundry_counter: 0,
        serial_number: 0,
        other_features: false,
    }
}

/// The storage deposits still owed back: for each address that inputs ask to be returned
/// more than the outputs return to it, a basic output of the difference to that address.
pub open spec fn sdr_returns(ins: Seq<(AddressV, nat)>, outs: Seq<(AddressV, nat)>) -> Seq<OutputV>
    decreases ins.len(),
{
    if ins.len() == 0 {
        Seq::empty()
    } else {
        let rest = sdr_returns(ins.drop_last(), outs);
        let (a, n) = ins.last();
        if n > lookup(outs, a) {
            rest.push(basic_output_to(a, (n - lookup(outs, a)) as u64))
        } else {
            rest
        }
    }
}

/// Creates the outputs that return storage deposits, in the order of the input amounts.
pub fn storage_deposit_return_outputs(inputs_sdr: &AddressAmounts, outputs_sdr: &AddressAmounts) -> (r: Vec<Output>)
    ensures
        outputs_view(r@) == sdr_returns(inputs_sdr@, outputs_sdr@),
{
    let ghost ins = inputs_sdr@;
    let mut r: Vec<Output> = Vec::new();
    let mut i: usize = 0;
    assert(outputs_view(r@) =~= sdr_returns(ins.take(0), outputs_sdr@));
    while i < inputs_sdr.entries.len()
        invariant
            i <= inputs_sdr.entries@.len(),
            ins == inputs_sdr@,
            outputs_view(r@) == sdr_returns(ins.take(i as int), outputs_sdr@),
        decreases inputs_sdr.entries@.len() - i,
    {
        let (a, n) = (&inputs_sdr.entries[i].0, inputs_sdr.entries[i].1);
        let m = outputs_sdr.get(a);
        let ghost before = outputs_view(r@);
        proof {
            assert(ins.take(i + 1).drop_last() =~= ins.take(i as int));
            assert(ins.take(i + 1).last() == ins[i as int]);
            assert(ins[i as int] == (a@, n as nat));
        }
        if n > m {
            let o = Output {
                kind: OutputKind::Basic,
                amount: n - m,
                mana: 0,
                chain_id: Id::new(Vec::new()),
                address: a.clone(),
                storage_deposit_return: None,
                expiration: None,
                timelock: None,
                native_token: None,
                circulating_supply: None,
                sender: None,
                issuer: None,
                block_issuer: None,
                staking: None,
                foundry_counter: 0,
                serial_number: 0,
                other_features: false,
            };
            proof {
                assert(o@.chain_id =~= Seq::<u8>::empty());
                assert(o@ == basic_output_to(a@, (n - m) as u64));
            }
            r.push(o);
            assert(outputs_view(r@) =~= before.push(basic_output_to(a@, (n - m) as u64)));
        }
        i = i + 1;
    }
    assert(ins.take(i as int) =~= ins);
    r
}

} // verus!
