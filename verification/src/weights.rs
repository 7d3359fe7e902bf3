//! The weights of the calls and transaction extensions of the pallets.
use vstd::prelude::*;

use crate::runtime::Weight;

verus! {

/// Weights of the origin restriction pallet.
pub trait OriginRestrictionWeightInfo {
    fn clean_usage() -> Weight;

    fn restrict_origin_tx_ext() -> Weight;
}

impl OriginRestrictionWeightInfo for () {
    fn clean_usage() -> (w: Weight)
        ensures
            w == (Weight { ref_time: 0, proof_size: 0 }),
    {
        Weight::zero()
    }

    fn restrict_origin_tx_ext() -> (w: Weight)
        ensures
            w == (Weight { ref_time: 0, proof_size: 0 }),
    {
        Weight::zero()
    }
}

/// Weights of the people lite pallet.
pub trait PeopleLiteWeightInfo {
    fn as_lite_person_tx_ext() -> Weight;

    fn as_lite_person_registration_tx_ext() -> Weight;

    fn increase_attestation_allowance() -> Weight;

    fn clear_attestation_allowance() -> Weight;

    fn attest() -> Weight;

    fn cancel_attestation() -> Weight;

    fn register() -> Weight;

    fn dispatch_as_signer() -> Weight;
}

impl PeopleLiteWeightInfo for () {
    fn as_lite_person_tx_ext() -> (w: Weight)
        ensures
            w == (Weight { ref_time: 0, proof_size: 0 }),
    {
        Weight::zero()
    }

    fn as_lite_person_registration_tx_ext() -> (w: Weight)
        ensures
            w == (Weight { ref_time: 0, proof_size: 0 }),
    {
        Weight::zero()
    }

    fn increase_attestation_allowance() -> (w: Weight)
        ensures
            w == (Weight { ref_time: 0, proof_size: 0 }),
    {
        Weight::zero()
    }

    fn clear_attestation_allowance() -> (w: Weight)
        ensures
            w == (Weight { ref_time: 0, proof_size: 0 }),
    {
        Weight::zero()
    }

    fn attest() -> (w: Weight)
        ensures
            w == (Weight { ref_time: 0, proof_size: 0 }),
    {
        Weight::zero()
    }

    fn cancel_attestation() -> (w: Weight)
        ensures
            w == (Weight { ref_time: 0, proof_size: 0 }),
    {
        Weight::zero()
    }

    fn register() -> (w: Weight)
        ensures
            w == (Weight { ref_time: 0, proof_size: 0 }),
    {
        Weight::zero()
    }

    fn dispatch_as_signer() -> (w: Weight)
        ensures
            w == (Weight { ref_time: 0, proof_size: 0 }),
    {
        Weight::zero()
    }
}

/// Weights of the resources pallet.
pub trait ResourcesWeightInfo {
    fn register_lite_person() -> Weight;

    fn register_person() -> Weight;

    fn touch_person_authorization() -> Weight;

    fn remove_expired_username_reservation() -> Weight;

    fn update_identifier_key() -> Weight;
}

impl ResourcesWeightInfo for () {
    fn register_lite_person() -> (w: Weight)
        ensures
            w == (Weight { ref_time: 0, proof_size: 0 }),
    {
        Weight::zero()
    }

    fn register_person() -> (w: Weight)
        ensures
            w == (Weight { ref_time: 0, proof_size: 0 }),
    {
        Weight::zero()
    }

    fn touch_person_authorization() -> (w: Weight)
        ensures
            w == (Weight { ref_time: 0, proof_size: 0 }),
    {
        Weight::zero()
    }

    fn remove_expired_username_reservation() -> (w: Weight)
        ensures
            w == (Weight { ref_time: 0, proof_size: 0 }),
    {
        Weight::zero()
    }

    fn update_identifier_key() -> (w: Weight)
        ensures
            w == (Weight { ref_time: 0, proof_size: 0 }),
    {
        Weight::zero()
    }
}

/// Weights of the people pallet.
pub trait PeopleWeightInfo {
    fn as_personal_identity() -> Weight;

    fn as_personal_alias() -> Weight;

    fn under_alias() -> Weight;

    fn set_alias_account() -> Weight;

    fn unset_alias_account() -> Weight;
}

impl PeopleWeightInfo for () {
    fn as_personal_identity() -> (w: Weight)
        ensures
            w == (Weight { ref_time: 0, proof_size: 0 }),
    {
        Weight::zero()
    }

    fn as_personal_alias() -> (w: Weight)
        ensures
            w == (Weight { ref_time: 0, proof_size: 0 }),
    {
        Weight::zero()
    }

    fn under_alias() -> (w: Weight)
        ensures
            w == (Weight { ref_time: 0, proof_size: 0 }),
    {
        Weight::zero()
    }

    fn set_alias_account() -> (w: Weight)
        ensures
            w == (Weight { ref_time: 0, proof_size: 0 }),
    {
        Weight::zero()
    }

    fn unset_alias_account() -> (w: Weight)
        ensures
            w == (Weight { ref_time: 0, proof_size: 0 }),
    {
        Weight::zero()
    }
}

} // verus!
