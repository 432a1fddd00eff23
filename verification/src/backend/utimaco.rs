//! Utimaco Blockchain Protect HSMs.
use super::AttributeDerivation;
use crate::token::{AttributeType, MechanismType};
use vstd::prelude::*;

verus! {

const CKM_BIP32_MASTER_DERIVE: u64 = 0x8000_0001;

const CKM_BIP32_CHILD_DERIVE: u64 = 0x8000_0002;

const CKA_BIP32_CHAIN_CODE: u64 = 0x8000_0101;

const CKA_BIP32_DEPTH: u64 = 0x8000_0102;

const CKA_BIP32_PARENT_FINGERPRINT: u64 = 0x8000_0103;

const CKA_BIP32_CHILD_INDEX: u64 = 0x8000_0104;

/// The numbers of Utimaco Blockchain Protect HSMs.
#[derive(Clone, Copy, Debug, Default)]
pub struct UtimacoBackend;

impl AttributeDerivation for UtimacoBackend {
    fn backend_name(&self) -> (n: &'static str)
        ensures
            n@ == "utimaco"@,
    {
        "utimaco"
    }

    fn master_derive_mechanism(&self) -> (m: MechanismType)
        ensures
            m == (MechanismType { value: 0x8000_0001 }),
    {
        MechanismType::new_vendor_defined(CKM_BIP32_MASTER_DERIVE).unwrap()
    }

    fn child_derive_mechanism(&self) -> (m: MechanismType)
        ensures
            m == (MechanismType { value: 0x8000_0002 }),
    {
        MechanismType::new_vendor_defined(CKM_BIP32_CHILD_DERIVE).unwrap()
    }

    fn chain_code_attribute(&self) -> (a: AttributeType)
        ensures
            a == AttributeType::VendorDefined(0x8000_0101),
    {
        AttributeType::VendorDefined(CKA_BIP32_CHAIN_CODE)
    }

    fn depth_attribute(&self) -> (a: AttributeType)
        ensures
            a == AttributeType::VendorDefined(0x8000_0102),
    {
        AttributeType::VendorDefined(CKA_BIP32_DEPTH)
    }

    fn parent_fingerprint_attribute(&self) -> (a: AttributeType)
        ensures
            a == AttributeType::VendorDefined(0x8000_0103),
    {
        AttributeType::VendorDefined(CKA_BIP32_PARENT_FINGERPRINT)
    }

    fn child_index_attribute(&self) -> (a: AttributeType)
        ensures
            a == AttributeType::VendorDefined(0x8000_0104),
    {
        AttributeType::VendorDefined(CKA_BIP32_CHILD_INDEX)
    }
}

} // verus!
