//! Thales ProtectServer (PTK-C) HSMs.
use super::AttributeDerivation;
use crate::token::{AttributeType, MechanismType};
use vstd::prelude::*;

verus! {

const CKM_BIP32_MASTER_DERIVE: u64 = 0x8000_0501;

const CKM_BIP32_CHILD_DERIVE: u64 = 0x8000_0502;

const CKA_BIP32_CHAIN_CODE: u64 = 0x8000_0601;

const CKA_BIP32_DEPTH: u64 = 0x8000_0602;

const CKA_BIP32_PARENT_FINGERPRINT: u64 = 0x8000_0603;

const CKA_BIP32_CHILD_INDEX: u64 = 0x8000_0604;

/// The numbers of Thales ProtectServer HSMs.
#[derive(Clone, Copy, Debug, Default)]
pub struct ThalesBackend;

impl AttributeDerivation for ThalesBackend {
    fn backend_name(&self) -> (n: &'static str)
        ensures
            n@ == "thales"@,
    {
        "thales"
    }

    fn master_derive_mechanism(&self) -> (m: MechanismType)
        ensures
            m == (MechanismType { value: 0x8000_0501 }),
    {
        MechanismType::new_vendor_defined(CKM_BIP32_MASTER_DERIVE).unwrap()
    }

    fn child_derive_mechanism(&self) -> (m: MechanismType)
        ensures
            m == (MechanismType { value: 0x8000_0502 }),
    {
        MechanismType::new_vendor_defined(CKM_BIP32_CHILD_DERIVE).unwrap()
    }

    fn chain_code_attribute(&self) -> (a: AttributeType)
        ensures
            a == AttributeType::VendorDefined(0x8000_0601),
    {
        AttributeType::VendorDefined(CKA_BIP32_CHAIN_CODE)
    }

    fn depth_attribute(&self) -> (a: AttributeType)
        ensures
            a == AttributeType::VendorDefined(0x8000_0602),
    {
        AttributeType::VendorDefined(CKA_BIP32_DEPTH)
    }

    fn parent_fingerprint_attribute(&self) -> (a: AttributeType)
        ensures
            a == AttributeType::VendorDefined(0x8000_0603),
    {
        AttributeType::VendorDefined(CKA_BIP32_PARENT_FINGERPRINT)
    }

    fn child_index_attribute(&self) -> (a: AttributeType)
        ensures
            a == AttributeType::VendorDefined(0x8000_0604),
    {
        AttributeType::VendorDefined(CKA_BIP32_CHILD_INDEX)
    }
}

} // verus!
