//! The native value representation of the virtual machine.

use vstd::prelude::*;

verus! {

/// The type tags of native values.
#[derive(Debug, Clone, Copy, PartialEq, Eq, Structural)]
#[allow(non_camel_case_types)]
pub enum NativeValueType {
    TYPE_INT,
    TYPE_NATIVE_FN,
    TYPE_FN,
    TYPE_STR,
    TYPE_DICT,
    TYPE_ARRAY,
}

impl NativeValueType {
    /// The number that stands for the type in a native value.
    pub open spec fn spec_tag(self) -> u8 {
        match self {
            NativeValueType::TYPE_INT => 1,
            NativeValueType::TYPE_NATIVE_FN => 2,
            NativeValueType::TYPE_FN => 3,
            NativeValueType::TYPE_STR => 4,
            NativeValueType::TYPE_DICT => 5,
            NativeValueType::TYPE_ARRAY => 6,
        }
    }

    /// The number that stands for the type in a native value.
    pub fn tag(self) -> (t: u8)
        ensures
            t == self.spec_tag(),
    {
        match self {
            NativeValueType::TYPE_INT => 1,
            NativeValueType::TYPE_NATIVE_FN => 2,
            NativeValueType::TYPE_FN => 3,
            NativeValueType::TYPE_STR => 4,
            NativeValueType::TYPE_DICT => 5,
            NativeValueType::TYPE_ARRAY => 6,
        }
    }

    /// The type that the number `t` stands for, if any.
    pub fn from_tag(t: u8) -> (r: Option<NativeValueType>)
        ensures
            r matches Some(ty) ==> ty.spec_tag() == t,
            r is None ==> forall|ty: NativeValueType| ty.spec_tag() != t,
    {
        if t == 1 {
            Some(NativeValueType::TYPE_INT)
        } else if t == 2 {
            Some(NativeValueType::TYPE_NATIVE_FN)
        } else if t == 3 {
            Some(NativeValueType::TYPE_FN)
        } else if t == 4 {
            Some(NativeValueType::TYPE_STR)
        } else if t == 5 {
            Some(NativeValueType::TYPE_DICT)
        } else if t == 6 {
            Some(NativeValueType::TYPE_ARRAY)
        } else {
            None
        }
    }
}

/// A value of the virtual machine, as the 64 bits it is stored in.
#[derive(Debug, Clone, Copy, PartialEq, Eq, Structural)]
pub struct NativeValue(pub u64);

} // verus!
