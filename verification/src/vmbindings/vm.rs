//! Opcodes understood by the virtual machine

use vstd::prelude::*;

verus! {

/// An instruction of the virtual machine.
///
/// Each opcode is encoded in the bytecode as a single byte, its position in
/// this list (starting from 0 for `OP_HALT`).
#[allow(non_camel_case_types)]
#[derive(Debug, Clone, Copy, PartialEq, Eq, Structural)]
pub enum VmOpcode {
    OP_HALT,
    OP_PUSH8,
    OP_PUSH16,
    OP_PUSH32,
    OP_PUSH64,
    OP_PUSH_NIL,
    OP_PUSHSTR,
    OP_PUSHSTR_INTERNED,
    OP_PUSHF64,
    OP_POP,
    OP_ADD,
    OP_SUB,
    OP_MUL,
    OP_DIV,
    OP_MOD,
    OP_IADD,
    OP_IMUL,
    OP_BITWISE_AND,
    OP_BITWISE_OR,
    OP_BITWISE_XOR,
    OP_NEGATE,
    OP_NOT,
    OP_LT,
    OP_LEQ,
    OP_GT,
    OP_GEQ,
    OP_EQ,
    OP_NEQ,
    OP_OF,
    OP_ENV_NEW,
    OP_SET_LOCAL,
    OP_SET_LOCAL_FUNCTION_DEF,
    OP_GET_LOCAL,
    OP_GET_LOCAL_UP,
    OP_SET_GLOBAL,
    OP_GET_GLOBAL,
    OP_DEF_FUNCTION_PUSH,
    OP_JMP,
    OP_JMP_LONG,
    OP_JCOND,
    OP_JNCOND,
    OP_CALL,
    OP_RET,
    OP_JCOND_NO_POP,
    OP_JNCOND_NO_POP,
    OP_DICT_NEW,
    OP_MEMBER_GET,
    OP_MEMBER_GET_NO_POP,
    OP_MEMBER_SET,
    OP_DICT_LOAD,
    OP_ARRAY_LOAD,
    OP_INDEX_GET,
    OP_INDEX_GET_NO_POP,
    OP_INDEX_SET,
    OP_TRY,
    OP_RAISE,
    OP_EXFRAME_RET,
    OP_RETCALL,
    OP_FOR_IN,
    OP_SWAP,
    OP_USE,
}

impl VmOpcode {
    /// The byte that encodes this opcode in the bytecode.
    pub open spec fn spec_byte(self) -> u8 {
        match self {
            VmOpcode::OP_HALT => 0u8,
            VmOpcode::OP_PUSH8 => 1u8,
            VmOpcode::OP_PUSH16 => 2u8,
            VmOpcode::OP_PUSH32 => 3u8,
            VmOpcode::OP_PUSH64 => 4u8,
            VmOpcode::OP_PUSH_NIL => 5u8,
            VmOpcode::OP_PUSHSTR => 6u8,
            VmOpcode::OP_PUSHSTR_INTERNED => 7u8,
            VmOpcode::OP_PUSHF64 => 8u8,
            VmOpcode::OP_POP => 9u8,
            VmOpcode::OP_ADD => 10u8,
            VmOpcode::OP_SUB => 11u8,
            VmOpcode::OP_MUL => 12u8,
            VmOpcode::OP_DIV => 13u8,
            VmOpcode::OP_MOD => 14u8,
            VmOpcode::OP_IADD => 15u8,
            VmOpcode::OP_IMUL => 16u8,
            VmOpcode::OP_BITWISE_AND => 17u8,
            VmOpcode::OP_BITWISE_OR => 18u8,
            VmOpcode::OP_BITWISE_XOR => 19u8,
            VmOpcode::OP_NEGATE => 20u8,
            VmOpcode::OP_NOT => 21u8,
            VmOpcode::OP_LT => 22u8,
            VmOpcode::OP_LEQ => 23u8,
            VmOpcode::OP_GT => 24u8,
            VmOpcode::OP_GEQ => 25u8,
            VmOpcode::OP_EQ => 26u8,
            VmOpcode::OP_NEQ => 27u8,
            VmOpcode::OP_OF => 28u8,
            VmOpcode::OP_ENV_NEW => 29u8,
            VmOpcode::OP_SET_LOCAL => 30u8,
            VmOpcode::OP_SET_LOCAL_FUNCTION_DEF => 31u8,
            VmOpcode::OP_GET_LOCAL => 32u8,
            VmOpcode::OP_GET_LOCAL_UP => 33u8,
            VmOpcode::OP_SET_GLOBAL => 34u8,
            VmOpcode::OP_GET_GLOBAL => 35u8,
            VmOpcode::OP_DEF_FUNCTION_PUSH => 36u8,
            VmOpcode::OP_JMP => 37u8,
            VmOpcode::OP_JMP_LONG => 38u8,
            VmOpcode::OP_JCOND => 39u8,
            VmOpcode::OP_JNCOND => 40u8,
            VmOpcode::OP_CALL => 41u8,
            VmOpcode::OP_RET => 42u8,
            VmOpcode::OP_JCOND_NO_POP => 43u8,
            VmOpcode::OP_JNCOND_NO_POP => 44u8,
            VmOpcode::OP_DICT_NEW => 45u8,
            VmOpcode::OP_MEMBER_GET => 46u8,
            VmOpcode::OP_MEMBER_GET_NO_POP => 47u8,
            VmOpcode::OP_MEMBER_SET => 48u8,
            VmOpcode::OP_DICT_LOAD => 49u8,
            VmOpcode::OP_ARRAY_LOAD => 50u8,
            VmOpcode::OP_INDEX_GET => 51u8,
            VmOpcode::OP_INDEX_GET_NO_POP => 52u8,
            VmOpcode::OP_INDEX_SET => 53u8,
            VmOpcode::OP_TRY => 54u8,
            VmOpcode::OP_RAISE => 55u8,
            VmOpcode::OP_EXFRAME_RET => 56u8,
            VmOpcode::OP_RETCALL => 57u8,
            VmOpcode::OP_FOR_IN => 58u8,
            VmOpcode::OP_SWAP => 59u8,
            VmOpcode::OP_USE => 60u8,
        }
    }

    /// The byte that encodes this opcode in the bytecode.
    pub fn to_byte(self) -> (b: u8)
        ensures
            b == self.spec_byte(),
    {
        match self {
            VmOpcode::OP_HALT => 0u8,
            VmOpcode::OP_PUSH8 => 1u8,
            VmOpcode::OP_PUSH16 => 2u8,
            VmOpcode::OP_PUSH32 => 3u8,
            VmOpcode::OP_PUSH64 => 4u8,
            VmOpcode::OP_PUSH_NIL => 5u8,
            VmOpcode::OP_PUSHSTR => 6u8,
            VmOpcode::OP_PUSHSTR_INTERNED => 7u8,
            VmOpcode::OP_PUSHF64 => 8u8,
            VmOpcode::OP_POP => 9u8,
            VmOpcode::OP_ADD => 10u8,
            VmOpcode::OP_SUB => 11u8,
            VmOpcode::OP_MUL => 12u8,
            VmOpcode::OP_DIV => 13u8,
            VmOpcode::OP_MOD => 14u8,
            VmOpcode::OP_IADD => 15u8,
            VmOpcode::OP_IMUL => 16u8,
            VmOpcode::OP_BITWISE_AND => 17u8,
            VmOpcode::OP_BITWISE_OR => 18u8,
            VmOpcode::OP_BITWISE_XOR => 19u8,
            VmOpcode::OP_NEGATE => 20u8,
            VmOpcode::OP_NOT => 21u8,
            VmOpcode::OP_LT => 22u8,
            VmOpcode::OP_LEQ => 23u8,
            VmOpcode::OP_GT => 24u8,
            VmOpcode::OP_GEQ => 25u8,
            VmOpcode::OP_EQ => 26u8,
            VmOpcode::OP_NEQ => 27u8,
            VmOpcode::OP_OF => 28u8,
            VmOpcode::OP_ENV_NEW => 29u8,
            VmOpcode::OP_SET_LOCAL => 30u8,
            VmOpcode::OP_SET_LOCAL_FUNCTION_DEF => 31u8,
            VmOpcode::OP_GET_LOCAL => 32u8,
            VmOpcode::OP_GET_LOCAL_UP => 33u8,
            VmOpcode::OP_SET_GLOBAL => 34u8,
            VmOpcode::OP_GET_GLOBAL => 35u8,
            VmOpcode::OP_DEF_FUNCTION_PUSH => 36u8,
            VmOpcode::OP_JMP => 37u8,
            VmOpcode::OP_JMP_LONG => 38u8,
            VmOpcode::OP_JCOND => 39u8,
            VmOpcode::OP_JNCOND => 40u8,
            VmOpcode::OP_CALL => 41u8,
            VmOpcode::OP_RET => 42u8,
            VmOpcode::OP_JCOND_NO_POP => 43u8,
            VmOpcode::OP_JNCOND_NO_POP => 44u8,
            VmOpcode::OP_DICT_NEW => 45u8,
            VmOpcode::OP_MEMBER_GET => 46u8,
            VmOpcode::OP_MEMBER_GET_NO_POP => 47u8,
            VmOpcode::OP_MEMBER_SET => 48u8,
            VmOpcode::OP_DICT_LOAD => 49u8,
            VmOpcode::OP_ARRAY_LOAD => 50u8,
            VmOpcode::OP_INDEX_GET => 51u8,
            VmOpcode::OP_INDEX_GET_NO_POP => 52u8,
            VmOpcode::OP_INDEX_SET => 53u8,
            VmOpcode::OP_TRY => 54u8,
            VmOpcode::OP_RAISE => 55u8,
            VmOpcode::OP_EXFRAME_RET => 56u8,
            VmOpcode::OP_RETCALL => 57u8,
            VmOpcode::OP_FOR_IN => 58u8,
            VmOpcode::OP_SWAP => 59u8,
            VmOpcode::OP_USE => 60u8,
        }
    }

    /// The opcode that a byte encodes, if any.
    pub open spec fn spec_from_byte(b: u8) -> Option<VmOpcode> {
        if b == 0u8 { Some(VmOpcode::OP_HALT) }
        else if b == 1u8 { Some(VmOpcode::OP_PUSH8) }
        else if b == 2u8 { Some(VmOpcode::OP_PUSH16) }
        else if b == 3u8 { Some(VmOpcode::OP_PUSH32) }
        else if b == 4u8 { Some(VmOpcode::OP_PUSH64) }
        else if b == 5u8 { Some(VmOpcode::OP_PUSH_NIL) }
        else if b == 6u8 { Some(VmOpcode::OP_PUSHSTR) }
        else if b == 7u8 { Some(VmOpcode::OP_PUSHSTR_INTERNED) }
        else if b == 8u8 { Some(VmOpcode::OP_PUSHF64) }
        else if b == 9u8 { Some(VmOpcode::OP_POP) }
        else if b == 10u8 { Some(VmOpcode::OP_ADD) }
        else if b == 11u8 { Some(VmOpcode::OP_SUB) }
        else if b == 12u8 { Some(VmOpcode::OP_MUL) }
        else if b == 13u8 { Some(VmOpcode::OP_DIV) }
        else if b == 14u8 { Some(VmOpcode::OP_MOD) }
        else if b == 15u8 { Some(VmOpcode::OP_IADD) }
        else if b == 16u8 { Some(VmOpcode::OP_IMUL) }
        else if b == 17u8 { Some(VmOpcode::OP_BITWISE_AND) }
        else if b == 18u8 { Some(VmOpcode::OP_BITWISE_OR) }
        else if b == 19u8 { Some(VmOpcode::OP_BITWISE_XOR) }
        else if b == 20u8 { Some(VmOpcode::OP_NEGATE) }
        else if b == 21u8 { Some(VmOpcode::OP_NOT) }
        else if b == 22u8 { Some(VmOpcode::OP_LT) }
        else if b == 23u8 { Some(VmOpcode::OP_LEQ) }
        else if b == 24u8 { Some(VmOpcode::OP_GT) }
        else if b == 25u8 { Some(VmOpcode::OP_GEQ) }
        else if b == 26u8 { Some(VmOpcode::OP_EQ) }
        else if b == 27u8 { Some(VmOpcode::OP_NEQ) }
        else if b == 28u8 { Some(VmOpcode::OP_OF) }
        else if b == 29u8 { Some(VmOpcode::OP_ENV_NEW) }
        else if b == 30u8 { Some(VmOpcode::OP_SET_LOCAL) }
        else if b == 31u8 { Some(VmOpcode::OP_SET_LOCAL_FUNCTION_DEF) }
        else if b == 32u8 { Some(VmOpcode::OP_GET_LOCAL) }
        else if b == 33u8 { Some(VmOpcode::OP_GET_LOCAL_UP) }
        else if b == 34u8 { Some(VmOpcode::OP_SET_GLOBAL) }
        else if b == 35u8 { Some(VmOpcode::OP_GET_GLOBAL) }
        else if b == 36u8 { Some(VmOpcode::OP_DEF_FUNCTION_PUSH) }
        else if b == 37u8 { Some(VmOpcode::OP_JMP) }
        else if b == 38u8 { Some(VmOpcode::OP_JMP_LONG) }
        else if b == 39u8 { Some(VmOpcode::OP_JCOND) }
        else if b == 40u8 { Some(VmOpcode::OP_JNCOND) }
        else if b == 41u8 { Some(VmOpcode::OP_CALL) }
        else if b == 42u8 { Some(VmOpcode::OP_RET) }
        else if b == 43u8 { Some(VmOpcode::OP_JCOND_NO_POP) }
        else if b == 44u8 { Some(VmOpcode::OP_JNCOND_NO_POP) }
        else if b == 45u8 { Some(VmOpcode::OP_DICT_NEW) }
        else if b == 46u8 { Some(VmOpcode::OP_MEMBER_GET) }
        else if b == 47u8 { Some(VmOpcode::OP_MEMBER_GET_NO_POP) }
        else if b == 48u8 { Some(VmOpcode::OP_MEMBER_SET) }
        else if b == 49u8 { Some(VmOpcode::OP_DICT_LOAD) }
        else if b == 50u8 { Some(VmOpcode::OP_ARRAY_LOAD) }
        else if b == 51u8 { Some(VmOpcode::OP_INDEX_GET) }
        else if b == 52u8 { Some(VmOpcode::OP_INDEX_GET_NO_POP) }
        else if b == 53u8 { Some(VmOpcode::OP_INDEX_SET) }
        else if b == 54u8 { Some(VmOpcode::OP_TRY) }
        else if b == 55u8 { Some(VmOpcode::OP_RAISE) }
        else if b == 56u8 { Some(VmOpcode::OP_EXFRAME_RET) }
        else if b == 57u8 { Some(VmOpcode::OP_RETCALL) }
        else if b == 58u8 { Some(VmOpcode::OP_FOR_IN) }
        else if b == 59u8 { Some(VmOpcode::OP_SWAP) }
        else if b == 60u8 { Some(VmOpcode::OP_USE) }
        else { None }
    }

    /// Decodes a byte of bytecode into the opcode it stands for.
    pub fn from_byte(b: u8) -> (r: Option<VmOpcode>)
        ensures
            r == VmOpcode::spec_from_byte(b),
    {
        match b {
            0u8 => Some(VmOpcode::OP_HALT),
            1u8 => Some(VmOpcode::OP_PUSH8),
            2u8 => Some(VmOpcode::OP_PUSH16),
            3u8 => Some(VmOpcode::OP_PUSH32),
            4u8 => Some(VmOpcode::OP_PUSH64),
            5u8 => Some(VmOpcode::OP_PUSH_NIL),
            6u8 => Some(VmOpcode::OP_PUSHSTR),
            7u8 => Some(VmOpcode::OP_PUSHSTR_INTERNED),
            8u8 => Some(VmOpcode::OP_PUSHF64),
            9u8 => Some(VmOpcode::OP_POP),
            10u8 => Some(VmOpcode::OP_ADD),
            11u8 => Some(VmOpcode::OP_SUB),
            12u8 => Some(VmOpcode::OP_MUL),
            13u8 => Some(VmOpcode::OP_DIV),
            14u8 => Some(VmOpcode::OP_MOD),
            15u8 => Some(VmOpcode::OP_IADD),
            16u8 => Some(VmOpcode::OP_IMUL),
            17u8 => Some(VmOpcode::OP_BITWISE_AND),
            18u8 => Some(VmOpcode::OP_BITWISE_OR),
            19u8 => Some(VmOpcode::OP_BITWISE_XOR),
            20u8 => Some(VmOpcode::OP_NEGATE),
            21u8 => Some(VmOpcode::OP_NOT),
            22u8 => Some(VmOpcode::OP_LT),
            23u8 => Some(VmOpcode::OP_LEQ),
            24u8 => Some(VmOpcode::OP_GT),
            25u8 => Some(VmOpcode::OP_GEQ),
            26u8 => Some(VmOpcode::OP_EQ),
            27u8 => Some(VmOpcode::OP_NEQ),
            28u8 => Some(VmOpcode::OP_OF),
            29u8 => Some(VmOpcode::OP_ENV_NEW),
            30u8 => Some(VmOpcode::OP_SET_LOCAL),
            31u8 => Some(VmOpcode::OP_SET_LOCAL_FUNCTION_DEF),
            32u8 => Some(VmOpcode::OP_GET_LOCAL),
            33u8 => Some(VmOpcode::OP_GET_LOCAL_UP),
            34u8 => Some(VmOpcode::OP_SET_GLOBAL),
            35u8 => Some(VmOpcode::OP_GET_GLOBAL),
            36u8 => Some(VmOpcode::OP_DEF_FUNCTION_PUSH),
            37u8 => Some(VmOpcode::OP_JMP),
            38u8 => Some(VmOpcode::OP_JMP_LONG),
            39u8 => Some(VmOpcode::OP_JCOND),
            40u8 => Some(VmOpcode::OP_JNCOND),
            41u8 => Some(VmOpcode::OP_CALL),
            42u8 => Some(VmOpcode::OP_RET),
            43u8 => Some(VmOpcode::OP_JCOND_NO_POP),
            44u8 => Some(VmOpcode::OP_JNCOND_NO_POP),
            45u8 => Some(VmOpcode::OP_DICT_NEW),
            46u8 => Some(VmOpcode::OP_MEMBER_GET),
            47u8 => Some(VmOpcode::OP_MEMBER_GET_NO_POP),
            48u8 => Some(VmOpcode::OP_MEMBER_SET),
            49u8 => Some(VmOpcode::OP_DICT_LOAD),
            50u8 => Some(VmOpcode::OP_ARRAY_LOAD),
            51u8 => Some(VmOpcode::OP_INDEX_GET),
            52u8 => Some(VmOpcode::OP_INDEX_GET_NO_POP),
            53u8 => Some(VmOpcode::OP_INDEX_SET),
            54u8 => Some(VmOpcode::OP_TRY),
            55u8 => Some(VmOpcode::OP_RAISE),
            56u8 => Some(VmOpcode::OP_EXFRAME_RET),
            57u8 => Some(VmOpcode::OP_RETCALL),
            58u8 => Some(VmOpcode::OP_FOR_IN),
            59u8 => Some(VmOpcode::OP_SWAP),
            60u8 => Some(VmOpcode::OP_USE),
            _ => None,
        }
    }
}

/// Decoding a byte gives back the opcode that it encodes.
pub proof fn lemma_opcode_byte_roundtrip(op: VmOpcode)
    ensures
        VmOpcode::spec_from_byte(op.spec_byte()) == Some(op),
{
}

/// Two different opcodes never share a byte.
pub proof fn lemma_opcode_byte_injective(a: VmOpcode, b: VmOpcode)
    ensures
        a.spec_byte() == b.spec_byte() ==> a == b,
{
    lemma_opcode_byte_roundtrip(a);
    lemma_opcode_byte_roundtrip(b);
}

} // verus!
