//! Errors of the virtual machine and the messages that describe them.

use vstd::prelude::*;

verus! {

/// Why the virtual machine stopped.
#[derive(Debug, Clone, Copy, PartialEq, Eq, Structural)]
#[allow(non_camel_case_types)]
pub enum VmError {
    ERROR_NO_ERROR,
    ERROR_OP_ADD,
    ERROR_OP_SUB,
    ERROR_OP_MUL,
    ERROR_OP_DIV,
    ERROR_OP_MOD,
    ERROR_OP_AND,
    ERROR_OP_OR,
    ERROR_OP_LT,
    ERROR_OP_LEQ,
    ERROR_OP_GT,
    ERROR_OP_GEQ,
    ERROR_OP_EQ,
    ERROR_OP_NEQ,
    ERROR_UNDEFINED_GLOBAL_VAR,
    ERROR_RECORD_NO_CONSTRUCTOR,
    ERROR_CONSTRUCTOR_NOT_FUNCTION,
    ERROR_MISMATCH_ARGUMENTS,
    ERROR_EXPECTED_CALLABLE,
    ERROR_CANNOT_ACCESS_NON_RECORD,
    ERROR_KEY_NON_INT,
    ERROR_RECORD_KEY_NON_STRING,
    ERROR_UNBOUNDED_ACCESS,
    ERROR_EXPECTED_RECORD_ARRAY,
    ERROR_CASE_EXPECTS_DICT,
    ERROR_UNHANDLED_EXCEPTION,
    ERROR_EXPECTED_ITERABLE,
    ERROR_EXPECTED_RECORD_OF_EXPR,
    ERROR_UNKNOWN_KEY,
}

impl VmError {
    /// Is it the error of an operator?
    pub open spec fn is_op(self) -> bool {
        match self {
            VmError::ERROR_OP_ADD | VmError::ERROR_OP_SUB | VmError::ERROR_OP_MUL | VmError::ERROR_OP_DIV
            | VmError::ERROR_OP_MOD | VmError::ERROR_OP_AND | VmError::ERROR_OP_OR | VmError::ERROR_OP_LT
            | VmError::ERROR_OP_LEQ | VmError::ERROR_OP_GT | VmError::ERROR_OP_GEQ | VmError::ERROR_OP_EQ
            | VmError::ERROR_OP_NEQ => true,
            _ => false,
        }
    }

    /// The name of the operation of an operator error.
    pub open spec fn op_name(self) -> Seq<char> {
        match self {
            VmError::ERROR_OP_ADD => "addition"@,
            VmError::ERROR_OP_SUB => "subtraction"@,
            VmError::ERROR_OP_MUL => "multiplication"@,
            VmError::ERROR_OP_DIV => "division"@,
            VmError::ERROR_OP_MOD => "modulo"@,
            VmError::ERROR_OP_AND => "logical and"@,
            VmError::ERROR_OP_OR => "logical or"@,
            VmError::ERROR_OP_LT => "less than"@,
            VmError::ERROR_OP_LEQ => "less than or equal to"@,
            VmError::ERROR_OP_GT => "greater than"@,
            VmError::ERROR_OP_GEQ => "greater than or equal to"@,
            VmError::ERROR_OP_EQ => "equality"@,
            _ => "inequality"@,
        }
    }

    /// The message that describes the error.
    pub open spec fn text(self) -> Seq<char> {
        if self.is_op() {
            "Invalid arguments for "@ + self.op_name()
        } else {
            match self {
                VmError::ERROR_UNDEFINED_GLOBAL_VAR => "Global variable is not defined"@,
                VmError::ERROR_RECORD_NO_CONSTRUCTOR => "Cannot call record that has no constructor"@,
                VmError::ERROR_CONSTRUCTOR_NOT_FUNCTION => "Cannot call record with non-function constructor"@,
                VmError::ERROR_MISMATCH_ARGUMENTS => "Argument mismatch"@,
                VmError::ERROR_EXPECTED_CALLABLE => "Expected value to be callable (record or function)"@,
                VmError::ERROR_CANNOT_ACCESS_NON_RECORD => "Cannot access property of a nil literal"@,
                VmError::ERROR_KEY_NON_INT => "Index must be an integer value"@,
                VmError::ERROR_RECORD_KEY_NON_STRING => "Record key must be an string value"@,
                VmError::ERROR_UNBOUNDED_ACCESS => "Accessing a value that lies outside of the object's bound"@,
                VmError::ERROR_EXPECTED_RECORD_ARRAY => "Expected record or array to set an index for"@,
                VmError::ERROR_CASE_EXPECTS_DICT => "case statement expects a dictionary as handler type"@,
                VmError::ERROR_UNHANDLED_EXCEPTION => "Unhandled exception"@,
                VmError::ERROR_EXPECTED_ITERABLE => "Expected iterable (array)"@,
                VmError::ERROR_UNKNOWN_KEY => "Unknown key"@,
                _ => "[vmerror]"@,
            }
        }
    }

    /// The name of the operation of an operator error.
    pub fn method_for_op(&self) -> (s: &'static str)
        requires
            self.is_op(),
        ensures
            s@ == self.op_name(),
    {
        match self {
            VmError::ERROR_OP_ADD => "addition",
            VmError::ERROR_OP_SUB => "subtraction",
            VmError::ERROR_OP_MUL => "multiplication",
            VmError::ERROR_OP_DIV => "division",
            VmError::ERROR_OP_MOD => "modulo",
            VmError::ERROR_OP_AND => "logical and",
            VmError::ERROR_OP_OR => "logical or",
            VmError::ERROR_OP_LT => "less than",
            VmError::ERROR_OP_LEQ => "less than or equal to",
            VmError::ERROR_OP_GT => "greater than",
            VmError::ERROR_OP_GEQ => "greater than or equal to",
            VmError::ERROR_OP_EQ => "equality",
            _ => "inequality",
        }
    }

    /// The message that describes the error.
    pub fn message(&self) -> (s: String)
        ensures
            s@ == self.text(),
    {
        if self.is_op_error() {
            let mut s = "Invalid arguments for ".to_owned();
            crate::text::push_str(&mut s, self.method_for_op());
            return s;
        }
        let m = match self {
            VmError::ERROR_UNDEFINED_GLOBAL_VAR => "Global variable is not defined",
            VmError::ERROR_RECORD_NO_CONSTRUCTOR => "Cannot call record that has no constructor",
            VmError::ERROR_CONSTRUCTOR_NOT_FUNCTION => "Cannot call record with non-function constructor",
            VmError::ERROR_MISMATCH_ARGUMENTS => "Argument mismatch",
            VmError::ERROR_EXPECTED_CALLABLE => "Expected value to be callable (record or function)",
            VmError::ERROR_CANNOT_ACCESS_NON_RECORD => "Cannot access property of a nil literal",
            VmError::ERROR_KEY_NON_INT => "Index must be an integer value",
            VmError::ERROR_RECORD_KEY_NON_STRING => "Record key must be an string value",
            VmError::ERROR_UNBOUNDED_ACCESS => "Accessing a value that lies outside of the object's bound",
            VmError::ERROR_EXPECTED_RECORD_ARRAY => "Expected record or array to set an index for",
            VmError::ERROR_CASE_EXPECTS_DICT => "case statement expects a dictionary as handler type",
            VmError::ERROR_UNHANDLED_EXCEPTION => "Unhandled exception",
            VmError::ERROR_EXPECTED_ITERABLE => "Expected iterable (array)",
            VmError::ERROR_UNKNOWN_KEY => "Unknown key",
            _ => "[vmerror]",
        };
        m.to_owned()
    }

    /// Is it the error of an operator?
    pub fn is_op_error(&self) -> (b: bool)
        ensures
            b == self.is_op(),
    {
        match self {
            VmError::ERROR_OP_ADD | VmError::ERROR_OP_SUB | VmError::ERROR_OP_MUL | VmError::ERROR_OP_DIV
            | VmError::ERROR_OP_MOD | VmError::ERROR_OP_AND | VmError::ERROR_OP_OR | VmError::ERROR_OP_LT
            | VmError::ERROR_OP_LEQ | VmError::ERROR_OP_GT | VmError::ERROR_OP_GEQ | VmError::ERROR_OP_EQ
            | VmError::ERROR_OP_NEQ => true,
            _ => false,
        }
    }
}

/// The value on top of the stack when an exception goes unhandled, as
/// `VmError::hint` reads it: a record, with the printed forms of its keys
/// `what`, `why` and `where` where it has them, or another value, printed.
pub enum RaisedValue {
    Record { what: Option<String>, why: Option<String>, where_: Option<String> },
    Other(String),
}

/// The hint line for the key `key` of a raised record, if it has that key.
pub open spec fn hint_line(key: Seq<char>, value: Option<String>) -> Seq<Seq<char>> {
    match value {
        Some(v) => seq!["  "@ + key + " => "@ + v@],
        None => Seq::empty(),
    }
}

/// The hint given for an unhandled exception that raised `top`.
pub open spec fn exception_hint(top: RaisedValue) -> Seq<char> {
    match top {
        RaisedValue::Record { what, why, where_ } => {
            let lines = hint_line("what"@, what) + hint_line("why"@, why) + hint_line("where"@, where_);
            if lines.len() == 0 {
                "The exception was a record"@
            } else {
                "The exception gave the following hints:\n"@ + crate::hanayo::string::join(lines, "\n"@)
            }
        },
        RaisedValue::Other(v) => "The exception was "@ + v@,
    }
}

/// Appends the hint line for `key` to `lines` if the record has that key.
fn push_hint_line(lines: &mut Vec<String>, key: &str, value: &Option<String>)
    ensures
        final(lines)@.map_values(|l: String| l@) == old(lines)@.map_values(|l: String| l@) + hint_line(key@, *value),
{
    if let Some(v) = value {
        let mut l = "  ".to_owned();
        crate::text::push_str(&mut l, key);
        crate::text::push_str(&mut l, " => ");
        crate::text::push_str(&mut l, v.as_str());
        let ghost before = lines@.map_values(|l: String| l@);
        lines.push(l);
        assert(lines@.map_values(|l: String| l@) =~= before + hint_line(key@, *value));
    } else {
        assert(lines@.map_values(|l: String| l@) =~= old(lines)@.map_values(|l: String| l@) + hint_line(key@, *value));
    }
}

/// The hint for an unhandled exception that raised `top`.
fn raised_hint(top: &RaisedValue) -> (s: String)
    ensures
        s@ == exception_hint(*top),
{
    match top {
        RaisedValue::Record { what, why, where_ } => {
            let mut lines: Vec<String> = Vec::new();
            push_hint_line(&mut lines, "what", what);
            push_hint_line(&mut lines, "why", why);
            push_hint_line(&mut lines, "where", where_);
            let ghost ls = lines@.map_values(|l: String| l@);
            proof {
                reveal_strlit("what");
                reveal_strlit("why");
                reveal_strlit("where");
            }
            assert(ls == hint_line("what"@, *what) + hint_line("why"@, *why) + hint_line("where"@, *where_));
            if lines.len() == 0 {
                return "The exception was a record".to_owned();
            }
            let mut s = "The exception gave the following hints:\n".to_owned();
            let ghost head = s@;
            let mut i: usize = 0;
            while i < lines.len()
                invariant
                    i <= lines@.len(),
                    ls == lines@.map_values(|l: String| l@),
                    s@ == head + crate::hanayo::string::join(ls.take(i as int), "\n"@),
                decreases lines.len() - i,
            {
                let ghost prev = s@;
                if i > 0 {
                    crate::text::push_str(&mut s, "\n");
                }
                crate::text::push_str(&mut s, lines[i].as_str());
                proof {
                    let t = ls.take(i + 1);
                    assert(t.drop_last() =~= ls.take(i as int));
                    assert(t.last() == lines@[i as int]@);
                    if i == 0 {
                        assert(t.len() == 1);
                        assert(ls.take(0).len() == 0);
                        assert(s@ =~= head + crate::hanayo::string::join(t, "\n"@));
                    } else {
                        assert(s@ =~= head + crate::hanayo::string::join(t, "\n"@));
                    }
                }
                i += 1;
            }
            assert(ls.take(lines.len() as int) =~= ls);
            s
        },
        RaisedValue::Other(v) => {
            let mut s = "The exception was ".to_owned();
            crate::text::push_str(&mut s, v.as_str());
            s
        },
    }
}

impl VmError {
    /// A hint on the error: for an unhandled exception, what the raised
    /// value `top` tells of it; none for the other errors.
    pub fn hint(&self, top: &RaisedValue) -> (r: Option<String>)
        ensures
            *self == VmError::ERROR_UNHANDLED_EXCEPTION ==> (r matches Some(s) && s@ == exception_hint(*top)),
            *self != VmError::ERROR_UNHANDLED_EXCEPTION ==> r is None,
    {
        match self {
            VmError::ERROR_UNHANDLED_EXCEPTION => Some(raised_hint(top)),
            _ => None,
        }
    }
}

} // verus!
