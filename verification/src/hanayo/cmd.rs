//! The argument of hana's `Cmd` constructor: a shell command line, or a
//! program followed by its arguments.

use vstd::prelude::*;

verus! {

/// A member of the array given to `Cmd`: a string, or a value of another kind.
pub enum CmdItem {
    Str(String),
    Other,
}

/// What `Cmd` is given: a string, an array, or a value of another kind.
pub enum CmdArg {
    Str(String),
    Array(Vec<CmdItem>),
    Other,
}

/// Why `Cmd` refused its argument.
#[derive(Debug, Clone, Copy, PartialEq, Eq, Structural)]
pub enum CmdArgError {
    /// The array is empty.
    EmptyArray,
    /// The first member of the array is not a string.
    CommandNotString,
    /// A later member of the array is not a string.
    ArgumentNotString,
    /// The argument is neither a string nor an array.
    NotStringOrArray,
}

/// The text of a member of the array, if it is a string.
pub open spec fn item_text(x: CmdItem) -> Option<Seq<char>> {
    match x {
        CmdItem::Str(s) => Some(s@),
        CmdItem::Other => None,
    }
}

impl CmdArgError {
    /// The reason given with the invalid-argument error.
    pub fn why(&self) -> (s: &'static str)
        ensures
            *self == CmdArgError::EmptyArray ==> s@ == "Expected argument array to have at least 1 member"@,
            *self == CmdArgError::CommandNotString ==> s@ == "Expected command to be of string type"@,
            *self == CmdArgError::ArgumentNotString ==> s@ == "Expected argument to be of string type"@,
            *self == CmdArgError::NotStringOrArray ==> s@ == "Expected argument to be of string or array type"@,
    {
        match self {
            CmdArgError::EmptyArray => "Expected argument array to have at least 1 member",
            CmdArgError::CommandNotString => "Expected command to be of string type",
            CmdArgError::ArgumentNotString => "Expected argument to be of string type",
            CmdArgError::NotStringOrArray => "Expected argument to be of string or array type",
        }
    }
}

/// The program and arguments that `Cmd(arg)` runs: `sh -c s` for a string
/// `s`; for an array, its first member as the program and the others as its
/// arguments.
pub fn command_of(arg: &CmdArg) -> (r: Result<(String, Vec<String>), CmdArgError>)
    ensures
        match *arg {
            CmdArg::Str(s) => r matches Ok((prog, args)) && prog@ == "sh"@ && args@.map_values(
                |a: String| a@,
            ) == seq!["-c"@, s@],
            CmdArg::Array(a) => {
                &&& (a@.len() == 0 <==> r == Err::<(String, Vec<String>), CmdArgError>(CmdArgError::EmptyArray))
                &&& (a@.len() > 0 && item_text(a@[0]) is None <==> r == Err::<(String, Vec<String>), CmdArgError>(
                    CmdArgError::CommandNotString,
                ))
                &&& (a@.len() > 0 && item_text(a@[0]) is Some && (exists|i: int|
                    1 <= i < a@.len() && #[trigger] item_text(a@[i]) is None) <==> r == Err::<
                    (String, Vec<String>),
                    CmdArgError,
                >(CmdArgError::ArgumentNotString))
                &&& (a@.len() > 0 && (forall|i: int| 0 <= i < a@.len() ==> #[trigger] item_text(a@[i]) is Some)
                    ==> r is Ok)
                &&& (r matches Ok((prog, args)) ==> a@.len() > 0 && item_text(a@[0]) == Some(prog@)
                    && args@.len() == a@.len() - 1 && forall|i: int|
                    0 <= i < args@.len() ==> item_text(a@[i + 1]) == Some(#[trigger] args@[i]@))
            },
            CmdArg::Other => r == Err::<(String, Vec<String>), CmdArgError>(CmdArgError::NotStringOrArray),
        },
{
    match arg {
        CmdArg::Str(s) => {
            let mut args: Vec<String> = Vec::new();
            args.push("-c".to_owned());
            args.push(s.clone());
            proof {
                reveal_strlit("-c");
                assert(args@.map_values(|a: String| a@) =~= seq!["-c"@, s@]);
            }
            Ok(("sh".to_owned(), args))
        },
        CmdArg::Array(a) => {
            if a.len() == 0 {
                return Err(CmdArgError::EmptyArray);
            }
            let prog = match &a[0] {
                CmdItem::Str(s) => s.clone(),
                CmdItem::Other => {
                    return Err(CmdArgError::CommandNotString);
                },
            };
            let mut args: Vec<String> = Vec::new();
            let mut i: usize = 1;
            while i < a.len()
                invariant
                    1 <= i <= a@.len(),
                    *arg == CmdArg::Array(*a),
                    item_text(a@[0]) == Some(prog@),
                    args@.len() == i - 1,
                    forall|k: int| 1 <= k < i ==> item_text(#[trigger] a@[k]) is Some,
                    forall|k: int| 0 <= k < args@.len() ==> item_text(a@[k + 1]) == Some(#[trigger] args@[k]@),
                decreases a.len() - i,
            {
                match &a[i] {
                    CmdItem::Str(s) => {
                        args.push(s.clone());
                    },
                    CmdItem::Other => {
                        assert(item_text(a@[i as int]) is None);
                        assert(exists|k: int| 1 <= k < a@.len() && #[trigger] item_text(a@[k]) is None);
                        return Err(CmdArgError::ArgumentNotString);
                    },
                }
                i += 1;
            }
            Ok((prog, args))
        },
        CmdArg::Other => Err(CmdArgError::NotStringOrArray),
    }
}

} // verus!
