//! Strings of the virtual machine: either shared with the code that holds
//! them (copy-on-write) or owned.

use std::rc::Rc;
use vstd::prelude::*;

verus! {

/// A string shared with the code that holds it; it is copied before it is
/// changed.
pub struct CowStringData {
    data: Rc<String>,
}

/// The storage of a `HaruString`.
pub enum HaruStringData {
    CowString(CowStringData),
    String(String),
}

impl HaruStringData {
    /// Is the string shared?
    pub open spec fn spec_is_cow(&self) -> bool {
        self is CowString
    }

    /// The characters of the string.
    pub closed spec fn contents(&self) -> Seq<char> {
        match self {
            HaruStringData::CowString(c) => (*c.data)@,
            HaruStringData::String(s) => s@,
        }
    }

    fn is_cow(&self) -> (b: bool)
        ensures
            b == self.spec_is_cow(),
    {
        match self {
            HaruStringData::CowString(_) => true,
            _ => false,
        }
    }
}

/// A string of the virtual machine.
pub struct HaruString {
    data: HaruStringData,
}

impl View for HaruString {
    type V = Seq<char>;

    closed spec fn view(&self) -> Seq<char> {
        self.data.contents()
    }
}

impl HaruString {
    /// Is the string shared (not yet copied)?
    pub closed spec fn shared(&self) -> bool {
        self.data.spec_is_cow()
    }

    /// A string that shares `data` until it is changed.
    pub fn new_cow(data: Rc<String>) -> (s: HaruString)
        ensures
            s@ == (*data)@,
            s.shared(),
    {
        HaruString { data: HaruStringData::CowString(CowStringData { data }) }
    }

    /// An owned string.
    pub fn from_string(s: String) -> (h: HaruString)
        ensures
            h@ == s@,
            !h.shared(),
    {
        HaruString { data: HaruStringData::String(s) }
    }

    /// An owned copy of `s`.
    pub fn from_str(s: &str) -> (h: HaruString)
        ensures
            h@ == s@,
            !h.shared(),
    {
        HaruString { data: HaruStringData::String(s.to_owned()) }
    }

    /// Is the string still shared?
    pub fn is_cow(&self) -> (b: bool)
        ensures
            b == self.shared(),
    {
        self.data.is_cow()
    }

    /// Do the two strings hold the same text, whether shared or not?
    pub fn same_text(&self, other: &HaruString) -> (b: bool)
        ensures
            b == (self@ == other@),
    {
        crate::text::str_equal(self.as_string().as_str(), other.as_string().as_str())
    }

    /// The string.
    pub fn as_string(&self) -> (s: &String)
        ensures
            s@ == self@,
    {
        match &self.data {
            HaruStringData::CowString(c) => &*c.data,
            HaruStringData::String(s) => s,
        }
    }

    /// The string, to change it: a shared string is copied first.
    #[verifier::loop_isolation(false)]
    pub fn to_mut(&mut self) -> (s: &mut String)
        ensures
            (*s)@ == old(self)@,
            final(self)@ == (*final(s))@,
            !final(self).shared(),
    {
        if self.data.is_cow() {
            let copy = self.as_string().clone();
            self.data = HaruStringData::String(copy);
        }
        match &mut self.data {
            HaruStringData::String(s) => s,
            HaruStringData::CowString(_) => {
                proof {
                    assert(false);
                }
                loop
                    decreases 0nat,
                {
                }
            },
        }
    }
}

} // verus!
