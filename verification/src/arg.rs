use vstd::prelude::*;
use vstd::string::StringExecFns;
use crate::error::Error;
use crate::name::{Name, NameModel, name_text};

verus! {

/// One raw command-line argument: either valid text, or the raw bytes of
/// an argument that is not valid text. Arguments that are not valid text
/// never take part in flag syntax; they degrade to positional arguments
/// or to raw flag values.
#[derive(Debug, PartialEq)]
pub enum RawArg {
    Text(String),
    Bytes(Vec<u8>),
}

/// Mathematical model of a [`RawArg`].
pub enum ArgModel {
    Text(Seq<char>),
    Bytes(Seq<u8>),
}

impl View for RawArg {
    type V = ArgModel;

    open spec fn view(&self) -> ArgModel {
        match self {
            RawArg::Text(s) => ArgModel::Text(s@),
            RawArg::Bytes(b) => ArgModel::Bytes(b@),
        }
    }
}

impl RawArg {
    /// An owned copy with the same contents.
    pub fn dup(&self) -> (r: RawArg)
        ensures
            r@ == self@,
    {
        match self {
            RawArg::Text(s) => RawArg::Text(s.clone()),
            RawArg::Bytes(b) => {
                let mut copy: Vec<u8> = Vec::new();
                let mut i: usize = 0;
                while i < b.len()
                    invariant
                        i <= b.len(),
                        copy@ =~= b@.subrange(0, i as int),
                    decreases b.len() - i,
                {
                    copy.push(b[i]);
                    i = i + 1;
                }
                proof {
                    assert(copy@ =~= b@);
                }
                RawArg::Bytes(copy)
            },
        }
    }
}

/// The message of the error raised when a flag that needs text gets an
/// argument that is not valid text.
pub open spec fn non_unicode_msg(n: NameModel) -> Seq<char> {
    "Non-unicode arg for "@ + name_text(n)
}

/// Raw argument value given for a non-boolean flag, together with the
/// spelling of the flag it was given for.
pub struct Arg {
    name: Name,
    arg: RawArg,
}

impl View for Arg {
    type V = (NameModel, ArgModel);

    closed spec fn view(&self) -> (NameModel, ArgModel) {
        (self.name@, self.arg@)
    }
}

impl Arg {
    /// Pair a raw value with the flag name it was given for.
    pub fn new(name: Name, arg: RawArg) -> (a: Arg)
        ensures
            a@ == (name@, arg@),
    {
        Arg { name, arg }
    }

    /// Access the raw value given on the command line, which may not be
    /// valid text.
    pub fn get_raw(self) -> (r: RawArg)
        ensures
            r@ == self@.1,
    {
        self.arg
    }

    /// Access the value as text. An argument that is not valid text is
    /// an error naming the flag.
    pub fn get_str(self) -> (r: Result<String, Error>)
        ensures
            self@.1 matches ArgModel::Text(t) ==> (r matches Ok(s) && s@ == t),
            self@.1 is Bytes ==> (r matches Err(e) && e@ == non_unicode_msg(self@.0)),
    {
        let Arg { name, arg } = self;
        match arg {
            RawArg::Text(s) => Ok(s),
            RawArg::Bytes(_) => {
                let mut m = String::from_str("Non-unicode arg for ");
                let rendered = name.to_text();
                m.append(rendered.as_str());
                Err(Error::new(m.as_str()))
            },
        }
    }
}

} // verus!
