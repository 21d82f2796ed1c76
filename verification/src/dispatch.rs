use vstd::prelude::*;
use crate::arg::{Arg, ArgModel, RawArg};
use crate::error::Error;
use crate::name::Name;
use crate::state::{Flag, bump};
use crate::value::Value;

verus! {

/// What one flag occurrence publishes, as decided by the parse driver.
#[derive(Debug, PartialEq)]
pub enum Effect {
    /// Publish a boolean: `true` for the flag itself, `false` for its
    /// `--no` negation.
    SetBool(bool),
    /// Parse the given raw value and publish the result.
    Assign(RawArg),
}

/// Mathematical model of an [`Effect`].
pub enum EffectModel {
    SetBool(bool),
    Assign(ArgModel),
}

impl View for Effect {
    type V = EffectModel;

    open spec fn view(&self) -> EffectModel {
        match self {
            Effect::SetBool(b) => EffectModel::SetBool(*b),
            Effect::Assign(arg) => EffectModel::Assign(arg@),
        }
    }
}

/// One publication decided by the parse driver: which registered flag,
/// and what it publishes.
#[derive(Debug, PartialEq)]
pub struct Action {
    /// Position of the flag in the registry, in registration order.
    pub flag: usize,
    /// What the occurrence publishes.
    pub effect: Effect,
}

/// Mathematical model of an [`Action`].
#[verifier::ext_equal]
pub struct ActionModel {
    pub flag: int,
    pub effect: EffectModel,
}

impl View for Action {
    type V = ActionModel;

    open spec fn view(&self) -> ActionModel {
        ActionModel { flag: self.flag as int, effect: self.effect@ }
    }
}

impl<T: Value> Flag<T> {
    /// Apply one publication to this flag's cell: publish the boolean,
    /// or parse the raw value and publish the result. A value that does
    /// not parse leaves the cell untouched and hands the parser's error
    /// back; the caller reports it and exits.
    ///
    /// The effect must suit the type: boolean publications go to
    /// boolean flags, values to all others, as the driver's actions
    /// always do when the registry descriptor says what the type is.
    pub fn apply(&mut self, name: Name, effect: &Effect) -> (r: Result<(), Error>)
        requires
            (effect@ is SetBool) == T::spec_is_bool(),
        ensures
            match effect@ {
                EffectModel::SetBool(b) => {
                    &&& r is Ok
                    &&& final(self)@.count == bump(old(self)@.count)
                    &&& final(self)@.value matches Some(v) && v@ == T::spec_from_bool(b)
                },
                EffectModel::Assign(arg) => match T::spec_parse(name@, arg) {
                    Ok(m) => {
                        &&& r is Ok
                        &&& final(self)@.count == bump(old(self)@.count)
                        &&& final(self)@.value matches Some(v) && v@ == m
                    },
                    Err(msg) => {
                        &&& r matches Err(e) && e@ == msg
                        &&& final(self)@ == old(self)@
                    },
                },
            },
    {
        match effect {
            Effect::SetBool(b) => {
                self.set(T::from_bool(*b));
                Ok(())
            },
            Effect::Assign(raw) => {
                match T::parse(Arg::new(name, raw.dup())) {
                    Ok(value) => {
                        self.set(value);
                        Ok(())
                    },
                    Err(e) => Err(e),
                }
            },
        }
    }
}

} // verus!
