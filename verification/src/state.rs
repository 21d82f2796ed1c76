use vstd::prelude::*;
use crate::atomic::StaticAtomicPtr;

verus! {

/// The readable record of a flag's current value.
pub struct Accessor<T> {
    /// Value of the flag.
    pub flag: T,
}

/// The state associated with a single flag: the current value, if one is
/// readable, and how many times a value was published from the command
/// line.
///
/// A flag constructed with [`Flag::new`] starts out with a readable
/// default and a repeat count of zero; one constructed with
/// [`Flag::null`] has no readable value until the parse publishes one.
/// Each publication replaces the readable value and increments the
/// count, so a reader that observes the count also observes the value
/// published with it.
pub struct Flag<T> {
    cell: StaticAtomicPtr<Accessor<T>>,
    present: u64,
}

/// Mathematical model of a [`Flag`]: the readable value, if any, and the
/// number of publications.
pub struct FlagModel<T> {
    pub value: Option<T>,
    pub count: u64,
}

/// A publication count one higher, staying put at the top of `u64`.
pub open spec fn bump(c: u64) -> u64 {
    if c < u64::MAX {
        (c + 1) as u64
    } else {
        c
    }
}

/// The publication count after `n` publications on top of `c`.
pub open spec fn bump_n(c: u64, n: nat) -> u64
    decreases n,
{
    if n == 0 {
        c
    } else {
        bump(bump_n(c, (n - 1) as nat))
    }
}

/// Publication counting is exact: a flag that starts absent and is
/// published N times has a repeat count of N, and is present exactly
/// when N is positive.
pub proof fn lemma_repeat_count_exact(n: nat)
    requires
        n <= u64::MAX,
    ensures
        bump_n(0, n) == n,
        (bump_n(0, n) != 0) == (n > 0),
    decreases n,
{
    if n > 0 {
        lemma_repeat_count_exact((n - 1) as nat);
    }
}

impl<T> View for Flag<T> {
    type V = FlagModel<T>;

    closed spec fn view(&self) -> FlagModel<T> {
        FlagModel {
            value: match self.cell@ {
                Some(a) => Some(a.flag),
                None => None,
            },
            count: self.present,
        }
    }
}

impl<T> Flag<T> {
    /// A flag whose value defaults to `default` until the command line
    /// publishes a replacement.
    pub fn new(default: T) -> (f: Self)
        ensures
            f@.value == Some(default),
            f@.count == 0,
    {
        Flag { cell: StaticAtomicPtr::new(Accessor { flag: default }), present: 0 }
    }

    /// A flag with no default: reading it before a publication is a
    /// contract violation.
    pub fn null() -> (f: Self)
        ensures
            f@.value is None,
            f@.count == 0,
    {
        Flag { cell: StaticAtomicPtr::null(), present: 0 }
    }

    /// Whether this flag was provided on the command line.
    ///
    /// When using flags for which a default value is not provided, be
    /// sure to check `is_present()`, because reading the value of a flag
    /// that is not present is a contract violation.
    pub fn is_present(&self) -> (b: bool)
        ensures
            b == (self@.count != 0),
    {
        self.present != 0
    }

    /// Count how many times the flag occurred on the command line.
    ///
    /// Useful to read a verbosity or debug level out of a repeated
    /// boolean flag.
    pub fn repeat_count(&self) -> (n: u64)
        ensures
            n == self@.count,
    {
        self.present
    }

    /// Publish a value: replace the readable value and count the
    /// occurrence.
    pub(crate) fn set(&mut self, value: T)
        ensures
            final(self)@.value == Some(value),
            final(self)@.count == bump(old(self)@.count),
    {
        self.cell.store(Accessor { flag: value });
        if self.present < u64::MAX {
            self.present = self.present + 1;
        }
    }

    /// The readable record of the flag, through which the value is
    /// reached.
    pub fn accessor(&self) -> (a: &Accessor<T>)
        requires
            self@.value is Some,
        ensures
            self@.value == Some(a.flag),
    {
        self.cell.load()
    }

    /// The current value: the latest publication, or the default.
    pub fn get(&self) -> (v: &T)
        requires
            self@.value is Some,
        ensures
            self@.value == Some(*v),
    {
        &self.accessor().flag
    }
}

} // verus!
