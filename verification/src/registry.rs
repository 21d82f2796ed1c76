use vstd::prelude::*;

verus! {

/// The descriptor of one declared flag: its names, its help-text
/// metadata, and whether it is boolean. Boolean flags take no value on
/// the command line and support `--no` negation; every other flag
/// consumes exactly one value.
pub struct Flag {
    /// Documentation lines, consumed by a help renderer.
    pub doc: Vec<String>,
    /// Optional short name, a single scalar.
    pub short: Option<char>,
    /// The long name, without the leading dashes.
    pub name: String,
    /// Optional value placeholder, cosmetic help-text metadata.
    pub placeholder: Option<String>,
    /// Whether the flag is boolean.
    pub is_bool: bool,
}

/// Mathematical model of a flag descriptor.
#[verifier::ext_equal]
pub struct FlagModel {
    pub doc: Seq<Seq<char>>,
    pub short: Option<char>,
    pub name: Seq<char>,
    pub placeholder: Option<Seq<char>>,
    pub is_bool: bool,
}

impl View for Flag {
    type V = FlagModel;

    open spec fn view(&self) -> FlagModel {
        FlagModel {
            doc: self.doc@.map_values(|d: String| d@),
            short: self.short,
            name: self.name@,
            placeholder: match self.placeholder {
                Some(ref p) => Some(p@),
                None => None,
            },
            is_bool: self.is_bool,
        }
    }
}

/// The first registered flag with the given short character, looking
/// from position `i` on.
pub open spec fn lookup_short_from(reg: Seq<FlagModel>, ch: char, i: int) -> Option<int>
    decreases reg.len() - i,
{
    if i < 0 || i >= reg.len() {
        None
    } else if reg[i].short == Some(ch) {
        Some(i)
    } else {
        lookup_short_from(reg, ch, i + 1)
    }
}

/// The first registered flag with the given short character.
pub open spec fn lookup_short(reg: Seq<FlagModel>, ch: char) -> Option<int> {
    lookup_short_from(reg, ch, 0)
}

/// The first registered flag with the given long name, looking from
/// position `i` on.
pub open spec fn lookup_long_from(reg: Seq<FlagModel>, name: Seq<char>, i: int) -> Option<int>
    decreases reg.len() - i,
{
    if i < 0 || i >= reg.len() {
        None
    } else if reg[i].name == name {
        Some(i)
    } else {
        lookup_long_from(reg, name, i + 1)
    }
}

/// The first registered flag with the given long name.
pub open spec fn lookup_long(reg: Seq<FlagModel>, name: Seq<char>) -> Option<int> {
    lookup_long_from(reg, name, 0)
}

/// A well-formed registry: long names are unique, and so are the short
/// characters of the flags that have one.
pub open spec fn well_formed(reg: Seq<FlagModel>) -> bool {
    &&& forall|i: int, j: int|
        0 <= i < j < reg.len() ==> reg[i].name != reg[j].name
    &&& forall|i: int, j: int|
        0 <= i < j < reg.len() ==> !(reg[i].short is Some && reg[i].short == reg[j].short)
}

/// In a well-formed registry, looking a flag up by its own long name
/// finds exactly that flag.
pub proof fn lemma_lookup_long_self(reg: Seq<FlagModel>, i: int)
    requires
        well_formed(reg),
        0 <= i < reg.len(),
    ensures
        lookup_long(reg, reg[i].name) == Some(i),
{
    lemma_lookup_long_self_from(reg, i, 0);
}

proof fn lemma_lookup_long_self_from(reg: Seq<FlagModel>, i: int, j: int)
    requires
        well_formed(reg),
        0 <= j <= i < reg.len(),
    ensures
        lookup_long_from(reg, reg[i].name, j) == Some(i),
    decreases i - j,
{
    if j < i {
        assert(reg[j].name != reg[i].name);
        lemma_lookup_long_self_from(reg, i, j + 1);
    }
}

/// In a well-formed registry, looking a flag up by its own short
/// character finds exactly that flag.
pub proof fn lemma_lookup_short_self(reg: Seq<FlagModel>, i: int)
    requires
        well_formed(reg),
        0 <= i < reg.len(),
        reg[i].short is Some,
    ensures
        lookup_short(reg, reg[i].short->0) == Some(i),
{
    lemma_lookup_short_self_from(reg, i, 0);
}

proof fn lemma_lookup_short_self_from(reg: Seq<FlagModel>, i: int, j: int)
    requires
        well_formed(reg),
        0 <= j <= i < reg.len(),
        reg[i].short is Some,
    ensures
        lookup_short_from(reg, reg[i].short->0, j) == Some(i),
    decreases i - j,
{
    if j < i {
        assert(!(reg[j].short is Some && reg[j].short == reg[i].short));
        lemma_lookup_short_self_from(reg, i, j + 1);
    }
}

/// A process-wide, append-only collection of flag descriptors.
/// Registration happens once, during start-up, before the parse entry
/// point runs; the parse driver then reads the collection through the
/// lookup functions. Insertion order is declaration order.
pub struct Registry {
    flags: Vec<Flag>,
}

impl View for Registry {
    type V = Seq<FlagModel>;

    closed spec fn view(&self) -> Seq<FlagModel> {
        self.flags@.map_values(|f: Flag| f@)
    }
}

impl Registry {
    /// An empty registry.
    pub fn new() -> (r: Registry)
        ensures
            r@ == Seq::<FlagModel>::empty(),
    {
        let r = Registry { flags: Vec::new() };
        proof {
            assert(r@ =~= Seq::<FlagModel>::empty());
        }
        r
    }

    /// Append one flag descriptor.
    pub fn register(&mut self, flag: Flag)
        ensures
            final(self)@ == old(self)@.push(flag@),
    {
        self.flags.push(flag);
        proof {
            assert(self@ =~= old(self)@.push(self.flags@.last()@));
        }
    }

    /// How many flags are registered.
    pub fn len(&self) -> (n: usize)
        ensures
            n == self@.len(),
    {
        proof {
            assert(self@.len() == self.flags@.len());
        }
        self.flags.len()
    }

    /// The descriptor at the given position, in registration order.
    pub fn get(&self, i: usize) -> (f: &Flag)
        requires
            i < self@.len(),
        ensures
            f@ == self@[i as int],
    {
        proof {
            assert(self@.len() == self.flags@.len());
        }
        &self.flags[i]
    }

    /// Look a flag up by short character: the first registered match.
    pub fn find_short(&self, ch: char) -> (r: Option<usize>)
        ensures
            match r {
                Some(i) => lookup_short(self@, ch) == Some(i as int) && i < self@.len(),
                None => lookup_short(self@, ch) is None,
            },
    {
        proof {
            assert(self@.len() == self.flags@.len());
        }
        let n = self.flags.len();
        let mut i: usize = 0;
        while i < n
            invariant
                0 <= i <= n,
                n == self@.len(),
                lookup_short(self@, ch) == lookup_short_from(self@, ch, i as int),
            decreases n - i,
        {
            let matched = match self.flags[i].short {
                Some(c) => c == ch,
                None => false,
            };
            proof {
                assert(self@[i as int] == self.flags@[i as int]@);
            }
            if matched {
                return Some(i);
            }
            i = i + 1;
        }
        None
    }

    /// Look a flag up by long name: the first registered match.
    pub fn find_long(&self, name: &String) -> (r: Option<usize>)
        ensures
            match r {
                Some(i) => lookup_long(self@, name@) == Some(i as int) && i < self@.len(),
                None => lookup_long(self@, name@) is None,
            },
    {
        proof {
            assert(self@.len() == self.flags@.len());
        }
        let n = self.flags.len();
        let mut i: usize = 0;
        while i < n
            invariant
                0 <= i <= n,
                n == self@.len(),
                lookup_long(self@, name@) == lookup_long_from(self@, name@, i as int),
            decreases n - i,
        {
            let matched = self.flags[i].name == *name;
            proof {
                assert(self@[i as int] == self.flags@[i as int]@);
            }
            if matched {
                return Some(i);
            }
            i = i + 1;
        }
        None
    }
}

} // verus!
