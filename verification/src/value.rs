use vstd::prelude::*;
use vstd::string::StrSliceExecFns;
use crate::arg::{Arg, ArgModel, RawArg, non_unicode_msg};
use crate::error::Error;
use crate::name::NameModel;

verus! {

/// Types that may be the data type of a flag.
///
/// The library provides implementations for `bool`, `String`, `RawArg`
/// and `u64`; an application can make its own types participate by
/// implementing this trait. A boolean type consumes no value on the
/// command line and publishes through [`Value::from_bool`]; every other
/// type parses exactly one argument through [`Value::parse`].
pub trait Value: View + Sized {
    /// Whether this is the boolean flag type.
    spec fn spec_is_bool() -> bool;

    /// Model of the value published for a boolean occurrence.
    spec fn spec_from_bool(b: bool) -> Self::V;

    /// When parsing succeeds, the model of the parsed value; otherwise
    /// the message of the error raised.
    spec fn spec_parse(name: NameModel, arg: ArgModel) -> Result<Self::V, Seq<char>>;

    /// Whether this is the boolean flag type.
    fn is_bool() -> (b: bool)
        ensures
            b == Self::spec_is_bool(),
    ;

    /// The value published for a boolean occurrence: `true` for the
    /// flag itself, `false` for its `--no` negation.
    fn from_bool(b: bool) -> (v: Self)
        requires
            Self::spec_is_bool(),
        ensures
            v@ == Self::spec_from_bool(b),
    ;

    /// Parse one argument into a value, or fail with the message shown
    /// before the process exits.
    fn parse(arg: Arg) -> (r: Result<Self, Error>)
        requires
            !Self::spec_is_bool(),
        ensures
            match Self::spec_parse(arg@.0, arg@.1) {
                Ok(m) => r matches Ok(v) && v@ == m,
                Err(msg) => r matches Err(e) && e@ == msg,
            },
    ;
}

impl Value for bool {
    open spec fn spec_is_bool() -> bool {
        true
    }

    open spec fn spec_from_bool(b: bool) -> bool {
        b
    }

    open spec fn spec_parse(name: NameModel, arg: ArgModel) -> Result<bool, Seq<char>> {
        Err("bool flag does not accept argument"@)
    }

    fn is_bool() -> (b: bool) {
        true
    }

    fn from_bool(b: bool) -> (v: Self) {
        b
    }

    fn parse(arg: Arg) -> (r: Result<Self, Error>) {
        Err(Error::new("bool flag does not accept argument"))
    }
}

impl Value for String {
    open spec fn spec_is_bool() -> bool {
        false
    }

    open spec fn spec_from_bool(b: bool) -> Seq<char> {
        Seq::empty()
    }

    open spec fn spec_parse(name: NameModel, arg: ArgModel) -> Result<Seq<char>, Seq<char>> {
        match arg {
            ArgModel::Text(s) => Ok(s),
            ArgModel::Bytes(_) => Err(non_unicode_msg(name)),
        }
    }

    fn is_bool() -> (b: bool) {
        false
    }

    fn from_bool(b: bool) -> (v: Self) {
        String::new()
    }

    fn parse(arg: Arg) -> (r: Result<Self, Error>) {
        arg.get_str()
    }
}

impl Value for RawArg {
    open spec fn spec_is_bool() -> bool {
        false
    }

    open spec fn spec_from_bool(b: bool) -> ArgModel {
        ArgModel::Text(Seq::empty())
    }

    open spec fn spec_parse(name: NameModel, arg: ArgModel) -> Result<ArgModel, Seq<char>> {
        Ok(arg)
    }

    fn is_bool() -> (b: bool) {
        false
    }

    fn from_bool(b: bool) -> (v: Self) {
        RawArg::Text(String::new())
    }

    fn parse(arg: Arg) -> (r: Result<Self, Error>) {
        Ok(arg.get_raw())
    }
}

/// Whether the scalar is a decimal digit.
pub open spec fn is_digit(c: char) -> bool {
    ('0' as int) <= (c as int) && (c as int) <= ('9' as int)
}

/// The value of a decimal digit.
pub open spec fn digit_val(c: char) -> int {
    (c as int) - ('0' as int)
}

/// Whether every scalar of the text is a decimal digit.
pub open spec fn all_digits(s: Seq<char>) -> bool {
    forall|i: int| 0 <= i < s.len() ==> is_digit(s[i])
}

/// The integer a digit string denotes.
pub open spec fn dec_val(s: Seq<char>) -> int
    decreases s.len(),
{
    if s.len() == 0 {
        0
    } else {
        dec_val(s.drop_last()) * 10 + digit_val(s.last())
    }
}

/// The digit portion of an unsigned decimal literal: everything after
/// an optional leading `+`.
pub open spec fn u64_digits(s: Seq<char>) -> Seq<char> {
    if s.len() > 0 && s[0] == '+' {
        s.skip(1)
    } else {
        s
    }
}

/// What parsing a `u64` from text yields: the denoted value, or the
/// message telling why the text denotes none.
pub open spec fn u64_parse(s: Seq<char>) -> Result<u64, Seq<char>> {
    let d = u64_digits(s);
    if d.len() == 0 {
        Err("cannot parse integer from empty string"@)
    } else if !all_digits(d) {
        Err("invalid digit found in string"@)
    } else if dec_val(d) > u64::MAX {
        Err("number too large to fit in target type"@)
    } else {
        Ok(dec_val(d) as u64)
    }
}

/// A digit string whose prefix already exceeds `u64::MAX` denotes a
/// value that exceeds it too.
proof fn lemma_dec_val_prefix_exceeds(d: Seq<char>, k: int)
    requires
        0 <= k <= d.len(),
        all_digits(d),
        dec_val(d.subrange(0, k)) > u64::MAX,
    ensures
        dec_val(d) > u64::MAX,
    decreases d.len() - k,
{
    if k < d.len() {
        let p = d.subrange(0, k);
        let q = d.subrange(0, k + 1);
        assert(q.drop_last() =~= p);
        assert(q.last() == d[k]);
        assert(is_digit(d[k]));
        assert(dec_val(q) == dec_val(p) * 10 + digit_val(d[k]));
        lemma_dec_val_prefix_exceeds(d, k + 1);
    } else {
        assert(d.subrange(0, k) =~= d);
    }
}

/// Parse an unsigned decimal literal out of text.
fn parse_u64_text(s: &String) -> (r: Result<u64, Error>)
    ensures
        match u64_parse(s@) {
            Ok(v) => r matches Ok(x) && x == v,
            Err(m) => r matches Err(e) && e@ == m,
        },
{
    let n = s.as_str().unicode_len();
    let start: usize = if n > 0 && s.as_str().get_char(0) == '+' {
        1
    } else {
        0
    };
    let ghost d = u64_digits(s@);
    proof {
        assert(d =~= s@.skip(start as int));
    }
    if n == start {
        return Err(Error::new("cannot parse integer from empty string"));
    }
    let mut i: usize = start;
    while i < n
        invariant
            start <= i <= n,
            n == s@.len(),
            d == u64_digits(s@),
            d == s@.skip(start as int),
            all_digits(d.subrange(0, i - start)),
        decreases n - i,
    {
        let c = s.as_str().get_char(i);
        let cu = c as u32;
        if cu < 48 || cu > 57 {
            proof {
                assert(d[i - start] == s@[i as int]);
                assert(!is_digit(d[i - start]));
            }
            return Err(Error::new("invalid digit found in string"));
        }
        proof {
            assert(d.subrange(0, i - start + 1) =~= d.subrange(0, i - start).push(s@[i as int]));
            assert(forall|k: int|
                0 <= k < i - start + 1 ==> is_digit(#[trigger] d.subrange(0, i - start + 1)[k]));
        }
        i = i + 1;
    }
    proof {
        assert(d =~= d.subrange(0, n - start));
        assert(all_digits(d));
    }
    let mut val: u64 = 0;
    let mut j: usize = start;
    while j < n
        invariant
            start <= j <= n,
            n == s@.len(),
            d == u64_digits(s@),
            d == s@.skip(start as int),
            all_digits(d),
            val == dec_val(d.subrange(0, j - start)),
        decreases n - j,
    {
        let c = s.as_str().get_char(j);
        let cu = c as u32;
        proof {
            assert(d[j - start] == s@[j as int]);
            assert(is_digit(d[j - start]));
        }
        let dig = (cu - 48) as u64;
        let ghost p = d.subrange(0, j - start);
        let ghost q = d.subrange(0, j - start + 1);
        proof {
            assert(q.drop_last() =~= p);
            assert(q.last() == d[j - start]);
            assert(dec_val(q) == dec_val(p) * 10 + digit_val(d[j - start]));
            assert(digit_val(d[j - start]) == dig);
        }
        if val > u64::MAX / 10 || (val == u64::MAX / 10 && dig > u64::MAX % 10) {
            proof {
                assert(dec_val(q) > u64::MAX);
                lemma_dec_val_prefix_exceeds(d, j - start + 1);
            }
            return Err(Error::new("number too large to fit in target type"));
        }
        val = val * 10 + dig;
        j = j + 1;
    }
    proof {
        assert(d.subrange(0, n - start) =~= d);
    }
    Ok(val)
}

impl Value for u64 {
    open spec fn spec_is_bool() -> bool {
        false
    }

    open spec fn spec_from_bool(b: bool) -> u64 {
        0
    }

    open spec fn spec_parse(name: NameModel, arg: ArgModel) -> Result<u64, Seq<char>> {
        match arg {
            ArgModel::Text(s) => u64_parse(s),
            ArgModel::Bytes(_) => Err(non_unicode_msg(name)),
        }
    }

    fn is_bool() -> (b: bool) {
        false
    }

    fn from_bool(b: bool) -> (v: Self) {
        0
    }

    fn parse(arg: Arg) -> (r: Result<Self, Error>) {
        match arg.get_str() {
            Ok(s) => parse_u64_text(&s),
            Err(e) => Err(e),
        }
    }
}

} // verus!
