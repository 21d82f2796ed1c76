use vstd::prelude::*;
use vstd::string::{StringExecFns, StrSliceExecFns};
use crate::arg::{ArgModel, RawArg};

verus! {

/// One lexical token of the command line.
#[derive(Debug, PartialEq)]
pub enum Token {
    /// A short flag occurrence, `-c` or one scalar of a cuddled group.
    Short(char),
    /// A long flag occurrence, `--name`, without the dashes.
    Long(String),
    /// A long flag with an inline value, `--name=value`.
    LongEq(String, String),
    /// A positional argument.
    Arg(RawArg),
}

/// Mathematical model of a [`Token`].
pub enum TokenModel {
    Short(char),
    Long(Seq<char>),
    LongEq(Seq<char>, Seq<char>),
    Arg(ArgModel),
}

impl View for Token {
    type V = TokenModel;

    open spec fn view(&self) -> TokenModel {
        match self {
            Token::Short(ch) => TokenModel::Short(*ch),
            Token::Long(name) => TokenModel::Long(name@),
            Token::LongEq(name, value) => TokenModel::LongEq(name@, value@),
            Token::Arg(arg) => TokenModel::Arg(arg@),
        }
    }
}

/// Model of an optional token.
pub open spec fn token_opt_model(r: Option<Token>) -> Option<TokenModel> {
    match r {
        Some(t) => Some(t@),
        None => None,
    }
}

/// Model of an optional raw argument.
pub open spec fn arg_opt_model(r: Option<RawArg>) -> Option<ArgModel> {
    match r {
        Some(a) => Some(a@),
        None => None,
    }
}

/// Mathematical model of the tokenizer state: the not yet consumed tail
/// of a cuddled short-flag argument, the remaining raw arguments, and
/// whether a literal `--` was already seen.
#[verifier::ext_equal]
pub struct TokenizerModel {
    pub pending: Seq<char>,
    pub rest: Seq<ArgModel>,
    pub rest_are_args: bool,
}

/// Turns the raw command line into a sequence of lexical tokens:
/// cuddled short flags come out one scalar at a time, `--name=value` is
/// split at the first `=`, a literal `--` makes everything after it
/// positional, and [`Tokenizer::next_arg`] hands the pending cuddled
/// tail or the next whole argument over as a flag value.
pub struct Tokenizer {
    args: Vec<RawArg>,
    index: usize,
    pending: String,
    pending_index: usize,
    rest_are_args: bool,
}

impl View for Tokenizer {
    type V = TokenizerModel;

    closed spec fn view(&self) -> TokenizerModel {
        TokenizerModel {
            pending: if self.pending_index <= self.pending@.len() {
                self.pending@.skip(self.pending_index as int)
            } else {
                Seq::empty()
            },
            rest: if self.index <= self.args@.len() {
                self.args@.map_values(|a: RawArg| a@).skip(self.index as int)
            } else {
                Seq::empty()
            },
            rest_are_args: self.rest_are_args,
        }
    }
}

/// Whether the text is the literal `--` that ends flag parsing.
pub open spec fn is_dash_dash(s: Seq<char>) -> bool {
    s.len() == 2 && s[0] == '-' && s[1] == '-'
}

/// Whether the text is a long flag: `--` followed by at least one more
/// scalar.
pub open spec fn is_long(s: Seq<char>) -> bool {
    s.len() >= 3 && s[0] == '-' && s[1] == '-'
}

/// Whether the text opens a short flag group: `-` followed by at least
/// one more scalar, and not a long flag.
pub open spec fn is_short(s: Seq<char>) -> bool {
    s.len() >= 2 && s[0] == '-' && !is_dash_dash(s) && !is_long(s)
}

/// The position of the first `=` in the text at or after `i`, if any.
pub open spec fn find_eq_from(s: Seq<char>, i: int) -> Option<int>
    decreases s.len() - i,
{
    if i < 0 || i >= s.len() {
        None
    } else if s[i] == '=' {
        Some(i)
    } else {
        find_eq_from(s, i + 1)
    }
}

/// What a found `=` position means: it is in range, holds `=`, and
/// nothing before it does.
pub proof fn lemma_find_eq_from_some(s: Seq<char>, j: int)
    requires
        0 <= j,
        find_eq_from(s, j) is Some,
    ensures
        ({
            let i = find_eq_from(s, j)->0;
            &&& j <= i < s.len()
            &&& s[i] == '='
            &&& forall|k: int| j <= k < i ==> s[k] != '='
        }),
    decreases s.len() - j,
{
    if j < s.len() && s[j] != '=' {
        lemma_find_eq_from_some(s, j + 1);
    }
}

/// Where the first `=` provably sits: at `p`, when `p` holds one and
/// nothing before it does.
pub proof fn lemma_find_eq_from_at(s: Seq<char>, j: int, p: int)
    requires
        0 <= j <= p < s.len(),
        s[p] == '=',
        forall|k: int| j <= k < p ==> s[k] != '=',
    ensures
        find_eq_from(s, j) == Some(p),
    decreases p - j,
{
    if j < p {
        lemma_find_eq_from_at(s, j + 1, p);
    }
}

/// With no `=` anywhere at or after `j`, none is found.
pub proof fn lemma_find_eq_from_absent(s: Seq<char>, j: int)
    requires
        0 <= j,
        forall|k: int| j <= k < s.len() ==> s[k] != '=',
    ensures
        find_eq_from(s, j) is None,
    decreases s.len() - j,
{
    if j < s.len() {
        lemma_find_eq_from_absent(s, j + 1);
    }
}

/// The transition taken by [`Tokenizer::next`] on a fresh text argument
/// `s`, starting from a state `t1` from which `s` was already removed.
pub open spec fn spec_next_text(t1: TokenizerModel, s: Seq<char>) -> (TokenizerModel, Option<
    TokenModel,
>) {
    if is_dash_dash(s) {
        let t2 = TokenizerModel { rest_are_args: true, ..t1 };
        if t2.rest.len() == 0 {
            (t2, None)
        } else {
            (
                TokenizerModel { rest: t2.rest.skip(1), ..t2 },
                Some(TokenModel::Arg(t2.rest[0])),
            )
        }
    } else if is_long(s) {
        match find_eq_from(s, 0) {
            None => (t1, Some(TokenModel::Long(s.skip(2)))),
            Some(i) => (
                t1,
                Some(TokenModel::LongEq(s.subrange(2, i), s.subrange(i + 1, s.len() as int))),
            ),
        }
    } else if is_short(s) {
        (TokenizerModel { pending: s.skip(2), ..t1 }, Some(TokenModel::Short(s[1])))
    } else {
        (t1, Some(TokenModel::Arg(ArgModel::Text(s))))
    }
}

/// The transition taken by one call of [`Tokenizer::next`]: the
/// successor state and the token returned.
pub open spec fn spec_next(t: TokenizerModel) -> (TokenizerModel, Option<TokenModel>) {
    if t.pending.len() > 0 {
        (
            TokenizerModel { pending: t.pending.skip(1), ..t },
            Some(TokenModel::Short(t.pending[0])),
        )
    } else if t.rest.len() == 0 {
        (t, None)
    } else {
        let a = t.rest[0];
        let t1 = TokenizerModel { rest: t.rest.skip(1), ..t };
        if t.rest_are_args {
            (t1, Some(TokenModel::Arg(a)))
        } else {
            match a {
                ArgModel::Bytes(_) => (t1, Some(TokenModel::Arg(a))),
                ArgModel::Text(s) => spec_next_text(t1, s),
            }
        }
    }
}

/// The transition taken by one call of [`Tokenizer::next_arg`]: the
/// successor state and the value claimed.
pub open spec fn spec_next_arg(t: TokenizerModel) -> (TokenizerModel, Option<ArgModel>) {
    if t.pending.len() > 0 {
        (TokenizerModel { pending: Seq::empty(), ..t }, Some(ArgModel::Text(t.pending)))
    } else if t.rest.len() == 0 {
        (t, None)
    } else {
        (TokenizerModel { rest: t.rest.skip(1), ..t }, Some(t.rest[0]))
    }
}

impl Tokenizer {
    /// A tokenizer that works through the given arguments, processing
    /// all items.
    pub fn iterate(args: Vec<RawArg>) -> (t: Tokenizer)
        ensures
            t@ == (TokenizerModel {
                pending: Seq::<char>::empty(),
                rest: args@.map_values(|a: RawArg| a@),
                rest_are_args: false,
            }),
    {
        let t = Tokenizer {
            args,
            index: 0,
            pending: String::new(),
            pending_index: 0,
            rest_are_args: false,
        };
        proof {
            assert(t@.pending =~= Seq::<char>::empty());
            assert(t@.rest =~= t.args@.map_values(|a: RawArg| a@));
        }
        t
    }

    /// The next raw argument, moved out of the argument vector.
    fn take_arg(&mut self) -> (r: RawArg)
        requires
            old(self)@.rest.len() > 0,
        ensures
            r@ == old(self)@.rest[0],
            final(self)@ == (TokenizerModel { rest: old(self)@.rest.skip(1), ..old(self)@ }),
    {
        proof {
            assert(self.args@.map_values(|a: RawArg| a@).len() == self.args@.len());
            assert(self.index < self.args.len());
        }
        let arg = self.args[self.index].dup();
        self.index = self.index + 1;
        proof {
            let m = old(self).args@.map_values(|a: RawArg| a@);
            assert(arg@ == m.skip(old(self).index as int)[0]);
            assert(final(self)@.rest =~= old(self)@.rest.skip(1));
            assert(final(self)@.pending =~= old(self)@.pending);
        }
        arg
    }

    /// Produce the next token, if any. The returned token and the new
    /// state are exactly those of [`spec_next`].
    pub fn next(&mut self) -> (r: Option<Token>)
        ensures
            final(self)@ == spec_next(old(self)@).0,
            token_opt_model(r) == spec_next(old(self)@).1,
    {
        let pn = self.pending.as_str().unicode_len();
        if self.pending_index < pn {
            let ch = self.pending.as_str().get_char(self.pending_index);
            self.pending_index = self.pending_index + 1;
            proof {
                assert(final(self)@.pending =~= old(self)@.pending.skip(1));
                assert(final(self)@.rest =~= old(self)@.rest);
            }
            return Some(Token::Short(ch));
        }
        if self.index >= self.args.len() {
            proof {
                assert(final(self)@ =~= old(self)@);
            }
            return None;
        }
        proof {
            assert(self.args@.map_values(|a: RawArg| a@).len() == self.args@.len());
            assert(old(self)@.pending.len() == 0);
            assert(old(self)@.rest.len() > 0);
        }
        let arg = self.take_arg();
        if self.rest_are_args {
            return Some(Token::Arg(arg));
        }
        match arg {
            RawArg::Bytes(b) => Some(Token::Arg(RawArg::Bytes(b))),
            RawArg::Text(s) => {
                let ghost t1 = self@;
                let n = s.as_str().unicode_len();
                if n == 2 && s.as_str().get_char(0) == '-' && s.as_str().get_char(1) == '-' {
                    self.rest_are_args = true;
                    proof {
                        assert(is_dash_dash(s@));
                        assert(self@ == (TokenizerModel { rest_are_args: true, ..t1 }));
                    }
                    if self.index >= self.args.len() {
                        return None;
                    }
                    proof {
                        assert(self.args@.map_values(|a: RawArg| a@).len() == self.args@.len());
                        assert(self@.rest.len() > 0);
                    }
                    let arg2 = self.take_arg();
                    return Some(Token::Arg(arg2));
                }
                if n >= 3 && s.as_str().get_char(0) == '-' && s.as_str().get_char(1) == '-' {
                    proof {
                        assert(is_long(s@));
                        assert(!is_dash_dash(s@));
                    }
                    match find_eq(&s) {
                        None => Some(
                            Token::Long(String::from_str(s.as_str().substring_char(2, n))),
                        ),
                        Some(i) => {
                            proof {
                                lemma_find_eq_from_some(s@, 0);
                                assert(s@[0] != '=' && s@[1] != '=');
                                assert(2 <= i < n);
                            }
                            let name = String::from_str(s.as_str().substring_char(2, i));
                            let value = String::from_str(s.as_str().substring_char(i + 1, n));
                            Some(Token::LongEq(name, value))
                        },
                    }
                } else if n >= 2 && s.as_str().get_char(0) == '-' {
                    proof {
                        assert(is_short(s@));
                    }
                    let ch = s.as_str().get_char(1);
                    self.pending = s;
                    self.pending_index = 2;
                    proof {
                        assert(self@ == (TokenizerModel { pending: s@.skip(2), ..t1 }));
                    }
                    Some(Token::Short(ch))
                } else {
                    proof {
                        assert(!is_dash_dash(s@) && !is_long(s@) && !is_short(s@));
                    }
                    Some(Token::Arg(RawArg::Text(s)))
                }
            },
        }
    }

    /// Claim the next value for a flag: the whole remaining cuddled
    /// tail, or the next whole argument. The value and the new state are
    /// exactly those of [`spec_next_arg`].
    pub fn next_arg(&mut self) -> (r: Option<RawArg>)
        ensures
            final(self)@ == spec_next_arg(old(self)@).0,
            arg_opt_model(r) == spec_next_arg(old(self)@).1,
    {
        let pn = self.pending.as_str().unicode_len();
        if self.pending_index < pn {
            let tail = String::from_str(self.pending.as_str().substring_char(self.pending_index, pn));
            self.pending_index = pn;
            proof {
                assert(final(self)@.pending =~= Seq::<char>::empty());
                assert(final(self)@.rest =~= old(self)@.rest);
                assert(tail@ =~= old(self)@.pending);
            }
            Some(RawArg::Text(tail))
        } else if self.index < self.args.len() {
            proof {
                assert(self.args@.map_values(|a: RawArg| a@).len() == self.args@.len());
                assert(old(self)@.pending.len() == 0);
                assert(old(self)@.rest.len() > 0);
            }
            let arg = self.take_arg();
            proof {
                assert(final(self)@.pending =~= Seq::<char>::empty());
            }
            Some(arg)
        } else {
            proof {
                assert(final(self)@ =~= old(self)@);
            }
            None
        }
    }
}

/// The position of the first `=` in the text, if any.
fn find_eq(s: &String) -> (r: Option<usize>)
    ensures
        match r {
            Some(i) => find_eq_from(s@, 0) == Some(i as int),
            None => find_eq_from(s@, 0) is None,
        },
{
    let n = s.as_str().unicode_len();
    let mut i: usize = 0;
    while i < n
        invariant
            0 <= i <= n,
            n == s@.len(),
            find_eq_from(s@, 0) == find_eq_from(s@, i as int),
        decreases n - i,
    {
        if s.as_str().get_char(i) == '=' {
            return Some(i);
        }
        i = i + 1;
    }
    None
}

} // verus!
