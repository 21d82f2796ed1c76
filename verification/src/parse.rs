use vstd::prelude::*;
use vstd::string::{StringExecFns, StrSliceExecFns};
use crate::arg::{ArgModel, RawArg};
use crate::dispatch::{Action, ActionModel, Effect, EffectModel};
use crate::name::{Name, NameModel, name_text};
use crate::registry::{FlagModel, Registry, lookup_long, lookup_short, well_formed};
use crate::text::push_char;
use crate::token::{Token, TokenModel, Tokenizer, TokenizerModel, spec_next, spec_next_arg};

verus! {

/// Why a parse pass stopped. Each variant carries the offending
/// spelling; [`ParseError::message`] renders the diagnostic line that
/// the application prints before exiting with a non-zero status.
#[derive(Debug, PartialEq)]
pub enum ParseError {
    /// Two registered flags share a long name.
    DuplicateLong(String),
    /// Two registered flags share a short character.
    DuplicateShort(char),
    /// A short flag that no descriptor declares.
    UnrecognizedShort(char),
    /// A long flag that no descriptor declares, spelled as given.
    UnrecognizedLong(String),
    /// A boolean flag was given an inline value.
    UnexpectedValue(String, String),
    /// A flag that needs a value stood last on the command line.
    MissingValue(Name),
    /// A positional argument is not valid text.
    NonUnicodeArg,
}

/// Mathematical model of a [`ParseError`].
pub enum ParseErrorModel {
    DuplicateLong(Seq<char>),
    DuplicateShort(char),
    UnrecognizedShort(char),
    UnrecognizedLong(Seq<char>),
    UnexpectedValue(Seq<char>, Seq<char>),
    MissingValue(NameModel),
    NonUnicodeArg,
}

impl View for ParseError {
    type V = ParseErrorModel;

    open spec fn view(&self) -> ParseErrorModel {
        match self {
            ParseError::DuplicateLong(n) => ParseErrorModel::DuplicateLong(n@),
            ParseError::DuplicateShort(c) => ParseErrorModel::DuplicateShort(*c),
            ParseError::UnrecognizedShort(c) => ParseErrorModel::UnrecognizedShort(*c),
            ParseError::UnrecognizedLong(n) => ParseErrorModel::UnrecognizedLong(n@),
            ParseError::UnexpectedValue(n, v) => ParseErrorModel::UnexpectedValue(n@, v@),
            ParseError::MissingValue(n) => ParseErrorModel::MissingValue(n@),
            ParseError::NonUnicodeArg => ParseErrorModel::NonUnicodeArg,
        }
    }
}

/// The diagnostic line for each parse error. An unrecognized flag's
/// message carries the exact spelling that was given on the command
/// line, with its dashes.
pub open spec fn error_message(e: ParseErrorModel) -> Seq<char> {
    match e {
        ParseErrorModel::DuplicateLong(n) => "Duplicate flag name: --"@ + n,
        ParseErrorModel::DuplicateShort(c) => "Duplicate short flag: -"@.push(c),
        ParseErrorModel::UnrecognizedShort(c) => "Unrecognized flag: -"@.push(c),
        ParseErrorModel::UnrecognizedLong(n) => "Unrecognized flag: --"@ + n,
        ParseErrorModel::UnexpectedValue(n, v) => "Unexpected argument for flag: --"@ + n + "="@
            + v,
        ParseErrorModel::MissingValue(n) => "Missing value for `"@ + name_text(n) + "`"@,
        ParseErrorModel::NonUnicodeArg => "Unsupported non-UTF8 command line argument"@,
    }
}

impl ParseError {
    /// Render the one-line diagnostic for this error.
    pub fn message(&self) -> (m: String)
        ensures
            m@ == error_message(self@),
    {
        match self {
            ParseError::DuplicateLong(n) => {
                let mut m = String::from_str("Duplicate flag name: --");
                m.append(n.as_str());
                m
            },
            ParseError::DuplicateShort(c) => {
                let mut m = String::from_str("Duplicate short flag: -");
                push_char(&mut m, *c);
                m
            },
            ParseError::UnrecognizedShort(c) => {
                let mut m = String::from_str("Unrecognized flag: -");
                push_char(&mut m, *c);
                m
            },
            ParseError::UnrecognizedLong(n) => {
                let mut m = String::from_str("Unrecognized flag: --");
                m.append(n.as_str());
                m
            },
            ParseError::UnexpectedValue(n, v) => {
                let mut m = String::from_str("Unexpected argument for flag: --");
                m.append(n.as_str());
                push_char(&mut m, '=');
                m.append(v.as_str());
                proof {
                    reveal_strlit("=");
                    assert(("Unexpected argument for flag: --"@ + n@).push('=') =~= (
                    "Unexpected argument for flag: --"@ + n@) + "="@);
                }
                m
            },
            ParseError::MissingValue(n) => {
                let mut m = String::from_str("Missing value for `");
                let rendered = n.to_text();
                m.append(rendered.as_str());
                push_char(&mut m, '`');
                proof {
                    reveal_strlit("`");
                    assert(("Missing value for `"@ + name_text(n@)).push('`') =~= ("Missing value for `"@
                        + name_text(n@)) + "`"@);
                }
                m
            },
            ParseError::NonUnicodeArg => String::from_str(
                "Unsupported non-UTF8 command line argument",
            ),
        }
    }
}

/// The duplicate declaration error between an earlier flag `a` and a
/// later flag `b`, if any: long names are checked before shorts.
pub open spec fn dup_between(a: FlagModel, b: FlagModel) -> Option<ParseErrorModel> {
    if a.name == b.name {
        Some(ParseErrorModel::DuplicateLong(b.name))
    } else if a.short is Some && a.short == b.short {
        Some(ParseErrorModel::DuplicateShort(a.short->0))
    } else {
        None
    }
}

/// The first duplicate declaration, scanning each flag `j` against all
/// flags registered before it, from position `(j, i)` on.
pub open spec fn first_dup_from(reg: Seq<FlagModel>, j: int, i: int) -> Option<ParseErrorModel>
    decreases reg.len() - j, j - i,
{
    if j < 1 || i < 0 || i > j || j >= reg.len() {
        None
    } else if i == j {
        first_dup_from(reg, j + 1, 0)
    } else {
        match dup_between(reg[i], reg[j]) {
            Some(e) => Some(e),
            None => first_dup_from(reg, j, i + 1),
        }
    }
}

/// The first duplicate declaration in the registry, if any.
pub open spec fn first_dup(reg: Seq<FlagModel>) -> Option<ParseErrorModel> {
    first_dup_from(reg, 1, 0)
}

proof fn lemma_first_dup_from_none(reg: Seq<FlagModel>, j: int, i: int)
    requires
        1 <= j,
        0 <= i <= j,
        first_dup_from(reg, j, i) is None,
    ensures
        forall|i2: int, j2: int|
            0 <= i2 < j2 < reg.len() && (j2 > j || (j2 == j && i2 >= i)) ==> dup_between(
                reg[i2],
                reg[j2],
            ) is None,
    decreases reg.len() - j, j - i,
{
    if j >= reg.len() {
    } else if i == j {
        lemma_first_dup_from_none(reg, j + 1, 0);
    } else {
        lemma_first_dup_from_none(reg, j, i + 1);
    }
}

/// A registry with no duplicate declaration is well-formed.
pub proof fn lemma_no_dup_well_formed(reg: Seq<FlagModel>)
    requires
        first_dup(reg) is None,
    ensures
        well_formed(reg),
{
    if reg.len() >= 2 {
        lemma_first_dup_from_none(reg, 1, 0);
        assert forall|i: int, j: int| 0 <= i < j < reg.len() implies reg[i].name != reg[j].name by {
            assert(dup_between(reg[i], reg[j]) is None);
        }
        assert forall|i: int, j: int| 0 <= i < j < reg.len() implies !(reg[i].short is Some
            && reg[i].short == reg[j].short) by {
            assert(dup_between(reg[i], reg[j]) is None);
        }
    }
}

proof fn lemma_first_dup_from_wf(reg: Seq<FlagModel>, j: int, i: int)
    requires
        well_formed(reg),
        1 <= j,
        0 <= i <= j,
    ensures
        first_dup_from(reg, j, i) is None,
    decreases reg.len() - j, j - i,
{
    if j < 1 || i < 0 || i > j || j >= reg.len() {
    } else if i == j {
        lemma_first_dup_from_wf(reg, j + 1, 0);
    } else {
        assert(reg[i].name != reg[j].name);
        assert(!(reg[i].short is Some && reg[i].short == reg[j].short));
        lemma_first_dup_from_wf(reg, j, i + 1);
    }
}

/// A well-formed registry has no duplicate declaration.
pub proof fn lemma_well_formed_no_dup(reg: Seq<FlagModel>)
    requires
        well_formed(reg),
    ensures
        first_dup(reg) is None,
{
    lemma_first_dup_from_wf(reg, 1, 0);
}

/// Everything one successful parse pass decides: the publications to
/// apply, in command-line order, and the positional arguments that
/// remain.
#[verifier::ext_equal]
pub struct OutcomeModel {
    pub actions: Seq<ActionModel>,
    pub args: Seq<ArgModel>,
}

/// The result of one successful parse pass.
#[derive(Debug, PartialEq)]
pub struct ParseOutcome {
    /// The publications, in command-line order.
    pub actions: Vec<Action>,
    /// The positional arguments, in command-line order.
    pub args: Vec<RawArg>,
}

impl View for ParseOutcome {
    type V = OutcomeModel;

    open spec fn view(&self) -> OutcomeModel {
        OutcomeModel {
            actions: self.actions@.map_values(|a: Action| a@),
            args: self.args@.map_values(|a: RawArg| a@),
        }
    }
}

/// An outcome with one more action at the front.
pub open spec fn prepend_action(
    r: Result<OutcomeModel, ParseErrorModel>,
    a: ActionModel,
) -> Result<OutcomeModel, ParseErrorModel> {
    match r {
        Ok(out) => Ok(OutcomeModel { actions: seq![a] + out.actions, args: out.args }),
        Err(e) => Err(e),
    }
}

/// An outcome with one more positional argument at the front.
pub open spec fn prepend_arg(
    r: Result<OutcomeModel, ParseErrorModel>,
    a: ArgModel,
) -> Result<OutcomeModel, ParseErrorModel> {
    match r {
        Ok(out) => Ok(OutcomeModel { actions: out.actions, args: seq![a] + out.args }),
        Err(e) => Err(e),
    }
}

/// What remains of a parse pass from the given tokenizer state: the
/// publications and positionals still to come, or the error that stops
/// everything. This is the transition system of the driver: each token
/// is looked up in the registry and dispatched, a boolean flag consumes
/// no value, any other flag consumes exactly one, an unmatched long
/// flag spelled `no<name>` negates the boolean flag `name`, and
/// unrecognized flags stop the parse.
pub open spec fn run(reg: Seq<FlagModel>, t: TokenizerModel) -> Result<
    OutcomeModel,
    ParseErrorModel,
>
    decreases t.rest.len(), t.pending.len(),
{
    let stepped = spec_next(t);
    let t1 = stepped.0;
    match stepped.1 {
        None => Ok(OutcomeModel { actions: Seq::empty(), args: Seq::empty() }),
        Some(TokenModel::Arg(a)) => prepend_arg(run(reg, t1), a),
        Some(TokenModel::Short(ch)) => match lookup_short(reg, ch) {
            None => Err(ParseErrorModel::UnrecognizedShort(ch)),
            Some(i) => {
                if reg[i].is_bool {
                    prepend_action(
                        run(reg, t1),
                        ActionModel { flag: i, effect: EffectModel::SetBool(true) },
                    )
                } else {
                    let pulled = spec_next_arg(t1);
                    match pulled.1 {
                        None => Err(ParseErrorModel::MissingValue(NameModel::Short(ch))),
                        Some(v) => prepend_action(
                            run(reg, pulled.0),
                            ActionModel { flag: i, effect: EffectModel::Assign(v) },
                        ),
                    }
                }
            },
        },
        Some(TokenModel::Long(name)) => match lookup_long(reg, name) {
            Some(i) => {
                if reg[i].is_bool {
                    prepend_action(
                        run(reg, t1),
                        ActionModel { flag: i, effect: EffectModel::SetBool(true) },
                    )
                } else {
                    let pulled = spec_next_arg(t1);
                    match pulled.1 {
                        None => Err(
                            ParseErrorModel::MissingValue(NameModel::Long(reg[i].name)),
                        ),
                        Some(v) => prepend_action(
                            run(reg, pulled.0),
                            ActionModel { flag: i, effect: EffectModel::Assign(v) },
                        ),
                    }
                }
            },
            None => {
                if name.len() >= 2 && name[0] == 'n' && name[1] == 'o' && (lookup_long(
                    reg,
                    name.skip(2),
                ) matches Some(j) && reg[j].is_bool) {
                    prepend_action(
                        run(reg, t1),
                        ActionModel {
                            flag: lookup_long(reg, name.skip(2))->0,
                            effect: EffectModel::SetBool(false),
                        },
                    )
                } else {
                    Err(ParseErrorModel::UnrecognizedLong(name))
                }
            },
        },
        Some(TokenModel::LongEq(name, value)) => match lookup_long(reg, name) {
            None => Err(ParseErrorModel::UnrecognizedLong(name)),
            Some(i) => {
                if reg[i].is_bool {
                    Err(ParseErrorModel::UnexpectedValue(name, value))
                } else {
                    prepend_action(
                        run(reg, t1),
                        ActionModel {
                            flag: i,
                            effect: EffectModel::Assign(ArgModel::Text(value)),
                        },
                    )
                }
            },
        },
    }
}

/// The tokenizer state at the start of a parse pass.
pub open spec fn init_state(args: Seq<ArgModel>) -> TokenizerModel {
    TokenizerModel { pending: Seq::empty(), rest: args, rest_are_args: false }
}

/// The complete behavior of one parse pass: a duplicate declaration is
/// a configuration error, and otherwise the driver runs over the whole
/// token stream.
pub open spec fn parse_spec(reg: Seq<FlagModel>, args: Seq<ArgModel>) -> Result<
    OutcomeModel,
    ParseErrorModel,
> {
    match first_dup(reg) {
        Some(e) => Err(e),
        None => run(reg, init_state(args)),
    }
}

/// Find the first duplicate declaration in the registry, if any.
fn find_duplicate(reg: &Registry) -> (r: Option<ParseError>)
    ensures
        match r {
            Some(e) => first_dup(reg@) == Some(e@),
            None => first_dup(reg@) is None,
        },
{
    let n = reg.len();
    let mut j: usize = 1;
    while j < n
        invariant
            1 <= j,
            n == reg@.len(),
            first_dup(reg@) == first_dup_from(reg@, j as int, 0),
        decreases n - j,
    {
        let mut i: usize = 0;
        while i < j
            invariant
                0 <= i <= j < n,
                n == reg@.len(),
                first_dup(reg@) == first_dup_from(reg@, j as int, i as int),
            decreases j - i,
        {
            let a = reg.get(i);
            let b = reg.get(j);
            if a.name == b.name {
                return Some(ParseError::DuplicateLong(b.name.clone()));
            }
            if let (Some(c1), Some(c2)) = (a.short, b.short) {
                if c1 == c2 {
                    return Some(ParseError::DuplicateShort(c1));
                }
            }
            proof {
                assert(dup_between(reg@[i as int], reg@[j as int]) is None);
            }
            i = i + 1;
        }
        j = j + 1;
    }
    None
}

/// The whole parse equals what was already accumulated, followed by
/// whatever remains from the current tokenizer state.
pub open spec fn run_composes(
    reg: Seq<FlagModel>,
    init: TokenizerModel,
    acts: Seq<ActionModel>,
    poss: Seq<ArgModel>,
    t: TokenizerModel,
) -> bool {
    match run(reg, t) {
        Ok(out) => run(reg, init) == Ok::<OutcomeModel, ParseErrorModel>(
            OutcomeModel { actions: acts + out.actions, args: poss + out.args },
        ),
        Err(e) => run(reg, init) == Err::<OutcomeModel, ParseErrorModel>(e),
    }
}

proof fn lemma_compose_action(
    reg: Seq<FlagModel>,
    init: TokenizerModel,
    acts: Seq<ActionModel>,
    poss: Seq<ArgModel>,
    t_old: TokenizerModel,
    t_new: TokenizerModel,
    a: ActionModel,
)
    requires
        run_composes(reg, init, acts, poss, t_old),
        run(reg, t_old) == prepend_action(run(reg, t_new), a),
    ensures
        run_composes(reg, init, acts.push(a), poss, t_new),
{
    match run(reg, t_new) {
        Ok(out2) => {
            assert(acts + (seq![a] + out2.actions) =~= acts.push(a) + out2.actions);
        },
        Err(_) => {},
    }
}

proof fn lemma_compose_arg(
    reg: Seq<FlagModel>,
    init: TokenizerModel,
    acts: Seq<ActionModel>,
    poss: Seq<ArgModel>,
    t_old: TokenizerModel,
    t_new: TokenizerModel,
    a: ArgModel,
)
    requires
        run_composes(reg, init, acts, poss, t_old),
        run(reg, t_old) == prepend_arg(run(reg, t_new), a),
    ensures
        run_composes(reg, init, acts, poss.push(a), t_new),
{
    match run(reg, t_new) {
        Ok(out2) => {
            assert(poss + (seq![a] + out2.args) =~= poss.push(a) + out2.args);
        },
        Err(_) => {},
    }
}

/// Initialize the value of all flags from the given raw command line.
///
/// One call consumes the whole command line: every flag occurrence
/// becomes a publication to apply to its flag's cell, and everything
/// else comes back as positional arguments. The behavior is exactly
/// [`parse_spec`] over the registry and the arguments: a duplicate
/// declaration, an unrecognized flag, a boolean flag given an inline
/// value, or a flag missing its value stops the parse with the
/// matching error, and nothing is published.
#[verifier::loop_isolation(false)]
pub fn parse_os(reg: &Registry, args: Vec<RawArg>) -> (r: Result<ParseOutcome, ParseError>)
    ensures
        match r {
            Ok(out) => parse_spec(reg@, args@.map_values(|a: RawArg| a@)) == Ok::<OutcomeModel, ParseErrorModel>(out@),
            Err(e) => parse_spec(reg@, args@.map_values(|a: RawArg| a@)) == Err::<OutcomeModel, ParseErrorModel>(e@),
        },
{
    if let Some(e) = find_duplicate(reg) {
        return Err(e);
    }
    let ghost init = init_state(args@.map_values(|a: RawArg| a@));
    let mut tokens = Tokenizer::iterate(args);
    let mut actions: Vec<Action> = Vec::new();
    let mut positionals: Vec<RawArg> = Vec::new();
    proof {
        assert(actions@.map_values(|x: Action| x@) =~= Seq::<ActionModel>::empty());
        assert(positionals@.map_values(|x: RawArg| x@) =~= Seq::<ArgModel>::empty());
        match run(reg@, init) {
            Ok(out) => {
                assert(Seq::<ActionModel>::empty() + out.actions =~= out.actions);
                assert(Seq::<ArgModel>::empty() + out.args =~= out.args);
                assert(OutcomeModel {
                    actions: Seq::<ActionModel>::empty() + out.actions,
                    args: Seq::<ArgModel>::empty() + out.args,
                } =~= out);
            },
            Err(_) => {},
        }
    }
    loop
        invariant
            first_dup(reg@) is None,
            run_composes(
                reg@,
                init,
                actions@.map_values(|x: Action| x@),
                positionals@.map_values(|x: RawArg| x@),
                tokens@,
            ),
        decreases tokens@.rest.len(), tokens@.pending.len(),
    {
        let ghost t_old = tokens@;
        let ghost acts_old = actions@.map_values(|x: Action| x@);
        let ghost poss_old = positionals@.map_values(|x: RawArg| x@);
        match tokens.next() {
            None => {
                proof {
                    assert(acts_old + Seq::<ActionModel>::empty() =~= acts_old);
                    assert(poss_old + Seq::<ArgModel>::empty() =~= poss_old);
                    assert(OutcomeModel {
                        actions: acts_old + Seq::<ActionModel>::empty(),
                        args: poss_old + Seq::<ArgModel>::empty(),
                    } =~= OutcomeModel { actions: acts_old, args: poss_old });
                }
                return Ok(ParseOutcome { actions, args: positionals });
            },
            Some(Token::Arg(a)) => {
                let ghost av = a@;
                proof {
                    assert(run(reg@, t_old) == prepend_arg(run(reg@, tokens@), av));
                    lemma_compose_arg(reg@, init, acts_old, poss_old, t_old, tokens@, av);
                }
                positionals.push(a);
                proof {
                    assert(positionals@.map_values(|x: RawArg| x@) =~= poss_old.push(av));
                }
            },
            Some(Token::Short(ch)) => {
                match reg.find_short(ch) {
                    None => {
                        proof {
                            assert(run(reg@, t_old) == Err::<OutcomeModel, ParseErrorModel>(
                                ParseErrorModel::UnrecognizedShort(ch),
                            ));
                        }
                        return Err(ParseError::UnrecognizedShort(ch));
                    },
                    Some(i) => {
                        if reg.get(i).is_bool {
                            let ghost am = ActionModel {
                                flag: i as int,
                                effect: EffectModel::SetBool(true),
                            };
                            proof {
                                assert(run(reg@, t_old) == prepend_action(
                                    run(reg@, tokens@),
                                    am,
                                ));
                                lemma_compose_action(
                                    reg@,
                                    init,
                                    acts_old,
                                    poss_old,
                                    t_old,
                                    tokens@,
                                    am,
                                );
                            }
                            actions.push(Action { flag: i, effect: Effect::SetBool(true) });
                            proof {
                                assert(actions@.map_values(|x: Action| x@) =~= acts_old.push(am));
                            }
                        } else {
                            let ghost t1 = tokens@;
                            match tokens.next_arg() {
                                None => {
                                    proof {
                                        assert(run(reg@, t_old) == Err::<
                                            OutcomeModel,
                                            ParseErrorModel,
                                        >(ParseErrorModel::MissingValue(NameModel::Short(ch))));
                                    }
                                    return Err(ParseError::MissingValue(Name::short(ch)));
                                },
                                Some(v) => {
                                    let ghost am = ActionModel {
                                        flag: i as int,
                                        effect: EffectModel::Assign(v@),
                                    };
                                    proof {
                                        assert(run(reg@, t_old) == prepend_action(
                                            run(reg@, tokens@),
                                            am,
                                        ));
                                        lemma_compose_action(
                                            reg@,
                                            init,
                                            acts_old,
                                            poss_old,
                                            t_old,
                                            tokens@,
                                            am,
                                        );
                                    }
                                    actions.push(Action { flag: i, effect: Effect::Assign(v) });
                                    proof {
                                        assert(actions@.map_values(|x: Action| x@) =~= acts_old.push(
                                            am,
                                        ));
                                    }
                                },
                            }
                        }
                    },
                }
            },
            Some(Token::Long(name)) => {
                match reg.find_long(&name) {
                    Some(i) => {
                        if reg.get(i).is_bool {
                            let ghost am = ActionModel {
                                flag: i as int,
                                effect: EffectModel::SetBool(true),
                            };
                            proof {
                                assert(run(reg@, t_old) == prepend_action(
                                    run(reg@, tokens@),
                                    am,
                                ));
                                lemma_compose_action(
                                    reg@,
                                    init,
                                    acts_old,
                                    poss_old,
                                    t_old,
                                    tokens@,
                                    am,
                                );
                            }
                            actions.push(Action { flag: i, effect: Effect::SetBool(true) });
                            proof {
                                assert(actions@.map_values(|x: Action| x@) =~= acts_old.push(am));
                            }
                        } else {
                            let ghost t1 = tokens@;
                            match tokens.next_arg() {
                                None => {
                                    let canonical = reg.get(i).name.clone();
                                    proof {
                                        assert(run(reg@, t_old) == Err::<
                                            OutcomeModel,
                                            ParseErrorModel,
                                        >(
                                            ParseErrorModel::MissingValue(
                                                NameModel::Long(reg@[i as int].name),
                                            ),
                                        ));
                                    }
                                    return Err(ParseError::MissingValue(Name::long(canonical)));
                                },
                                Some(v) => {
                                    let ghost am = ActionModel {
                                        flag: i as int,
                                        effect: EffectModel::Assign(v@),
                                    };
                                    proof {
                                        assert(run(reg@, t_old) == prepend_action(
                                            run(reg@, tokens@),
                                            am,
                                        ));
                                        lemma_compose_action(
                                            reg@,
                                            init,
                                            acts_old,
                                            poss_old,
                                            t_old,
                                            tokens@,
                                            am,
                                        );
                                    }
                                    actions.push(Action { flag: i, effect: Effect::Assign(v) });
                                    proof {
                                        assert(actions@.map_values(|x: Action| x@) =~= acts_old.push(
                                            am,
                                        ));
                                    }
                                },
                            }
                        }
                    },
                    None => {
                        let nlen = name.as_str().unicode_len();
                        let is_no = nlen >= 2 && name.as_str().get_char(0) == 'n'
                            && name.as_str().get_char(1) == 'o';
                        if is_no {
                            let stripped = String::from_str(name.as_str().substring_char(2, nlen));
                            proof {
                                assert(stripped@ =~= name@.skip(2));
                            }
                            match reg.find_long(&stripped) {
                                Some(j) => {
                                    if reg.get(j).is_bool {
                                        let ghost am = ActionModel {
                                            flag: j as int,
                                            effect: EffectModel::SetBool(false),
                                        };
                                        proof {
                                            assert(lookup_long(reg@, name@.skip(2)) == Some(
                                                j as int,
                                            ));
                                            assert(run(reg@, t_old) == prepend_action(
                                                run(reg@, tokens@),
                                                am,
                                            ));
                                            lemma_compose_action(
                                                reg@,
                                                init,
                                                acts_old,
                                                poss_old,
                                                t_old,
                                                tokens@,
                                                am,
                                            );
                                        }
                                        actions.push(
                                            Action { flag: j, effect: Effect::SetBool(false) },
                                        );
                                        proof {
                                            assert(actions@.map_values(|x: Action| x@)
                                                =~= acts_old.push(am));
                                        }
                                    } else {
                                        proof {
                                            assert(run(reg@, t_old) == Err::<
                                                OutcomeModel,
                                                ParseErrorModel,
                                            >(ParseErrorModel::UnrecognizedLong(name@)));
                                        }
                                        return Err(ParseError::UnrecognizedLong(name));
                                    }
                                },
                                None => {
                                    proof {
                                        assert(run(reg@, t_old) == Err::<
                                            OutcomeModel,
                                            ParseErrorModel,
                                        >(ParseErrorModel::UnrecognizedLong(name@)));
                                    }
                                    return Err(ParseError::UnrecognizedLong(name));
                                },
                            }
                        } else {
                            proof {
                                assert(run(reg@, t_old) == Err::<OutcomeModel, ParseErrorModel>(
                                    ParseErrorModel::UnrecognizedLong(name@),
                                ));
                            }
                            return Err(ParseError::UnrecognizedLong(name));
                        }
                    },
                }
            },
            Some(Token::LongEq(name, value)) => {
                match reg.find_long(&name) {
                    None => {
                        proof {
                            assert(run(reg@, t_old) == Err::<OutcomeModel, ParseErrorModel>(
                                ParseErrorModel::UnrecognizedLong(name@),
                            ));
                        }
                        return Err(ParseError::UnrecognizedLong(name));
                    },
                    Some(i) => {
                        if reg.get(i).is_bool {
                            proof {
                                assert(run(reg@, t_old) == Err::<OutcomeModel, ParseErrorModel>(
                                    ParseErrorModel::UnexpectedValue(name@, value@),
                                ));
                            }
                            return Err(ParseError::UnexpectedValue(name, value));
                        } else {
                            let ghost am = ActionModel {
                                flag: i as int,
                                effect: EffectModel::Assign(ArgModel::Text(value@)),
                            };
                            proof {
                                assert(run(reg@, t_old) == prepend_action(
                                    run(reg@, tokens@),
                                    am,
                                ));
                                lemma_compose_action(
                                    reg@,
                                    init,
                                    acts_old,
                                    poss_old,
                                    t_old,
                                    tokens@,
                                    am,
                                );
                            }
                            actions.push(
                                Action { flag: i, effect: Effect::Assign(RawArg::Text(value)) },
                            );
                            proof {
                                assert(actions@.map_values(|x: Action| x@) =~= acts_old.push(am));
                            }
                        }
                    },
                }
            },
        }
    }
}

/// Whether every positional argument is valid text.
pub open spec fn all_text(args: Seq<ArgModel>) -> bool {
    forall|i: int| 0 <= i < args.len() ==> args[i] is Text
}

/// The text of each positional argument.
pub open spec fn texts_of(args: Seq<ArgModel>) -> Seq<Seq<char>> {
    args.map_values(
        |a: ArgModel|
            match a {
                ArgModel::Text(s) => s,
                ArgModel::Bytes(_) => Seq::empty(),
            },
    )
}

/// Initialize the value of all flags from the given raw command line,
/// with every positional argument as text.
///
/// Equivalent to [`parse_os`] in all ways, except that a positional
/// argument that is not valid text is an error. Raw flag *values* are
/// still allowed; each flag's own parser decides whether it takes
/// them.
#[verifier::loop_isolation(false)]
pub fn parse(reg: &Registry, args: Vec<RawArg>) -> (r: Result<
    (Vec<Action>, Vec<String>),
    ParseError,
>)
    ensures
        match parse_spec(reg@, args@.map_values(|a: RawArg| a@)) {
            Err(e) => r matches Err(pe) && pe@ == e,
            Ok(out) => {
                if all_text(out.args) {
                    &&& r matches Ok(p)
                    &&& (r matches Ok(p) ==> p.0@.map_values(|a: Action| a@) == out.actions
                        && p.1@.map_values(|s: String| s@) == texts_of(out.args))
                } else {
                    r matches Err(pe) && pe@ == ParseErrorModel::NonUnicodeArg
                }
            },
        },
{
    match parse_os(reg, args) {
        Err(e) => Err(e),
        Ok(out) => {
            let ParseOutcome { actions, args: positionals } = out;
            let ghost pm = positionals@.map_values(|x: RawArg| x@);
            let mut texts: Vec<String> = Vec::new();
            let n = positionals.len();
            proof {
                assert(texts@.map_values(|s: String| s@) =~= texts_of(pm.subrange(0, 0)));
            }
            let mut k: usize = 0;
            while k < n
                invariant
                    0 <= k <= n,
                    n == positionals@.len(),
                    pm == positionals@.map_values(|x: RawArg| x@),
                    forall|x: int| 0 <= x < k ==> pm[x] is Text,
                    texts@.map_values(|s: String| s@) == texts_of(pm.subrange(0, k as int)),
                decreases n - k,
            {
                match &positionals[k] {
                    RawArg::Text(s) => {
                        let ghost tv = texts@;
                        texts.push(s.clone());
                        proof {
                            assert(pm[k as int] == ArgModel::Text(s@));
                            assert(tv.map_values(|s2: String| s2@).len() == k as int);
                            assert(texts@.map_values(|s2: String| s2@) =~= tv.map_values(
                                |s2: String| s2@,
                            ).push(texts@[k as int]@));
                            assert(pm.subrange(0, k as int + 1) =~= pm.subrange(
                                0,
                                k as int,
                            ).push(pm[k as int]));
                            assert(texts@.map_values(|s2: String| s2@) =~= texts_of(
                                pm.subrange(0, k as int + 1),
                            ));
                        }
                    },
                    RawArg::Bytes(_) => {
                        proof {
                            assert(pm[k as int] is Bytes);
                            assert(!all_text(pm));
                        }
                        return Err(ParseError::NonUnicodeArg);
                    },
                }
                k = k + 1;
            }
            proof {
                assert(pm.subrange(0, n as int) =~= pm);
                assert(all_text(pm));
            }
            Ok((actions, texts))
        },
    }
}

} // verus!
