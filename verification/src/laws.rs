//! The laws of the command-line grammar, stated and proved over the
//! driver's transition system [`run`]: equivalence of the spellings
//! the grammar treats alike, what `--` and `--no` negation do, and
//! exact publication counting for repeated boolean flags.

use vstd::prelude::*;
use crate::arg::ArgModel;
use crate::dispatch::{ActionModel, EffectModel};
use crate::parse::{OutcomeModel, ParseErrorModel, init_state, prepend_action, run};
use crate::registry::{FlagModel, lemma_lookup_long_self, lemma_lookup_short_self, lookup_long, lookup_short, well_formed};
use crate::token::{TokenizerModel, lemma_find_eq_from_absent, lemma_find_eq_from_at, spec_next, spec_next_arg};

verus! {

/// Once flag parsing has ended, every remaining argument is positional:
/// from a state in which a literal `--` was already seen, the driver
/// returns exactly the remaining arguments, publishes nothing, and
/// never fails, however much the arguments resemble flags.
pub proof fn lemma_after_double_dash_all_positional(reg: Seq<FlagModel>, t: TokenizerModel)
    requires
        t.rest_are_args,
        t.pending.len() == 0,
    ensures
        run(reg, t) == Ok::<OutcomeModel, ParseErrorModel>(
            OutcomeModel { actions: Seq::empty(), args: t.rest },
        ),
    decreases t.rest.len(),
{
    if t.rest.len() == 0 {
        assert(t.rest =~= Seq::<ArgModel>::empty());
    } else {
        let t1 = spec_next(t).0;
        lemma_after_double_dash_all_positional(reg, t1);
        assert(seq![t.rest[0]] + t.rest.skip(1) =~= t.rest);
    }
}

/// A literal `--` token ends flag parsing: everything after it comes
/// back as positional text, even what lexically resembles a flag, and
/// the `--` itself is consumed and invisible.
pub proof fn lemma_double_dash(reg: Seq<FlagModel>, rest: Seq<ArgModel>)
    ensures
        run(reg, init_state(seq![ArgModel::Text("--"@)] + rest)) == Ok::<
            OutcomeModel,
            ParseErrorModel,
        >(OutcomeModel { actions: Seq::empty(), args: rest }),
{
    reveal_strlit("--");
    let args = seq![ArgModel::Text("--"@)] + rest;
    let t0 = init_state(args);
    assert(args[0] == ArgModel::Text("--"@));
    assert(args.skip(1) =~= rest);
    if rest.len() == 0 {
        assert(run(reg, t0) == Ok::<OutcomeModel, ParseErrorModel>(
            OutcomeModel { actions: Seq::empty(), args: Seq::empty() },
        ));
        assert(rest =~= Seq::<ArgModel>::empty());
    } else {
        let t2 = spec_next(t0).0;
        assert(t2.rest =~= rest.skip(1));
        lemma_after_double_dash_all_positional(reg, t2);
        assert(seq![rest[0]] + rest.skip(1) =~= rest);
    }
}

/// Cuddled boolean short flags mean the same as the flags written
/// separately: `-ab` behaves exactly as `-a -b` when both `a` and `b`
/// are boolean flags, whatever else the command line holds.
pub proof fn lemma_cuddled_bool_shorts(
    reg: Seq<FlagModel>,
    c1: char,
    c2: char,
    rest: Seq<ArgModel>,
)
    requires
        c1 != '-',
        c2 != '-',
        lookup_short(reg, c1) matches Some(i) && reg[i].is_bool,
        lookup_short(reg, c2) matches Some(j) && reg[j].is_bool,
    ensures
        run(reg, init_state(seq![ArgModel::Text(seq!['-', c1, c2])] + rest)) == run(
            reg,
            init_state(seq![ArgModel::Text(seq!['-', c1]), ArgModel::Text(seq!['-', c2])] + rest),
        ),
{
    reveal_with_fuel(run, 3);
    let s_l = seq!['-', c1, c2];
    let args_l = seq![ArgModel::Text(s_l)] + rest;
    let t0l = init_state(args_l);
    assert(args_l[0] == ArgModel::Text(s_l));
    assert(args_l.skip(1) =~= rest);
    let t1l = spec_next(t0l).0;
    assert(t1l.pending =~= seq![c2]);
    let t2l = spec_next(t1l).0;

    let args_r = seq![ArgModel::Text(seq!['-', c1]), ArgModel::Text(seq!['-', c2])] + rest;
    let t0r = init_state(args_r);
    assert(args_r[0] == ArgModel::Text(seq!['-', c1]));
    let t1r = spec_next(t0r).0;
    assert(t1r.pending =~= Seq::<char>::empty());
    assert(t1r.rest =~= seq![ArgModel::Text(seq!['-', c2])] + rest);
    assert(t1r.rest[0] == ArgModel::Text(seq!['-', c2]));
    let t2r = spec_next(t1r).0;

    assert(t2l =~= t2r);
    assert(t2l.rest =~= rest);
}

/// A cuddled value and a separate value mean the same: `-cVALUE`
/// behaves exactly as `-c VALUE` for a non-boolean short flag `c` and a
/// non-empty VALUE, whatever else the command line holds.
pub proof fn lemma_cuddled_short_value(
    reg: Seq<FlagModel>,
    c: char,
    value: Seq<char>,
    rest: Seq<ArgModel>,
)
    requires
        c != '-',
        value.len() > 0,
        lookup_short(reg, c) matches Some(i) && !reg[i].is_bool,
    ensures
        run(reg, init_state(seq![ArgModel::Text(seq!['-', c] + value)] + rest)) == run(
            reg,
            init_state(seq![ArgModel::Text(seq!['-', c]), ArgModel::Text(value)] + rest),
        ),
{
    reveal_with_fuel(run, 3);
    let s_l = seq!['-', c] + value;
    let args_l = seq![ArgModel::Text(s_l)] + rest;
    let t0l = init_state(args_l);
    assert(args_l[0] == ArgModel::Text(s_l));
    assert(args_l.skip(1) =~= rest);
    assert(s_l[0] == '-' && s_l[1] == c);
    let t1l = spec_next(t0l).0;
    assert(t1l.pending =~= value);

    let args_r = seq![ArgModel::Text(seq!['-', c]), ArgModel::Text(value)] + rest;
    let t0r = init_state(args_r);
    assert(args_r[0] == ArgModel::Text(seq!['-', c]));
    let t1r = spec_next(t0r).0;
    assert(t1r.pending =~= Seq::<char>::empty());
    assert(t1r.rest =~= seq![ArgModel::Text(value)] + rest);
    assert(t1r.rest[0] == ArgModel::Text(value));

    let pl = spec_next_arg(t1l);
    let pr = spec_next_arg(t1r);
    assert(pl.1 == Some(ArgModel::Text(value)));
    assert(pr.1 == Some(ArgModel::Text(value)));
    assert(pl.0 =~= pr.0);
    assert(pl.0.rest =~= rest);
}

/// Inline and separate long-flag values mean the same: `--name=VALUE`
/// behaves exactly as `--name VALUE` for a non-boolean long flag whose
/// name holds no `=`, whatever the VALUE and whatever else the command
/// line holds.
pub proof fn lemma_long_inline_value(
    reg: Seq<FlagModel>,
    name: Seq<char>,
    value: Seq<char>,
    rest: Seq<ArgModel>,
)
    requires
        name.len() > 0,
        forall|k: int| 0 <= k < name.len() ==> name[k] != '=',
        lookup_long(reg, name) matches Some(i) && !reg[i].is_bool,
    ensures
        run(
            reg,
            init_state(seq![ArgModel::Text(seq!['-', '-'] + name + seq!['='] + value)] + rest),
        ) == run(
            reg,
            init_state(seq![ArgModel::Text(seq!['-', '-'] + name), ArgModel::Text(value)] + rest),
        ),
{
    reveal_with_fuel(run, 3);
    let s_l = seq!['-', '-'] + name + seq!['='] + value;
    let args_l = seq![ArgModel::Text(s_l)] + rest;
    let t0l = init_state(args_l);
    assert(args_l[0] == ArgModel::Text(s_l));
    assert(args_l.skip(1) =~= rest);
    let p = 2 + name.len() as int;
    assert(s_l[p] == '=');
    assert(forall|k: int| 0 <= k < p ==> s_l[k] != '=') by {
        assert(s_l[0] == '-' && s_l[1] == '-');
        assert(forall|k: int| 2 <= k < p ==> s_l[k] == name[k - 2]);
    }
    lemma_find_eq_from_at(s_l, 0, p);
    assert(s_l.subrange(2, p) =~= name);
    assert(s_l.subrange(p + 1, s_l.len() as int) =~= value);

    let s_r = seq!['-', '-'] + name;
    let args_r = seq![ArgModel::Text(s_r), ArgModel::Text(value)] + rest;
    let t0r = init_state(args_r);
    assert(args_r[0] == ArgModel::Text(s_r));
    assert(forall|k: int| 0 <= k < s_r.len() ==> s_r[k] != '=') by {
        assert(s_r[0] == '-' && s_r[1] == '-');
        assert(forall|k: int| 2 <= k < s_r.len() ==> s_r[k] == name[k - 2]);
    }
    lemma_find_eq_from_absent(s_r, 0);
    assert(s_r.skip(2) =~= name);
    let t1r = spec_next(t0r).0;
    assert(t1r.rest =~= seq![ArgModel::Text(value)] + rest);
    assert(t1r.rest[0] == ArgModel::Text(value));

    let t1l = spec_next(t0l).0;
    let pr = spec_next_arg(t1r);
    assert(pr.1 == Some(ArgModel::Text(value)));
    assert(t1l =~= pr.0);
    assert(t1l.rest =~= rest);
}

/// `--no<name>` on a boolean flag `name` publishes `false` and counts
/// as an occurrence, provided no flag is itself named `no<name>`: the
/// direct match would win.
pub proof fn lemma_negation_bool(reg: Seq<FlagModel>, name: Seq<char>, rest: Seq<ArgModel>)
    requires
        lookup_long(reg, seq!['n', 'o'] + name) is None,
        lookup_long(reg, name) matches Some(i) && reg[i].is_bool,
        forall|k: int| 0 <= k < name.len() ==> name[k] != '=',
    ensures
        run(reg, init_state(seq![ArgModel::Text(seq!['-', '-', 'n', 'o'] + name)] + rest))
            == prepend_action(
            run(reg, init_state(rest)),
            ActionModel { flag: lookup_long(reg, name)->0, effect: EffectModel::SetBool(false) },
        ),
{
    let s = seq!['-', '-', 'n', 'o'] + name;
    let args = seq![ArgModel::Text(s)] + rest;
    let t0 = init_state(args);
    assert(args[0] == ArgModel::Text(s));
    assert(args.skip(1) =~= rest);
    assert(forall|k: int| 0 <= k < s.len() ==> s[k] != '=') by {
        assert(s[0] == '-' && s[1] == '-' && s[2] == 'n' && s[3] == 'o');
        assert(forall|k: int| 4 <= k < s.len() ==> s[k] == name[k - 4]);
    }
    lemma_find_eq_from_absent(s, 0);
    let nn = s.skip(2);
    assert(nn =~= seq!['n', 'o'] + name);
    assert(nn[0] == 'n' && nn[1] == 'o');
    assert(nn.skip(2) =~= name);
}

/// `--no<name>` is rejected as unrecognized when `name` is not a
/// boolean flag (and no flag is itself named `no<name>`): negation
/// applies to boolean flags alone.
pub proof fn lemma_negation_non_bool(reg: Seq<FlagModel>, name: Seq<char>, rest: Seq<ArgModel>)
    requires
        lookup_long(reg, seq!['n', 'o'] + name) is None,
        lookup_long(reg, name) matches Some(i) && !reg[i].is_bool,
        forall|k: int| 0 <= k < name.len() ==> name[k] != '=',
    ensures
        run(reg, init_state(seq![ArgModel::Text(seq!['-', '-', 'n', 'o'] + name)] + rest)) == Err::<
            OutcomeModel,
            ParseErrorModel,
        >(ParseErrorModel::UnrecognizedLong(seq!['n', 'o'] + name)),
{
    let s = seq!['-', '-', 'n', 'o'] + name;
    let args = seq![ArgModel::Text(s)] + rest;
    let t0 = init_state(args);
    assert(args[0] == ArgModel::Text(s));
    assert(forall|k: int| 0 <= k < s.len() ==> s[k] != '=') by {
        assert(s[0] == '-' && s[1] == '-' && s[2] == 'n' && s[3] == 'o');
        assert(forall|k: int| 4 <= k < s.len() ==> s[k] == name[k - 4]);
    }
    lemma_find_eq_from_absent(s, 0);
    let nn = s.skip(2);
    assert(nn =~= seq!['n', 'o'] + name);
    assert(nn.skip(2) =~= name);
}

/// Repeating a boolean short flag N times on the command line
/// publishes exactly N times: N occurrences of `-c` become N `true`
/// publications for that flag, in order, with no positional arguments
/// and no error.
pub proof fn lemma_repeat_short_bool(reg: Seq<FlagModel>, i: int, c: char, n: nat)
    requires
        well_formed(reg),
        0 <= i < reg.len(),
        reg[i].is_bool,
        c != '-',
        reg[i].short == Some(c),
    ensures
        run(reg, init_state(Seq::new(n, |k: int| ArgModel::Text(seq!['-', c])))) == Ok::<
            OutcomeModel,
            ParseErrorModel,
        >(
            OutcomeModel {
                actions: Seq::new(
                    n,
                    |k: int| ActionModel { flag: i, effect: EffectModel::SetBool(true) },
                ),
                args: Seq::empty(),
            },
        ),
    decreases n,
{
    lemma_lookup_short_self(reg, i);
    let args = Seq::new(n, |k: int| ArgModel::Text(seq!['-', c]));
    let acts = Seq::new(n, |k: int| ActionModel { flag: i, effect: EffectModel::SetBool(true) });
    if n == 0 {
        assert(args =~= Seq::<ArgModel>::empty());
        assert(acts =~= Seq::<ActionModel>::empty());
    } else {
        let s = seq!['-', c];
        assert(args[0] == ArgModel::Text(s));
        let t1 = spec_next(init_state(args)).0;
        assert(t1.pending =~= Seq::<char>::empty());
        let tail = Seq::new((n - 1) as nat, |k: int| ArgModel::Text(seq!['-', c]));
        assert(t1.rest =~= tail);
        lemma_repeat_short_bool(reg, i, c, (n - 1) as nat);
        let t1i = init_state(tail);
        assert(t1 =~= t1i);
        let tail_acts = Seq::new(
            (n - 1) as nat,
            |k: int| ActionModel { flag: i, effect: EffectModel::SetBool(true) },
        );
        assert(seq![ActionModel { flag: i, effect: EffectModel::SetBool(true) }] + tail_acts
            =~= acts);
    }
}

/// Repeating a boolean flag N times on the command line publishes
/// exactly N times: N occurrences of `--name` become N `true`
/// publications for that flag, in order, with no positional arguments
/// and no error.
pub proof fn lemma_repeat_long_bool(reg: Seq<FlagModel>, i: int, n: nat)
    requires
        well_formed(reg),
        0 <= i < reg.len(),
        reg[i].is_bool,
        reg[i].name.len() > 0,
        forall|k: int| 0 <= k < reg[i].name.len() ==> reg[i].name[k] != '=',
    ensures
        run(
            reg,
            init_state(
                Seq::new(n, |k: int| ArgModel::Text(seq!['-', '-'] + reg[i].name)),
            ),
        ) == Ok::<OutcomeModel, ParseErrorModel>(
            OutcomeModel {
                actions: Seq::new(
                    n,
                    |k: int| ActionModel { flag: i, effect: EffectModel::SetBool(true) },
                ),
                args: Seq::empty(),
            },
        ),
    decreases n,
{
    let name = reg[i].name;
    let args = Seq::new(n, |k: int| ArgModel::Text(seq!['-', '-'] + name));
    let acts = Seq::new(n, |k: int| ActionModel { flag: i, effect: EffectModel::SetBool(true) });
    if n == 0 {
        assert(args =~= Seq::<ArgModel>::empty());
        assert(acts =~= Seq::<ActionModel>::empty());
    } else {
        let s = seq!['-', '-'] + name;
        assert(args[0] == ArgModel::Text(s));
        assert(forall|k: int| 0 <= k < s.len() ==> s[k] != '=') by {
            assert(s[0] == '-' && s[1] == '-');
            assert(forall|k: int| 2 <= k < s.len() ==> s[k] == name[k - 2]);
        }
        lemma_find_eq_from_absent(s, 0);
        assert(s.skip(2) =~= name);
        lemma_lookup_long_self(reg, i);
        let t1 = spec_next(init_state(args)).0;
        let tail = Seq::new((n - 1) as nat, |k: int| ArgModel::Text(seq!['-', '-'] + name));
        assert(t1.rest =~= tail);
        assert(t1 == init_state(tail));
        lemma_repeat_long_bool(reg, i, (n - 1) as nat);
        let tail_acts = Seq::new(
            (n - 1) as nat,
            |k: int| ActionModel { flag: i, effect: EffectModel::SetBool(true) },
        );
        assert(seq![ActionModel { flag: i, effect: EffectModel::SetBool(true) }] + tail_acts
            =~= acts);
    }
}

} // verus!
