//! Laws of the command line parser, stated over the abstract parser of
//! `getopt` and proved.
use vstd::prelude::*;

use crate::getopt::{
    cluster_left, in_cluster, initial, lookup, outputs, step, table_of, valid_optstring, valid_state, ArgView, GetOpt,
    GetOptErr, ItemView, OptSpec, ParseState,
};

verus! {

/// The option letter that a yielded item is about, if any.
pub open spec fn item_letter(x: ItemView) -> Option<char> {
    match x {
        Ok(ArgView::Opt(c)) => Some(c),
        Ok(ArgView::OptWithArg(c, _)) => Some(c),
        Ok(ArgView::Arg(_)) => None,
        Err(GetOptErr::MissingArg(c)) => Some(c),
        Err(GetOptErr::UnknownOpt(c)) => Some(c),
        Err(GetOptErr::MissingOpt) => None,
    }
}

/// Whether `a` is exactly `--`.
pub open spec fn is_double_dash(a: Seq<char>) -> bool {
    a.len() == 2 && a[0] == '-' && a[1] == '-'
}

/// The option character that the next pull from `s` decodes, if it decodes
/// one: the next character of the open cluster, or else, while options are
/// still scanned, the letter after the hyphen of the argument that it pulls.
pub open spec fn next_option_char(s: ParseState) -> Option<char> {
    if in_cluster(s) {
        Some(s.chars[s.idx])
    } else if !s.opts_done && s.args.len() > 0 && s.args[0].len() >= 2 && s.args[0][0] == '-'
        && !is_double_dash(s.args[0]) {
        Some(s.args[0][1])
    } else {
        None
    }
}

/// Whether the next pull from `s` takes a lone hyphen as an option.
pub open spec fn pulls_lone_hyphen(s: ParseState) -> bool {
    !in_cluster(s) && !s.opts_done && s.args.len() > 0 && s.args[0] =~= seq!['-']
}

/// The sequence of items that the arguments `args` give when each is taken
/// as a plain argument.
pub open spec fn all_positional(args: Seq<Seq<char>>) -> Seq<ItemView> {
    args.map_values(|a: Seq<char>| Ok(ArgView::Arg(a)))
}

/// Every entry of the table of an option string without a colon is an
/// option without a value.
pub proof fn lemma_table_without_colon(o: Seq<char>)
    requires
        !o.contains(':'),
    ensures
        forall|i: int| 0 <= i < table_of(o).len() ==> !(#[trigger] table_of(o)[i]).has_arg,
    decreases o.len(),
{
    if o.len() > 0 {
        assert(!o.drop_last().contains(':')) by {
            if o.drop_last().contains(':') {
                let j = choose|j: int| 0 <= j < o.drop_last().len() && o.drop_last()[j] == ':';
                assert(o[j] == ':');
            }
        }
        lemma_table_without_colon(o.drop_last());
        let t = table_of(o.drop_last());
        lemma_table_letter(o, o.last());
        assert forall|i: int| 0 <= i < table_of(o).len() implies !(
        #[trigger] table_of(o)[i]).has_arg by {
            if i < t.len() {
                assert(table_of(o)[i] == t[i]);
            } else {
                assert(table_of(o)[i] == table_of(o).last());
            }
        }
    }
}

/// A letter at the end of an option string adds one entry, without a value,
/// to the table of what comes before it.
pub proof fn lemma_table_letter(o: Seq<char>, c: char)
    requires
        o.len() > 0,
        o.last() == c,
        c != ':',
    ensures
        table_of(o) == table_of(o.drop_last()).push(OptSpec { opt: c, has_arg: false }),
        table_of(o).len() == table_of(o.drop_last()).len() + 1,
        forall|i: int|
            0 <= i < table_of(o.drop_last()).len() ==> #[trigger] table_of(o)[i] == table_of(
                o.drop_last(),
            )[i],
        table_of(o).last() == (OptSpec { opt: c, has_arg: false }),
{
}

/// What `lookup` finds is an entry of the table, for the letter asked.
pub proof fn lemma_lookup_finds_entry(specs: Seq<OptSpec>, c: char)
    ensures
        lookup(specs, c) matches Some(sp) ==> sp.opt == c && specs.contains(sp),
    decreases specs.len(),
{
    if specs.len() > 0 && specs[0].opt != c {
        lemma_lookup_finds_entry(specs.drop_first(), c);
        if let Some(sp) = lookup(specs, c) {
            let j = choose|j: int| 0 <= j < specs.drop_first().len() && specs.drop_first()[j] == sp;
            assert(specs[j + 1] == sp);
        }
    }
    if specs.len() > 0 && specs[0].opt == c {
        assert(specs.contains(specs[0]));
    }
}

/// With an option string that has no colon, a pull never yields an option
/// with a value, and a pull that decodes a letter of the table yields that
/// letter as a plain option.
pub proof fn lemma_no_colon_step(o: Seq<char>, s: ParseState)
    requires
        valid_optstring(o),
        !o.contains(':'),
        valid_state(s),
    ensures
        !(step(table_of(o), s).0 matches Some(Ok(ArgView::OptWithArg(_, _)))),
        next_option_char(s) matches Some(c) ==> (lookup(table_of(o), c) is Some ==> step(
            table_of(o),
            s,
        ).0 == Some(Ok::<ArgView, GetOptErr>(ArgView::Opt(c)))),
{
    lemma_table_without_colon(o);
    let specs = table_of(o);
    let c = if in_cluster(s) {
        s.chars[s.idx]
    } else if s.args.len() > 0 && s.args[0].len() >= 2 {
        s.args[0][1]
    } else {
        ' '
    };
    lemma_lookup_finds_entry(specs, c);
    if let Some(sp) = lookup(specs, c) {
        let j = choose|j: int| 0 <= j < specs.len() && specs[j] == sp;
        assert(!specs[j].has_arg);
    }
}

/// With an option string that has no colon, no item of a whole run is an
/// option with a value.
pub proof fn lemma_no_colon_run(o: Seq<char>, s: ParseState)
    requires
        valid_optstring(o),
        !o.contains(':'),
        valid_state(s),
    ensures
        forall|i: int|
            0 <= i < outputs(table_of(o), s).len() ==> !(#[trigger] outputs(table_of(o), s)[i] matches Ok(
                ArgView::OptWithArg(_, _),
            )),
    decreases s.args.len(), cluster_left(s),
{
    let specs = table_of(o);
    lemma_no_colon_step(o, s);
    lemma_step_keeps_valid(specs, s);
    let (r, next) = step(specs, s);
    if r is Some {
        lemma_no_colon_run(o, next);
        assert forall|i: int| 0 <= i < outputs(specs, s).len() implies !(
        #[trigger] outputs(specs, s)[i] matches Ok(ArgView::OptWithArg(_, _))) by {
            if i > 0 {
                assert(outputs(specs, s)[i] == outputs(specs, next)[i - 1]);
            }
        }
    }
}

/// A pull keeps the parser state valid.
pub proof fn lemma_step_keeps_valid(specs: Seq<OptSpec>, s: ParseState)
    requires
        valid_state(s),
    ensures
        valid_state(step(specs, s).1),
{
}

/// While options are scanned, each item that is not a plain argument stands
/// for exactly one option character: a pull yields such an item exactly when
/// it decodes an option character, and the item is about that character.
/// (A lone hyphen, which yields an error and holds no option character, is
/// left out.)
pub proof fn lemma_one_item_per_option_char(specs: Seq<OptSpec>, s: ParseState)
    requires
        valid_state(s),
        !s.opts_done,
        !pulls_lone_hyphen(s),
    ensures
        ({
            let r = step(specs, s).0;
            &&& (next_option_char(s) is Some <==> (r matches Some(x) && !(x matches Ok(
                ArgView::Arg(_),
            ))))
            &&& (next_option_char(s) is Some ==> (match r {
                Some(x) => item_letter(x) == next_option_char(s),
                None => false,
            }))
        }),
{
}

/// Whether the option letter `c` is one that takes a value.
pub open spec fn takes_value(specs: Seq<OptSpec>, c: char) -> bool {
    lookup(specs, c) matches Some(sp) && sp.has_arg
}

/// The option characters that are decoded from the cluster `tok`, starting at
/// index `from`: every character up to and including the first that takes a
/// value (the rest of the cluster is dropped), or all of them.
pub open spec fn cluster_count(specs: Seq<OptSpec>, tok: Seq<char>, from: int) -> nat
    decreases tok.len() - from,
{
    if from < 0 || from >= tok.len() {
        0
    } else if takes_value(specs, tok[from]) {
        1
    } else {
        1 + cluster_count(specs, tok, from + 1)
    }
}

/// Whether the cluster `tok`, from index `from` on, holds a character that
/// takes a value.
pub open spec fn cluster_takes_value(specs: Seq<OptSpec>, tok: Seq<char>, from: int) -> bool
    decreases tok.len() - from,
{
    if from < 0 || from >= tok.len() {
        false
    } else if takes_value(specs, tok[from]) {
        true
    } else {
        cluster_takes_value(specs, tok, from + 1)
    }
}

/// The number of option characters consumed, while options are scanned,
/// from the arguments `args`, up to the first plain argument or `--`: the
/// decoded characters of each cluster, one for each lone hyphen, and none for
/// the argument taken as an option's value.
pub open spec fn scan_count(specs: Seq<OptSpec>, args: Seq<Seq<char>>) -> nat
    decreases args.len(),
{
    if args.len() == 0 {
        0
    } else {
        let tok = args[0];
        let rest = args.drop_first();
        if tok.len() == 0 || tok[0] != '-' || is_double_dash(tok) {
            0
        } else if tok.len() == 1 {
            1 + scan_count(specs, rest)
        } else {
            let k = cluster_count(specs, tok, 1);
            if !cluster_takes_value(specs, tok, 1) {
                k + scan_count(specs, rest)
            } else if rest.len() == 0 {
                k
            } else {
                k + scan_count(specs, rest.drop_first())
            }
        }
    }
}

/// The number of option characters a parser in the state `s` still consumes
/// before its first plain argument: what is left of the open cluster, then
/// what the remaining arguments give.
pub open spec fn scan_count_state(specs: Seq<OptSpec>, s: ParseState) -> nat {
    if s.opts_done {
        0
    } else if in_cluster(s) {
        let k = cluster_count(specs, s.chars, s.idx);
        if !cluster_takes_value(specs, s.chars, s.idx) {
            k + scan_count(specs, s.args)
        } else if s.args.len() == 0 {
            k
        } else {
            k + scan_count(specs, s.args.drop_first())
        }
    } else {
        scan_count(specs, s.args)
    }
}

/// The number of items before the first plain argument (all of them if
/// there is none).
pub open spec fn items_before_positional(items: Seq<ItemView>) -> nat
    decreases items.len(),
{
    if items.len() == 0 {
        0
    } else if items[0] matches Ok(ArgView::Arg(_)) {
        0
    } else {
        1 + items_before_positional(items.drop_first())
    }
}

/// A pull inside a cluster yields an item that is not a plain argument and
/// consumes exactly one option character.
proof fn lemma_cluster_step(specs: Seq<OptSpec>, s: ParseState)
    requires
        valid_state(s),
        !s.opts_done,
        in_cluster(s),
    ensures
        ({
            let (r, next) = step(specs, s);
            &&& r matches Some(x) && !(x matches Ok(ArgView::Arg(_)))
            &&& !next.opts_done
            &&& valid_state(next)
            &&& scan_count_state(specs, s) == 1 + scan_count_state(specs, next)
        }),
{
    let c = s.chars[s.idx];
    let next = step(specs, s).1;
    if takes_value(specs, c) {
        assert(cluster_count(specs, s.chars, s.idx) == 1);
        assert(cluster_takes_value(specs, s.chars, s.idx));
    } else {
        assert(cluster_count(specs, s.chars, s.idx) == 1 + cluster_count(specs, s.chars, s.idx + 1));
        assert(cluster_takes_value(specs, s.chars, s.idx) == cluster_takes_value(
            specs,
            s.chars,
            s.idx + 1,
        ));
        if s.idx + 1 == s.chars.len() {
            assert(cluster_count(specs, s.chars, s.idx + 1) == 0);
            assert(!cluster_takes_value(specs, s.chars, s.idx + 1));
        }
    }
}

/// While options are scanned, the number of items yielded before the first
/// plain argument equals the number of option characters consumed: every
/// decoded option character, and every lone hyphen, gives one item.
pub proof fn lemma_items_before_positional(specs: Seq<OptSpec>, s: ParseState)
    requires
        valid_state(s),
        !s.opts_done,
    ensures
        items_before_positional(outputs(specs, s)) == scan_count_state(specs, s),
    decreases s.args.len(), cluster_left(s),
{
    let (r, next) = step(specs, s);
    if in_cluster(s) {
        lemma_cluster_step(specs, s);
        lemma_items_before_positional(specs, next);
        assert((seq![r->0] + outputs(specs, next)).drop_first() =~= outputs(specs, next));
    } else if s.args.len() > 0 {
        let tok = s.args[0];
        let rest = s.args.drop_first();
        if tok.len() == 0 || tok[0] != '-' || is_double_dash(tok) {
        } else if tok.len() == 1 {
            assert(tok =~= seq!['-']);
            lemma_items_before_positional(specs, next);
            assert((seq![r->0] + outputs(specs, next)).drop_first() =~= outputs(specs, next));
        } else {
            let s1 = ParseState { args: rest, chars: tok, idx: 1, ..s };
            assert(step(specs, s) == step(specs, s1));
            assert(scan_count_state(specs, s) == scan_count_state(specs, s1));
            lemma_cluster_step(specs, s1);
            lemma_items_before_positional(specs, next);
            assert((seq![r->0] + outputs(specs, next)).drop_first() =~= outputs(specs, next));
        }
    }
}

/// Once option scanning has ended, every remaining argument is yielded as a
/// plain argument with its exact value.
pub proof fn lemma_closed_all_positional(specs: Seq<OptSpec>, s: ParseState)
    requires
        valid_state(s),
        s.opts_done,
    ensures
        outputs(specs, s) == all_positional(s.args),
    decreases s.args.len(),
{
    if s.args.len() > 0 {
        let next = step(specs, s).1;
        assert(next.args == s.args.drop_first());
        lemma_closed_all_positional(specs, next);
        assert(all_positional(s.args) =~= seq![Ok::<ArgView, GetOptErr>(ArgView::Arg(s.args[0]))]
            + all_positional(s.args.drop_first()));
    } else {
        assert(all_positional(s.args) =~= Seq::<ItemView>::empty());
    }
}

/// Once a plain argument is yielded, option scanning has ended, and every
/// argument after it is yielded as a plain argument with its exact value,
/// even one that starts with a hyphen.
pub proof fn lemma_after_positional(specs: Seq<OptSpec>, s: ParseState)
    requires
        valid_state(s),
    ensures
        ({
            let (r, next) = step(specs, s);
            r matches Some(Ok(ArgView::Arg(_))) ==> {
                &&& next.opts_done
                &&& next.args.len() < s.args.len()
                &&& next.args == s.args.subrange(s.args.len() - next.args.len(), s.args.len() as int)
                &&& outputs(specs, next) == all_positional(next.args)
            }
        }),
{
    let (r, next) = step(specs, s);
    if r matches Some(Ok(ArgView::Arg(_))) {
        lemma_step_keeps_valid(specs, s);
        lemma_closed_all_positional(specs, next);
        if next.args.len() + 1 == s.args.len() {
            assert(next.args =~= s.args.subrange(1, s.args.len() as int));
        } else {
            assert(next.args =~= s.args.subrange(2, s.args.len() as int));
        }
    }
}

/// A `--` met while options are scanned yields nothing itself: the argument
/// after it, if any, is the next item, as a plain argument, and so is every
/// argument after that.
pub proof fn lemma_double_dash(specs: Seq<OptSpec>, s: ParseState)
    requires
        valid_state(s),
        !in_cluster(s),
        !s.opts_done,
        s.args.len() > 0,
        is_double_dash(s.args[0]),
    ensures
        outputs(specs, s) == all_positional(s.args.drop_first()),
{
    let rest = s.args.drop_first();
    let (r, next) = step(specs, s);
    if rest.len() > 0 {
        lemma_step_keeps_valid(specs, s);
        lemma_closed_all_positional(specs, next);
        assert(next.args =~= rest.drop_first());
        assert(all_positional(rest) =~= seq![Ok::<ArgView, GetOptErr>(ArgView::Arg(rest[0]))]
            + all_positional(rest.drop_first()));
    } else {
        assert(all_positional(rest) =~= Seq::<ItemView>::empty());
    }
}

/// Two fresh parsers over the same option string and the same arguments
/// yield the same sequence of items.
pub proof fn lemma_rerun_same_items(o: Seq<char>, a: Seq<Seq<char>>, p: GetOpt, q: GetOpt)
    requires
        p.specs() == table_of(o),
        p.state() == initial(a),
        q.specs() == table_of(o),
        q.state() == initial(a),
    ensures
        outputs(p.specs(), p.state()) == outputs(q.specs(), q.state()),
{
}

} // verus!
