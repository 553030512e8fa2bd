//! A command line parser similar to getopt(3).
//!
//! An option string such as `"ab:"` declares the option letters that are
//! recognised, a colon after a letter meaning that the option takes a value.
//! A `GetOpt` then walks the command line arguments one pull at a time,
//! yielding options, options with their values, plain arguments and errors.
//!
//! The behaviour of one pull is given by the spec function `step` over the
//! abstract parser state `ParseState`; `outputs` is the whole sequence that a
//! parser yields from a state.
use vstd::prelude::*;

verus! {

// ---------------------------------------------------------------------------
// The option string
// ---------------------------------------------------------------------------

/// Whether `c` is an ASCII letter or digit.
pub open spec fn is_opt_char(c: char) -> bool {
    ('0' <= c && c <= '9') || ('a' <= c && c <= 'z') || ('A' <= c && c <= 'Z')
}

/// An option string is well formed when every character is an ASCII letter,
/// an ASCII digit or a colon, and it does not start with a colon (so that every
/// colon has a letter before it).
pub open spec fn valid_optstring(s: Seq<char>) -> bool {
    &&& forall|i: int| 0 <= i < s.len() ==> (is_opt_char(#[trigger] s[i]) || s[i] == ':')
    &&& (s.len() > 0 ==> s[0] != ':')
}

/// A command line option specification.
#[derive(Clone, Copy, Debug, PartialEq, Eq, Structural)]
pub struct OptSpec {
    /// The option character.
    pub opt: char,
    /// Indicates whether the option expects an argument.
    pub has_arg: bool,
}

/// The table of option specifications that an option string declares: one
/// entry per letter, in order, marked as taking a value when a colon follows it.
pub open spec fn table_of(s: Seq<char>) -> Seq<OptSpec>
    decreases s.len(),
{
    if s.len() == 0 {
        Seq::empty()
    } else {
        let t = table_of(s.drop_last());
        let c = s.last();
        if c == ':' {
            if t.len() == 0 {
                t
            } else {
                t.update(t.len() - 1, OptSpec { opt: t.last().opt, has_arg: true })
            }
        } else {
            t.push(OptSpec { opt: c, has_arg: false })
        }
    }
}

/// The first specification in `specs` for the option letter `c`, if any.
pub open spec fn lookup(specs: Seq<OptSpec>, c: char) -> Option<OptSpec>
    decreases specs.len(),
{
    if specs.len() == 0 {
        None
    } else if specs[0].opt == c {
        Some(specs[0])
    } else {
        lookup(specs.drop_first(), c)
    }
}

impl OptSpec {
    /// Creates a new `OptSpec`.
    fn new(opt: char, has_arg: bool) -> (r: Self)
        ensures
            r == (OptSpec { opt, has_arg }),
    {
        OptSpec { opt, has_arg }
    }
}

fn is_ascii_alnum(c: char) -> (r: bool)
    ensures
        r == is_opt_char(c),
{
    ('0' <= c && c <= '9') || ('a' <= c && c <= 'z') || ('A' <= c && c <= 'Z')
}

/// The characters of `s`, in order.
pub(crate) fn chars_of(s: &str) -> (r: Vec<char>)
    ensures
        r@ == s@,
{
    let n = s.unicode_len();
    let mut r: Vec<char> = Vec::new();
    let mut i: usize = 0;
    while i < n
        invariant
            n == s@.len(),
            i <= n,
            r@ == s@.subrange(0, i as int),
        decreases n - i,
    {
        r.push(s.get_char(i));
        i = i + 1;
        assert(r@ =~= s@.subrange(0, i as int));
    }
    assert(r@ =~= s@);
    r
}

/// Tells whether `optstring` is a well-formed option string.
pub fn is_valid_optstring(optstring: &str) -> (r: bool)
    ensures
        r == valid_optstring(optstring@),
{
    let chars = chars_of(optstring);
    let mut i: usize = 0;
    while i < chars.len()
        invariant
            chars@ == optstring@,
            i <= chars.len(),
            forall|j: int| 0 <= j < i ==> (is_opt_char(#[trigger] chars@[j]) || chars@[j] == ':'),
        decreases chars.len() - i,
    {
        let c = chars[i];
        if !(c == ':' || is_ascii_alnum(c)) {
            return false;
        }
        i = i + 1;
    }
    chars.len() == 0 || chars[0] != ':'
}

/// Converts a getopt option string to a table of `OptSpec`s.
fn parse_optstring(optstring: &str) -> (r: Vec<OptSpec>)
    requires
        valid_optstring(optstring@),
    ensures
        r@ == table_of(optstring@),
{
    let chars = chars_of(optstring);
    let mut opt_specs: Vec<OptSpec> = Vec::new();
    let mut i: usize = 0;
    while i < chars.len()
        invariant
            chars@ == optstring@,
            valid_optstring(optstring@),
            i <= chars.len(),
            opt_specs@ == table_of(chars@.subrange(0, i as int)),
            i > 0 ==> opt_specs.len() > 0,
        decreases chars.len() - i,
    {
        let c = chars[i];
        assert(chars@.subrange(0, i + 1).drop_last() =~= chars@.subrange(0, i as int));
        if c == ':' {
            assert(i > 0);
            let last = opt_specs.len() - 1;
            let opt = opt_specs[last].opt;
            opt_specs.set(last, OptSpec::new(opt, true));
        } else {
            opt_specs.push(OptSpec::new(c, false));
        }
        i = i + 1;
    }
    assert(chars@.subrange(0, chars.len() as int) =~= chars@);
    opt_specs
}

// ---------------------------------------------------------------------------
// Parsed items and the abstract parser
// ---------------------------------------------------------------------------

/// A command line argument (which can be an argument, an option, or an
/// option with an argument).
#[derive(Debug)]
pub enum Arg {
    /// A command line option without an argument.
    Opt(char),
    /// A command line option with an argument.
    OptWithArg(char, String),
    /// A command line argument.
    Arg(String),
}

/// The mathematical value of an `Arg`: strings seen as character sequences.
pub enum ArgView {
    Opt(char),
    OptWithArg(char, Seq<char>),
    Arg(Seq<char>),
}

impl View for Arg {
    type V = ArgView;

    open spec fn view(&self) -> ArgView {
        match self {
            Arg::Opt(c) => ArgView::Opt(*c),
            Arg::OptWithArg(c, v) => ArgView::OptWithArg(*c, v@),
            Arg::Arg(v) => ArgView::Arg(v@),
        }
    }
}

/// The error type for the getopt module.
#[derive(Clone, Copy, Debug, PartialEq, Eq, Structural)]
pub enum GetOptErr {
    /// No argument found for a command line option that expects an
    /// argument.
    MissingArg(char),
    /// No option letter found after hyphen.
    MissingOpt,
    /// An unrecognised command line option (i.e. one not present in
    /// the option specification string).
    UnknownOpt(char),
}

/// One yielded item, as a value.
pub type ItemView = Result<ArgView, GetOptErr>;

/// The value of one yielded item.
pub open spec fn item_view(i: Result<Arg, GetOptErr>) -> ItemView {
    match i {
        Ok(a) => Ok(a@),
        Err(e) => Err(e),
    }
}

/// The value of what one pull returns.
pub open spec fn pull_view(r: Option<Result<Arg, GetOptErr>>) -> Option<ItemView> {
    match r {
        None => None,
        Some(i) => Some(item_view(i)),
    }
}

/// The values of a sequence of yielded items.
pub open spec fn items_view(v: Seq<Result<Arg, GetOptErr>>) -> Seq<ItemView> {
    v.map_values(|i: Result<Arg, GetOptErr>| item_view(i))
}

/// The state of a parser, as values.
pub struct ParseState {
    /// Whether option scanning has ended for good.
    pub opts_done: bool,
    /// The arguments that have not been pulled yet.
    pub args: Seq<Seq<char>>,
    /// The characters of the option cluster being decoded (with its hyphen).
    pub chars: Seq<char>,
    /// The index of the next character to decode in `chars`.
    pub idx: int,
}

/// The state of a fresh parser over `args`.
pub open spec fn initial(args: Seq<Seq<char>>) -> ParseState {
    ParseState { opts_done: false, args, chars: Seq::empty(), idx: 0 }
}

/// A state that a parser can be in: the cursor stays within its cluster, and
/// no cluster is open once option scanning has ended.
pub open spec fn valid_state(s: ParseState) -> bool {
    &&& 0 <= s.idx <= s.chars.len()
    &&& (s.opts_done ==> s.chars.len() == 0)
}

/// Whether characters of an option cluster remain to be decoded.
pub open spec fn in_cluster(s: ParseState) -> bool {
    0 < s.idx < s.chars.len()
}

/// The number of characters of the current cluster still to be decoded.
pub open spec fn cluster_left(s: ParseState) -> nat {
    if in_cluster(s) {
        (s.chars.len() - s.idx) as nat
    } else {
        0
    }
}

/// Decodes the option character under the cursor of the current cluster.
pub open spec fn resolve(specs: Seq<OptSpec>, s: ParseState) -> (Option<ItemView>, ParseState) {
    let c = s.chars[s.idx];
    let next = ParseState { idx: s.idx + 1, ..s };
    match lookup(specs, c) {
        None => (Some(Err(GetOptErr::UnknownOpt(c))), next),
        Some(spec) => if !spec.has_arg {
            (Some(Ok(ArgView::Opt(c))), next)
        } else if s.args.len() == 0 {
            (Some(Err(GetOptErr::MissingArg(c))), ParseState { chars: Seq::empty(), idx: 0, ..s })
        } else {
            (
                Some(Ok(ArgView::OptWithArg(c, s.args[0]))),
                ParseState { args: s.args.drop_first(), chars: Seq::empty(), idx: 0, ..s },
            )
        },
    }
}

/// Handles the argument `tok`, just pulled from the state `s`.
pub open spec fn handle_token(specs: Seq<OptSpec>, s: ParseState, tok: Seq<char>) -> (
    Option<ItemView>,
    ParseState,
) {
    let s0 = ParseState { chars: Seq::empty(), idx: 0, ..s };
    if s.opts_done {
        (Some(Ok(ArgView::Arg(tok))), s0)
    } else if tok.len() > 0 && tok[0] == '-' {
        if tok.len() == 1 {
            (Some(Err(GetOptErr::MissingOpt)), s0)
        } else if tok.len() == 2 && tok[1] == '-' {
            let closed = ParseState { opts_done: true, ..s0 };
            if s.args.len() == 0 {
                (None, closed)
            } else {
                (
                    Some(Ok(ArgView::Arg(s.args[0]))),
                    ParseState { args: s.args.drop_first(), ..closed },
                )
            }
        } else {
            resolve(specs, ParseState { chars: tok, idx: 1, ..s })
        }
    } else {
        (Some(Ok(ArgView::Arg(tok))), ParseState { opts_done: true, ..s0 })
    }
}

/// One pull: what it yields (`None` at the end) and the state after it.
pub open spec fn step(specs: Seq<OptSpec>, s: ParseState) -> (Option<ItemView>, ParseState) {
    if in_cluster(s) {
        resolve(specs, s)
    } else if s.args.len() == 0 {
        (None, s)
    } else {
        handle_token(specs, ParseState { args: s.args.drop_first(), ..s }, s.args[0])
    }
}

/// Everything that a parser yields from the state `s` until its first `None`.
pub open spec fn outputs(specs: Seq<OptSpec>, s: ParseState) -> Seq<ItemView>
    decreases s.args.len(), cluster_left(s),
{
    let (r, next) = step(specs, s);
    match r {
        None => Seq::empty(),
        Some(item) => seq![item] + outputs(specs, next),
    }
}

// ---------------------------------------------------------------------------
// The parser
// ---------------------------------------------------------------------------

/// A command line parser similar to getopt(3).
pub struct GetOpt {
    /// Indicates whether all options have been parsed.
    opts_done: bool,
    /// The option specifications to use when parsing the command
    /// line.
    opt_specs: Vec<OptSpec>,
    /// The command line arguments.
    args: Vec<String>,
    /// The index in `args` of the next argument to pull.
    pos: usize,
    /// The letters of the current option argument (including the
    /// leading '-').
    chars: Vec<char>,
    /// The index of the current option in `chars`.
    idx: usize,
}

impl GetOpt {
    /// The option table that the parser works with.
    pub closed spec fn specs(&self) -> Seq<OptSpec> {
        self.opt_specs@
    }

    /// The state of the parser, as values.
    pub closed spec fn state(&self) -> ParseState {
        ParseState {
            opts_done: self.opts_done,
            args: self.args@.subrange(self.pos as int, self.args@.len() as int).map_values(
                |a: String| a@,
            ),
            chars: self.chars@,
            idx: self.idx as int,
        }
    }

    /// The parser is well formed: its state is one that a parser can be in.
    pub closed spec fn wf(&self) -> bool {
        &&& self.pos <= self.args.len()
        &&& valid_state(self.state())
    }

    /// Creates a new `GetOpt` over the option string `optstring` and the
    /// arguments `args` (without the program name).
    pub fn new(optstring: &str, args: Vec<String>) -> (r: Self)
        requires
            valid_optstring(optstring@),
        ensures
            r.wf(),
            r.specs() == table_of(optstring@),
            r.state() == initial(args@.map_values(|a: String| a@)),
    {
        let opt_specs = parse_optstring(optstring);
        let r = GetOpt { opt_specs, opts_done: false, args, pos: 0, chars: Vec::new(), idx: 0 };
        assert(r.state().args =~= args@.map_values(|a: String| a@));
        r
    }

    /// Find the option specification matching `opt`.
    fn find_opt_spec(&self, opt: char) -> (r: Option<OptSpec>)
        ensures
            r == lookup(self.specs(), opt),
    {
        let mut i: usize = 0;
        assert(self.specs().subrange(0, self.specs().len() as int) =~= self.specs());
        while i < self.opt_specs.len()
            invariant
                i <= self.opt_specs.len(),
                lookup(self.specs(), opt) == lookup(self.specs().subrange(i as int, self.specs().len() as int), opt),
            decreases self.opt_specs.len() - i,
        {
            let ghost rest = self.specs().subrange(i as int, self.specs().len() as int);
            assert(rest.drop_first() =~= self.specs().subrange(i + 1, self.specs().len() as int));
            if self.opt_specs[i].opt == opt {
                return Some(self.opt_specs[i]);
            }
            i = i + 1;
        }
        None
    }

    /// Pulls the next argument, if any.
    fn pull(&mut self) -> (r: Option<String>)
        requires
            old(self).pos <= old(self).args.len(),
        ensures
            final(self).pos <= final(self).args.len(),
            final(self).opts_done == old(self).opts_done,
            final(self).opt_specs == old(self).opt_specs,
            final(self).chars == old(self).chars,
            final(self).idx == old(self).idx,
            old(self).state().args.len() == 0 ==> r is None && final(self).state() == old(self).state(),
            old(self).state().args.len() > 0 ==> r is Some && r->0@ == old(self).state().args[0]
                && final(self).state().args == old(self).state().args.drop_first(),
    {
        if self.pos < self.args.len() {
            let a = self.args[self.pos].clone();
            self.pos = self.pos + 1;
            assert(self.state().args =~= old(self).state().args.drop_first());
            Some(a)
        } else {
            None
        }
    }

    /// Handle a command line option.
    fn handle_option(&mut self) -> (r: Result<Arg, GetOptErr>)
        requires
            old(self).wf(),
            in_cluster(old(self).state()),
        ensures
            final(self).wf(),
            final(self).specs() == old(self).specs(),
            (pull_view(Some(r)), final(self).state()) == resolve(old(self).specs(), old(self).state()),
    {
        let n = self.chars.len();
        assert(self.idx < n);
        let opt = self.chars[self.idx];
        self.idx = self.idx + 1;
        match self.find_opt_spec(opt) {
            Some(opt_spec) => {
                if opt_spec.has_arg {
                    match self.pull() {
                        Some(arg) => {
                            self.chars = Vec::new();
                            self.idx = 0;
                            Ok(Arg::OptWithArg(opt, arg))
                        },
                        None => {
                            self.chars = Vec::new();
                            self.idx = 0;
                            Err(GetOptErr::MissingArg(opt))
                        },
                    }
                } else {
                    Ok(Arg::Opt(opt))
                }
            },
            None => Err(GetOptErr::UnknownOpt(opt)),
        }
    }

    /// Handle a command line argument.
    fn handle_arg(&mut self, arg: String) -> (r: Option<Result<Arg, GetOptErr>>)
        requires
            old(self).wf(),
        ensures
            final(self).wf(),
            final(self).specs() == old(self).specs(),
            (pull_view(r), final(self).state()) == handle_token(
                old(self).specs(),
                old(self).state(),
                arg@,
            ),
    {
        let chars = chars_of(arg.as_str());
        self.chars = Vec::new();
        self.idx = 0;
        if self.opts_done {
            Some(Ok(Arg::Arg(arg)))
        } else if chars.len() > 0 && chars[0] == '-' {
            if chars.len() == 1 {
                Some(Err(GetOptErr::MissingOpt))
            } else if chars.len() == 2 && chars[1] == '-' {
                self.opts_done = true;
                match self.pull() {
                    Some(next) => Some(Ok(Arg::Arg(next))),
                    None => None,
                }
            } else {
                self.chars = chars;
                self.idx = 1;
                Some(self.handle_option())
            }
        } else {
            self.opts_done = true;
            Some(Ok(Arg::Arg(arg)))
        }
    }

    /// Advances the parser and returns the next command line argument, or
    /// `None` when the arguments are exhausted.
    pub fn next(&mut self) -> (r: Option<Result<Arg, GetOptErr>>)
        requires
            old(self).wf(),
        ensures
            final(self).wf(),
            final(self).specs() == old(self).specs(),
            (pull_view(r), final(self).state()) == step(old(self).specs(), old(self).state()),
    {
        if self.idx > 0 && self.idx < self.chars.len() {
            Some(self.handle_option())
        } else {
            match self.pull() {
                Some(arg) => self.handle_arg(arg),
                None => None,
            }
        }
    }

    /// Pulls every remaining item, in order, until the parser is exhausted.
    pub fn collect_all(&mut self) -> (r: Vec<Result<Arg, GetOptErr>>)
        requires
            old(self).wf(),
        ensures
            final(self).wf(),
            final(self).specs() == old(self).specs(),
            items_view(r@) == outputs(old(self).specs(), old(self).state()),
    {
        let mut r: Vec<Result<Arg, GetOptErr>> = Vec::new();
        loop
            invariant
                self.wf(),
                self.specs() == old(self).specs(),
                items_view(r@) + outputs(self.specs(), self.state()) == outputs(
                    old(self).specs(),
                    old(self).state(),
                ),
            decreases self.state().args.len(), cluster_left(self.state()),
        {
            let ghost before = r@;
            match self.next() {
                Some(item) => {
                    r.push(item);
                    assert(items_view(r@) =~= items_view(before) + seq![item_view(item)]);
                },
                None => {
                    assert(items_view(r@) =~= items_view(r@) + Seq::<ItemView>::empty());
                    return r;
                },
            }
        }
    }
}

// ---------------------------------------------------------------------------
// Error messages
// ---------------------------------------------------------------------------

/// Relies on std's `impl From<char> for String`: the string that holds the
/// one character `c`.
#[verifier::external_body]
fn char_string(c: char) -> (r: String)
    ensures
        r@ == seq![c],
{
    String::from(c)
}

/// The message that describes the error `e`.
pub open spec fn message_of(e: GetOptErr) -> Seq<char> {
    match e {
        GetOptErr::MissingArg(c) => seq!['-', c] + ": expected an argument"@,
        GetOptErr::MissingOpt => "Missing option letter"@,
        GetOptErr::UnknownOpt(c) => seq!['-', c] + ": unknown option"@,
    }
}

impl GetOptErr {
    /// The message that describes this error.
    pub fn message(&self) -> (r: String)
        ensures
            r@ == message_of(*self),
    {
        match self {
            GetOptErr::MissingArg(c) => {
                let mut r = String::from_str("-");
                r.append(char_string(*c).as_str());
                r.append(": expected an argument");
                proof {
                    reveal_strlit("-");
                }
                assert(r@ =~= message_of(*self));
                r
            },
            GetOptErr::MissingOpt => String::from_str("Missing option letter"),
            GetOptErr::UnknownOpt(c) => {
                let mut r = String::from_str("-");
                r.append(char_string(*c).as_str());
                r.append(": unknown option");
                proof {
                    reveal_strlit("-");
                }
                assert(r@ =~= message_of(*self));
                r
            },
        }
    }
}

} // verus!
