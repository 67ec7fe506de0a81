//! Command schemas: built from a help string, then matched against incoming lines.

use vstd::prelude::*;
use vstd::std_specs::cmp::PartialEqSpec;
use crate::text::{
    alphanumeric, chars_of, ends_with_dots, find_from, first_index, has_dots, has_prefix,
    is_alphanumeric, is_prefix, lemma_first_index, push_all, skip_char, skip_white, split_spaces,
    string_of,
    split_terminator, string_of_range, drop_trailing, drop_trailing_dots, trim_end, trim_end_dots,
    trim_start, trim_white,
};

verus! {

/// How many values an argument slot takes.
#[derive(Clone, Copy, Debug, PartialEq, Eq, Structural)]
pub enum ArgKind {
    /// `<key>`: must be given.
    Required,
    /// `<key?>`: may be left out.
    Optional,
    /// `<key...>`: takes the rest of the line, spaces included.
    Flexible,
}

/// One declared argument slot of a command.
#[derive(Clone, Debug)]
pub struct Arg {
    pub key: String,
    pub kind: ArgKind,
}

/// A slot as a key and a kind.
pub type SlotModel = (Seq<char>, ArgKind);

/// Why a help string does not describe a command, as a mathematical value.
pub enum Fault {
    NoCommand,
    DuplicateKey(Seq<char>),
    InvalidCharacters,
    RequiredInTail,
    OptionalAfterFlex,
    MultipleFlexible,
}

/// Why a help string does not describe a command.
#[derive(Debug)]
pub enum Error {
    /// No command name was given.
    NoCommand,
    /// The key was declared twice.
    DuplicateKey(String),
    /// A key is empty or holds a character that is not alphanumeric.
    InvalidCharacters,
    /// A required slot follows an optional or flexible one.
    RequiredInTail,
    /// An optional slot follows a flexible one.
    OptionalAfterFlex,
    /// A second flexible slot was declared.
    MultipleFlexible,
}

impl View for Error {
    type V = Fault;

    open spec fn view(&self) -> Fault {
        match self {
            Error::NoCommand => Fault::NoCommand,
            Error::DuplicateKey(k) => Fault::DuplicateKey(k@),
            Error::InvalidCharacters => Fault::InvalidCharacters,
            Error::RequiredInTail => Fault::RequiredInTail,
            Error::OptionalAfterFlex => Fault::OptionalAfterFlex,
            Error::MultipleFlexible => Fault::MultipleFlexible,
        }
    }
}

impl Error {
    /// The message that describes the error.
    pub fn to_string(&self) -> (r: String)
        ensures
            self is NoCommand ==> r@ == "a command must be provided"@,
            self is DuplicateKey ==> r@ == "duplicate key found: "@ + self@->DuplicateKey_0,
            self is InvalidCharacters ==> r@ == "only alphanumeric keys are allowed"@,
            self is RequiredInTail ==> r@ == "required cannot follow optional or flexible"@,
            self is OptionalAfterFlex ==> r@ == "optional cannot follow flexible"@,
            self is MultipleFlexible ==> r@ == "only a single flexible argument can exist"@,
    {
        proof {
            reveal_strlit("duplicate key found: ");
            reveal_strlit("a command must be provided");
            reveal_strlit("only alphanumeric keys are allowed");
            reveal_strlit("required cannot follow optional or flexible");
            reveal_strlit("optional cannot follow flexible");
            reveal_strlit("only a single flexible argument can exist");
        }
        match self {
            Error::NoCommand => "a command must be provided".to_owned(),
            Error::DuplicateKey(key) => {
                let mut out = chars_of("duplicate key found: ");
                push_all(&mut out, &chars_of(key.as_str()));
                string_of(out.as_slice())
            },
            Error::InvalidCharacters => "only alphanumeric keys are allowed".to_owned(),
            Error::RequiredInTail => "required cannot follow optional or flexible".to_owned(),
            Error::OptionalAfterFlex => "optional cannot follow flexible".to_owned(),
            Error::MultipleFlexible => "only a single flexible argument can exist".to_owned(),
        }
    }
}

/// The character that marks a line as a command.
pub const LEADER: char = '!';

/// The slots of `args`, in order.
pub open spec fn slots_of(args: Seq<Arg>) -> Seq<SlotModel> {
    args.map_values(|a: Arg| (a.key@, a.kind))
}

/// Whether a slot of `slots` has the key `k`.
pub open spec fn has_key(slots: Seq<SlotModel>, k: Seq<char>) -> bool {
    exists|i: int| 0 <= i < slots.len() && (#[trigger] slots[i]).0 == k
}

/// Whether a slot of `slots` is of the kind `kind`.
pub open spec fn has_kind(slots: Seq<SlotModel>, kind: ArgKind) -> bool {
    exists|i: int| 0 <= i < slots.len() && (#[trigger] slots[i]).1 == kind
}

/// Whether the token declares a slot: it is wrapped in `<` and `>`.
pub open spec fn bracketed(t: Seq<char>) -> bool {
    t.len() > 0 && t[0] == '<' && t.last() == '>'
}

/// The declaration inside the brackets.
pub open spec fn inner(t: Seq<char>) -> Seq<char> {
    trim_end(trim_start(t, '<'), '>')
}

/// The key and kind that a declaration states by its suffix.
pub open spec fn classify(d: Seq<char>) -> SlotModel {
    if d.len() > 0 && d.last() == '?' {
        (trim_end(d, '?'), ArgKind::Optional)
    } else if ends_with_dots(d) {
        (trim_end_dots(d), ArgKind::Flexible)
    } else {
        (d, ArgKind::Required)
    }
}

/// A key is non-empty and alphanumeric.
pub open spec fn valid_key(k: Seq<char>) -> bool {
    k.len() > 0 && forall|i: int| 0 <= i < k.len() ==> alphanumeric(#[trigger] k[i])
}

/// The slot list after the token `t`, or the fault that `t` brings.
pub open spec fn step(slots: Seq<SlotModel>, t: Seq<char>) -> Result<Seq<SlotModel>, Fault> {
    if !bracketed(t) {
        Ok(slots)
    } else {
        let (k, kind) = classify(inner(t));
        if has_key(slots, k) {
            Err(Fault::DuplicateKey(k))
        } else if !valid_key(k) {
            Err(Fault::InvalidCharacters)
        } else if kind == ArgKind::Required && (has_kind(slots, ArgKind::Optional) || has_kind(
            slots,
            ArgKind::Flexible,
        )) {
            Err(Fault::RequiredInTail)
        } else if kind == ArgKind::Optional && has_kind(slots, ArgKind::Flexible) {
            Err(Fault::OptionalAfterFlex)
        } else if kind == ArgKind::Flexible && has_kind(slots, ArgKind::Flexible) {
            Err(Fault::MultipleFlexible)
        } else {
            Ok(slots.push((k, kind)))
        }
    }
}

/// The slots that the tokens declare, left to right, or the first fault.
pub open spec fn fold_slots(toks: Seq<Seq<char>>) -> Result<Seq<SlotModel>, Fault>
    decreases toks.len(),
{
    if toks.len() == 0 {
        Ok(Seq::empty())
    } else {
        match fold_slots(toks.drop_last()) {
            Ok(slots) => step(slots, toks.last()),
            Err(e) => Err(e),
        }
    }
}

/// The tokens of a help string: what follows the leaders, split at single spaces.
pub open spec fn help_tokens(help: Seq<char>) -> Seq<Seq<char>> {
    split_terminator(trim_start(help, LEADER), ' ')
}

/// The command name and slots that a help string declares, or why it declares none.
pub open spec fn parse_help(help: Seq<char>) -> Result<(Seq<char>, Seq<SlotModel>), Fault> {
    let toks = help_tokens(help);
    if toks.len() == 0 || toks[0].len() == 0 {
        Err(Fault::NoCommand)
    } else {
        match fold_slots(toks.drop_first()) {
            Ok(slots) => Ok((toks[0], slots)),
            Err(e) => Err(e),
        }
    }
}

/// Once a prefix of the tokens brings a fault, all of them bring it.
pub proof fn lemma_fault_sticks(toks: Seq<Seq<char>>, k: int, e: Fault)
    requires
        0 <= k <= toks.len(),
        fold_slots(toks.subrange(0, k)) == Err::<Seq<SlotModel>, Fault>(e),
    ensures
        fold_slots(toks) == Err::<Seq<SlotModel>, Fault>(e),
    decreases toks.len() - k,
{
    if k < toks.len() {
        assert(toks.subrange(0, k + 1).drop_last() =~= toks.subrange(0, k));
        lemma_fault_sticks(toks, k + 1, e);
    } else {
        assert(toks.subrange(0, k) =~= toks);
    }
}

/// The line without one leading leader.
pub open spec fn strip_leader(s: Seq<char>) -> Seq<char> {
    if s.len() > 0 && s[0] == LEADER {
        s.drop_first()
    } else {
        s
    }
}

/// The key/value pairs that the slots bind on `rest`, in slot order.
pub open spec fn walk(slots: Seq<SlotModel>, rest: Seq<char>) -> Seq<(Seq<char>, Seq<char>)>
    decreases slots.len(),
{
    if slots.len() == 0 {
        Seq::empty()
    } else {
        let i = first_index(rest, ' ');
        if slots[0].1 == ArgKind::Flexible || i >= rest.len() {
            if rest.len() > 0 {
                seq![(slots[0].0, rest)]
            } else {
                Seq::empty()
            }
        } else {
            seq![(slots[0].0, rest.subrange(0, i as int))] + walk(
                slots.drop_first(),
                rest.subrange(i as int + 1, rest.len() as int),
            )
        }
    }
}

/// The outcome of matching a line, as a mathematical value.
pub enum Extracted {
    Found(Seq<(Seq<char>, Seq<char>)>),
    Required,
    NoMatch,
}

/// What matching `input` against a command named `name` with `slots` gives.
pub open spec fn extract_spec(name: Seq<char>, slots: Seq<SlotModel>, input: Seq<char>) -> Extracted {
    let s = strip_leader(input);
    if !is_prefix(name, s) {
        Extracted::NoMatch
    } else {
        let rest = trim_white(s.subrange(name.len() as int, s.len() as int));
        if rest.len() == 0 && has_kind(slots, ArgKind::Required) {
            Extracted::Required
        } else {
            Extracted::Found(walk(slots, rest))
        }
    }
}

/// The arguments bound by a match, as key/value pairs in slot order.
#[derive(Clone, Debug)]
pub struct Args {
    pairs: Vec<(String, String)>,
}

impl View for Args {
    type V = Seq<(Seq<char>, Seq<char>)>;

    closed spec fn view(&self) -> Seq<(Seq<char>, Seq<char>)> {
        self.pairs@.map_values(|p: (String, String)| (p.0@, p.1@))
    }
}

/// The value bound to `k` among `pairs`, the first one if several are.
pub open spec fn lookup(pairs: Seq<(Seq<char>, Seq<char>)>, k: Seq<char>) -> Option<Seq<char>>
    decreases pairs.len(),
{
    if pairs.len() == 0 {
        None
    } else if pairs[0].0 == k {
        Some(pairs[0].1)
    } else {
        lookup(pairs.drop_first(), k)
    }
}

impl Args {
    /// The value bound to `key`, if any.
    pub fn get(&self, key: &str) -> (r: Option<&str>)
        ensures
            match r {
                Some(v) => lookup(self@, key@) == Some(v@),
                None => lookup(self@, key@) is None,
            },
    {
        let k = key.to_owned();
        let mut i: usize = 0;
        assert(self@.subrange(0, self@.len() as int) =~= self@);
        while i < self.pairs.len()
            invariant
                0 <= i <= self.pairs.len(),
                k@ == key@,
                lookup(self@, key@) == lookup(self@.subrange(i as int, self@.len() as int), key@),
            decreases self.pairs.len() - i,
        {
            assert(self@.subrange(i as int, self@.len() as int).drop_first() =~= self@.subrange(
                i + 1,
                self@.len() as int,
            ));
            if self.pairs[i].0 == k {
                return Some(self.pairs[i].1.as_str());
            }
            i += 1;
        }
        None
    }

    /// How many arguments were bound.
    pub fn len(&self) -> (r: usize)
        ensures
            r == self@.len(),
    {
        self.pairs.len()
    }

    /// Whether no argument was bound.
    pub fn is_empty(&self) -> (r: bool)
        ensures
            r == (self@.len() == 0),
    {
        self.pairs.len() == 0
    }
}

/// The outcome of matching a line against a command.
#[derive(Debug)]
pub enum ExtractResult {
    /// The name matched; these are the bound arguments.
    Found(Args),
    /// The name matched but nothing followed it, and an argument is required.
    Required,
    /// The line does not start with this command's name.
    NoMatch,
}

impl View for ExtractResult {
    type V = Extracted;

    open spec fn view(&self) -> Extracted {
        match self {
            ExtractResult::Found(a) => Extracted::Found(a@),
            ExtractResult::Required => Extracted::Required,
            ExtractResult::NoMatch => Extracted::NoMatch,
        }
    }
}

/// Whether an argument of `args` is of the kind `kind`.
pub fn contains(args: &Vec<Arg>, kind: ArgKind) -> (r: bool)
    ensures
        r == has_kind(slots_of(args@), kind),
{
    let mut i: usize = 0;
    while i < args.len()
        invariant
            0 <= i <= args.len(),
            forall|j: int| 0 <= j < i ==> args@[j].kind != kind,
        decreases args.len() - i,
    {
        if args[i].kind == kind {
            assert(slots_of(args@)[i as int].1 == kind);
            return true;
        }
        i += 1;
    }
    assert forall|j: int| 0 <= j < slots_of(args@).len() implies (
    #[trigger] slots_of(args@)[j]).1 != kind by {
        assert(args@[j].kind != kind);
    }
    false
}

/// Whether an argument of `args` has the key `key`.
pub fn contains_key(args: &Vec<Arg>, key: &String) -> (r: bool)
    ensures
        r == has_key(slots_of(args@), key@),
{
    let mut i: usize = 0;
    while i < args.len()
        invariant
            0 <= i <= args.len(),
            forall|j: int| 0 <= j < i ==> args@[j].key@ != key@,
        decreases args.len() - i,
    {
        if args[i].key == *key {
            assert(slots_of(args@)[i as int].0 == key@);
            return true;
        }
        i += 1;
    }
    assert forall|j: int| 0 <= j < slots_of(args@).len() implies (
    #[trigger] slots_of(args@)[j]).0 != key@ by {
        assert(args@[j].key@ != key@);
    }
    false
}

/// Whether `s[lo..hi]` is a valid key.
pub fn is_valid_key(s: &Vec<char>, lo: usize, hi: usize) -> (r: bool)
    requires
        lo <= hi <= s.len(),
    ensures
        r == valid_key(s@.subrange(lo as int, hi as int)),
{
    if lo == hi {
        return false;
    }
    let mut i: usize = lo;
    while i < hi
        invariant
            lo <= i <= hi <= s.len(),
            forall|j: int| lo <= j < i ==> alphanumeric(s@[j]),
        decreases hi - i,
    {
        if !is_alphanumeric(s[i]) {
            assert(s@.subrange(lo as int, hi as int)[i - lo] == s@[i as int]);
            return false;
        }
        i += 1;
    }
    assert forall|j: int| 0 <= j < hi - lo implies alphanumeric(
        #[trigger] s@.subrange(lo as int, hi as int)[j],
    ) by {
        assert(s@.subrange(lo as int, hi as int)[j] == s@[lo + j]);
    }
    true
}

/// The token `s[lo..hi]` as a slot declaration: the span of its key and its kind, or `None`
/// when it is not wrapped in brackets.
pub fn trim_args(s: &Vec<char>, lo: usize, hi: usize) -> (r: Option<(usize, usize, ArgKind)>)
    requires
        lo <= hi <= s.len(),
    ensures
        match r {
            None => !bracketed(s@.subrange(lo as int, hi as int)),
            Some((a, b, kind)) => {
                &&& bracketed(s@.subrange(lo as int, hi as int))
                &&& lo <= a <= b <= hi
                &&& classify(inner(s@.subrange(lo as int, hi as int))) == (
                    s@.subrange(a as int, b as int),
                    kind,
                )
            },
        },
{
    let ghost t = s@.subrange(lo as int, hi as int);
    if hi == lo || s[lo] != '<' || s[hi - 1] != '>' {
        proof {
            if t.len() > 0 {
                assert(t[0] == s@[lo as int]);
                assert(t.last() == s@[hi - 1]);
            }
        }
        return None;
    }
    assert(t[0] == s@[lo as int] && t.last() == s@[hi - 1]);
    let a = skip_char(s, lo, hi, '<');
    let b = drop_trailing(s, a, hi, '>');
    let ghost d = s@.subrange(a as int, b as int);
    assert(inner(t) == d);
    if b > a && s[b - 1] == '?' {
        assert(d.last() == s@[b - 1]);
        let e = drop_trailing(s, a, b, '?');
        Some((a, e, ArgKind::Optional))
    } else if has_dots(s, a, b) {
        proof {
            if d.len() > 0 {
                assert(d.last() == s@[b - 1]);
            }
        }
        let e = drop_trailing_dots(s, a, b);
        Some((a, e, ArgKind::Flexible))
    } else {
        proof {
            if d.len() > 0 {
                assert(d.last() == s@[b - 1]);
            }
        }
        Some((a, b, ArgKind::Required))
    }
}

/// A command as a mathematical value.
pub struct Schema {
    pub name: Seq<char>,
    pub help: Seq<char>,
    pub slots: Seq<SlotModel>,
    pub elevated: bool,
}

/// A chat command: its name, the help text it was built from, and its argument slots.
#[derive(Clone, Debug)]
pub struct Command {
    command: String,
    help: String,
    args: Vec<Arg>,
    elevated: bool,
}

impl View for Command {
    type V = Schema;

    closed spec fn view(&self) -> Schema {
        Schema {
            name: self.command@,
            help: self.help@,
            slots: slots_of(self.args@),
            elevated: self.elevated,
        }
    }
}

impl Command {
    /// An unbuilt command that holds the help string `input`; `build` reads it.
    pub fn example(input: &str) -> (r: Self)
        ensures
            r@ == (Schema {
                name: Seq::empty(),
                help: input@,
                slots: Seq::empty(),
                elevated: false,
            }),
    {
        let r = Command {
            command: String::new(),
            help: input.to_owned(),
            args: Vec::new(),
            elevated: false,
        };
        assert(slots_of(r.args@) =~= Seq::<SlotModel>::empty());
        r
    }

    /// The same command, marked as needing elevated privilege.
    pub fn elevated(self) -> (r: Self)
        ensures
            r@ == (Schema { elevated: true, ..self@ }),
    {
        let mut this = self;
        this.elevated = true;
        this
    }

    /// The command that the help string declares, or why it declares none.
    pub fn build(self) -> (r: Result<Self, Error>)
        ensures
            match parse_help(self@.help) {
                Ok((name, slots)) => r matches Ok(c) && c@ == (Schema {
                    name: name,
                    help: self@.help,
                    slots: slots,
                    elevated: self@.elevated,
                }),
                Err(f) => r matches Err(e) && e@ == f,
            },
    {
        self.parse()
    }

    /// The command's name.
    pub fn command(&self) -> (r: &str)
        ensures
            r@ == self@.name,
    {
        self.command.as_str()
    }

    /// The command's name.
    pub fn name(&self) -> (r: &str)
        ensures
            r@ == self@.name,
    {
        self.command.as_str()
    }

    /// The help string the command was built from.
    pub fn help(&self) -> (r: &str)
        ensures
            r@ == self@.help,
    {
        self.help.as_str()
    }

    /// The help string the command was built from, as an owned string.
    pub fn to_string(&self) -> (r: String)
        ensures
            r@ == self@.help,
    {
        self.help.clone()
    }

    /// Whether the command needs elevated privilege.
    pub fn is_elevated(&self) -> (r: bool)
        ensures
            r == self@.elevated,
    {
        self.elevated
    }

    /// The keys of the argument slots, in order.
    pub fn keys(&self) -> (r: Vec<String>)
        ensures
            r@.len() == self@.slots.len(),
            forall|i: int| 0 <= i < r@.len() ==> #[trigger] r@[i]@ == self@.slots[i].0,
    {
        let mut out: Vec<String> = Vec::new();
        let mut i: usize = 0;
        while i < self.args.len()
            invariant
                0 <= i <= self.args.len(),
                out@.len() == i,
                forall|j: int| 0 <= j < i ==> #[trigger] out@[j]@ == self.args@[j].key@,
            decreases self.args.len() - i,
        {
            out.push(self.args[i].key.clone());
            i += 1;
        }
        out
    }

    /// The kinds of the argument slots, in order.
    pub fn kinds(&self) -> (r: Vec<ArgKind>)
        ensures
            r@.len() == self@.slots.len(),
            forall|i: int| 0 <= i < r@.len() ==> #[trigger] r@[i] == self@.slots[i].1,
    {
        let mut out: Vec<ArgKind> = Vec::new();
        let mut i: usize = 0;
        while i < self.args.len()
            invariant
                0 <= i <= self.args.len(),
                out@.len() == i,
                forall|j: int| 0 <= j < i ==> #[trigger] out@[j] == self.args@[j].kind,
            decreases self.args.len() - i,
        {
            out.push(self.args[i].kind);
            i += 1;
        }
        out
    }

    /// Matches `input` against the command: `NoMatch` when the line, after one leader, does
    /// not start with the name; `Required` when nothing follows the name and a slot is
    /// required; otherwise the values that the slots bind, left to right.
    pub fn extract(&self, input: &str) -> (r: ExtractResult)
        ensures
            r@ == extract_spec(self@.name, self@.slots, input@),
    {
        let s = chars_of(input);
        let mut pos: usize = 0;
        if s.len() > 0 && s[0] == LEADER {
            pos = 1;
        }
        let ghost stripped = strip_leader(input@);
        assert(stripped == s@.subrange(pos as int, s@.len() as int));
        let name = chars_of(self.command.as_str());
        if !has_prefix(&s, pos, &name) {
            return ExtractResult::NoMatch;
        }
        assert(stripped.subrange(name@.len() as int, stripped.len() as int) =~= s@.subrange(
            pos + name@.len(),
            s@.len() as int,
        ));
        pos = skip_white(&s, pos + name.len());
        let ghost slots = slots_of(self.args@);
        let ghost rest0 = s@.subrange(pos as int, s@.len() as int);
        if pos == s.len() && contains(&self.args, ArgKind::Required) {
            return ExtractResult::Required;
        }
        let mut pairs: Vec<(String, String)> = Vec::new();
        let mut k: usize = 0;
        assert(slots.subrange(0, slots.len() as int) =~= slots);
        loop
            invariant_except_break
                walk(slots, rest0) == pairs@.map_values(|p: (String, String)| (p.0@, p.1@)) + walk(
                    slots.subrange(k as int, slots.len() as int),
                    s@.subrange(pos as int, s@.len() as int),
                ),
            invariant
                0 <= k <= self.args.len(),
                pos <= s.len(),
                slots == slots_of(self.args@),
            ensures
                walk(slots, rest0) == pairs@.map_values(|p: (String, String)| (p.0@, p.1@)),
            decreases self.args.len() - k,
        {
            let ghost rest = s@.subrange(pos as int, s@.len() as int);
            let ghost left = slots.subrange(k as int, slots.len() as int);
            let ghost before = pairs@.map_values(|p: (String, String)| (p.0@, p.1@));
            if k == self.args.len() {
                assert(left =~= Seq::<SlotModel>::empty());
                assert(before + walk(left, rest) =~= before);
                break ;
            }
            assert(left[0] == slots[k as int]);
            assert(left.drop_first() =~= slots.subrange(k + 1, slots.len() as int));
            let j = find_from(&s, pos, ' ');
            proof {
                lemma_first_index(rest, ' ');
            }
            if self.args[k].kind == ArgKind::Flexible || j == s.len() {
                if pos < s.len() {
                    pairs.push((self.args[k].key.clone(), string_of_range(&s, pos, s.len())));
                    assert(pairs@.map_values(|p: (String, String)| (p.0@, p.1@)) =~= before
                        + walk(left, rest));
                } else {
                    assert(before + walk(left, rest) =~= before);
                }
                break ;
            }
            pairs.push((self.args[k].key.clone(), string_of_range(&s, pos, j)));
            assert(rest.subrange(0, j - pos) =~= s@.subrange(pos as int, j as int));
            assert(rest.subrange(j - pos + 1, rest.len() as int) =~= s@.subrange(
                j + 1,
                s@.len() as int,
            ));
            assert(pairs@.map_values(|p: (String, String)| (p.0@, p.1@)) =~= before.push(
                (slots[k as int].0, s@.subrange(pos as int, j as int)),
            ));
            pos = j + 1;
            k += 1;
            assert(walk(slots, rest0) =~= pairs@.map_values(|p: (String, String)| (p.0@, p.1@))
                + walk(
                slots.subrange(k as int, slots.len() as int),
                s@.subrange(pos as int, s@.len() as int),
            ));
        }
        ExtractResult::Found(Args { pairs })
    }

    fn parse(self) -> (r: Result<Self, Error>)
        ensures
            match parse_help(self@.help) {
                Ok((name, slots)) => r matches Ok(c) && c@ == (Schema {
                    name: name,
                    help: self@.help,
                    slots: slots,
                    elevated: self@.elevated,
                }),
                Err(f) => r matches Err(e) && e@ == f,
            },
    {
        let h = chars_of(self.help.as_str());
        assert(h@.subrange(0, h@.len() as int) =~= h@);
        let start = skip_char(&h, 0, h.len(), LEADER);
        let spans = split_spaces(&h, start);
        let ghost toks = help_tokens(self.help@);
        assert(toks == split_terminator(h@.subrange(start as int, h@.len() as int), ' '));
        if spans.len() == 0 || spans[0].0 == spans[0].1 {
            return Err(Error::NoCommand);
        }
        let command = string_of_range(&h, spans[0].0, spans[0].1);
        let ghost tail = toks.drop_first();
        let mut args: Vec<Arg> = Vec::new();
        let mut k: usize = 1;
        assert(tail.subrange(0, 0) =~= Seq::<Seq<char>>::empty());
        assert(slots_of(args@) =~= Seq::<SlotModel>::empty());
        while k < spans.len()
            invariant
                1 <= k <= spans.len(),
                spans@.len() == toks.len(),
                tail == toks.drop_first(),
                toks == help_tokens(self.help@),
                toks[0].len() > 0,
                forall|j: int|
                    0 <= j < spans@.len() ==> {
                        &&& (#[trigger] spans@[j]).0 <= spans@[j].1 <= h@.len()
                        &&& h@.subrange(spans@[j].0 as int, spans@[j].1 as int) == toks[j]
                    },
                fold_slots(tail.subrange(0, k - 1)) == Ok::<Seq<SlotModel>, Fault>(
                    slots_of(args@),
                ),
            decreases spans.len() - k,
        {
            let lo = spans[k].0;
            let hi = spans[k].1;
            let ghost prev = slots_of(args@);
            assert(spans@[k as int].0 <= spans@[k as int].1);
            assert(tail.subrange(0, k as int).drop_last() =~= tail.subrange(0, k - 1));
            assert(tail.subrange(0, k as int).last() == toks[k as int]);
            assert(fold_slots(tail.subrange(0, k as int)) == step(prev, toks[k as int]));
            match trim_args(&h, lo, hi) {
                None => {},
                Some((a, b, kind)) => {
                    let key = string_of_range(&h, a, b);
                    assert(classify(inner(toks[k as int])) == (key@, kind));
                    if contains_key(&args, &key) {
                        assert(step(prev, toks[k as int]) == Err::<Seq<SlotModel>, Fault>(
                            Fault::DuplicateKey(key@),
                        ));
                        proof {
                            lemma_fault_sticks(tail, k as int, Fault::DuplicateKey(key@));
                        }
                        return Err(Error::DuplicateKey(key));
                    }
                    if !is_valid_key(&h, a, b) {
                        assert(step(prev, toks[k as int]) == Err::<Seq<SlotModel>, Fault>(
                            Fault::InvalidCharacters,
                        ));
                        proof {
                            lemma_fault_sticks(tail, k as int, Fault::InvalidCharacters);
                        }
                        return Err(Error::InvalidCharacters);
                    }
                    match kind {
                        ArgKind::Required => {
                            if contains(&args, ArgKind::Optional) || contains(
                                &args,
                                ArgKind::Flexible,
                            ) {
                                proof {
                                    lemma_fault_sticks(tail, k as int, Fault::RequiredInTail);
                                }
                                return Err(Error::RequiredInTail);
                            }
                        },
                        ArgKind::Optional => {
                            if contains(&args, ArgKind::Flexible) {
                                proof {
                                    lemma_fault_sticks(tail, k as int, Fault::OptionalAfterFlex);
                                }
                                return Err(Error::OptionalAfterFlex);
                            }
                        },
                        ArgKind::Flexible => {
                            if contains(&args, ArgKind::Flexible) {
                                proof {
                                    lemma_fault_sticks(tail, k as int, Fault::MultipleFlexible);
                                }
                                return Err(Error::MultipleFlexible);
                            }
                        },
                    }
                    args.push(Arg { key, kind });
                    assert(slots_of(args@) =~= prev.push((key@, kind)));
                },
            }
            k += 1;
        }
        assert(tail.subrange(0, k - 1) =~= tail);
        Ok(Command { command, help: self.help, args, elevated: self.elevated })
    }
}

impl PartialEq for Command {
    fn eq(&self, other: &Command) -> (r: bool) {
        self.help == other.help
    }
}

impl vstd::std_specs::cmp::PartialEqSpecImpl for Command {
    open spec fn obeys_eq_spec() -> bool {
        true
    }

    open spec fn eq_spec(&self, other: &Command) -> bool {
        self@.help == other@.help
    }
}

/// A command that parses has a non-empty name.
pub proof fn lemma_built_name_non_empty(help: Seq<char>)
    requires
        parse_help(help) is Ok,
    ensures
        parse_help(help)->Ok_0.0.len() > 0,
{
}

/// A command without required slots never reports a missing required argument, whatever
/// the line.
pub proof fn lemma_no_required_never_missing(help: Seq<char>, input: Seq<char>)
    requires
        parse_help(help) is Ok,
        !has_kind(parse_help(help)->Ok_0.1, ArgKind::Required),
    ensures
        !(extract_spec(parse_help(help)->Ok_0.0, parse_help(help)->Ok_0.1, input) is Required),
{
}

/// A line whose text after one leader does not start with the command's name never
/// matches; the empty line and the bare leader are such lines.
pub proof fn lemma_other_name_no_match(help: Seq<char>, input: Seq<char>)
    requires
        parse_help(help) is Ok,
        !is_prefix(parse_help(help)->Ok_0.0, strip_leader(input)),
    ensures
        extract_spec(parse_help(help)->Ok_0.0, parse_help(help)->Ok_0.1, input) is NoMatch,
{
}

/// The empty line and the bare leader match no command.
pub proof fn lemma_empty_line_no_match(help: Seq<char>)
    requires
        parse_help(help) is Ok,
    ensures
        extract_spec(parse_help(help)->Ok_0.0, parse_help(help)->Ok_0.1, Seq::empty()) is NoMatch,
        extract_spec(parse_help(help)->Ok_0.0, parse_help(help)->Ok_0.1, seq![LEADER]) is NoMatch,
{
    assert(strip_leader(seq![LEADER]) =~= Seq::<char>::empty());
}

/// Commands compare by their help text: two commands built from different help strings
/// are not equal, whatever their structure.
pub proof fn lemma_different_help_not_equal(a: Command, b: Command)
    requires
        a@.help != b@.help,
    ensures
        !a.eq_spec(&b),
{
}

} // verus!
