//! Text templates with `${key}` placeholders, filled in from an environment of values.

use vstd::prelude::*;
use crate::text::{chars_of, string_of, string_of_range};

verus! {

/// Why a template cannot be used, as a mathematical value.
pub enum TemplateFault {
    NestedTemplates,
    NonTerminated,
    EmptyTemplate,
    Custom(Seq<char>),
}

/// Why a template cannot be used.
#[derive(Debug)]
pub enum Error {
    /// A `{` stands inside a placeholder.
    NestedTemplates,
    /// A placeholder is not closed.
    NonTerminated,
    /// A placeholder names no key.
    EmptyTemplate,
    /// An error of the caller's, by its message.
    Custom(String),
}

impl View for Error {
    type V = TemplateFault;

    open spec fn view(&self) -> TemplateFault {
        match self {
            Error::NestedTemplates => TemplateFault::NestedTemplates,
            Error::NonTerminated => TemplateFault::NonTerminated,
            Error::EmptyTemplate => TemplateFault::EmptyTemplate,
            Error::Custom(m) => TemplateFault::Custom(m@),
        }
    }
}

impl Error {
    /// An error of the caller's, carrying its message.
    pub fn custom(message: &str) -> (r: Error)
        ensures
            r@ == TemplateFault::Custom(message@),
    {
        Error::Custom(message.to_owned())
    }

    /// The message that describes the error.
    pub fn to_string(&self) -> (r: String)
        ensures
            self is NestedTemplates ==> r@ == "nested templates are not allowed"@,
            self is NonTerminated ==> r@ == "non-terminated template found"@,
            self is EmptyTemplate ==> r@ == "empty templates are not allowed"@,
            self is Custom ==> r@ == self@->Custom_0,
    {
        match self {
            Error::NestedTemplates => "nested templates are not allowed".to_owned(),
            Error::NonTerminated => "non-terminated template found".to_owned(),
            Error::EmptyTemplate => "empty templates are not allowed".to_owned(),
            Error::Custom(m) => m.clone(),
        }
    }
}

/// A value that can be shown in a template.
pub trait DisplayFn {
    fn display(&self) -> String;
}

impl DisplayFn for String {
    fn display(&self) -> String {
        self.clone()
    }
}

impl<'a> DisplayFn for &'a str {
    fn display(&self) -> String {
        (*self).to_owned()
    }
}

/// The values bound by `pairs`, a later pair overriding an earlier one with the same key.
pub open spec fn env_map(pairs: Seq<(Seq<char>, Seq<char>)>) -> Map<Seq<char>, Seq<char>>
    decreases pairs.len(),
{
    if pairs.len() == 0 {
        Map::empty()
    } else {
        env_map(pairs.drop_last()).insert(pairs.last().0, pairs.last().1)
    }
}

/// The values that a template's keys resolve to.
#[derive(Default)]
pub struct Environment {
    env: Vec<(String, String)>,
}

impl View for Environment {
    type V = Map<Seq<char>, Seq<char>>;

    closed spec fn view(&self) -> Map<Seq<char>, Seq<char>> {
        env_map(self.env@.map_values(|p: (String, String)| (p.0@, p.1@)))
    }
}

impl Environment {
    /// An environment that binds nothing.
    pub fn new() -> (r: Self)
        ensures
            r@ == Map::<Seq<char>, Seq<char>>::empty(),
    {
        let r = Environment { env: Vec::new() };
        assert(r.env@.map_values(|p: (String, String)| (p.0@, p.1@)) =~= Seq::<
            (Seq<char>, Seq<char>),
        >::empty());
        r
    }

    /// The environment with `key` bound to `value`.
    pub fn with(self, key: &str, value: String) -> (r: Self)
        ensures
            r@ == self@.insert(key@, value@),
    {
        let mut this = self;
        this.set(key, value);
        this
    }

    /// Binds `key` to `value`, in place of what it was bound to.
    pub fn set(&mut self, key: &str, value: String)
        ensures
            final(self)@ == old(self)@.insert(key@, value@),
    {
        let ghost before = self.env@.map_values(|p: (String, String)| (p.0@, p.1@));
        self.env.push((key.to_owned(), value));
        assert(self.env@.map_values(|p: (String, String)| (p.0@, p.1@)).drop_last() =~= before);
    }

    /// The environment with `key` bound to what `d` displays.
    pub fn insert<D: DisplayFn>(self, key: &str, d: &D) -> (r: Self)
        ensures
            r@.dom() == self@.dom().insert(key@),
            forall|k: Seq<char>| k != key@ && self@.contains_key(k) ==> r@[k] == self@[k],
    {
        let value = d.display();
        self.with(key, value)
    }

    /// Whether `key` is bound.
    pub fn contains_key(&self, key: &String) -> (r: bool)
        ensures
            r == self@.contains_key(key@),
    {
        match self.resolve(key) {
            Some(_) => true,
            None => false,
        }
    }

    /// Unbinds `key`; tells whether it was bound.
    pub fn remove(&mut self, key: &String) -> (r: bool)
        ensures
            r == old(self)@.contains_key(key@),
            final(self)@ == old(self)@.remove(key@),
    {
        let ghost all = self.env@.map_values(|p: (String, String)| (p.0@, p.1@));
        let found = self.contains_key(key);
        let mut kept: Vec<(String, String)> = Vec::new();
        let mut i: usize = 0;
        assert(all.subrange(0, 0) =~= Seq::<(Seq<char>, Seq<char>)>::empty());
        assert(kept@.map_values(|p: (String, String)| (p.0@, p.1@)) =~= without(
            all.subrange(0, 0),
            key@,
        ));
        while i < self.env.len()
            invariant
                all == self.env@.map_values(|p: (String, String)| (p.0@, p.1@)),
                0 <= i <= self.env.len(),
                kept@.map_values(|p: (String, String)| (p.0@, p.1@)) == without(
                    all.subrange(0, i as int),
                    key@,
                ),
            decreases self.env.len() - i,
        {
            let ghost before = kept@.map_values(|p: (String, String)| (p.0@, p.1@));
            let ghost sub = all.subrange(0, i + 1);
            assert(sub.drop_last() =~= all.subrange(0, i as int));
            assert(sub.last() == (self.env@[i as int].0@, self.env@[i as int].1@));
            if self.env[i].0 != *key {
                kept.push((self.env[i].0.clone(), self.env[i].1.clone()));
                assert(kept@.map_values(|p: (String, String)| (p.0@, p.1@)) =~= before.push(
                    sub.last(),
                ));
            }
            i += 1;
        }
        assert(all.subrange(0, all.len() as int) =~= all);
        proof {
            lemma_without(all, key@);
        }
        self.env = kept;
        found
    }

    /// The value bound to `key`, if any.
    pub fn resolve(&self, key: &String) -> (r: Option<String>)
        ensures
            match r {
                Some(v) => self@.contains_key(key@) && self@[key@] == v@,
                None => !self@.contains_key(key@),
            },
    {
        let ghost all = self.env@.map_values(|p: (String, String)| (p.0@, p.1@));
        let mut i: usize = self.env.len();
        while i > 0
            invariant
                0 <= i <= self.env.len(),
                all == self.env@.map_values(|p: (String, String)| (p.0@, p.1@)),
                forall|j: int| i <= j < all.len() ==> (#[trigger] all[j]).0 != key@,
            decreases i,
        {
            if self.env[i - 1].0 == *key {
                proof {
                    lemma_env_map_tail(all, i as int, key@);
                    assert(all.subrange(0, i as int).drop_last() =~= all.subrange(0, i - 1));
                }
                return Some(self.env[i - 1].1.clone());
            }
            i -= 1;
        }
        proof {
            lemma_env_map_tail(all, 0, key@);
            assert(all.subrange(0, 0) =~= Seq::<(Seq<char>, Seq<char>)>::empty());
        }
        None
    }
}

/// `pairs` without those whose key is `k`.
pub open spec fn without(pairs: Seq<(Seq<char>, Seq<char>)>, k: Seq<char>) -> Seq<
    (Seq<char>, Seq<char>),
>
    decreases pairs.len(),
{
    if pairs.len() == 0 {
        pairs
    } else if pairs.last().0 == k {
        without(pairs.drop_last(), k)
    } else {
        without(pairs.drop_last(), k).push(pairs.last())
    }
}

/// Dropping the pairs of a key unbinds it and leaves the other keys as they were.
pub proof fn lemma_without(pairs: Seq<(Seq<char>, Seq<char>)>, k: Seq<char>)
    ensures
        env_map(without(pairs, k)) == env_map(pairs).remove(k),
    decreases pairs.len(),
{
    if pairs.len() == 0 {
        assert(env_map(pairs).remove(k) =~= Map::empty());
    } else {
        lemma_without(pairs.drop_last(), k);
        if pairs.last().0 == k {
            assert(env_map(pairs).remove(k) =~= env_map(pairs.drop_last()).remove(k));
        } else {
            let w = without(pairs.drop_last(), k).push(pairs.last());
            assert(w.drop_last() =~= without(pairs.drop_last(), k));
            assert(env_map(w) =~= env_map(pairs).remove(k));
        }
    }
}

/// Pairs after `i` that bind other keys leave what `k` is bound to unchanged.
pub proof fn lemma_env_map_tail(all: Seq<(Seq<char>, Seq<char>)>, i: int, k: Seq<char>)
    requires
        0 <= i <= all.len(),
        forall|j: int| i <= j < all.len() ==> (#[trigger] all[j]).0 != k,
    ensures
        env_map(all).contains_key(k) == env_map(all.subrange(0, i)).contains_key(k),
        env_map(all).contains_key(k) ==> env_map(all)[k] == env_map(all.subrange(0, i))[k],
    decreases all.len(),
{
    if i == all.len() {
        assert(all.subrange(0, i) =~= all);
    } else {
        assert(all.drop_last().subrange(0, i) =~= all.subrange(0, i));
        assert(all.last() == all[all.len() - 1]);
        lemma_env_map_tail(all.drop_last(), i, k);
    }
}

/// Positions of the placeholder openings (`${`) and closings (`}`) in `s` from `i` on, given
/// those found before `i` and whether a placeholder is open; `None` when a `{` stands inside
/// an open placeholder.
pub open spec fn scan(s: Seq<char>, i: int, open: bool, heads: Seq<int>, tails: Seq<int>) -> Option<
    (Seq<int>, Seq<int>),
>
    decreases s.len() - i,
{
    if i < 0 || i >= s.len() {
        Some((heads, tails))
    } else if s[i] == '$' && i + 1 < s.len() && s[i + 1] == '{' {
        scan(s, i + 2, true, heads.push(i), tails)
    } else if s[i] == '{' && open {
        None
    } else if s[i] == '}' && open {
        scan(s, i + 1, false, heads, tails.push(i))
    } else {
        scan(s, i + 1, open, heads, tails)
    }
}

/// The keys that the placeholders of `s` name, in order, or why `s` is no template.
pub open spec fn template_keys(s: Seq<char>) -> Result<Seq<Seq<char>>, TemplateFault> {
    match scan(s, 0, false, Seq::empty(), Seq::empty()) {
        None => Err(TemplateFault::NestedTemplates),
        Some((heads, tails)) => if heads.len() != tails.len() {
            Err(TemplateFault::NonTerminated)
        } else if exists|j: int| 0 <= j < heads.len() && tails[j] == #[trigger] heads[j] + 2 {
            Err(TemplateFault::EmptyTemplate)
        } else {
            Ok(Seq::new(heads.len(), |j: int| s.subrange(heads[j] + 2, tails[j])))
        },
    }
}

/// `s` with every match of `pat`, taken left to right without overlap, replaced by `with`.
pub open spec fn replace_all(s: Seq<char>, pat: Seq<char>, with: Seq<char>) -> Seq<char>
    decreases s.len(),
{
    if pat.len() == 0 || s.len() < pat.len() {
        s
    } else if s.subrange(0, pat.len() as int) == pat {
        with + replace_all(s.subrange(pat.len() as int, s.len() as int), pat, with)
    } else {
        seq![s[0]] + replace_all(s.drop_first(), pat, with)
    }
}

/// The placeholder that names `key`: `${key}`.
pub open spec fn placeholder(key: Seq<char>) -> Seq<char> {
    seq!['$', '{'] + key + seq!['}']
}

/// `s` with the placeholders of `keys` replaced, one key after the other, by the values
/// that `env` binds; a key that `env` does not bind is left as it stands.
pub open spec fn fill(s: Seq<char>, keys: Seq<Seq<char>>, env: Map<Seq<char>, Seq<char>>) -> Seq<
    char,
>
    decreases keys.len(),
{
    if keys.len() == 0 {
        s
    } else {
        let before = fill(s, keys.drop_last(), env);
        let k = keys.last();
        if env.contains_key(k) {
            replace_all(before, placeholder(k), env[k])
        } else {
            before
        }
    }
}

/// Relies on `str::replace`: every match of `from`, taken left to right without overlap, is
/// replaced by `to`.
#[verifier::external_body]
fn replace(s: &str, from: &str, to: &str) -> (r: String)
    requires
        from@.len() > 0,
    ensures
        r@ == replace_all(s@, from@, to@),
{
    s.replace(from, to)
}

/// The placeholder `${key}` as a string.
fn placeholder_of(key: &String) -> (r: String)
    ensures
        r@ == placeholder(key@),
{
    let mut v: Vec<char> = Vec::new();
    v.push('$');
    v.push('{');
    let k = chars_of(key.as_str());
    let mut i: usize = 0;
    while i < k.len()
        invariant
            0 <= i <= k.len(),
            v@ == seq!['$', '{'] + k@.subrange(0, i as int),
        decreases k.len() - i,
    {
        v.push(k[i]);
        i += 1;
        assert(v@ =~= seq!['$', '{'] + k@.subrange(0, i as int));
    }
    v.push('}');
    assert(k@.subrange(0, k@.len() as int) =~= k@);
    assert(v@ =~= placeholder(key@));
    string_of(v.as_slice())
}

/// A template whose placeholders have been found.
#[derive(Clone, Debug)]
pub struct ParsedTemplate {
    pub data: String,
    pub keys: Vec<String>,
}

impl ParsedTemplate {
    /// The keys as character sequences.
    pub open spec fn key_seq(&self) -> Seq<Seq<char>> {
        self.keys@.map_values(|k: String| k@)
    }

    /// The template `input` with its keys, or why it is none.
    pub fn parse(input: &str) -> (r: Result<Self, Error>)
        ensures
            match template_keys(input@) {
                Ok(keys) => r matches Ok(t) && t.data@ == input@ && t.key_seq() == keys,
                Err(f) => r matches Err(e) && e@ == f,
            },
    {
        match Self::find_keys(input) {
            Ok(keys) => Ok(ParsedTemplate { data: input.to_owned(), keys }),
            Err(e) => Err(e),
        }
    }

    /// The template with its placeholders replaced by the values that `env` binds.
    pub fn apply(&self, env: &Environment) -> (r: String)
        ensures
            r@ == fill(self.data@, self.key_seq(), env@),
    {
        let mut temp = self.data.clone();
        let mut j: usize = 0;
        while j < self.keys.len()
            invariant
                0 <= j <= self.keys.len(),
                temp@ == fill(self.data@, self.key_seq().subrange(0, j as int), env@),
            decreases self.keys.len() - j,
        {
            let ghost done = self.key_seq().subrange(0, j as int + 1);
            assert(done.drop_last() =~= self.key_seq().subrange(0, j as int));
            assert(done.last() == self.keys@[j as int]@);
            match env.resolve(&self.keys[j]) {
                Some(val) => {
                    let pat = placeholder_of(&self.keys[j]);
                    temp = replace(temp.as_str(), pat.as_str(), val.as_str());
                },
                None => {},
            }
            j += 1;
        }
        assert(self.key_seq().subrange(0, self.keys.len() as int) =~= self.key_seq());
        temp
    }

    /// The keys that the placeholders of `input` name, in order, or why it is no template.
    pub fn find_keys(input: &str) -> (r: Result<Vec<String>, Error>)
        ensures
            match template_keys(input@) {
                Ok(keys) => r matches Ok(v) && v@.map_values(|k: String| k@) == keys,
                Err(f) => r matches Err(e) && e@ == f,
            },
    {
        let s = chars_of(input);
        let n = s.len();
        let mut heads: Vec<usize> = Vec::new();
        let mut tails: Vec<usize> = Vec::new();
        let mut open = false;
        let mut i: usize = 0;
        let ghost whole = scan(s@, 0, false, Seq::empty(), Seq::empty());
        assert(s@ == input@);
        assert(heads@.map_values(|x: usize| x as int) =~= Seq::<int>::empty());
        assert(tails@.map_values(|x: usize| x as int) =~= Seq::<int>::empty());
        while i < n
            invariant
                n == s.len(),
                s@ == input@,
                0 <= i <= n,
                whole == scan(s@, 0, false, Seq::empty(), Seq::empty()),
                whole == scan(
                    s@,
                    i as int,
                    open,
                    heads@.map_values(|x: usize| x as int),
                    tails@.map_values(|x: usize| x as int),
                ),
                tails.len() <= heads.len(),
                open ==> tails.len() < heads.len(),
                forall|j: int| 0 <= j < heads.len() ==> #[trigger] heads@[j] + 2 <= i,
                forall|j: int| 0 <= j < tails.len() ==> heads@[j] + 2 <= #[trigger] tails@[j] < n,
            decreases n - i,
        {
            let ghost hv = heads@.map_values(|x: usize| x as int);
            let ghost tv = tails@.map_values(|x: usize| x as int);
            if s[i] == '$' && i + 1 < n && s[i + 1] == '{' {
                heads.push(i);
                assert(heads@.map_values(|x: usize| x as int) =~= hv.push(i as int));
                open = true;
                i += 2;
            } else if s[i] == '{' && open {
                assert(scan(s@, i as int, open, hv, tv) == None::<(Seq<int>, Seq<int>)>);
                return Err(Error::NestedTemplates);
            } else if s[i] == '}' && open {
                tails.push(i);
                assert(tails@.map_values(|x: usize| x as int) =~= tv.push(i as int));
                open = false;
                i += 1;
            } else {
                i += 1;
            }
        }
        let ghost hv = heads@.map_values(|x: usize| x as int);
        let ghost tv = tails@.map_values(|x: usize| x as int);
        assert(whole == Some((hv, tv)));
        if heads.len() != tails.len() {
            return Err(Error::NonTerminated);
        }
        let mut keys: Vec<String> = Vec::new();
        let mut j: usize = 0;
        while j < heads.len()
            invariant
                0 <= j <= heads.len(),
                heads.len() == tails.len(),
                s@ == input@,
                n == s.len(),
                whole == scan(s@, 0, false, Seq::empty(), Seq::empty()),
                whole == Some((hv, tv)),
                hv == heads@.map_values(|x: usize| x as int),
                tv == tails@.map_values(|x: usize| x as int),
                forall|m: int| 0 <= m < tails.len() ==> heads@[m] + 2 <= #[trigger] tails@[m] <= n,
                forall|m: int| 0 <= m < j ==> #[trigger] tails@[m] != heads@[m] + 2,
                keys@.len() == j,
                forall|m: int|
                    0 <= m < j ==> (#[trigger] keys@[m])@ == s@.subrange(
                        heads@[m] + 2,
                        tails@[m] as int,
                    ),
            decreases heads.len() - j,
        {
            if tails[j] == heads[j] + 2 {
                assert(tv[j as int] == hv[j as int] + 2);
                return Err(Error::EmptyTemplate);
            }
            assert(heads@[j as int] + 2 <= tails@[j as int] <= n);
            keys.push(string_of_range(&s, heads[j] + 2, tails[j]));
            j += 1;
        }
        assert(!exists|m: int| 0 <= m < hv.len() && tv[m] == #[trigger] hv[m] + 2) by {
            assert forall|m: int| 0 <= m < hv.len() implies tv[m] != #[trigger] hv[m] + 2 by {
                assert(tv[m] == tails@[m] && hv[m] == heads@[m]);
            }
        }
        assert(keys@.map_values(|k: String| k@) =~= Seq::new(
            hv.len(),
            |m: int| s@.subrange(hv[m] + 2, tv[m]),
        ));
        Ok(keys)
    }
}

/// A named template, kept as written.
#[derive(Clone, Debug)]
pub struct SimpleTemplate {
    pub name: String,
    pub data: String,
}

impl SimpleTemplate {
    /// The template `input` under the name `name`.
    pub fn new(name: &str, input: &str) -> (r: Self)
        ensures
            r.name@ == name@,
            r.data@ == input@,
    {
        SimpleTemplate { name: name.to_owned(), data: input.to_owned() }
    }

    /// The template filled in from `env`, or why its text is no template.
    pub fn render(&self, env: &Environment) -> (r: Result<String, Error>)
        ensures
            match template_keys(self.data@) {
                Ok(keys) => r matches Ok(out) && out@ == fill(self.data@, keys, env@),
                Err(f) => r matches Err(e) && e@ == f,
            },
    {
        match ParsedTemplate::parse(self.data.as_str()) {
            Ok(parsed) => Ok(parsed.apply(env)),
            Err(e) => Err(e),
        }
    }
}

/// A named body of text that can be filled in from an environment.
pub trait Template {
    fn name(&self) -> &str;

    fn body(&self) -> &str;

    fn apply(&self, env: &Environment) -> Result<String, Error>;
}

impl Template for SimpleTemplate {
    fn name(&self) -> &str {
        self.name.as_str()
    }

    fn body(&self) -> &str {
        self.data.as_str()
    }

    fn apply(&self, env: &Environment) -> Result<String, Error> {
        self.render(env)
    }
}

} // verus!
