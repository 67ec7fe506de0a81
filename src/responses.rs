//! Custom responses of a channel: `!add`, `!set` and `!remove` keep a table of named
//! templates, and a line that names one is answered with the filled-in template.

use vstd::prelude::*;
use crate::command::LEADER;
use crate::template::{env_map, fill, template_keys, Environment, Error, SimpleTemplate};
use crate::text::{
    chars_of, drop_trailing_white, find_white, first_white, lemma_first_white, push_all,
    skip_char, skip_white, string_of, string_of_range, trim_start, trim_white, trim_white_end,
};

verus! {

/// The stored commands of one channel, by name.
pub struct Channel {
    commands: Environment,
}

impl View for Channel {
    type V = Map<Seq<char>, Seq<char>>;

    closed spec fn view(&self) -> Map<Seq<char>, Seq<char>> {
        self.commands@
    }
}

/// The stored commands of one channel as they are saved: name and body.
pub struct Saved {
    pub commands: Vec<(String, String)>,
}

/// The name a command is stored under: its text without the leaders in front.
pub open spec fn command_name(cmd: Seq<char>) -> Seq<char> {
    trim_start(cmd, LEADER)
}

/// A body as stored: without white space at either end, and none when that leaves nothing.
pub open spec fn clean_body(body: Option<Seq<char>>) -> Option<Seq<char>> {
    match body {
        Some(b) => {
            let t = trim_white_end(trim_white(b));
            if t.len() > 0 {
                Some(t)
            } else {
                None
            }
        },
        None => None,
    }
}

/// The view of an optional string.
pub open spec fn opt_view(s: Option<&str>) -> Option<Seq<char>> {
    match s {
        Some(v) => Some(v@),
        None => None,
    }
}

/// `'name'`.
pub open spec fn quoted(name: Seq<char>) -> Seq<char> {
    seq!['\''] + name + seq!['\'']
}

/// The table and reply after storing `body` under `name`: refused when the body is empty or
/// starts with `.` or `/`; otherwise stored, and the reply says `action 'name' -> 'body'`.
pub open spec fn update(
    table: Map<Seq<char>, Seq<char>>,
    name: Seq<char>,
    body: Option<Seq<char>>,
    action: Seq<char>,
) -> (Map<Seq<char>, Seq<char>>, Seq<char>) {
    match clean_body(body) {
        None => (table, "try again. you provided an empty command body"@),
        Some(b) => if b[0] == '.' || b[0] == '/' {
            (table, "lol"@)
        } else {
            (table.insert(name, b), action + seq![' '] + quoted(name) + " -> "@ + quoted(b))
        },
    }
}

/// `!add`: a name already there is refused; otherwise the body is stored as `added`.
pub open spec fn add_outcome(
    table: Map<Seq<char>, Seq<char>>,
    cmd: Seq<char>,
    body: Option<Seq<char>>,
) -> (Map<Seq<char>, Seq<char>>, Seq<char>) {
    let name = command_name(cmd);
    if table.contains_key(name) {
        (table, quoted(name) + " already exists"@)
    } else {
        update(table, name, body, "added"@)
    }
}

/// `!set`: the body is stored, `updated` when the name was there and `added` when not.
pub open spec fn set_outcome(
    table: Map<Seq<char>, Seq<char>>,
    cmd: Seq<char>,
    body: Option<Seq<char>>,
) -> (Map<Seq<char>, Seq<char>>, Seq<char>) {
    let name = command_name(cmd);
    update(
        table,
        name,
        body,
        if table.contains_key(name) {
            "updated"@
        } else {
            "added"@
        },
    )
}

/// `!remove`: the name is dropped if it was there.
pub open spec fn remove_outcome(table: Map<Seq<char>, Seq<char>>, cmd: Seq<char>) -> (
    Map<Seq<char>, Seq<char>>,
    Seq<char>,
) {
    let name = command_name(cmd);
    if table.contains_key(name) {
        (table.remove(name), "removed "@ + quoted(name))
    } else {
        (table, quoted(name) + " does not exist"@)
    }
}

/// The command word of a line that starts with the leader: the first word after the leaders.
pub open spec fn line_command(line: Seq<char>) -> Option<Seq<char>> {
    if line.len() == 0 || line[0] != LEADER {
        None
    } else {
        let t = trim_white(trim_start(line, LEADER));
        if t.len() == 0 {
            None
        } else {
            Some(t.subrange(0, first_white(t) as int))
        }
    }
}

/// The values a stored response can use: the sender's name and the channel.
pub open spec fn response_env(user: Seq<char>, channel: Seq<char>) -> Map<Seq<char>, Seq<char>> {
    Map::<Seq<char>, Seq<char>>::empty().insert("name"@, user).insert("channel"@, channel)
}

/// The name `cmd` is stored under.
fn name_of(cmd: &str) -> (r: String)
    ensures
        r@ == command_name(cmd@),
{
    let s = chars_of(cmd);
    assert(s@.subrange(0, s@.len() as int) =~= s@);
    let start = skip_char(&s, 0, s.len(), LEADER);
    string_of_range(&s, start, s.len())
}

/// The body as stored, if anything is left of it.
fn clean(body: Option<&str>) -> (r: Option<Vec<char>>)
    ensures
        match r {
            Some(v) => clean_body(opt_view(body)) == Some(v@),
            None => clean_body(opt_view(body)) is None,
        },
{
    match body {
        None => None,
        Some(b) => {
            let s = chars_of(b);
            assert(s@.subrange(0, s@.len() as int) =~= s@);
            let lo = skip_white(&s, 0);
            let hi = drop_trailing_white(&s, lo, s.len());
            if hi == lo {
                return None;
            }
            let mut v: Vec<char> = Vec::new();
            let mut i: usize = lo;
            while i < hi
                invariant
                    lo <= i <= hi <= s.len(),
                    v@ == s@.subrange(lo as int, i as int),
                decreases hi - i,
            {
                v.push(s[i]);
                i += 1;
                assert(v@ =~= s@.subrange(lo as int, i as int));
            }
            Some(v)
        },
    }
}

/// `out` followed by `'name'`.
fn push_quoted(out: &mut Vec<char>, name: &Vec<char>)
    ensures
        final(out)@ == old(out)@ + quoted(name@),
{
    let ghost before = out@;
    out.push('\'');
    push_all(out, name);
    out.push('\'');
    assert(out@ =~= before + quoted(name@));
}

/// Stores `body` under `name` unless the rules refuse it; the reply says which.
fn update_template(ch: &mut Channel, name: &String, body: Option<&str>, action: &str) -> (r:
    String)
    ensures
        (final(ch)@, r@) == update(old(ch)@, name@, opt_view(body), action@),
{
    proof {
        reveal_strlit("try again. you provided an empty command body");
        reveal_strlit("lol");
        reveal_strlit(" -> ");
    }
    let b = match clean(body) {
        None => return "try again. you provided an empty command body".to_owned(),
        Some(b) => b,
    };
    if b[0] == '.' || b[0] == '/' {
        return "lol".to_owned();
    }
    let text = string_of(b.as_slice());
    ch.commands.set(name.as_str(), text);
    let n = chars_of(name.as_str());
    let mut out = chars_of(action);
    out.push(' ');
    push_quoted(&mut out, &n);
    push_all(&mut out, &chars_of(" -> "));
    push_quoted(&mut out, &b);
    assert(out@ =~= action@ + seq![' '] + quoted(name@) + " -> "@ + quoted(b@));
    string_of(out.as_slice())
}

impl Channel {
    /// A channel without stored commands.
    pub fn new() -> (r: Self)
        ensures
            r@ == Map::<Seq<char>, Seq<char>>::empty(),
    {
        Channel { commands: Environment::new() }
    }

    /// The channel as it was saved.
    pub fn from_saved(saved: Saved) -> (r: Self)
        ensures
            r@ == env_map(saved.commands@.map_values(|p: (String, String)| (p.0@, p.1@))),
    {
        let ghost all = saved.commands@.map_values(|p: (String, String)| (p.0@, p.1@));
        let mut ch = Channel::new();
        let mut i: usize = 0;
        assert(all.subrange(0, 0) =~= Seq::<(Seq<char>, Seq<char>)>::empty());
        while i < saved.commands.len()
            invariant
                0 <= i <= saved.commands.len(),
                all == saved.commands@.map_values(|p: (String, String)| (p.0@, p.1@)),
                ch@ == env_map(all.subrange(0, i as int)),
            decreases saved.commands.len() - i,
        {
            ch.add_template(saved.commands[i].0.as_str(), saved.commands[i].1.as_str());
            assert(all.subrange(0, i + 1).drop_last() =~= all.subrange(0, i as int));
            i += 1;
        }
        assert(all.subrange(0, all.len() as int) =~= all);
        ch
    }

    /// Stores `body` under `name`, replacing what was there.
    pub fn add_template(&mut self, name: &str, body: &str)
        ensures
            final(self)@ == old(self)@.insert(name@, body@),
    {
        self.commands.set(name, body.to_owned());
    }

    /// Drops the command `cmd`; tells whether it was there.
    pub fn remove_command(&mut self, cmd: &str) -> (r: bool)
        ensures
            r == old(self)@.contains_key(cmd@),
            final(self)@ == old(self)@.remove(cmd@),
    {
        self.commands.remove(&cmd.to_owned())
    }

    /// Whether a command is stored under `name`.
    pub fn contains(&self, name: &str) -> (r: bool)
        ensures
            r == self@.contains_key(name@),
    {
        self.commands.contains_key(&name.to_owned())
    }

    /// The answer to `line` from `user` in `channel`: none when the line names no stored
    /// command, else the stored template filled in with `name` and `channel`.
    pub fn respond(&self, line: &str, user: &str, channel: &str) -> (r: Option<
        Result<String, Error>,
    >)
        ensures
            match line_command(line@) {
                Some(w) => if self@.contains_key(w) {
                    match template_keys(self@[w]) {
                        Ok(keys) => r matches Some(Ok(out)) && out@ == fill(
                            self@[w],
                            keys,
                            response_env(user@, channel@),
                        ),
                        Err(f) => r matches Some(Err(e)) && e@ == f,
                    }
                } else {
                    r is None
                },
                None => r is None,
            },
    {
        let s = chars_of(line);
        let n = s.len();
        if n == 0 || s[0] != LEADER {
            return None;
        }
        assert(s@.subrange(0, n as int) =~= s@);
        let a = skip_char(&s, 0, n, LEADER);
        let b = skip_white(&s, a);
        if b == n {
            return None;
        }
        let e = find_white(&s, b);
        proof {
            lemma_first_white(s@.subrange(b as int, n as int));
        }
        assert(s@.subrange(b as int, n as int).subrange(0, e - b) =~= s@.subrange(
            b as int,
            e as int,
        ));
        let word = string_of_range(&s, b, e);
        let body = match self.commands.resolve(&word) {
            None => return None,
            Some(body) => body,
        };
        let env = Environment::new().with("name", user.to_owned()).with(
            "channel",
            channel.to_owned(),
        );
        proof {
            reveal_strlit("name");
            reveal_strlit("channel");
        }
        let t = SimpleTemplate::new(word.as_str(), body.as_str());
        Some(t.render(&env))
    }
}

/// `!add cmd body`: the reply, with the command stored unless the name is taken or the rules
/// refuse the body.
pub fn add_command(ch: &mut Channel, cmd: &str, body: Option<&str>) -> (r: String)
    ensures
        (final(ch)@, r@) == add_outcome(old(ch)@, cmd@, opt_view(body)),
{
    proof {
        reveal_strlit(" already exists");
        reveal_strlit("added");
    }
    let name = name_of(cmd);
    if ch.contains(name.as_str()) {
        let mut out: Vec<char> = Vec::new();
        push_quoted(&mut out, &chars_of(name.as_str()));
        push_all(&mut out, &chars_of(" already exists"));
        return string_of(out.as_slice());
    }
    update_template(ch, &name, body, "added")
}

/// `!set cmd body`: the reply, with the command stored unless the rules refuse the body.
pub fn set_command(ch: &mut Channel, cmd: &str, body: Option<&str>) -> (r: String)
    ensures
        (final(ch)@, r@) == set_outcome(old(ch)@, cmd@, opt_view(body)),
{
    proof {
        reveal_strlit("updated");
        reveal_strlit("added");
    }
    let name = name_of(cmd);
    let action = if ch.contains(name.as_str()) {
        "updated"
    } else {
        "added"
    };
    update_template(ch, &name, body, action)
}

/// `!remove cmd`: the reply, with the command dropped if it was there.
pub fn remove_command(ch: &mut Channel, cmd: &str) -> (r: String)
    ensures
        (final(ch)@, r@) == remove_outcome(old(ch)@, cmd@),
{
    proof {
        reveal_strlit("removed ");
        reveal_strlit(" does not exist");
    }
    let name = name_of(cmd);
    let n = chars_of(name.as_str());
    if ch.remove_command(name.as_str()) {
        let mut out = chars_of("removed ");
        push_quoted(&mut out, &n);
        string_of(out.as_slice())
    } else {
        let mut out: Vec<char> = Vec::new();
        push_quoted(&mut out, &n);
        push_all(&mut out, &chars_of(" does not exist"));
        string_of(out.as_slice())
    }
}

} // verus!
