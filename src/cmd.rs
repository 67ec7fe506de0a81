//! A chat line taken apart as `!head arg body...`, the shape that stored commands use.

use vstd::prelude::*;
use crate::command::LEADER;
use crate::text::{chars_of, find_white, first_white, lemma_first_white, string_of_range};

verus! {

/// A chat line as a command word, an optional argument and an optional body.
#[derive(Clone, Debug)]
pub struct Cmd {
    pub head: String,
    pub arg: Option<String>,
    pub body: Option<String>,
}

/// The parts of a line as mathematical values.
pub struct CmdModel {
    pub head: Seq<char>,
    pub arg: Option<Seq<char>>,
    pub body: Option<Seq<char>>,
}

impl View for Cmd {
    type V = CmdModel;

    open spec fn view(&self) -> CmdModel {
        CmdModel {
            head: self.head@,
            arg: match self.arg {
                Some(a) => Some(a@),
                None => None,
            },
            body: match self.body {
                Some(b) => Some(b@),
                None => None,
            },
        }
    }
}

/// The argument word as kept: the bare leader is none, one leading leader is dropped.
pub open spec fn arg_word(w: Seq<char>) -> Option<Seq<char>> {
    if w == seq![LEADER] {
        None
    } else if w.len() > 0 && w[0] == LEADER {
        Some(w.drop_first())
    } else {
        Some(w)
    }
}

/// The parts of `line`: after the leader, the text is cut at its first two white-space
/// characters; there is none when the line does not start with the leader or is only it.
pub open spec fn cmd_parts(line: Seq<char>) -> Option<CmdModel> {
    if line.len() == 0 || line[0] != LEADER || line.len() == 1 {
        None
    } else {
        let s = line.drop_first();
        let i = first_white(s);
        if i >= s.len() {
            Some(CmdModel { head: s, arg: None, body: None })
        } else {
            let r = s.subrange(i as int + 1, s.len() as int);
            let j = first_white(r);
            if j >= r.len() {
                Some(CmdModel { head: s.subrange(0, i as int), arg: arg_word(r), body: None })
            } else {
                Some(
                    CmdModel {
                        head: s.subrange(0, i as int),
                        arg: arg_word(r.subrange(0, j as int)),
                        body: Some(r.subrange(j as int + 1, r.len() as int)),
                    },
                )
            }
        }
    }
}

/// The argument word `s[lo..hi]` as kept.
fn arg_of(s: &Vec<char>, lo: usize, hi: usize) -> (r: Option<String>)
    requires
        lo <= hi <= s.len(),
    ensures
        match r {
            Some(a) => arg_word(s@.subrange(lo as int, hi as int)) == Some(a@),
            None => arg_word(s@.subrange(lo as int, hi as int)) is None,
        },
{
    let ghost w = s@.subrange(lo as int, hi as int);
    if hi > lo && s[lo] == LEADER {
        assert(w[0] == s@[lo as int]);
        if hi - lo == 1 {
            assert(w =~= seq![LEADER]);
            return None;
        }
        assert(w.drop_first() =~= s@.subrange(lo + 1, hi as int));
        return Some(string_of_range(s, lo + 1, hi));
    }
    proof {
        if w.len() > 0 {
            assert(w[0] == s@[lo as int]);
        }
        if w == seq![LEADER] {
            assert(w[0] == LEADER);
        }
    }
    Some(string_of_range(s, lo, hi))
}

impl Cmd {
    /// The parts of the chat line `line`, or `None` when it is no command.
    pub fn parse(line: &str) -> (r: Option<Cmd>)
        ensures
            match cmd_parts(line@) {
                Some(m) => r matches Some(c) && c@ == m,
                None => r is None,
            },
    {
        let s = chars_of(line);
        let n = s.len();
        if n == 0 || s[0] != LEADER || n == 1 {
            return None;
        }
        let ghost t = line@.drop_first();
        assert(t =~= s@.subrange(1, n as int));
        let i = find_white(&s, 1);
        proof {
            lemma_first_white(t);
        }
        if i == n {
            return Some(Cmd { head: string_of_range(&s, 1, n), arg: None, body: None });
        }
        let head = string_of_range(&s, 1, i);
        assert(t.subrange(0, i - 1) =~= s@.subrange(1, i as int));
        let ghost r = t.subrange(i as int, t.len() as int);
        assert(r =~= s@.subrange(i + 1, n as int));
        let j = find_white(&s, i + 1);
        proof {
            lemma_first_white(r);
        }
        if j == n {
            let arg = arg_of(&s, i + 1, n);
            return Some(Cmd { head, arg, body: None });
        }
        assert(r.subrange(0, j - i - 1) =~= s@.subrange(i + 1, j as int));
        assert(r.subrange(j - i, r.len() as int) =~= s@.subrange(j + 1, n as int));
        let arg = arg_of(&s, i + 1, j);
        let body = string_of_range(&s, j + 1, n);
        Some(Cmd { head, arg, body: Some(body) })
    }
}

} // verus!
