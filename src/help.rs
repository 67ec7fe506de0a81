//! Help for users: the list of known commands, and the help text of one of them.

use vstd::prelude::*;
use crate::command::{Command, Schema, LEADER};
use crate::text::{chars_of, push_all, skip_char, string_of, string_of_range, trim_start};

verus! {

/// The names, each after the leader, separated by `, `: `!a, !b, !c`.
pub open spec fn name_list(names: Seq<Seq<char>>) -> Seq<char>
    decreases names.len(),
{
    if names.len() == 0 {
        Seq::empty()
    } else if names.len() == 1 {
        seq![LEADER] + names[0]
    } else {
        name_list(names.drop_last()) + seq![',', ' ', LEADER] + names.last()
    }
}

/// The names of the commands, then the names of the custom commands.
pub open spec fn all_names(cmds: Seq<Schema>, custom: Seq<Seq<char>>) -> Seq<Seq<char>> {
    cmds.map_values(|c: Schema| c.name) + custom
}

/// The list of the commands and then the custom commands, by name.
pub fn format_commands(commands: &Vec<Command>, custom: &Vec<String>) -> (r: String)
    ensures
        r@ == name_list(
            all_names(commands@.map_values(|c: Command| c@), custom@.map_values(|s: String| s@)),
        ),
{
    let ghost names = all_names(
        commands@.map_values(|c: Command| c@),
        custom@.map_values(|s: String| s@),
    );
    let mut out: Vec<char> = Vec::new();
    let mut i: usize = 0;
    assert(names.subrange(0, 0) =~= Seq::<Seq<char>>::empty());
    while i < commands.len()
        invariant
            names.len() == commands.len() + custom.len(),
            names == all_names(
                commands@.map_values(|c: Command| c@),
                custom@.map_values(|s: String| s@),
            ),
            0 <= i <= commands.len(),
            out@ == name_list(names.subrange(0, i as int)),
        decreases commands.len() - i,
    {
        let name = chars_of(commands[i].name());
        assert(name@ == names[i as int]);
        append_name(&mut out, &name, i > 0);
        assert(names.subrange(0, i + 1).drop_last() =~= names.subrange(0, i as int));
        proof {
            if i == 0 {
                assert(out@ =~= name_list(names.subrange(0, 1)));
            }
        }
        i += 1;
    }
    let mut j: usize = 0;
    while j < custom.len()
        invariant
            names.len() == commands.len() + custom.len(),
            names == all_names(
                commands@.map_values(|c: Command| c@),
                custom@.map_values(|s: String| s@),
            ),
            0 <= j <= custom.len(),
            out@ == name_list(names.subrange(0, commands.len() + j)),
        decreases custom.len() - j,
    {
        let name = chars_of(custom[j].as_str());
        let ghost k = commands.len() + j;
        assert(name@ == names[k]);
        append_name(&mut out, &name, commands.len() > 0 || j > 0);
        assert(names.subrange(0, k + 1).drop_last() =~= names.subrange(0, k));
        proof {
            if k == 0 {
                assert(out@ =~= name_list(names.subrange(0, 1)));
            }
        }
        j += 1;
    }
    assert(names.subrange(0, names.len() as int) =~= names);
    string_of(out.as_slice())
}

/// `out` followed by `, ` when `sep`, then the leader and `name`.
fn append_name(out: &mut Vec<char>, name: &Vec<char>, sep: bool)
    ensures
        sep ==> final(out)@ == old(out)@ + seq![',', ' ', LEADER] + name@,
        !sep ==> final(out)@ == old(out)@ + seq![LEADER] + name@,
{
    let ghost before = out@;
    if sep {
        out.push(',');
        out.push(' ');
    }
    out.push(LEADER);
    push_all(out, name);
    proof {
        if sep {
            assert(before.push(',').push(' ').push(LEADER) =~= before + seq![',', ' ', LEADER]);
        } else {
            assert(before.push(LEADER) =~= before + seq![LEADER]);
        }
    }
}

/// Index of the first command named `name`, or `cmds.len()`.
pub open spec fn first_named(cmds: Seq<Schema>, name: Seq<char>) -> nat
    decreases cmds.len(),
{
    if cmds.len() == 0 {
        0
    } else if cmds[0].name == name {
        0
    } else {
        1 + first_named(cmds.drop_first(), name)
    }
}

/// The body of the first custom command named `name`, if any.
pub open spec fn custom_body(custom: Seq<(Seq<char>, Seq<char>)>, name: Seq<char>) -> Option<
    Seq<char>,
>
    decreases custom.len(),
{
    if custom.len() == 0 {
        None
    } else if custom[0].0 == name {
        Some(custom[0].1)
    } else {
        custom_body(custom.drop_first(), name)
    }
}

/// The help for `cmd` (leaders in front are ignored): the help text of the first command of
/// that name, else the body of the first custom command of that name, else a note that it
/// is unknown.
pub open spec fn help_for(
    cmds: Seq<Schema>,
    custom: Seq<(Seq<char>, Seq<char>)>,
    cmd: Seq<char>,
) -> Seq<char> {
    let search = trim_start(cmd, LEADER);
    let i = first_named(cmds, search);
    if i < cmds.len() {
        cmds[i as int].help
    } else {
        match custom_body(custom, search) {
            Some(body) => body,
            None => "I don't know what '"@ + cmd + "' is"@,
        }
    }
}

/// The help for `cmd` among `commands` and the custom commands `custom` (name and body).
pub fn lookup(commands: &Vec<Command>, custom: &Vec<(String, String)>, cmd: &str) -> (r: String)
    ensures
        r@ == help_for(
            commands@.map_values(|c: Command| c@),
            custom@.map_values(|p: (String, String)| (p.0@, p.1@)),
            cmd@,
        ),
{
    let ghost cmds = commands@.map_values(|c: Command| c@);
    let ghost pairs = custom@.map_values(|p: (String, String)| (p.0@, p.1@));
    let s = chars_of(cmd);
    assert(s@.subrange(0, s@.len() as int) =~= s@);
    let start = skip_char(&s, 0, s.len(), LEADER);
    let search = string_of_range(&s, start, s.len());
    assert(search@ == trim_start(cmd@, LEADER));
    let mut i: usize = 0;
    assert(cmds.subrange(0, cmds.len() as int) =~= cmds);
    while i < commands.len()
        invariant
            0 <= i <= commands.len(),
            cmds == commands@.map_values(|c: Command| c@),
            search@ == trim_start(cmd@, LEADER),
            first_named(cmds, search@) == i + first_named(
                cmds.subrange(i as int, cmds.len() as int),
                search@,
            ),
        decreases commands.len() - i,
    {
        assert(cmds.subrange(i as int, cmds.len() as int).drop_first() =~= cmds.subrange(
            i + 1,
            cmds.len() as int,
        ));
        assert(cmds[i as int] == commands@[i as int]@);
        let name = commands[i].name().to_owned();
        if name == search {
            assert(cmds.subrange(i as int, cmds.len() as int)[0] == cmds[i as int]);
            return commands[i].help().to_owned();
        }
        i += 1;
    }
    assert(cmds.subrange(i as int, cmds.len() as int) =~= Seq::<Schema>::empty());
    let mut j: usize = 0;
    assert(pairs.subrange(0, pairs.len() as int) =~= pairs);
    while j < custom.len()
        invariant
            0 <= j <= custom.len(),
            search@ == trim_start(cmd@, LEADER),
            cmds == commands@.map_values(|c: Command| c@),
            first_named(cmds, search@) == cmds.len(),
            pairs == custom@.map_values(|p: (String, String)| (p.0@, p.1@)),
            custom_body(pairs, search@) == custom_body(
                pairs.subrange(j as int, pairs.len() as int),
                search@,
            ),
        decreases custom.len() - j,
    {
        assert(pairs.subrange(j as int, pairs.len() as int).drop_first() =~= pairs.subrange(
            j + 1,
            pairs.len() as int,
        ));
        if custom[j].0 == search {
            assert(pairs.subrange(j as int, pairs.len() as int)[0] == pairs[j as int]);
            return custom[j].1.clone();
        }
        j += 1;
    }
    proof {
        reveal_strlit("I don't know what '");
        reveal_strlit("' is");
    }
    let mut out = chars_of("I don't know what '");
    push_all(&mut out, &s);
    push_all(&mut out, &chars_of("' is"));
    string_of(out.as_slice())
}

} // verus!
