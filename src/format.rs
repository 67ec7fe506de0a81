//! Human-readable durations: `01:02:03` stamps and `1 hour, 2 minutes and 3 seconds`.

use vstd::prelude::*;
use crate::text::{chars_of, push_all, string_of};

verus! {

/// The decimal digit for `d`.
pub open spec fn digit(d: nat) -> char {
    if d == 0 {
        '0'
    } else if d == 1 {
        '1'
    } else if d == 2 {
        '2'
    } else if d == 3 {
        '3'
    } else if d == 4 {
        '4'
    } else if d == 5 {
        '5'
    } else if d == 6 {
        '6'
    } else if d == 7 {
        '7'
    } else if d == 8 {
        '8'
    } else {
        '9'
    }
}

/// `n` written in decimal, without leading zeros.
pub open spec fn decimal(n: nat) -> Seq<char>
    decreases n,
{
    if n < 10 {
        seq![digit(n)]
    } else {
        decimal(n / 10) + seq![digit(n % 10)]
    }
}

/// `n` in decimal, padded with a zero to at least two digits.
pub open spec fn two_digits(n: nat) -> Seq<char> {
    if n < 10 {
        seq!['0'] + decimal(n)
    } else {
        decimal(n)
    }
}

/// Relies on `u64`'s `ToString`: the decimal digits, without leading zeros.
#[verifier::external_body]
fn decimal_of(n: u64) -> (r: String)
    ensures
        r@ == decimal(n as nat),
{
    n.to_string()
}

/// `n` in decimal, padded to two digits, as characters.
fn padded(n: u64) -> (r: Vec<char>)
    ensures
        r@ == two_digits(n as nat),
{
    let d = chars_of(decimal_of(n).as_str());
    let mut out: Vec<char> = Vec::new();
    if n < 10 {
        out.push('0');
    }
    push_all(&mut out, &d);
    assert(out@ =~= two_digits(n as nat));
    out
}

/// The stamp for `secs` seconds: `hh:mm:ss` when an hour has passed, else `mm:ss`.
pub open spec fn stamp(secs: nat) -> Seq<char> {
    let (h, m, s) = (secs / 3600, (secs / 60) % 60, secs % 60);
    if h > 0 {
        two_digits(h) + seq![':'] + two_digits(m) + seq![':'] + two_digits(s)
    } else {
        two_digits(m) + seq![':'] + two_digits(s)
    }
}

/// The stamp for `secs` seconds.
pub fn timestamp(secs: u64) -> (r: String)
    ensures
        r@ == stamp(secs as nat),
{
    let (h, m, s) = (secs / 3600, (secs / 60) % 60, secs % 60);
    let mut out: Vec<char> = Vec::new();
    if h > 0 {
        push_all(&mut out, &padded(h));
        out.push(':');
    }
    push_all(&mut out, &padded(m));
    out.push(':');
    push_all(&mut out, &padded(s));
    assert(out@ =~= stamp(secs as nat));
    string_of(out.as_slice())
}

/// The name of a unit, `1 minute` or `2 minutes`.
pub open spec fn counted(n: nat, plural: Seq<char>) -> Seq<char> {
    decimal(n) + seq![' '] + if n > 1 {
        plural
    } else {
        plural.drop_last()
    }
}

/// The non-zero whole days, hours, minutes and seconds of `secs`, largest first.
pub open spec fn units(secs: nat) -> Seq<Seq<char>> {
    let (d, h, m, s) = (secs / 86400, (secs % 86400) / 3600, (secs % 3600) / 60, secs % 60);
    (if d > 0 { seq![counted(d, seq!['d', 'a', 'y', 's'])] } else { Seq::empty() }) + (if h > 0 {
        seq![counted(h, seq!['h', 'o', 'u', 'r', 's'])]
    } else {
        Seq::empty()
    }) + (if m > 0 {
        seq![counted(m, seq!['m', 'i', 'n', 'u', 't', 'e', 's'])]
    } else {
        Seq::empty()
    }) + (if s > 0 {
        seq![counted(s, seq!['s', 'e', 'c', 'o', 'n', 'd', 's'])]
    } else {
        Seq::empty()
    })
}

/// The items as an English list: `a`, `a and b`, `a, b and c`.
pub open spec fn listing(items: Seq<Seq<char>>) -> Seq<char>
    decreases items.len(),
{
    if items.len() == 0 {
        Seq::empty()
    } else if items.len() == 1 {
        items[0]
    } else if items.len() == 2 {
        items[0] + seq![' ', 'a', 'n', 'd', ' '] + items[1]
    } else {
        items[0] + seq![',', ' '] + listing(items.drop_first())
    }
}

/// `n` whole units, or nothing when `n` is zero.
fn push_unit(items: &mut Vec<Vec<char>>, n: u64, plural: &str)
    requires
        plural@.len() > 0,
    ensures
        final(items)@.map_values(|v: Vec<char>| v@) == old(items)@.map_values(|v: Vec<char>| v@)
            + if n > 0 {
            seq![counted(n as nat, plural@)]
        } else {
            Seq::empty()
        },
{
    let ghost before = items@.map_values(|v: Vec<char>| v@);
    if n == 0 {
        assert(before + Seq::<Seq<char>>::empty() =~= before);
        return ;
    }
    let mut part = chars_of(decimal_of(n).as_str());
    part.push(' ');
    let name = chars_of(plural);
    let mut i: usize = 0;
    let end: usize = if n > 1 {
        name.len()
    } else {
        name.len() - 1
    };
    let ghost start = part@;
    while i < end
        invariant
            0 <= i <= end <= name.len(),
            part@ == start + name@.subrange(0, i as int),
        decreases end - i,
    {
        part.push(name[i]);
        i += 1;
        assert(part@ =~= start + name@.subrange(0, i as int));
    }
    assert(part@ =~= counted(n as nat, plural@));
    items.push(part);
    assert(items@.map_values(|v: Vec<char>| v@) =~= before + seq![counted(n as nat, plural@)]);
}

/// How long `secs` seconds are, in words: `1 minute and 1 second`.
pub fn relative_time(secs: u64) -> (r: String)
    ensures
        r@ == listing(units(secs as nat)),
{
    let mut items: Vec<Vec<char>> = Vec::new();
    assert(items@.map_values(|v: Vec<char>| v@) =~= Seq::<Seq<char>>::empty());
    proof {
        reveal_strlit("days");
        reveal_strlit("hours");
        reveal_strlit("minutes");
        reveal_strlit("seconds");
        reveal_strlit(" and ");
        assert("days"@ =~= seq!['d', 'a', 'y', 's']);
        assert("hours"@ =~= seq!['h', 'o', 'u', 'r', 's']);
        assert("minutes"@ =~= seq!['m', 'i', 'n', 'u', 't', 'e', 's']);
        assert("seconds"@ =~= seq!['s', 'e', 'c', 'o', 'n', 'd', 's']);
        assert(" and "@ =~= seq![' ', 'a', 'n', 'd', ' ']);
    }
    push_unit(&mut items, secs / 86400, "days");
    push_unit(&mut items, (secs % 86400) / 3600, "hours");
    push_unit(&mut items, (secs % 3600) / 60, "minutes");
    push_unit(&mut items, secs % 60, "seconds");
    let ghost all = items@.map_values(|v: Vec<char>| v@);
    assert(all =~= units(secs as nat));
    let n = items.len();
    let mut out: Vec<char> = Vec::new();
    let mut i: usize = 0;
    assert(all.subrange(0, n as int) =~= all);
    while i < n
        invariant
            n == items.len(),
            n <= 4,
            0 <= i <= n,
            " and "@ == seq![' ', 'a', 'n', 'd', ' '],
            all == items@.map_values(|v: Vec<char>| v@),
            out@ + listing(all.subrange(i as int, n as int)) == listing(all),
        decreases n - i,
    {
        let ghost rest = all.subrange(i as int, n as int);
        assert(rest[0] == items@[i as int]@);
        assert(rest.drop_first() =~= all.subrange(i + 1, n as int));
        let ghost prev = out@;
        push_all(&mut out, &items[i]);
        if i + 2 < n {
            out.push(',');
            out.push(' ');
            assert(listing(rest) == rest[0] + seq![',', ' '] + listing(rest.drop_first()));
            assert(out@ =~= prev + rest[0] + seq![',', ' ']);
        } else if i + 2 == n {
            push_all(&mut out, &chars_of(" and "));
            assert(rest.drop_first().len() == 1);
            assert(listing(rest.drop_first()) == rest[1]);
            assert(listing(rest) == rest[0] + seq![' ', 'a', 'n', 'd', ' '] + rest[1]);
            assert(out@ =~= prev + rest[0] + seq![' ', 'a', 'n', 'd', ' ']);
        } else {
            assert(rest.len() == 1);
            assert(listing(rest) == rest[0]);
            assert(listing(rest.drop_first()) =~= Seq::<char>::empty());
        }
        i += 1;
        assert(out@ + listing(all.subrange(i as int, n as int)) =~= listing(all));
    }
    assert(all.subrange(n as int, n as int) =~= Seq::<Seq<char>>::empty());
    assert(out@ =~= listing(all));
    string_of(out.as_slice())
}

/// A length of time that can be shown to people.
pub trait FormatTime {
    fn timestamp(&self) -> String;

    fn relative_time(&self) -> String;
}

/// A length of time, in whole seconds.
#[derive(Clone, Copy, Debug, PartialEq, Eq, Structural)]
pub struct Elapsed {
    pub secs: u64,
}

impl FormatTime for Elapsed {
    fn timestamp(&self) -> String {
        timestamp(self.secs)
    }

    fn relative_time(&self) -> String {
        relative_time(self.secs)
    }
}

} // verus!
