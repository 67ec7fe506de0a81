//! The help string that the grammar writes for a command, and what parsing it gives back.

use vstd::prelude::*;
use crate::command::{
    bracketed, classify, fold_slots, has_key, has_kind, inner, lemma_fault_sticks, parse_help,
    step, valid_key, ArgKind, Fault, SlotModel, LEADER,
};
use crate::text::{
    alphanumeric, dots, ends_with_dots, first_index, split_on, split_terminator, trim_end,
    trim_end_dots, trim_start,
};

verus! {

/// The suffix that marks a slot's kind inside its brackets.
pub open spec fn suffix(kind: ArgKind) -> Seq<char> {
    match kind {
        ArgKind::Required => Seq::empty(),
        ArgKind::Optional => seq!['?'],
        ArgKind::Flexible => dots(),
    }
}

/// The declaration of a slot: `<key>`, `<key?>` or `<key...>`.
pub open spec fn declaration(slot: SlotModel) -> Seq<char> {
    seq!['<'] + slot.0 + suffix(slot.1) + seq!['>']
}

/// The declarations of the slots, each after a space.
pub open spec fn render_slots(slots: Seq<SlotModel>) -> Seq<char>
    decreases slots.len(),
{
    if slots.len() == 0 {
        Seq::empty()
    } else {
        seq![' '] + declaration(slots[0]) + render_slots(slots.drop_first())
    }
}

/// The help string of a command named `name` with `slots`: `!name <slot> <slot> ...`.
pub open spec fn render(name: Seq<char>, slots: Seq<SlotModel>) -> Seq<char> {
    seq![LEADER] + name + render_slots(slots)
}

/// The declarations of the slots, one token each.
pub open spec fn declarations(slots: Seq<SlotModel>) -> Seq<Seq<char>> {
    slots.map_values(|s: SlotModel| declaration(s))
}

/// Whether `s` holds no space.
pub open spec fn no_space(s: Seq<char>) -> bool {
    forall|i: int| 0 <= i < s.len() ==> s[i] != ' '
}

/// Keys are valid and distinct, a required slot follows only required ones, and a
/// flexible slot is the last one.
pub open spec fn well_formed(slots: Seq<SlotModel>) -> bool {
    &&& forall|i: int| 0 <= i < slots.len() ==> valid_key(#[trigger] slots[i].0)
    &&& forall|i: int, j: int|
        0 <= i < j < slots.len() ==> (#[trigger] slots[i]).0 != (#[trigger] slots[j]).0
    &&& forall|i: int, j: int|
        0 <= i < j < slots.len() && (#[trigger] slots[j]).1 == ArgKind::Required ==> (
        #[trigger] slots[i]).1 == ArgKind::Required
    &&& forall|i: int| 0 <= i < slots.len() - 1 ==> (#[trigger] slots[i]).1 != ArgKind::Flexible
}

/// A name that the grammar accepts: non-empty, without spaces, not starting with the leader.
pub open spec fn plain_name(name: Seq<char>) -> bool {
    name.len() > 0 && name[0] != LEADER && no_space(name)
}

/// A key that its declaration carries intact: non-empty, without spaces, not starting with
/// `<` and not ending with `>`, `?` or `.`.
pub open spec fn plain_key(k: Seq<char>) -> bool {
    &&& k.len() > 0
    &&& no_space(k)
    &&& k[0] != '<'
    &&& k.last() != '>' && k.last() != '?' && k.last() != '.'
}

proof fn lemma_valid_key_plain(k: Seq<char>)
    requires
        valid_key(k),
    ensures
        plain_key(k),
{
    lemma_alphanumeric_plain(k[0]);
    lemma_alphanumeric_plain(k.last());
    assert forall|i: int| 0 <= i < k.len() implies k[i] != ' ' by {
        lemma_alphanumeric_plain(k[i]);
    }
}

proof fn lemma_first_index_after(a: Seq<char>, b: Seq<char>, c: char)
    requires
        forall|i: int| 0 <= i < a.len() ==> a[i] != c,
    ensures
        first_index(a + b, c) == a.len() + first_index(b, c),
    decreases a.len(),
{
    if a.len() > 0 {
        assert((a + b).drop_first() =~= a.drop_first() + b);
        lemma_first_index_after(a.drop_first(), b, c);
    } else {
        assert(a + b =~= b);
    }
}

proof fn lemma_split_no_space(a: Seq<char>)
    requires
        no_space(a),
    ensures
        split_on(a, ' ') == seq![a],
{
    lemma_first_index_after(a, Seq::empty(), ' ');
    assert(a + Seq::<char>::empty() =~= a);
}

proof fn lemma_split_first(a: Seq<char>, b: Seq<char>)
    requires
        no_space(a),
    ensures
        split_on(a + seq![' '] + b, ' ') == seq![a] + split_on(b, ' '),
{
    let s = a + seq![' '] + b;
    assert(s =~= a + (seq![' '] + b));
    lemma_first_index_after(a, seq![' '] + b, ' ');
    assert(s.subrange(0, a.len() as int) =~= a);
    assert(s.subrange(a.len() as int + 1, s.len() as int) =~= b);
}

proof fn lemma_alphanumeric_plain(c: char)
    requires
        alphanumeric(c),
    ensures
        c != ' ' && c != '<' && c != '>' && c != '?' && c != '.' && c != LEADER,
{
}

proof fn lemma_declaration_no_space(slot: SlotModel)
    requires
        plain_key(slot.0),
    ensures
        no_space(declaration(slot)),
{
    let d = declaration(slot);
    assert forall|i: int| 0 <= i < d.len() implies d[i] != ' ' by {
        if 1 <= i < 1 + slot.0.len() {
            assert(d[i] == slot.0[i - 1]);
        } else if 1 + slot.0.len() <= i < d.len() - 1 {
            assert(d[i] == suffix(slot.1)[i - 1 - slot.0.len()]);
        }
    }
}

proof fn lemma_split_rendered(d: Seq<char>, rest: Seq<SlotModel>)
    requires
        no_space(d),
        forall|i: int| 0 <= i < rest.len() ==> plain_key(#[trigger] rest[i].0),
    ensures
        split_on(d + render_slots(rest), ' ') == seq![d] + declarations(rest),
    decreases rest.len(),
{
    if rest.len() == 0 {
        assert(d + render_slots(rest) =~= d);
        lemma_split_no_space(d);
        assert(declarations(rest) =~= Seq::<Seq<char>>::empty());
        assert(seq![d] + declarations(rest) =~= seq![d]);
    } else {
        let head = declaration(rest[0]);
        let tail = rest.drop_first();
        assert(d + render_slots(rest) =~= d + seq![' '] + (head + render_slots(tail)));
        lemma_split_first(d, head + render_slots(tail));
        lemma_declaration_no_space(rest[0]);
        assert forall|i: int| 0 <= i < tail.len() implies plain_key(#[trigger] tail[i].0) by {
            assert(tail[i] == rest[i + 1]);
        }
        lemma_split_rendered(head, tail);
        assert(seq![head] + declarations(tail) =~= declarations(rest));
        assert(seq![d] + (seq![head] + declarations(tail)) =~= seq![d] + declarations(rest));
    }
}

/// A plain key ends with neither `?` nor `...`, and starts with no `<`.
proof fn lemma_key_edges(k: Seq<char>)
    requires
        plain_key(k),
    ensures
        k[0] != '<',
        k.last() != '>' && k.last() != '?',
        !ends_with_dots(k),
        trim_end(k, '?') == k,
        trim_end_dots(k) == k,
{
    if k.len() >= 3 {
        assert(k.subrange(k.len() - 3, k.len() as int)[2] == k.last());
        assert(dots()[2] == '.');
    }
}

/// A slot's declaration reads back as that slot.
pub proof fn lemma_declaration_reads_back(slot: SlotModel)
    requires
        plain_key(slot.0),
    ensures
        bracketed(declaration(slot)),
        classify(inner(declaration(slot))) == slot,
{
    let (k, kind) = slot;
    let d = declaration(slot);
    let body = k + suffix(kind);
    lemma_key_edges(k);
    assert(d.drop_first() =~= body + seq!['>']);
    assert((body + seq!['>'])[0] == k[0]);
    assert(trim_start(d.drop_first(), '<') == d.drop_first());
    assert(trim_start(d, '<') == body + seq!['>']);
    assert((body + seq!['>']).drop_last() =~= body);
    assert(body.last() != '>') by {
        if suffix(kind).len() == 0 {
            assert(body =~= k);
        } else {
            assert(body.last() == suffix(kind).last());
        }
    }
    assert(body.len() > 0);
    assert(trim_end(body, '>') == body);
    assert(inner(d) == body);
    match kind {
        ArgKind::Required => {
            assert(body =~= k);
        },
        ArgKind::Optional => {
            assert(body.drop_last() =~= k);
        },
        ArgKind::Flexible => {
            assert(body.subrange(body.len() - 3, body.len() as int) =~= dots());
            assert(body.subrange(0, body.len() - 3) =~= k);
        },
    }
}

/// Well-formed slots, declared one after another, build exactly those slots.
pub proof fn lemma_fold_declarations(slots: Seq<SlotModel>)
    requires
        well_formed(slots),
    ensures
        fold_slots(declarations(slots)) == Ok::<Seq<SlotModel>, Fault>(slots),
    decreases slots.len(),
{
    if slots.len() == 0 {
        assert(declarations(slots) =~= Seq::<Seq<char>>::empty());
        assert(slots =~= Seq::<SlotModel>::empty());
    } else {
        let pre = slots.drop_last();
        let last = slots.last();
        assert(declarations(slots).drop_last() =~= declarations(pre));
        assert(well_formed(pre));
        lemma_fold_declarations(pre);
        assert(valid_key(slots[slots.len() - 1].0));
        lemma_valid_key_plain(last.0);
        lemma_declaration_reads_back(last);
        assert(!has_key(pre, last.0)) by {
            if has_key(pre, last.0) {
                let i = choose|i: int| 0 <= i < pre.len() && (#[trigger] pre[i]).0 == last.0;
                assert(slots[i].0 != slots[slots.len() - 1].0);
            }
        }
        assert(!has_kind(pre, ArgKind::Flexible)) by {
            if has_kind(pre, ArgKind::Flexible) {
                let i = choose|i: int|
                    0 <= i < pre.len() && (#[trigger] pre[i]).1 == ArgKind::Flexible;
                assert(slots[i].1 != ArgKind::Flexible);
            }
        }
        if last.1 == ArgKind::Required {
            assert(!has_kind(pre, ArgKind::Optional)) by {
                if has_kind(pre, ArgKind::Optional) {
                    let i = choose|i: int|
                        0 <= i < pre.len() && (#[trigger] pre[i]).1 == ArgKind::Optional;
                    assert(slots[i].1 == ArgKind::Required);
                }
            }
        }
        assert(step(pre, declaration(last)) == Ok::<Seq<SlotModel>, Fault>(pre.push(last)));
        assert(declarations(slots).last() == declaration(last));
        assert(fold_slots(declarations(slots)) == step(pre, declaration(last)));
        assert(pre.push(last) =~= slots);
    }
}

/// A help string written by the grammar, for a plain name and well-formed slots, parses to
/// exactly that name and those slots, keys and kinds in declared order.
pub proof fn lemma_round_trip(name: Seq<char>, slots: Seq<SlotModel>)
    requires
        plain_name(name),
        well_formed(slots),
    ensures
        parse_help(render(name, slots)) == Ok::<(Seq<char>, Seq<SlotModel>), Fault>((name, slots)),
{
    let h = render(name, slots);
    let body = name + render_slots(slots);
    assert(h.drop_first() =~= body);
    assert(body[0] == name[0]);
    assert(trim_start(body, LEADER) == body);
    assert(trim_start(h, LEADER) == body);
    assert forall|i: int| 0 <= i < slots.len() implies plain_key(#[trigger] slots[i].0) by {
        lemma_valid_key_plain(slots[i].0);
    }
    lemma_split_rendered(name, slots);
    let toks = seq![name] + declarations(slots);
    assert(toks.last().len() > 0) by {
        if slots.len() > 0 {
            assert(toks.last() == declaration(slots[slots.len() - 1]));
        }
    }
    assert(split_terminator(body, ' ') == toks);
    assert(toks[0] == name);
    assert(toks.drop_first() =~= declarations(slots));
    lemma_fold_declarations(slots);
}

/// The error that appending `bad` to the slots `pre` brings, by the rule it breaks: a key
/// declared twice, a key that is not alphanumeric, a required slot after an optional or
/// flexible one, an optional slot after a flexible one, a second flexible slot.
pub open spec fn violation(pre: Seq<SlotModel>, bad: SlotModel) -> Option<Fault> {
    if has_key(pre, bad.0) {
        Some(Fault::DuplicateKey(bad.0))
    } else if !valid_key(bad.0) {
        Some(Fault::InvalidCharacters)
    } else if bad.1 == ArgKind::Required && (has_kind(pre, ArgKind::Optional) || has_kind(
        pre,
        ArgKind::Flexible,
    )) {
        Some(Fault::RequiredInTail)
    } else if bad.1 == ArgKind::Optional && has_kind(pre, ArgKind::Flexible) {
        Some(Fault::OptionalAfterFlex)
    } else if bad.1 == ArgKind::Flexible && has_kind(pre, ArgKind::Flexible) {
        Some(Fault::MultipleFlexible)
    } else {
        None
    }
}

/// A help string written by the grammar whose first offending slot `bad` follows the
/// well-formed slots `pre` fails with the error of the rule that `bad` breaks, whatever
/// slots come after it.
pub proof fn lemma_violation_reported(
    name: Seq<char>,
    pre: Seq<SlotModel>,
    bad: SlotModel,
    rest: Seq<SlotModel>,
)
    requires
        plain_name(name),
        well_formed(pre),
        plain_key(bad.0),
        forall|i: int| 0 <= i < rest.len() ==> plain_key(#[trigger] rest[i].0),
        violation(pre, bad) is Some,
    ensures
        parse_help(render(name, pre.push(bad) + rest)) == Err::<
            (Seq<char>, Seq<SlotModel>),
            Fault,
        >(violation(pre, bad)->Some_0),
{
    let slots = pre.push(bad) + rest;
    let e = violation(pre, bad)->Some_0;
    let h = render(name, slots);
    let body = name + render_slots(slots);
    assert(h.drop_first() =~= body);
    assert(body[0] == name[0]);
    assert(trim_start(body, LEADER) == body);
    assert(trim_start(h, LEADER) == body);
    assert forall|i: int| 0 <= i < slots.len() implies plain_key(#[trigger] slots[i].0) by {
        if i < pre.len() {
            assert(slots[i] == pre[i]);
            lemma_valid_key_plain(pre[i].0);
        } else if i == pre.len() {
            assert(slots[i] == bad);
        } else {
            assert(slots[i] == rest[i - pre.len() - 1]);
        }
    }
    lemma_split_rendered(name, slots);
    let toks = seq![name] + declarations(slots);
    assert(toks.last().len() > 0) by {
        assert(toks.last() == declaration(slots[slots.len() - 1]));
    }
    assert(split_terminator(body, ' ') == toks);
    let tail = toks.drop_first();
    assert(tail =~= declarations(slots));
    let m = pre.len() as int;
    assert(tail.subrange(0, m + 1).drop_last() =~= declarations(pre));
    assert(tail.subrange(0, m + 1).last() == declaration(bad));
    lemma_fold_declarations(pre);
    lemma_declaration_reads_back(bad);
    assert(step(pre, declaration(bad)) == Err::<Seq<SlotModel>, Fault>(e));
    assert(fold_slots(tail.subrange(0, m + 1)) == Err::<Seq<SlotModel>, Fault>(e));
    lemma_fault_sticks(tail, m + 1, e);
}

} // verus!
