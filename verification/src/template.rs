//! Replacement templates with positional placeholders `$0`, `$1`, ...

use crate::text::{
    chars_of, decimal, digit_char, push_decimal, replace_all, replaced, string_of,
};
use vstd::prelude::*;

verus! {

/// The placeholder of capture group `i`: a dollar sign and the decimal index.
pub open spec fn placeholder(i: nat) -> Seq<char> {
    seq!['$'] + decimal(i)
}

/// `template` after the groups from index `i` on have been substituted, in
/// ascending order. A group that took part in the match replaces every
/// occurrence of its placeholder in the text as it then stands, so text that an
/// earlier group put in is searched again; a group that took no part leaves
/// the text as it is.
pub open spec fn expanded_from(
    template: Seq<char>,
    groups: Seq<Option<Seq<char>>>,
    i: nat,
) -> Seq<char>
    decreases groups.len() - i,
{
    if i >= groups.len() {
        template
    } else {
        let next = match groups[i as int] {
            Some(text) => replaced(template, placeholder(i), text),
            None => template,
        };
        expanded_from(next, groups, i + 1)
    }
}

/// `template` with the text of every capture group substituted for its
/// placeholder. A placeholder whose group does not exist or took no part in
/// the match stays as it is written.
pub open spec fn expanded(template: Seq<char>, groups: Seq<Option<Seq<char>>>) -> Seq<char> {
    expanded_from(template, groups, 0)
}

/// The placeholder of group `i`.
pub fn placeholder_of(i: usize) -> (p: Vec<char>)
    ensures
        p@ == placeholder(i as nat),
{
    let mut p: Vec<char> = Vec::new();
    p.push('$');
    push_decimal(&mut p, i);
    p
}

/// Renders `template` for the capture groups of a match.
pub fn expand_template(template: &str, groups: &Vec<Option<String>>) -> (r: String)
    ensures
        r@ == expanded(template@, groups.deep_view()),
{
    let mut current: Vec<char> = chars_of(template);
    let mut i: usize = 0;
    while i < groups.len()
        invariant
            i <= groups.len(),
            expanded_from(current@, groups.deep_view(), i as nat) == expanded(
                template@,
                groups.deep_view(),
            ),
        decreases groups.len() - i,
    {
        match &groups[i] {
            Some(text) => {
                let pat = placeholder_of(i);
                let with = chars_of(text.as_str());
                assert(groups.deep_view()[i as int] == Some(text@));
                current = replace_all(&current, &pat, &with);
            },
            None => {
                assert(groups.deep_view()[i as int] is None);
            },
        }
        i += 1;
    }
    string_of(&current)
}

/// Whether `pat` stands somewhere in `text`.
pub open spec fn occurs_in(pat: Seq<char>, text: Seq<char>) -> bool {
    exists|k: int| 0 <= k <= text.len() && #[trigger] pat.is_prefix_of(text.skip(k))
}

/// Whether `c` is a decimal digit.
pub open spec fn is_digit(c: char) -> bool {
    '0' <= c <= '9'
}

/// The literal parts of a template with the texts that stand between them:
/// `literals[0]`, `slots[0]`, `literals[1]`, and so on to the last literal.
pub open spec fn interleaved(literals: Seq<Seq<char>>, slots: Seq<Seq<char>>) -> Seq<char>
    recommends
        literals.len() == slots.len() + 1,
    decreases slots.len(),
{
    if slots.len() == 0 {
        literals[0]
    } else {
        literals[0] + (slots[0] + interleaved(literals.skip(1), slots.skip(1)))
    }
}

/// Literal parts that cannot be mistaken for a placeholder or for a part of
/// one: none holds a dollar sign, none but the first begins with a digit, and
/// those between two placeholders are not empty.
pub open spec fn guarded(literals: Seq<Seq<char>>) -> bool {
    &&& forall|k: int, n: int|
        0 <= k < literals.len() && 0 <= n < literals[k].len() ==> #[trigger] literals[k][n] != '$'
    &&& forall|k: int|
        1 <= k < literals.len() && literals[k].len() > 0 ==> !is_digit(#[trigger] literals[k][0])
    &&& forall|k: int| 1 <= k < literals.len() - 1 ==> (#[trigger] literals[k]).len() > 0
}

/// Whether group `i` exists and took part in the match.
pub open spec fn took_part(groups: Seq<Option<Seq<char>>>, i: int) -> bool {
    0 <= i < groups.len() && groups[i] is Some
}

/// What stands in the place of the placeholder of group `hole` once the groups
/// below `upto` have been substituted.
pub open spec fn slot_text(hole: nat, groups: Seq<Option<Seq<char>>>, upto: nat) -> Seq<char> {
    if hole < upto && took_part(groups, hole as int) {
        groups[hole as int].unwrap()
    } else {
        placeholder(hole)
    }
}

/// The texts in the places of the placeholders `holes` once the groups below
/// `upto` have been substituted.
pub open spec fn slots_after(
    holes: Seq<nat>,
    groups: Seq<Option<Seq<char>>>,
    upto: nat,
) -> Seq<Seq<char>> {
    Seq::new(holes.len(), |k: int| slot_text(holes[k], groups, upto))
}

/// No text that is substituted holds the placeholder of a group that is
/// substituted after it.
pub open spec fn hazard_free(holes: Seq<nat>, groups: Seq<Option<Seq<char>>>) -> bool {
    forall|k: int, j: int|
        #![trigger holes[k], groups[j]]
        0 <= k < holes.len() && took_part(groups, holes[k] as int) && holes[k] < j && took_part(
            groups,
            j,
        ) ==> !occurs_in(placeholder(j as nat), groups[holes[k] as int].unwrap())
}

/// The placeholder of a group below ten is a dollar sign and one digit.
pub proof fn lemma_placeholder_below_ten(d: nat)
    requires
        d < 10,
    ensures
        placeholder(d) =~= seq!['$', digit_char(d as int)],
        is_digit(digit_char(d as int)),
        digit_char(d as int) != '$',
        forall|e: nat| e < 10 && e != d ==> digit_char(e as int) != digit_char(d as int),
{
}

/// Text in which a pattern does not occur stays as it is.
pub proof fn lemma_replaced_without_occurrence(text: Seq<char>, pat: Seq<char>, with: Seq<char>)
    requires
        !occurs_in(pat, text),
    ensures
        replaced(text, pat, with) == text,
    decreases text.len(),
{
    if text.len() > 0 && pat.len() > 0 {
        assert(text.skip(0) == text);
        assert(!pat.is_prefix_of(text.skip(0)));
        let rest = text.skip(1);
        assert forall|k: int| 0 <= k <= rest.len() implies !#[trigger] pat.is_prefix_of(
            rest.skip(k),
        ) by {
            assert(rest.skip(k) == text.skip(k + 1));
        }
        lemma_replaced_without_occurrence(rest, pat, with);
        assert(seq![text[0]] + rest =~= text);
    }
}

/// Replacing a placeholder below ten works on two parts of a text apart,
/// unless the first ends with a dollar sign and the second begins with the
/// placeholder's digit.
pub proof fn lemma_replaced_concat(x: Seq<char>, y: Seq<char>, d: nat, with: Seq<char>)
    requires
        d < 10,
        !(x.len() > 0 && x.last() == '$' && y.len() > 0 && y[0] == digit_char(d as int)),
    ensures
        replaced(x + y, placeholder(d), with) == replaced(x, placeholder(d), with) + replaced(
            y,
            placeholder(d),
            with,
        ),
    decreases x.len(),
{
    let pat = placeholder(d);
    lemma_placeholder_below_ten(d);
    if x.len() == 0 {
        assert(x + y =~= y);
        assert(replaced(x, pat, with) + replaced(y, pat, with) =~= replaced(y, pat, with));
    } else if pat.is_prefix_of(x + y) {
        assert((x + y)[0] == '$' && (x + y)[1] == digit_char(d as int)) by {
            assert((x + y).subrange(0, 2)[0] == pat[0]);
            assert((x + y).subrange(0, 2)[1] == pat[1]);
        }
        assert(x.len() >= 2);
        assert(pat =~= x.subrange(0, 2));
        assert((x + y).skip(2) =~= x.skip(2) + y);
        lemma_replaced_concat(x.skip(2), y, d, with);
        assert(replaced(x + y, pat, with) =~= replaced(x, pat, with) + replaced(y, pat, with));
    } else {
        assert(!pat.is_prefix_of(x)) by {
            if pat.is_prefix_of(x) {
                assert(pat =~= (x + y).subrange(0, 2));
            }
        }
        assert((x + y).skip(1) =~= x.skip(1) + y);
        lemma_replaced_concat(x.skip(1), y, d, with);
        assert(replaced(x + y, pat, with) =~= replaced(x, pat, with) + replaced(y, pat, with));
    }
}

/// Replacing a placeholder below ten in an interleaved text replaces it in
/// each slot and leaves guarded literals alone.
pub proof fn lemma_replaced_interleaved(
    literals: Seq<Seq<char>>,
    slots: Seq<Seq<char>>,
    results: Seq<Seq<char>>,
    d: nat,
    with: Seq<char>,
)
    requires
        d < 10,
        literals.len() == slots.len() + 1,
        results.len() == slots.len(),
        guarded(literals),
        forall|k: int|
            0 <= k < slots.len() ==> replaced(#[trigger] slots[k], placeholder(d), with)
                == results[k],
    ensures
        replaced(interleaved(literals, slots), placeholder(d), with) == interleaved(
            literals,
            results,
        ),
    decreases slots.len(),
{
    let pat = placeholder(d);
    lemma_placeholder_below_ten(d);
    let first = literals[0];
    assert(!occurs_in(pat, first)) by {
        assert forall|k: int| 0 <= k <= first.len() implies !#[trigger] pat.is_prefix_of(
            first.skip(k),
        ) by {
            if pat.is_prefix_of(first.skip(k)) {
                assert(first.skip(k).subrange(0, 2)[0] == pat[0]);
                assert(first[k] == '$');
            }
        }
    }
    lemma_replaced_without_occurrence(first, pat, with);
    if slots.len() > 0 {
        let later = literals.skip(1);
        let rest = interleaved(later, slots.skip(1));
        assert(guarded(later)) by {
            assert forall|k: int, n: int|
                0 <= k < later.len() && 0 <= n < later[k].len() implies #[trigger] later[k][n]
                != '$' by {
                assert(later[k] == literals[k + 1]);
            }
            assert forall|k: int| 1 <= k < later.len() && later[k].len() > 0 implies !is_digit(
                #[trigger] later[k][0],
            ) by {
                assert(later[k] == literals[k + 1]);
            }
            assert forall|k: int| 1 <= k < later.len() - 1 implies (#[trigger] later[k]).len()
                > 0 by {
                assert(later[k] == literals[k + 1]);
            }
        }
        assert forall|k: int| 0 <= k < slots.skip(1).len() implies replaced(
            #[trigger] slots.skip(1)[k],
            pat,
            with,
        ) == results.skip(1)[k] by {
            assert(slots.skip(1)[k] == slots[k + 1]);
            assert(results.skip(1)[k] == results[k + 1]);
        }
        lemma_replaced_interleaved(later, slots.skip(1), results.skip(1), d, with);
        assert(rest.len() > 0 ==> !is_digit(rest[0])) by {
            assert(later[0] == literals[1]);
            if slots.len() >= 2 {
                assert(literals[1].len() > 0);
                assert(rest[0] == literals[1][0]);
            } else if literals[1].len() > 0 {
                assert(rest[0] == literals[1][0]);
            }
        }
        lemma_replaced_concat(slots[0], rest, d, with);
        assert(first.len() > 0 ==> first.last() != '$');
        lemma_replaced_concat(first, slots[0] + rest, d, with);
    }
}

/// The texts in the slots after group `i` has been substituted.
proof fn lemma_slots_step(
    holes: Seq<nat>,
    groups: Seq<Option<Seq<char>>>,
    i: nat,
    k: int,
)
    requires
        i < groups.len() <= 10,
        0 <= k < holes.len(),
        holes[k] < 10,
        hazard_free(holes, groups),
    ensures
        groups[i as int] matches Some(with) ==> replaced(
            slot_text(holes[k], groups, i),
            placeholder(i),
            with,
        ) == slot_text(holes[k], groups, i + 1),
        groups[i as int] is None ==> slot_text(holes[k], groups, i) == slot_text(
            holes[k],
            groups,
            i + 1,
        ),
{
    let hole = holes[k];
    lemma_placeholder_below_ten(i);
    lemma_placeholder_below_ten(hole);
    if let Some(with) = groups[i as int] {
        let pat = placeholder(i);
        if hole == i {
            assert(pat.is_prefix_of(pat));
            assert(pat.skip(2).len() == 0);
            assert(replaced(pat.skip(2), pat, with) == pat.skip(2));
            assert(replaced(pat, pat, with) =~= with);
        } else if hole < i && took_part(groups, hole as int) {
            assert(took_part(groups, i as int));
            let _ = (holes[k], groups[i as int]);
            assert(!occurs_in(pat, groups[hole as int].unwrap()));
            lemma_replaced_without_occurrence(groups[hole as int].unwrap(), pat, with);
        } else {
            let other = placeholder(hole);
            assert(!occurs_in(pat, other)) by {
                assert forall|n: int| 0 <= n <= other.len() implies !#[trigger] pat.is_prefix_of(
                    other.skip(n),
                ) by {
                    if pat.is_prefix_of(other.skip(n)) {
                        assert(n == 0);
                        assert(other.skip(0).subrange(0, 2)[1] == pat[1]);
                    }
                }
            }
            lemma_replaced_without_occurrence(other, pat, with);
        }
    }
}

/// The rendering of a template whose placeholders stand apart.
///
/// The template is given by its literal parts and by the group indices of the
/// placeholders between them. Where the literal parts are guarded, all group
/// indices are below ten, and no substituted text holds the placeholder of a
/// group that is substituted later, each placeholder gives way to the text of
/// its group, verbatim; the placeholder of a group that does not exist or took
/// no part in the match stays as it is written.
pub proof fn lemma_expanded_interleaved(
    literals: Seq<Seq<char>>,
    holes: Seq<nat>,
    groups: Seq<Option<Seq<char>>>,
)
    requires
        literals.len() == holes.len() + 1,
        guarded(literals),
        forall|k: int| 0 <= k < holes.len() ==> holes[k] < 10,
        groups.len() <= 10,
        hazard_free(holes, groups),
    ensures
        expanded(interleaved(literals, slots_after(holes, groups, 0)), groups) == interleaved(
            literals,
            slots_after(holes, groups, groups.len()),
        ),
{
    lemma_expanded_from_interleaved(literals, holes, groups, 0);
}

proof fn lemma_expanded_from_interleaved(
    literals: Seq<Seq<char>>,
    holes: Seq<nat>,
    groups: Seq<Option<Seq<char>>>,
    i: nat,
)
    requires
        literals.len() == holes.len() + 1,
        guarded(literals),
        forall|k: int| 0 <= k < holes.len() ==> holes[k] < 10,
        i <= groups.len() <= 10,
        hazard_free(holes, groups),
    ensures
        expanded_from(interleaved(literals, slots_after(holes, groups, i)), groups, i)
            == interleaved(literals, slots_after(holes, groups, groups.len())),
    decreases groups.len() - i,
{
    if i < groups.len() {
        let now = slots_after(holes, groups, i);
        let then = slots_after(holes, groups, i + 1);
        assert forall|k: int| 0 <= k < holes.len() implies (groups[i as int] matches Some(with)
            ==> replaced(#[trigger] now[k], placeholder(i), with) == then[k]) && (groups[i as int]
            is None ==> now[k] == then[k]) by {
            lemma_slots_step(holes, groups, i, k);
        }
        match groups[i as int] {
            Some(with) => {
                lemma_replaced_interleaved(literals, now, then, i, with);
            },
            None => {
                assert(now =~= then);
            },
        }
        lemma_expanded_from_interleaved(literals, holes, groups, i + 1);
    }
}

/// A match in which no group took part leaves the template as it is written.
pub proof fn lemma_expanded_without_groups(template: Seq<char>, groups: Seq<Option<Seq<char>>>)
    requires
        forall|i: int| 0 <= i < groups.len() ==> groups[i] is None,
    ensures
        expanded(template, groups) == template,
{
    lemma_expanded_from_without_groups(template, groups, 0);
}

proof fn lemma_expanded_from_without_groups(
    template: Seq<char>,
    groups: Seq<Option<Seq<char>>>,
    i: nat,
)
    requires
        forall|i: int| 0 <= i < groups.len() ==> groups[i] is None,
    ensures
        expanded_from(template, groups, i) == template,
    decreases groups.len() - i,
{
    if i < groups.len() {
        lemma_expanded_from_without_groups(template, groups, i + 1);
    }
}

} // verus!
