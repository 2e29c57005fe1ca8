//! The rule set: rewrite rules ordered by priority, of which the first that
//! matches a title rewrites it.

use crate::pattern::{capture_groups, compile, pattern_is_valid, regex_captures, regex_source};
use crate::template::{
    expand_template, expanded, guarded, hazard_free, interleaved, lemma_expanded_interleaved,
    lemma_placeholder_below_ten, slots_after,
};
use regex::Regex;
use vstd::prelude::*;

verus! {

/// The pattern of the built-in rule: a release title made of bracketed groups,
/// `[group][名侦探柯南][第N集 label][source][language]`, then an optional
/// bracketed group and a last bracketed group.
pub const DEFAULT_PATTERN: &'static str =
    r"\[([^\]]+)\]\[名侦探柯南\]\[第(\d+)集\s+([^]]+)\]\[([^]]+)\]\[([^]]+)\](?:\[([^]]+)\])?\[([^]]+)\]";

/// The replacement of the built-in rule.
pub const DEFAULT_REPLACEMENT: &'static str = " [$1] Detective Conan - $2 ($4 $7 $5) ";

/// The name of the built-in rule.
pub const DEFAULT_NAME: &'static str = "Detective Conan";

/// The priority of the built-in rule.
pub const DEFAULT_PRIORITY: u32 = 1;

/// A rewrite rule as it is configured: a pattern, the template that replaces a
/// matching title, and a priority. A lower priority number is tried first.
#[derive(Debug, Clone)]
pub struct TitleRule {
    pub name: String,
    pub pattern: String,
    pub replacement: String,
    pub priority: u32,
}

/// A rule as a mathematical value.
pub struct RuleView {
    pub name: Seq<char>,
    pub pattern: Seq<char>,
    pub replacement: Seq<char>,
    pub priority: u32,
}

impl View for TitleRule {
    type V = RuleView;

    open spec fn view(&self) -> RuleView {
        RuleView {
            name: self.name@,
            pattern: self.pattern@,
            replacement: self.replacement@,
            priority: self.priority,
        }
    }
}

/// A rule whose pattern has been compiled.
#[derive(Debug)]
struct CompiledRule {
    name: String,
    regex: Regex,
    replacement: String,
    priority: u32,
}

impl View for CompiledRule {
    type V = RuleView;

    closed spec fn view(&self) -> RuleView {
        RuleView {
            name: self.name@,
            pattern: regex_source(&self.regex).unwrap(),
            replacement: self.replacement@,
            priority: self.priority,
        }
    }
}

impl CompiledRule {
    /// Whether the matcher was compiled from a pattern by `Regex::new`.
    pub closed spec fn compiled(&self) -> bool {
        regex_source(&self.regex) is Some
    }
}

impl Clone for CompiledRule {
    fn clone(&self) -> (copy: CompiledRule)
        ensures
            copy@ == self@,
            copy.compiled() == self.compiled(),
    {
        CompiledRule {
            name: self.name.clone(),
            regex: self.regex.clone(),
            replacement: self.replacement.clone(),
            priority: self.priority,
        }
    }
}

/// The built-in rule.
pub open spec fn default_rule() -> RuleView {
    RuleView {
        name: DEFAULT_NAME@,
        pattern: DEFAULT_PATTERN@,
        replacement: DEFAULT_REPLACEMENT@,
        priority: DEFAULT_PRIORITY,
    }
}

/// Whether the priority numbers of `rules` never decrease.
pub open spec fn sorted_by_priority(rules: Seq<RuleView>) -> bool {
    forall|i: int, j: int| 0 <= i <= j < rules.len() ==> rules[i].priority <= rules[j].priority
}

/// How many rules at the front of `rules` have a priority number of at most
/// `priority`.
pub open spec fn leading_at_most(rules: Seq<RuleView>, priority: u32) -> nat
    decreases rules.len(),
{
    if rules.len() == 0 || rules[0].priority > priority {
        0
    } else {
        1 + leading_at_most(rules.skip(1), priority)
    }
}

/// `rules` with `rule` put behind the rules that are tried no later than it.
pub open spec fn inserted(rules: Seq<RuleView>, rule: RuleView) -> Seq<RuleView> {
    rules.insert(leading_at_most(rules, rule.priority) as int, rule)
}

/// The rule set after `rule` has been offered to it: a rule whose pattern does
/// not compile is dropped, any other is inserted.
pub open spec fn added(rules: Seq<RuleView>, rule: RuleView) -> Seq<RuleView> {
    if pattern_is_valid(rule.pattern) {
        inserted(rules, rule)
    } else {
        rules
    }
}

/// Whether the pattern of `rule` matches somewhere in `title`.
pub open spec fn rule_matches(rule: RuleView, title: Seq<char>) -> bool {
    regex_captures(rule.pattern, title) is Some
}

/// The index of the first rule of `rules` that matches `title`.
pub open spec fn first_match(rules: Seq<RuleView>, title: Seq<char>) -> Option<int>
    decreases rules.len(),
{
    if rules.len() == 0 {
        None
    } else if rule_matches(rules[0], title) {
        Some(0)
    } else {
        match first_match(rules.skip(1), title) {
            Some(k) => Some(k + 1),
            None => None,
        }
    }
}

/// `title` as the rule set rewrites it: the template of the first matching rule,
/// rendered for the groups of its match, or `title` itself if no rule matches.
pub open spec fn converted(rules: Seq<RuleView>, title: Seq<char>) -> Seq<char> {
    match first_match(rules, title) {
        Some(k) => expanded(rules[k].replacement, regex_captures(rules[k].pattern, title).unwrap()),
        None => title,
    }
}

/// If no rule before `k` matches and rule `k` does, rule `k` is the first match.
pub proof fn lemma_first_match_at(rules: Seq<RuleView>, title: Seq<char>, k: int)
    requires
        0 <= k < rules.len(),
        rule_matches(rules[k], title),
        forall|i: int| 0 <= i < k ==> !rule_matches(rules[i], title),
    ensures
        first_match(rules, title) == Some(k),
    decreases k,
{
    if k > 0 {
        let rest = rules.skip(1);
        assert(rest[k - 1] == rules[k]);
        assert forall|i: int| 0 <= i < k - 1 implies !rule_matches(rest[i], title) by {
            assert(rest[i] == rules[i + 1]);
        }
        lemma_first_match_at(rest, title, k - 1);
    }
}

/// If no rule matches, there is no first match.
pub proof fn lemma_first_match_none(rules: Seq<RuleView>, title: Seq<char>)
    requires
        forall|i: int| 0 <= i < rules.len() ==> !rule_matches(rules[i], title),
    ensures
        first_match(rules, title) is None,
    decreases rules.len(),
{
    if rules.len() > 0 {
        let rest = rules.skip(1);
        assert forall|i: int| 0 <= i < rest.len() implies !rule_matches(rest[i], title) by {
            assert(rest[i] == rules[i + 1]);
        }
        lemma_first_match_none(rest, title);
    }
}

/// A first match is a rule that matches, and no rule before it does.
pub proof fn lemma_first_match_is_first(rules: Seq<RuleView>, title: Seq<char>)
    ensures
        first_match(rules, title) matches Some(k) ==> 0 <= k < rules.len() && rule_matches(
            rules[k],
            title,
        ) && forall|i: int| 0 <= i < k ==> !rule_matches(rules[i], title),
        first_match(rules, title) is None ==> forall|i: int|
            0 <= i < rules.len() ==> !rule_matches(rules[i], title),
    decreases rules.len(),
{
    if rules.len() > 0 && !rule_matches(rules[0], title) {
        let rest = rules.skip(1);
        lemma_first_match_is_first(rest, title);
        match first_match(rest, title) {
            Some(k) => {
                assert(rest[k] == rules[k + 1]);
                assert forall|i: int| 0 <= i < k + 1 implies !rule_matches(rules[i], title) by {
                    if i > 0 {
                        assert(rest[i - 1] == rules[i]);
                    }
                }
            },
            None => {
                assert forall|i: int| 0 <= i < rules.len() implies !rule_matches(
                    rules[i],
                    title,
                ) by {
                    if i > 0 {
                        assert(rest[i - 1] == rules[i]);
                    }
                }
            },
        }
    }
}

/// The rules before the insert position are tried no later than the new rule,
/// the rules from it on are tried later.
pub proof fn lemma_leading_at_most(rules: Seq<RuleView>, priority: u32)
    ensures
        leading_at_most(rules, priority) <= rules.len(),
        forall|i: int|
            0 <= i < leading_at_most(rules, priority) ==> rules[i].priority <= priority,
        leading_at_most(rules, priority) < rules.len() ==> rules[leading_at_most(
            rules,
            priority,
        ) as int].priority > priority,
    decreases rules.len(),
{
    if rules.len() > 0 && rules[0].priority <= priority {
        let rest = rules.skip(1);
        lemma_leading_at_most(rest, priority);
        let n = leading_at_most(rest, priority) as int;
        assert forall|i: int| 0 <= i < n + 1 implies rules[i].priority <= priority by {
            if i > 0 {
                assert(rest[i - 1] == rules[i]);
            }
        }
        if n + 1 < rules.len() {
            assert(rest[n] == rules[n + 1]);
        }
    }
}

/// The ordered set of compiled rules.
#[derive(Debug)]
pub struct TitleConverter {
    rules: Vec<CompiledRule>,
}

impl View for TitleConverter {
    type V = Seq<RuleView>;

    closed spec fn view(&self) -> Seq<RuleView> {
        Seq::new(self.rules@.len(), |i: int| self.rules@[i]@)
    }
}

impl Clone for TitleConverter {
    fn clone(&self) -> (copy: TitleConverter)
        ensures
            copy@ == self@,
    {
        proof {
            use_type_invariant(self);
        }
        let mut rules: Vec<CompiledRule> = Vec::new();
        let mut i: usize = 0;
        while i < self.rules.len()
            invariant
                i <= self.rules.len(),
                rules@.len() == i,
                forall|k: int| 0 <= k < i ==> rules@[k]@ == self.rules@[k]@,
                forall|k: int| 0 <= k < i ==> rules@[k].compiled() == self.rules@[k].compiled(),
            decreases self.rules.len() - i,
        {
            rules.push(self.rules[i].clone());
            i += 1;
        }
        assert(Seq::new(rules@.len(), |k: int| rules@[k]@) =~= self@);
        TitleConverter { rules }
    }
}

impl TitleConverter {
    #[verifier::type_invariant]
    spec fn well_formed(self) -> bool {
        &&& sorted_by_priority(self@)
        &&& forall|i: int| 0 <= i < self.rules@.len() ==> self.rules@[i].compiled()
    }

    /// The rule set that holds the built-in rule, as far as its pattern
    /// compiles.
    pub fn new() -> (converter: TitleConverter)
        ensures
            converter@ == added(Seq::empty(), default_rule()),
            sorted_by_priority(converter@),
    {
        let mut converter = TitleConverter { rules: Vec::new() };
        assert(converter@ =~= Seq::empty());
        let rule = TitleRule {
            name: DEFAULT_NAME.to_owned(),
            pattern: DEFAULT_PATTERN.to_owned(),
            replacement: DEFAULT_REPLACEMENT.to_owned(),
            priority: DEFAULT_PRIORITY,
        };
        converter.add_rule(rule);
        converter
    }

    /// Compiles `rule` and puts it behind the rules whose priority number is
    /// not higher. A rule whose pattern does not compile is dropped, and the
    /// set stays as it was.
    pub fn add_rule(&mut self, rule: TitleRule)
        ensures
            final(self)@ == added(old(self)@, rule@),
            sorted_by_priority(final(self)@),
    {
        proof {
            use_type_invariant(&*self);
        }
        match compile(rule.pattern.as_str()) {
            Ok(regex) => {
                let compiled = CompiledRule {
                    name: rule.name,
                    regex,
                    replacement: rule.replacement,
                    priority: rule.priority,
                };
                let ghost before = self@;
                let mut at: usize = 0;
                assert(before.skip(0) == before);
                while at < self.rules.len() && self.rules[at].priority <= compiled.priority
                    invariant
                        at <= self.rules.len(),
                        before == self@,
                        forall|i: int| 0 <= i < self.rules@.len() ==> self.rules@[i].compiled(),
                        before.len() == self.rules.len(),
                        leading_at_most(before, compiled.priority) == at + leading_at_most(
                            before.skip(at as int),
                            compiled.priority,
                        ),
                    decreases self.rules.len() - at,
                {
                    assert(before.skip(at as int)[0] == before[at as int]);
                    assert(before.skip(at as int).skip(1) == before.skip(at + 1));
                    at += 1;
                }
                proof {
                    if at < self.rules.len() {
                        assert(before.skip(at as int)[0] == before[at as int]);
                    }
                    lemma_inserted_sorted(before, compiled@);
                    assert(compiled@ == rule@);
                }
                let mut rules: Vec<CompiledRule> = Vec::new();
                core::mem::swap(&mut self.rules, &mut rules);
                rules.insert(at, compiled);
                assert(Seq::new(rules@.len(), |k: int| rules@[k]@) =~= inserted(before, rule@));
                self.rules = rules;
            },
            Err(_) => {},
        }
    }

    /// Rewrites `original` by the first rule that matches it. A title that no
    /// rule matches comes back unchanged.
    pub fn convert_title(&self, original: &str) -> (result: String)
        ensures
            result@ == converted(self@, original@),
            (forall|i: int| 0 <= i < self@.len() ==> !rule_matches(self@[i], original@))
                ==> result@ == original@,
    {
        proof {
            use_type_invariant(self);
        }
        let mut i: usize = 0;
        while i < self.rules.len()
            invariant
                i <= self.rules.len(),
                forall|k: int| 0 <= k < self.rules@.len() ==> self.rules@[k].compiled(),
                forall|k: int| 0 <= k < i ==> !rule_matches(self@[k], original@),
            decreases self.rules.len() - i,
        {
            let rule = &self.rules[i];
            match capture_groups(&rule.regex, original) {
                Some(groups) => {
                    proof {
                        lemma_first_match_at(self@, original@, i as int);
                        assert(rule_matches(self@[i as int], original@));
                    }
                    return expand_template(rule.replacement.as_str(), &groups);
                },
                None => {},
            }
            i += 1;
        }
        proof {
            lemma_first_match_none(self@, original@);
        }
        original.to_owned()
    }
}

/// Inserting a rule keeps the priority numbers in order.
pub proof fn lemma_inserted_sorted(rules: Seq<RuleView>, rule: RuleView)
    requires
        sorted_by_priority(rules),
    ensures
        sorted_by_priority(inserted(rules, rule)),
{
    lemma_leading_at_most(rules, rule.priority);
    let at = leading_at_most(rules, rule.priority) as int;
    let after = inserted(rules, rule);
    assert forall|i: int, j: int| 0 <= i <= j < after.len() implies after[i].priority
        <= after[j].priority by {
        if i < at && j > at {
            assert(after[j] == rules[j - 1]);
        } else if i == at && j > at {
            assert(after[j] == rules[j - 1]);
            assert(rules[at].priority <= rules[j - 1].priority);
        } else if i > at {
            assert(after[i] == rules[i - 1]);
            assert(after[j] == rules[j - 1]);
        }
    }
}

/// The insert position is the one place before which every rule is tried no
/// later than the new rule and from which on every rule is tried later.
pub proof fn lemma_leading_at_most_is(rules: Seq<RuleView>, priority: u32, k: int)
    requires
        0 <= k <= rules.len(),
        forall|i: int| 0 <= i < k ==> rules[i].priority <= priority,
        k < rules.len() ==> rules[k].priority > priority,
    ensures
        leading_at_most(rules, priority) == k,
    decreases k,
{
    if k > 0 {
        let rest = rules.skip(1);
        assert forall|i: int| 0 <= i < k - 1 implies rest[i].priority <= priority by {
            assert(rest[i] == rules[i + 1]);
        }
        if k - 1 < rest.len() {
            assert(rest[k - 1] == rules[k]);
        }
        lemma_leading_at_most_is(rest, priority, k - 1);
    }
}

/// A title that no rule matches is returned as it is.
pub proof fn lemma_unmatched_title_is_unchanged(rules: Seq<RuleView>, title: Seq<char>)
    requires
        forall|i: int| 0 <= i < rules.len() ==> !rule_matches(rules[i], title),
    ensures
        converted(rules, title) == title,
{
    lemma_first_match_none(rules, title);
}

/// Of the rules that match a title, the one that rewrites it has the lowest
/// priority number: in an ordered rule set no other matching rule has a lower
/// one, and a matching rule is passed over whenever one with a lower number
/// matches too.
pub proof fn lemma_lowest_priority_wins(rules: Seq<RuleView>, title: Seq<char>, other: int)
    requires
        sorted_by_priority(rules),
        0 <= other < rules.len(),
        rule_matches(rules[other], title),
    ensures
        first_match(rules, title) matches Some(k) && 0 <= k <= other && rule_matches(
            rules[k],
            title,
        ) && rules[k].priority <= rules[other].priority,
        forall|lower: int|
            0 <= lower < rules.len() && rule_matches(rules[lower], title) && rules[lower].priority
                < rules[other].priority ==> first_match(rules, title) != Some(other),
{
    lemma_first_match_is_first(rules, title);
}

/// Two rules with different priority numbers end up in the same places,
/// whichever is added first.
pub proof fn lemma_insertion_order(rules: Seq<RuleView>, a: RuleView, b: RuleView)
    requires
        sorted_by_priority(rules),
        a.priority != b.priority,
    ensures
        inserted(inserted(rules, a), b) == inserted(inserted(rules, b), a),
{
    if a.priority < b.priority {
        lemma_insertion_order_ascending(rules, a, b);
    } else {
        lemma_insertion_order_ascending(rules, b, a);
    }
}

proof fn lemma_insertion_order_ascending(rules: Seq<RuleView>, a: RuleView, b: RuleView)
    requires
        sorted_by_priority(rules),
        a.priority < b.priority,
    ensures
        inserted(inserted(rules, a), b) == inserted(inserted(rules, b), a),
{
    lemma_leading_at_most(rules, a.priority);
    lemma_leading_at_most(rules, b.priority);
    let pa = leading_at_most(rules, a.priority) as int;
    let pb = leading_at_most(rules, b.priority) as int;
    assert(pa <= pb) by {
        if pb < pa {
            assert(rules[pb].priority <= a.priority);
        }
    }
    let with_a = rules.insert(pa, a);
    let with_b = rules.insert(pb, b);
    assert forall|i: int| 0 <= i < pb + 1 implies with_a[i].priority <= b.priority by {
        if i > pa {
            assert(with_a[i] == rules[i - 1]);
        }
    }
    if pb + 1 < with_a.len() {
        assert(with_a[pb + 1] == rules[pb]);
    }
    lemma_leading_at_most_is(with_a, b.priority, pb + 1);
    assert forall|i: int| 0 <= i < pa implies with_b[i].priority <= a.priority by {
        assert(with_b[i] == rules[i]);
    }
    if pa < pb {
        assert(with_b[pa] == rules[pa]);
    } else {
        assert(with_b[pa] == b);
    }
    lemma_leading_at_most_is(with_b, a.priority, pa);
    assert(with_a.insert(pb + 1, b) =~= with_b.insert(pa, a));
}

/// The order in which two rules with different priority numbers were added
/// does not change how a title is rewritten.
pub proof fn lemma_conversion_ignores_insertion_order(
    rules: Seq<RuleView>,
    a: RuleView,
    b: RuleView,
    title: Seq<char>,
)
    requires
        sorted_by_priority(rules),
        a.priority != b.priority,
    ensures
        converted(added(added(rules, a), b), title) == converted(
            added(added(rules, b), a),
            title,
        ),
{
    if pattern_is_valid(a.pattern) && pattern_is_valid(b.pattern) {
        lemma_insertion_order(rules, a, b);
    }
}

/// A rule whose pattern does not compile changes nothing: the set rewrites
/// every title as before, and a rule that is added afterwards goes where it
/// would have gone without the failed one.
pub proof fn lemma_invalid_rule_is_ignored(
    rules: Seq<RuleView>,
    bad: RuleView,
    next: RuleView,
    title: Seq<char>,
)
    requires
        !pattern_is_valid(bad.pattern),
    ensures
        added(rules, bad) == rules,
        converted(added(rules, bad), title) == converted(rules, title),
        added(added(rules, bad), next) == added(rules, next),
{
}

/// Adding a rule keeps the rule set ordered.
pub proof fn lemma_added_sorted(rules: Seq<RuleView>, rule: RuleView)
    requires
        sorted_by_priority(rules),
    ensures
        sorted_by_priority(added(rules, rule)),
{
    lemma_inserted_sorted(rules, rule);
}

/// The literal parts of the built-in replacement.
pub open spec fn default_literals() -> Seq<Seq<char>> {
    seq![" ["@, "] Detective Conan - "@, " ("@, " "@, " "@, ") "@]
}

/// The groups that the built-in replacement names, in the order in which it
/// names them.
pub open spec fn default_holes() -> Seq<nat> {
    seq![1, 2, 4, 7, 5]
}

/// The normalized title that the built-in rule makes of the groups of a match.
pub open spec fn normalized(groups: Seq<Option<Seq<char>>>) -> Seq<char> {
    " ["@ + groups[1].unwrap() + "] Detective Conan - "@ + groups[2].unwrap() + " ("@
        + groups[4].unwrap() + " "@ + groups[7].unwrap() + " "@ + groups[5].unwrap() + ") "@
}

/// An interleaved text of six literal parts, written out.
proof fn lemma_interleaved_six(literals: Seq<Seq<char>>, slots: Seq<Seq<char>>)
    requires
        literals.len() == 6,
        slots.len() == 5,
    ensures
        interleaved(literals, slots) == literals[0] + slots[0] + literals[1] + slots[1]
            + literals[2] + slots[2] + literals[3] + slots[3] + literals[4] + slots[4]
            + literals[5],
{
    let t5 = interleaved(literals.skip(5), slots.skip(5));
    assert(t5 == literals[5]);
    let t4 = interleaved(literals.skip(4), slots.skip(4));
    assert(t4 =~= literals[4] + (slots[4] + t5)) by {
        assert(literals.skip(4).skip(1) == literals.skip(5));
        assert(slots.skip(4).skip(1) == slots.skip(5));
    }
    let t3 = interleaved(literals.skip(3), slots.skip(3));
    assert(t3 =~= literals[3] + (slots[3] + t4)) by {
        assert(literals.skip(3).skip(1) == literals.skip(4));
        assert(slots.skip(3).skip(1) == slots.skip(4));
    }
    let t2 = interleaved(literals.skip(2), slots.skip(2));
    assert(t2 =~= literals[2] + (slots[2] + t3)) by {
        assert(literals.skip(2).skip(1) == literals.skip(3));
        assert(slots.skip(2).skip(1) == slots.skip(3));
    }
    let t1 = interleaved(literals.skip(1), slots.skip(1));
    assert(t1 =~= literals[1] + (slots[1] + t2)) by {
        assert(literals.skip(1).skip(1) == literals.skip(2));
        assert(slots.skip(1).skip(1) == slots.skip(2));
    }
    let t0 = interleaved(literals, slots);
    assert(t0 =~= literals[0] + (slots[0] + t1));
    assert(t0 =~= literals[0] + slots[0] + literals[1] + slots[1] + literals[2] + slots[2]
        + literals[3] + slots[3] + literals[4] + slots[4] + literals[5]);
}

/// The literal parts of the built-in replacement are guarded.
proof fn lemma_default_literals_guarded()
    ensures
        guarded(default_literals()),
{
    reveal_strlit(" [");
    reveal_strlit("] Detective Conan - ");
    reveal_strlit(" (");
    reveal_strlit(" ");
    reveal_strlit(") ");
}

/// The built-in replacement, part by part.
proof fn lemma_default_replacement_text()
    ensures
        DEFAULT_REPLACEMENT@ == " ["@ + seq!['$', '1'] + "] Detective Conan - "@ + seq!['$', '2']
            + " ("@ + seq!['$', '4'] + " "@ + seq!['$', '7'] + " "@ + seq!['$', '5'] + ") "@,
{
    reveal_strlit(" [$1] Detective Conan - $2 ($4 $7 $5) ");
    reveal_strlit(" [");
    reveal_strlit("] Detective Conan - ");
    reveal_strlit(" (");
    reveal_strlit(" ");
    reveal_strlit(") ");
    let a = " ["@ + seq!['$', '1'];
    let b = a + "] Detective Conan - "@;
    let c = b + seq!['$', '2'];
    let d = c + " ("@;
    let e = d + seq!['$', '4'];
    let f = e + " "@;
    let g = f + seq!['$', '7'];
    let h = g + " "@;
    let i = h + seq!['$', '5'];
    let j = i + ") "@;
    assert(a.len() == 4);
    assert(b.len() == 24);
    assert(c.len() == 26);
    assert(d.len() == 28);
    assert(e.len() == 30);
    assert(f.len() == 31);
    assert(g.len() == 33);
    assert(h.len() == 34);
    assert(i.len() == 36);
    assert(j.len() == 38);
    assert(DEFAULT_REPLACEMENT@ =~= j);
}

/// The built-in replacement is made of its literal parts and the placeholders
/// of the groups it names.
pub proof fn lemma_default_replacement_parts(groups: Seq<Option<Seq<char>>>)
    ensures
        guarded(default_literals()),
        DEFAULT_REPLACEMENT@ == interleaved(
            default_literals(),
            slots_after(default_holes(), groups, 0),
        ),
{
    lemma_default_literals_guarded();
    lemma_default_replacement_text();
    let slots = slots_after(default_holes(), groups, 0);
    lemma_interleaved_six(default_literals(), slots);
    lemma_placeholder_below_ten(1);
    lemma_placeholder_below_ten(2);
    lemma_placeholder_below_ten(4);
    lemma_placeholder_below_ten(7);
    lemma_placeholder_below_ten(5);
    assert(slots[0] =~= seq!['$', '1']);
    assert(slots[1] =~= seq!['$', '2']);
    assert(slots[2] =~= seq!['$', '4']);
    assert(slots[3] =~= seq!['$', '7']);
    assert(slots[4] =~= seq!['$', '5']);
}

/// What the built-in replacement makes of the groups of a match: the
/// normalized title, with the text of the groups 1, 2, 4, 7 and 5 verbatim.
/// Left out are the matches in which one of these texts holds the placeholder
/// of a group that is substituted later.
pub proof fn lemma_default_replacement_shape(groups: Seq<Option<Seq<char>>>)
    requires
        groups.len() == 8,
        groups[1] is Some,
        groups[2] is Some,
        groups[4] is Some,
        groups[5] is Some,
        groups[7] is Some,
        hazard_free(default_holes(), groups),
    ensures
        expanded(DEFAULT_REPLACEMENT@, groups) == normalized(groups),
{
    lemma_default_replacement_parts(groups);
    lemma_expanded_interleaved(default_literals(), default_holes(), groups);
    lemma_interleaved_six(default_literals(), slots_after(default_holes(), groups, 8));
}

/// A title that the built-in rule rewrites becomes the normalized title made
/// of the groups of its match. Left out are the matches in which the text of a
/// substituted group holds the placeholder of a group that is substituted
/// later.
pub proof fn lemma_default_rule_normalizes(rules: Seq<RuleView>, title: Seq<char>, k: int)
    requires
        first_match(rules, title) == Some(k),
        0 <= k < rules.len(),
        rules[k].pattern == DEFAULT_PATTERN@,
        rules[k].replacement == DEFAULT_REPLACEMENT@,
        regex_captures(DEFAULT_PATTERN@, title) matches Some(groups) && groups.len() == 8
            && groups[1] is Some && groups[2] is Some && groups[4] is Some && groups[5] is Some
            && groups[7] is Some && hazard_free(default_holes(), groups),
    ensures
        converted(rules, title) == normalized(regex_captures(DEFAULT_PATTERN@, title).unwrap()),
{
    lemma_default_replacement_shape(regex_captures(DEFAULT_PATTERN@, title).unwrap());
}

} // verus!
