//! The remapping table of a board: rules that send a key to a target.

use vstd::prelude::*;
use vstd::string::StringExecFns;
use crate::error::{Error, ErrorView};
use crate::text::{debug_quoted, join_next, joined, quote, same_text};

verus! {

/// One rule as a pair of character sequences: the key and its target.
pub type Rule = (Seq<char>, Seq<char>);

/// The target `{=}`: a pointer to the parent's key of the same name.
pub open spec fn same_name() -> Seq<char> {
    seq!['{', '=', '}']
}

/// `name` wrapped in braces.
pub open spec fn pointer_to(name: Seq<char>) -> Seq<char> {
    seq!['{'] + name + seq!['}']
}

/// The target that the first rule for `key` stores, if there is a rule.
pub open spec fn stored_target(rules: Seq<Rule>, key: Seq<char>) -> Option<Seq<char>>
    decreases rules.len(),
{
    if rules.len() == 0 {
        None
    } else if rules[0].0 == key {
        Some(rules[0].1)
    } else {
        stored_target(rules.drop_first(), key)
    }
}

/// The target of `key`, with `{=}` written out as the pointer `{key}`.
pub open spec fn target_of(rules: Seq<Rule>, key: Seq<char>) -> Option<Seq<char>> {
    match stored_target(rules, key) {
        Some(target) => if target == same_name() {
            Some(pointer_to(key))
        } else {
            Some(target)
        },
        None => None,
    }
}

/// The string that `name` resolves to: its stored target, `name` itself where
/// that is `{=}` or where there is no rule.
pub open spec fn remapped_name(rules: Seq<Rule>, name: Seq<char>) -> Seq<char> {
    match stored_target(rules, name) {
        Some(target) => if target == same_name() {
            name
        } else {
            target
        },
        None => name,
    }
}

/// The rules with the target of the first rule for `key` replaced, or with a
/// new rule at the end where `key` has none.
pub open spec fn overwritten(rules: Seq<Rule>, key: Seq<char>, target: Seq<char>) -> Seq<Rule>
    decreases rules.len(),
{
    if rules.len() == 0 {
        seq![(key, target)]
    } else if rules[0].0 == key {
        rules.update(0, (key, target))
    } else {
        seq![rules[0]] + overwritten(rules.drop_first(), key, target)
    }
}

/// A rule added at the end is found by its own key, unless an earlier rule
/// has that key, and it changes the target of no other key.
pub proof fn law_add_then_find(rules: Seq<Rule>, rule: Rule, key: Seq<char>)
    ensures
        stored_target(rules.push(rule), key) == if stored_target(rules, key) is Some {
            stored_target(rules, key)
        } else if rule.0 == key {
            Some(rule.1)
        } else {
            None
        },
    decreases rules.len(),
{
    if rules.len() == 0 {
        assert(rules.push(rule).drop_first() =~= rules);
    } else {
        assert(rules.push(rule).drop_first() =~= rules.drop_first().push(rule));
        if rules[0].0 != key {
            law_add_then_find(rules.drop_first(), rule, key);
        }
    }
}

/// After an overwrite the key has the new target and every other key the
/// target it had.
pub proof fn law_overwrite_then_find(
    rules: Seq<Rule>,
    key: Seq<char>,
    target: Seq<char>,
    other: Seq<char>,
)
    ensures
        stored_target(overwritten(rules, key, target), other) == if other == key {
            Some(target)
        } else {
            stored_target(rules, other)
        },
    decreases rules.len(),
{
    if rules.len() == 0 {
        let one = seq![(key, target)];
        assert(one.len() == 1 && one[0] == (key, target));
        assert(stored_target(one.drop_first(), other) is None);
    } else if rules[0].0 == key {
        assert(rules.update(0, (key, target)).drop_first() =~= rules.drop_first());
    } else {
        let rest = overwritten(rules.drop_first(), key, target);
        let all = seq![rules[0]] + rest;
        assert(all.len() > 0 && all[0] == rules[0]);
        assert(all.drop_first() =~= rest);
        law_overwrite_then_find(rules.drop_first(), key, target, other);
    }
}

/// The remapping rules of a board, in the order in which they were added.
#[derive(Debug)]
pub struct Remappings {
    rules: Vec<(String, String)>,
}

impl View for Remappings {
    type V = Seq<Rule>;

    closed spec fn view(&self) -> Seq<Rule> {
        Seq::new(self.rules@.len(), |i: int| (self.rules@[i].0@, self.rules@[i].1@))
    }
}

impl Default for Remappings {
    fn default() -> (r: Remappings)
        ensures
            r@ == Seq::<Rule>::empty(),
    {
        Remappings { rules: Vec::new() }
    }
}

impl Remappings {
    /// The number of rules.
    pub fn len(&self) -> (n: usize)
        ensures
            n == self@.len(),
    {
        self.rules.len()
    }

    /// Whether there is no rule.
    pub fn is_empty(&self) -> (r: bool)
        ensures
            r == (self@.len() == 0),
    {
        self.rules.len() == 0
    }

    /// The key and the target of rule `i`, as stored.
    pub fn rule(&self, i: usize) -> (r: (&str, &str))
        requires
            i < self@.len(),
        ensures
            r.0@ == self@[i as int].0,
            r.1@ == self@[i as int].1,
    {
        (self.rules[i].0.as_str(), self.rules[i].1.as_str())
    }

    /// A copy of the table.
    pub fn duplicate(&self) -> (r: Remappings)
        ensures
            r@ == self@,
    {
        let mut rules: Vec<(String, String)> = Vec::new();
        let mut i: usize = 0;
        while i < self.rules.len()
            invariant
                i <= self.rules.len(),
                rules@.len() == i,
                forall|j: int|
                    0 <= j < i ==> (#[trigger] rules@[j]).0@ == self.rules@[j].0@ && rules@[j].1@
                        == self.rules@[j].1@,
            decreases self.rules.len() - i,
        {
            rules.push((self.rules[i].0.clone(), self.rules[i].1.clone()));
            i += 1;
        }
        let r = Remappings { rules };
        assert(r@ =~= self@);
        r
    }

    /// The index of the first rule for `key`.
    fn position(&self, key: &str) -> (r: Option<usize>)
        ensures
            match r {
                Some(i) => i < self@.len() && self@[i as int].0 == key@ && stored_target(
                    self@,
                    key@,
                ) == Some(self@[i as int].1) && forall|j: int|
                    0 <= j < i ==> (#[trigger] self@[j]).0 != key@,
                None => stored_target(self@, key@) is None && forall|j: int|
                    0 <= j < self@.len() ==> (#[trigger] self@[j]).0 != key@,
            },
    {
        let wanted = key.to_owned();
        let mut i: usize = 0;
        assert(self@.skip(0) =~= self@);
        while i < self.rules.len()
            invariant
                i <= self.rules.len(),
                wanted@ == key@,
                stored_target(self@, key@) == stored_target(self@.skip(i as int), key@),
                forall|j: int| 0 <= j < i ==> (#[trigger] self@[j]).0 != key@,
            decreases self.rules.len() - i,
        {
            assert(self@.skip(i as int)[0] == self@[i as int]);
            if self.rules[i].0 == wanted {
                return Some(i);
            }
            assert(self@.skip(i as int).drop_first() =~= self@.skip(i as int + 1));
            i += 1;
        }
        assert(self@.skip(i as int).len() == 0);
        None
    }

    /// Adds the rule `key` to `remap_to`. A key that has a rule keeps it, and
    /// the error names the target it has.
    pub fn add(&mut self, key: &str, remap_to: &str) -> (r: Result<(), Error>)
        ensures
            match r {
                Ok(_) => stored_target(old(self)@, key@) is None && final(self)@ == old(self)@.push(
                    (key@, remap_to@),
                ),
                Err(e) => stored_target(old(self)@, key@) matches Some(target) && e@ == (
                ErrorView::AlreadyRemapped { key: key@, remapped: target }) && final(self)@ == old(
                    self,
                )@,
            },
    {
        match self.position(key) {
            Some(i) => Err(
                Error::AlreadyRemapped { key: key.to_owned(), remapped: self.rules[i].1.clone() },
            ),
            None => {
                self.rules.push((key.to_owned(), remap_to.to_owned()));
                assert(self@ =~= old(self)@.push((key@, remap_to@)));
                Ok(())
            },
        }
    }

    /// Sets the target of `key` to `remapped`, in place where `key` has a
    /// rule and by a new rule at the end where it has none.
    pub fn overwrite(&mut self, key: &str, remapped: &str)
        ensures
            final(self)@ == overwritten(old(self)@, key@, remapped@),
    {
        match self.position(key) {
            Some(i) => {
                self.rules[i].1 = remapped.to_owned();
                proof {
                    lemma_overwritten_at(old(self)@, key@, remapped@, i as int);
                    assert(self@ =~= old(self)@.update(i as int, (key@, remapped@)));
                }
            },
            None => {
                self.rules.push((key.to_owned(), remapped.to_owned()));
                proof {
                    lemma_overwritten_absent(old(self)@, key@, remapped@);
                    assert(self@ =~= old(self)@.push((key@, remapped@)));
                }
            },
        }
    }

    /// The target of `key`, if it has a rule. The target `{=}` comes back as
    /// the board pointer `{key}`.
    pub fn find(&self, key: &str) -> (r: Option<String>)
        ensures
            match r {
                Some(target) => target_of(self@, key@) == Some(target@),
                None => target_of(self@, key@) is None,
            },
    {
        match self.position(key) {
            Some(i) => {
                proof {
                    reveal_strlit("{=}");
                    reveal_strlit("{");
                    reveal_strlit("}");
                    assert("{=}"@ =~= same_name());
                }
                if same_text(self.rules[i].1.as_str(), "{=}") {
                    let mut pointer = String::from_str("{");
                    pointer.append(key);
                    pointer.append("}");
                    assert(pointer@ =~= pointer_to(key@));
                    Some(pointer)
                } else {
                    Some(self.rules[i].1.clone())
                }
            },
            None => None,
        }
    }

    /// What `name` resolves to: the target of its rule, or `name` itself where
    /// it has no rule or the rule's target is `{=}`.
    pub fn remap(&self, name: &str) -> (r: String)
        ensures
            r@ == remapped_name(self@, name@),
    {
        match self.position(name) {
            Some(i) => {
                proof {
                    reveal_strlit("{=}");
                    assert("{=}"@ =~= same_name());
                }
                if same_text(self.rules[i].1.as_str(), "{=}") {
                    name.to_owned()
                } else {
                    self.rules[i].1.clone()
                }
            },
            None => name.to_owned(),
        }
    }

    /// Gives back memory that the table holds and does not use. The rules stay
    /// as they are.
    pub fn shrink(&mut self)
        ensures
            final(self)@ == old(self)@,
    {
        release_spare(&mut self.rules);
    }

    /// The table as text: `Remappings { [("key", "target"), ...] }`, the
    /// rules in their order, every string as `Debug` writes it.
    pub fn debug_string(&self) -> (r: String)
        ensures
            r@ == table_text(self@),
    {
        let mut list = String::from_str("");
        let ghost mut items: Seq<Seq<char>> = Seq::empty();
        proof {
            reveal_strlit("");
            assert(list@ =~= joined(items));
        }
        let mut i: usize = 0;
        while i < self.rules.len()
            invariant
                i <= self.rules.len(),
                items == self@.take(i as int).map_values(|rule: Rule| rule_text(rule)),
                list@ == joined(items),
            decreases self.rules.len() - i,
        {
            let mut item = String::from_str("(");
            item.append(quote(self.rules[i].0.as_str()).as_str());
            item.append(", ");
            item.append(quote(self.rules[i].1.as_str()).as_str());
            item.append(")");
            assert(item@ =~= rule_text(self@[i as int]));
            join_next(&mut list, i, item.as_str(), Ghost(items));
            proof {
                items = items.push(item@);
                assert(items =~= self@.take(i + 1).map_values(|rule: Rule| rule_text(rule)));
            }
            i += 1;
        }
        assert(self@.take(i as int) =~= self@);
        let mut r = String::from_str("Remappings { [");
        r.append(list.as_str());
        r.append("] }");
        r
    }
}

/// One rule as text: `("key", "target")`.
pub open spec fn rule_text(rule: Rule) -> Seq<char> {
    "("@ + debug_quoted(rule.0) + ", "@ + debug_quoted(rule.1) + ")"@
}

/// The table as text: `Remappings { [` the rules `] }`.
pub open spec fn table_text(rules: Seq<Rule>) -> Seq<char> {
    "Remappings { ["@ + joined(rules.map_values(|rule: Rule| rule_text(rule))) + "] }"@
}

/// Trusted: `Vec::shrink_to_fit` may give back spare capacity and, as the
/// standard library documents, keeps the elements and their order.
#[verifier::external_body]
fn release_spare(rules: &mut Vec<(String, String)>)
    ensures
        final(rules)@ == old(rules)@,
{
    rules.shrink_to_fit();
}

/// Where rule `i` is the first rule for `key`, an overwrite replaces rule `i`.
proof fn lemma_overwritten_at(rules: Seq<Rule>, key: Seq<char>, target: Seq<char>, i: int)
    requires
        0 <= i < rules.len(),
        rules[i].0 == key,
        forall|j: int| 0 <= j < i ==> (#[trigger] rules[j]).0 != key,
    ensures
        overwritten(rules, key, target) == rules.update(i, (key, target)),
    decreases rules.len(),
{
    if i == 0 {
    } else {
        assert(rules[0].0 != key);
        let rest = rules.drop_first();
        assert forall|j: int| 0 <= j < i - 1 implies (#[trigger] rest[j]).0 != key by {
            assert(rest[j] == rules[j + 1]);
        }
        lemma_overwritten_at(rest, key, target, i - 1);
        assert(seq![rules[0]] + rest.update(i - 1, (key, target)) =~= rules.update(
            i,
            (key, target),
        ));
    }
}

/// Where no rule is for `key`, an overwrite adds the rule at the end.
proof fn lemma_overwritten_absent(rules: Seq<Rule>, key: Seq<char>, target: Seq<char>)
    requires
        forall|j: int| 0 <= j < rules.len() ==> (#[trigger] rules[j]).0 != key,
    ensures
        overwritten(rules, key, target) == rules.push((key, target)),
    decreases rules.len(),
{
    if rules.len() == 0 {
        assert(rules.push((key, target)) =~= seq![(key, target)]);
    } else {
        assert(rules[0].0 != key);
        let rest = rules.drop_first();
        assert forall|j: int| 0 <= j < rest.len() implies (#[trigger] rest[j]).0 != key by {
            assert(rest[j] == rules[j + 1]);
        }
        lemma_overwritten_absent(rest, key, target);
        assert(seq![rules[0]] + rest.push((key, target)) =~= rules.push((key, target)));
    }
}

} // verus!
