//! The image normalizer: rewrites image references by ordered rename
//! rules and lists the distinct results in sorted order.

use crate::error::ReportError;
use crate::pattern::{
    compile, pattern_compiles, pattern_matches, regex_source, replace_all, rewritten,
};
use crate::text::{join, joined, sorts_before, text_before, texts};
use vstd::prelude::*;

verus! {

/// A rename rule as it is configured: a regular expression and what to
/// put, in angle brackets, in place of each match.
#[derive(Debug, PartialEq, Eq)]
pub struct RenameRule {
    pub pattern: String,
    pub replacement: String,
}

/// A rename rule.
pub struct Rule {
    pub pattern: Seq<char>,
    pub replacement: Seq<char>,
}

impl View for RenameRule {
    type V = Rule;

    open spec fn view(&self) -> Rule {
        Rule { pattern: self.pattern@, replacement: self.replacement@ }
    }
}

/// The rules of a sequence of configured rules.
pub open spec fn rule_views(rules: Seq<RenameRule>) -> Seq<Rule> {
    Seq::new(rules.len(), |i: int| rules[i]@)
}

/// Whether the pattern of every rule compiles.
pub open spec fn rules_compile(rules: Seq<Rule>) -> bool {
    forall|i: int| 0 <= i < rules.len() ==> pattern_compiles((#[trigger] rules[i]).pattern)
}

/// The replacement template of a rule: its replacement in angle brackets.
pub open spec fn template(replacement: Seq<char>) -> Seq<char> {
    seq!['<'] + replacement + seq!['>']
}

/// An image reference after one rule has been applied to it.
pub open spec fn rule_applied(rule: Rule, image: Seq<char>) -> Seq<char> {
    rewritten(rule.pattern, image, template(rule.replacement))
}

/// An image reference after normalization: the result of the first rule,
/// in the order of the list, that changes it; the reference itself where
/// no rule does.
pub open spec fn normalized(image: Seq<char>, rules: Seq<Rule>) -> Seq<char>
    decreases rules.len(),
{
    if rules.len() == 0 {
        image
    } else if rule_applied(rules[0], image) != image {
        rule_applied(rules[0], image)
    } else {
        normalized(image, rules.drop_first())
    }
}

/// Normalization keeps an image reference that no rule changes, and
/// normalizing the result again changes nothing either.
pub proof fn lemma_unchanged_image_is_kept(image: Seq<char>, rules: Seq<Rule>)
    requires
        forall|i: int| 0 <= i < rules.len() ==> rule_applied(#[trigger] rules[i], image) == image,
    ensures
        normalized(image, rules) == image,
        normalized(normalized(image, rules), rules) == normalized(image, rules),
    decreases rules.len(),
{
    if rules.len() > 0 {
        let rest = rules.drop_first();
        assert forall|i: int| 0 <= i < rest.len() implies rule_applied(#[trigger] rest[i], image)
            == image by {
            assert(rest[i] == rules[i + 1]);
        }
        lemma_unchanged_image_is_kept(image, rest);
    }
}

/// Normalization is idempotent under rules whose patterns do not match:
/// an image reference in which the pattern of no rule matches is kept as
/// it is, and normalizing the result again yields the same text.
pub proof fn lemma_unmatched_image_is_kept(image: Seq<char>, rules: Seq<Rule>)
    requires
        forall|i: int| 0 <= i < rules.len() ==> !pattern_matches((#[trigger] rules[i]).pattern, image),
    ensures
        normalized(image, rules) == image,
        normalized(normalized(image, rules), rules) == normalized(image, rules),
{
    assert forall|i: int| 0 <= i < rules.len() implies rule_applied(#[trigger] rules[i], image)
        == image by {
        assert(!pattern_matches(rules[i].pattern, image));
    }
    lemma_unchanged_image_is_kept(image, rules);
}

/// A rename rule with its pattern compiled.
pub struct CompiledRule {
    expression: regex::Regex,
    replacement: String,
}

impl View for CompiledRule {
    type V = Rule;

    closed spec fn view(&self) -> Rule {
        Rule { pattern: regex_source(self.expression), replacement: self.replacement@ }
    }
}

/// The rename rules of a run, compiled, in the order of their priority.
pub struct RuleSet {
    rules: Vec<CompiledRule>,
}

impl View for RuleSet {
    type V = Seq<Rule>;

    closed spec fn view(&self) -> Seq<Rule> {
        Seq::new(self.rules@.len(), |i: int| self.rules@[i]@)
    }
}

impl RuleSet {
    /// Compiles the configured rules, keeping their order. One pattern
    /// that is no regular expression makes the whole set invalid.
    pub fn compile(rules: &Vec<RenameRule>) -> (r: Result<RuleSet, ReportError>)
        ensures
            rules_compile(rule_views(rules@)) ==> (r matches Ok(set) && set@ == rule_views(rules@)),
            !rules_compile(rule_views(rules@)) ==> r == Err::<RuleSet, ReportError>(
                ReportError::InvalidRule,
            ),
    {
        let mut compiled: Vec<CompiledRule> = Vec::new();
        let mut i: usize = 0;
        while i < rules.len()
            invariant
                i <= rules.len(),
                compiled.len() == i,
                forall|k: int|
                    0 <= k < i ==> pattern_compiles((#[trigger] rule_views(rules@)[k]).pattern),
                forall|k: int| 0 <= k < i ==> (#[trigger] compiled@[k])@ == rules@[k]@,
            decreases rules.len() - i,
        {
            match compile(rules[i].pattern.as_str()) {
                Some(expression) => {
                    compiled.push(
                        CompiledRule { expression, replacement: rules[i].replacement.clone() },
                    );
                },
                None => {
                    assert(!pattern_compiles(rule_views(rules@)[i as int].pattern));
                    return Err(ReportError::InvalidRule);
                },
            }
            i += 1;
        }
        let set = RuleSet { rules: compiled };
        assert(set@ =~= rule_views(rules@));
        Ok(set)
    }

    /// How many rules the set holds.
    pub fn len(&self) -> (r: usize)
        ensures
            r == self@.len(),
    {
        self.rules.len()
    }
}

/// Normalizes one image reference.
pub fn normalize_image(image: &str, rules: &RuleSet) -> (r: String)
    ensures
        r@ == normalized(image@, rules@),
{
    let given = image.to_owned();
    let mut i: usize = 0;
    assert(rules@.skip(0) =~= rules@);
    while i < rules.rules.len()
        invariant
            i <= rules.rules.len(),
            given@ == image@,
            normalized(image@, rules@) == normalized(image@, rules@.skip(i as int)),
        decreases rules.rules.len() - i,
    {
        let ghost rest = rules@.skip(i as int);
        assert(rest[0] == rules.rules@[i as int]@);
        assert(rest.drop_first() =~= rules@.skip(i + 1));
        let rule = &rules.rules[i];
        proof {
            reveal_strlit("<");
            reveal_strlit(">");
        }
        let mut template_text = "<".to_owned();
        template_text.append(rule.replacement.as_str());
        template_text.append(">");
        assert(template_text@ =~= template(rule@.replacement));
        let candidate = replace_all(&rule.expression, image, template_text.as_str());
        if candidate != given {
            return candidate;
        }
        i += 1;
    }
    given
}

/// Whether each text comes strictly before the next.
pub open spec fn ascending(s: Seq<Seq<char>>) -> bool {
    forall|i: int, j: int| 0 <= i < j < s.len() ==> text_before(#[trigger] s[i], #[trigger] s[j])
}

/// An ascending list with `x` put in its place, unless it is there
/// already.
pub open spec fn inserted(sorted: Seq<Seq<char>>, x: Seq<char>) -> Seq<Seq<char>>
    decreases sorted.len(),
{
    if sorted.len() == 0 {
        seq![x]
    } else if text_before(sorted[0], x) {
        seq![sorted[0]] + inserted(sorted.drop_first(), x)
    } else if sorted[0] == x {
        sorted
    } else {
        seq![x] + sorted
    }
}

/// The distinct texts of `s` in ascending order.
pub open spec fn sorted_distinct(s: Seq<Seq<char>>) -> Seq<Seq<char>>
    decreases s.len(),
{
    if s.len() == 0 {
        Seq::empty()
    } else {
        inserted(sorted_distinct(s.drop_last()), s.last())
    }
}

/// The separator between the images of a pod.
pub open spec fn image_separator() -> Seq<char> {
    seq!['\n']
}

/// The images field of a pod: its distinct image references in
/// ascending order, one per line.
pub open spec fn image_list(images: Seq<Seq<char>>) -> Seq<char> {
    joined(sorted_distinct(images), image_separator())
}

/// Putting a text into an ascending list keeps the list ascending and
/// adds this text to its values, and nothing else.
pub proof fn lemma_inserted(sorted: Seq<Seq<char>>, x: Seq<char>)
    requires
        ascending(sorted),
    ensures
        ascending(inserted(sorted, x)),
        forall|y: Seq<char>|
            #![trigger inserted(sorted, x).contains(y)]
            #![trigger sorted.contains(y)]
            inserted(sorted, x).contains(y) <==> (sorted.contains(y) || y == x),
        inserted(sorted, x).len() > 0,
        sorted.len() > 0 ==> inserted(sorted, x)[0] == sorted[0] || inserted(sorted, x)[0] == x,
        sorted.len() == 0 ==> inserted(sorted, x)[0] == x,
    decreases sorted.len(),
{
    let result = inserted(sorted, x);
    if sorted.len() == 0 {
        assert forall|y: Seq<char>| result.contains(y) <==> (sorted.contains(y) || y == x) by {
            if y == x {
                assert(result[0] == y);
            }
        }
    } else if text_before(sorted[0], x) {
        let rest = sorted.drop_first();
        assert forall|i: int, j: int| 0 <= i < j < rest.len() implies text_before(
            #[trigger] rest[i],
            #[trigger] rest[j],
        ) by {
            assert(rest[i] == sorted[i + 1] && rest[j] == sorted[j + 1]);
        }
        lemma_inserted(rest, x);
        let tail = inserted(rest, x);
        assert(result =~= seq![sorted[0]] + tail);
        assert forall|k: int| 0 <= k < tail.len() implies text_before(sorted[0], #[trigger] tail[k]) by {
            assert(tail.contains(tail[k]));
            if tail[k] != x {
                assert(rest.contains(tail[k]));
                let m = choose|m: int| 0 <= m < rest.len() && rest[m] == tail[k];
                assert(sorted[m + 1] == tail[k]);
            }
        }
        assert forall|i: int, j: int| 0 <= i < j < result.len() implies text_before(
            #[trigger] result[i],
            #[trigger] result[j],
        ) by {
            assert(result[j] == tail[j - 1]);
            if i > 0 {
                assert(result[i] == tail[i - 1]);
            }
        }
        assert forall|y: Seq<char>| result.contains(y) <==> (sorted.contains(y) || y == x) by {
            if result.contains(y) {
                let k = choose|k: int| 0 <= k < result.len() && result[k] == y;
                if k > 0 {
                    assert(tail[k - 1] == y);
                    assert(tail.contains(y));
                    if y != x {
                        assert(rest.contains(y));
                        let m = choose|m: int| 0 <= m < rest.len() && rest[m] == y;
                        assert(sorted[m + 1] == y);
                    }
                }
            }
            if sorted.contains(y) {
                let m = choose|m: int| 0 <= m < sorted.len() && sorted[m] == y;
                if m == 0 {
                    assert(result[0] == y);
                } else {
                    assert(rest[m - 1] == y);
                    assert(rest.contains(y));
                    assert(tail.contains(y));
                    let k = choose|k: int| 0 <= k < tail.len() && tail[k] == y;
                    assert(result[k + 1] == y);
                }
            }
            if y == x {
                assert(tail.contains(y));
                let k = choose|k: int| 0 <= k < tail.len() && tail[k] == y;
                assert(result[k + 1] == y);
            }
        }
    } else if sorted[0] == x {
        assert forall|y: Seq<char>| result.contains(y) <==> (sorted.contains(y) || y == x) by {
            if y == x {
                assert(sorted[0] == y);
            }
        }
    } else {
        crate::text::lemma_text_before_total(sorted[0], x);
        assert(result =~= seq![x] + sorted);
        assert forall|i: int, j: int| 0 <= i < j < result.len() implies text_before(
            #[trigger] result[i],
            #[trigger] result[j],
        ) by {
            assert(result[j] == sorted[j - 1]);
            if i > 0 {
                assert(result[i] == sorted[i - 1]);
            } else if j > 1 {
                crate::text::lemma_text_before_transitive(x, sorted[0], sorted[j - 1]);
            }
        }
        assert forall|y: Seq<char>| result.contains(y) <==> (sorted.contains(y) || y == x) by {
            if result.contains(y) {
                let k = choose|k: int| 0 <= k < result.len() && result[k] == y;
                if k > 0 {
                    assert(sorted[k - 1] == y);
                }
            }
            if sorted.contains(y) {
                let m = choose|m: int| 0 <= m < sorted.len() && sorted[m] == y;
                assert(result[m + 1] == y);
            }
            if y == x {
                assert(result[0] == y);
            }
        }
    }
}

/// The sorted list of distinct texts is strictly ascending, so it lists
/// no text twice, and it lists exactly the texts that occur.
pub proof fn lemma_sorted_distinct(s: Seq<Seq<char>>)
    ensures
        ascending(sorted_distinct(s)),
        sorted_distinct(s).no_duplicates(),
        forall|y: Seq<char>|
            #![trigger sorted_distinct(s).contains(y)]
            #![trigger s.contains(y)]
            sorted_distinct(s).contains(y) <==> s.contains(y),
    decreases s.len(),
{
    let result = sorted_distinct(s);
    if s.len() > 0 {
        let earlier = s.drop_last();
        lemma_sorted_distinct(earlier);
        lemma_inserted(sorted_distinct(earlier), s.last());
        assert forall|y: Seq<char>| result.contains(y) <==> s.contains(y) by {
            if s.contains(y) {
                let m = choose|m: int| 0 <= m < s.len() && s[m] == y;
                if m < s.len() - 1 {
                    assert(earlier[m] == y);
                    assert(earlier.contains(y));
                }
            }
            if result.contains(y) && y != s.last() {
                assert(sorted_distinct(earlier).contains(y));
                assert(earlier.contains(y));
                let m = choose|m: int| 0 <= m < earlier.len() && earlier[m] == y;
                assert(s[m] == y);
            }
            if y == s.last() {
                assert(s[s.len() - 1] == y);
            }
        }
    }
    assert forall|i: int, j: int| 0 <= i < result.len() && 0 <= j < result.len() && i != j implies result[i]
        != result[j] by {
        crate::text::lemma_text_before_irreflexive(result[i]);
        if i < j {
            assert(text_before(result[i], result[j]));
        } else {
            assert(text_before(result[j], result[i]));
        }
    }
}

/// Puts `item` in its place in an ascending list, unless it is there
/// already.
pub fn insert_sorted(list: &mut Vec<String>, item: String)
    ensures
        texts(final(list)@) == inserted(texts(old(list)@), item@),
{
    let ghost all = texts(list@);
    let mut i: usize = 0;
    assert(all.skip(0) =~= all);
    assert(all.take(0) + inserted(all, item@) =~= inserted(all, item@));
    while i < list.len() && sorts_before(list[i].as_str(), item.as_str())
        invariant
            i <= list.len(),
            list@ == old(list)@,
            all == texts(list@),
            inserted(all, item@) == all.take(i as int) + inserted(all.skip(i as int), item@),
        decreases list.len() - i,
    {
        let ghost rest = all.skip(i as int);
        assert(rest[0] == all[i as int]);
        assert(rest.drop_first() =~= all.skip(i + 1));
        assert(all.take(i as int) + (seq![rest[0]] + inserted(all.skip(i + 1), item@)) =~= all.take(
            i + 1,
        ) + inserted(all.skip(i + 1), item@));
        i += 1;
    }
    let ghost rest = all.skip(i as int);
    if i < list.len() {
        assert(rest[0] == all[i as int]);
        if list[i] == item {
            assert(inserted(rest, item@) == rest);
            assert(all.take(i as int) + rest =~= all);
            return ;
        }
        assert(inserted(rest, item@) == seq![item@] + rest);
    } else {
        assert(rest.len() == 0);
        assert(inserted(rest, item@) == seq![item@]);
    }
    list.insert(i, item);
    assert(texts(list@) =~= all.take(i as int) + (seq![item@] + rest));
}

/// The images field of a pod: its distinct image references in
/// ascending order, one per line.
pub fn render_image_list(images: &Vec<String>) -> (r: String)
    ensures
        r@ == image_list(texts(images@)),
{
    let ghost all = texts(images@);
    let mut listed: Vec<String> = Vec::new();
    let mut i: usize = 0;
    assert(all.take(0) =~= Seq::<Seq<char>>::empty());
    assert(texts(listed@) =~= Seq::<Seq<char>>::empty());
    while i < images.len()
        invariant
            i <= images.len(),
            all == texts(images@),
            texts(listed@) == sorted_distinct(all.take(i as int)),
        decreases images.len() - i,
    {
        assert(all.take(i + 1).drop_last() =~= all.take(i as int));
        assert(all.take(i + 1).last() == images@[i as int]@);
        insert_sorted(&mut listed, images[i].clone());
        i += 1;
    }
    assert(all.take(i as int) =~= all);
    proof {
        reveal_strlit("\n");
        assert("\n"@ =~= image_separator());
    }
    join(&listed, "\n")
}

} // verus!
