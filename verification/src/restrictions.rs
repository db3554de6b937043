//! Access rules: which videos are gated, and behind which password.

use crate::tags_file::TagsVideo;
use crate::text::strings_view;
use vstd::prelude::*;

verus! {

/// The rules that restrict the visibility of the videos, in the order in
/// which they were declared.
#[derive(Debug)]
pub struct Restrictions {
    pub rules: Vec<RestrictionRule>,
}

/// One rule: it gates the videos that carry every tag of `with_tags` and
/// none of `without_tags`.
#[derive(Debug)]
pub struct RestrictionRule {
    pub name: String,
    pub with_tags: Vec<String>,
    pub without_tags: Vec<String>,
    pub password: String,
}

/// What a `RestrictionRule` stands for.
pub struct Rule {
    pub name: Seq<char>,
    pub with_tags: Seq<Seq<char>>,
    pub without_tags: Seq<Seq<char>>,
    pub password: Seq<char>,
}

impl View for RestrictionRule {
    type V = Rule;

    open spec fn view(&self) -> Rule {
        Rule {
            name: self.name@,
            with_tags: strings_view(self.with_tags@),
            without_tags: strings_view(self.without_tags@),
            password: self.password@,
        }
    }
}

impl View for Restrictions {
    type V = Seq<Rule>;

    open spec fn view(&self) -> Seq<Rule> {
        Seq::new(self.rules@.len(), |i: int| self.rules@[i]@)
    }
}

/// Every tag of `wanted` is among `tags`.
pub open spec fn has_all(tags: Seq<Seq<char>>, wanted: Seq<Seq<char>>) -> bool {
    forall|i: int| 0 <= i < wanted.len() ==> tags.contains(#[trigger] wanted[i])
}

/// No tag of `unwanted` is among `tags`.
pub open spec fn has_none(tags: Seq<Seq<char>>, unwanted: Seq<Seq<char>>) -> bool {
    forall|i: int| 0 <= i < unwanted.len() ==> !tags.contains(#[trigger] unwanted[i])
}

/// A video with these tags falls under the rule.
pub open spec fn rule_matches(rule: Rule, tags: Seq<Seq<char>>) -> bool {
    has_all(tags, rule.with_tags) && has_none(tags, rule.without_tags)
}

/// The rules that a video with these tags falls under, in their declared
/// order.
pub open spec fn matching_rules(rules: Seq<Rule>, tags: Seq<Seq<char>>) -> Seq<Rule>
    decreases rules.len(),
{
    if rules.len() == 0 {
        Seq::empty()
    } else if rule_matches(rules.last(), tags) {
        matching_rules(rules.drop_last(), tags).push(rules.last())
    } else {
        matching_rules(rules.drop_last(), tags)
    }
}

/// The position of the first rule that a video with these tags falls under,
/// or the number of rules where there is none.
pub open spec fn first_match(rules: Seq<Rule>, tags: Seq<Seq<char>>) -> int
    decreases rules.len(),
{
    if rules.len() == 0 {
        0
    } else if rule_matches(rules[0], tags) {
        0
    } else {
        1 + first_match(rules.drop_first(), tags)
    }
}

/// The rules that a list of references stands for.
pub open spec fn rules_view(rules: Seq<&RestrictionRule>) -> Seq<Rule> {
    Seq::new(rules.len(), |i: int| rules[i]@)
}

/// Whether `tag` is among `tags`.
pub fn contains_tag(tags: &Vec<String>, tag: &String) -> (found: bool)
    ensures
        found == strings_view(tags@).contains(tag@),
{
    let mut i: usize = 0;
    while i < tags.len()
        invariant
            i <= tags.len(),
            forall|k: int| 0 <= k < i ==> strings_view(tags@)[k] != tag@,
        decreases tags.len() - i,
    {
        if tags[i] == *tag {
            assert(strings_view(tags@)[i as int] == tag@);
            return true;
        }
        i += 1;
    }
    false
}

/// Whether every tag of `wanted` is among `tags`.
pub fn contains_all(tags: &Vec<String>, wanted: &Vec<String>) -> (r: bool)
    ensures
        r == has_all(strings_view(tags@), strings_view(wanted@)),
{
    let mut i: usize = 0;
    while i < wanted.len()
        invariant
            i <= wanted.len(),
            forall|k: int|
                0 <= k < i ==> strings_view(tags@).contains(#[trigger] strings_view(wanted@)[k]),
        decreases wanted.len() - i,
    {
        if !contains_tag(tags, &wanted[i]) {
            assert(!strings_view(tags@).contains(strings_view(wanted@)[i as int]));
            return false;
        }
        i += 1;
    }
    true
}

/// Whether no tag of `unwanted` is among `tags`.
pub fn contains_none(tags: &Vec<String>, unwanted: &Vec<String>) -> (r: bool)
    ensures
        r == has_none(strings_view(tags@), strings_view(unwanted@)),
{
    let mut i: usize = 0;
    while i < unwanted.len()
        invariant
            i <= unwanted.len(),
            forall|k: int|
                0 <= k < i ==> !strings_view(tags@).contains(#[trigger] strings_view(unwanted@)[k]),
        decreases unwanted.len() - i,
    {
        if contains_tag(tags, &unwanted[i]) {
            assert(strings_view(tags@).contains(strings_view(unwanted@)[i as int]));
            return false;
        }
        i += 1;
    }
    true
}

impl RestrictionRule {
    /// Whether the video falls under this rule: it carries every tag of
    /// `with_tags` and none of `without_tags`.
    pub fn matches(&self, video: &TagsVideo) -> (r: bool)
        ensures
            r == rule_matches(self@, video@.tags),
    {
        contains_all(&video.tags, &self.with_tags) && contains_none(
            &video.tags,
            &self.without_tags,
        )
    }
}

impl Restrictions {
    /// The first rule, in declared order, that the video falls under.
    pub fn find(&self, video: &TagsVideo) -> (r: Option<&RestrictionRule>)
        ensures
            match r {
                Some(rule) => {
                    &&& first_match(self@, video@.tags) < self.rules@.len()
                    &&& *rule == self.rules@[first_match(self@, video@.tags)]
                },
                None => first_match(self@, video@.tags) == self.rules@.len(),
            },
    {
        let mut i: usize = 0;
        assert(self@.skip(0) =~= self@);
        while i < self.rules.len()
            invariant
                i <= self.rules.len(),
                first_match(self@, video@.tags) == i + first_match(
                    self@.skip(i as int),
                    video@.tags,
                ),
            decreases self.rules.len() - i,
        {
            assert(self@.skip(i as int)[0] == self.rules@[i as int]@);
            assert(self@.skip(i as int).drop_first() =~= self@.skip(i + 1));
            if self.rules[i].matches(video) {
                return Some(&self.rules[i]);
            }
            i += 1;
        }
        None
    }

    /// Every rule that the video falls under, in declared order.
    pub fn find_rules(&self, video: &TagsVideo) -> (found: Vec<&RestrictionRule>)
        ensures
            rules_view(found@) == matching_rules(self@, video@.tags),
    {
        let mut found: Vec<&RestrictionRule> = Vec::new();
        let mut i: usize = 0;
        assert(self@.take(0) =~= Seq::<Rule>::empty());
        assert(rules_view(found@) =~= Seq::<Rule>::empty());
        while i < self.rules.len()
            invariant
                i <= self.rules.len(),
                rules_view(found@) == matching_rules(self@.take(i as int), video@.tags),
            decreases self.rules.len() - i,
        {
            let rule = &self.rules[i];
            assert(self@.take(i + 1).drop_last() =~= self@.take(i as int));
            assert(self@.take(i + 1).last() == rule@);
            if rule.matches(video) {
                let ghost before = found@;
                found.push(rule);
                assert(rules_view(found@) =~= rules_view(before).push(rule@));
            }
            i += 1;
        }
        assert(self@.take(i as int) =~= self@);
        found
    }
}

impl Default for Restrictions {
    /// No rule at all: every video is public.
    fn default() -> (r: Restrictions)
        ensures
            r@ == Seq::<Rule>::empty(),
    {
        let r = Restrictions { rules: Vec::new() };
        assert(r@ =~= Seq::<Rule>::empty());
        r
    }
}

/// The first rule that matches is the first of all the rules that match.
pub proof fn lemma_first_match_heads_matching(rules: Seq<Rule>, tags: Seq<Seq<char>>)
    ensures
        0 <= first_match(rules, tags) <= rules.len(),
        first_match(rules, tags) < rules.len() ==> {
            &&& matching_rules(rules, tags).len() > 0
            &&& matching_rules(rules, tags)[0] == rules[first_match(rules, tags)]
        },
        first_match(rules, tags) == rules.len() ==> matching_rules(rules, tags).len() == 0,
    decreases rules.len(),
{
    if rules.len() > 0 {
        let before = rules.drop_last();
        lemma_first_match_heads_matching(before, tags);
        lemma_first_match_prefix(rules, tags);
    }
}

/// Leaving out the last rule changes the first match only where that rule
/// was the first to match.
pub proof fn lemma_first_match_prefix(rules: Seq<Rule>, tags: Seq<Seq<char>>)
    requires
        rules.len() > 0,
    ensures
        first_match(rules.drop_last(), tags) < rules.len() - 1 ==> first_match(rules, tags)
            == first_match(rules.drop_last(), tags),
        first_match(rules.drop_last(), tags) == rules.len() - 1 ==> first_match(rules, tags) == (
        if rule_matches(rules.last(), tags) {
            rules.len() - 1
        } else {
            rules.len() as int
        }),
        0 <= first_match(rules.drop_last(), tags) <= rules.len() - 1,
    decreases rules.len(),
{
    if rules.len() == 1 {
        assert(rules.drop_last() =~= Seq::<Rule>::empty());
        assert(rules.drop_first() =~= Seq::<Rule>::empty());
    } else {
        let tail = rules.drop_first();
        assert(tail.drop_last() =~= rules.drop_last().drop_first());
        assert(rules.drop_last()[0] == rules[0]);
        lemma_first_match_prefix(tail, tags);
    }
}

} // verus!
