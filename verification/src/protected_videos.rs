//! The first-match form of the access rules: a video is gated by the first
//! rule that it falls under, and by no other.

use crate::restrictions::{contains_all, contains_none, first_match, rule_matches, Rule};
use crate::tags_file::TagsVideo;
use crate::text::strings_view;
use vstd::prelude::*;

verus! {

/// The rules that restrict the visibility of the videos, in the order in
/// which they were declared.
#[derive(Debug)]
pub struct ProtectedVideos {
    pub rules: Vec<ProtectedVideosRule>,
}

/// One rule: it gates the videos that carry every tag of `with_tags` and
/// none of `without_tags`.
#[derive(Debug)]
pub struct ProtectedVideosRule {
    pub name: String,
    pub with_tags: Vec<String>,
    pub without_tags: Vec<String>,
    pub password: String,
}

impl View for ProtectedVideosRule {
    type V = Rule;

    open spec fn view(&self) -> Rule {
        Rule {
            name: self.name@,
            with_tags: strings_view(self.with_tags@),
            without_tags: strings_view(self.without_tags@),
            password: self.password@,
        }
    }
}

impl View for ProtectedVideos {
    type V = Seq<Rule>;

    open spec fn view(&self) -> Seq<Rule> {
        Seq::new(self.rules@.len(), |i: int| self.rules@[i]@)
    }
}

impl ProtectedVideosRule {
    /// Whether the video falls under this rule.
    pub fn matches(&self, video: &TagsVideo) -> (r: bool)
        ensures
            r == rule_matches(self@, video@.tags),
    {
        contains_all(&video.tags, &self.with_tags) && contains_none(
            &video.tags,
            &self.without_tags,
        )
    }
}

impl ProtectedVideos {
    /// The first rule, in declared order, that the video falls under.
    pub fn find_rule(&self, video: &TagsVideo) -> (r: Option<&ProtectedVideosRule>)
        ensures
            match r {
                Some(rule) => {
                    &&& first_match(self@, video@.tags) < self.rules@.len()
                    &&& *rule == self.rules@[first_match(self@, video@.tags)]
                },
                None => first_match(self@, video@.tags) == self.rules@.len(),
            },
    {
        let mut i: usize = 0;
        assert(self@.skip(0) =~= self@);
        while i < self.rules.len()
            invariant
                i <= self.rules.len(),
                first_match(self@, video@.tags) == i + first_match(
                    self@.skip(i as int),
                    video@.tags,
                ),
            decreases self.rules.len() - i,
        {
            assert(self@.skip(i as int)[0] == self.rules@[i as int]@);
            assert(self@.skip(i as int).drop_first() =~= self@.skip(i + 1));
            if self.rules[i].matches(video) {
                return Some(&self.rules[i]);
            }
            i += 1;
        }
        None
    }
}

} // verus!
