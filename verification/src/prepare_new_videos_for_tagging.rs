//! Laying out new videos in batches that wait for their tags.

use crate::tags_file::{entries_view, Entry, TagsFile, TagsVideo};
use crate::text::{decimal, push_decimal, strings_view};
use vstd::prelude::*;
use vstd::string::StringExecFns;

verus! {

/// The name of the directory of the batch with number `id`.
pub open spec fn part_dir(id: u64) -> Seq<char> {
    "part-"@ + decimal(id as nat)
}

/// The untagged entries of a batch: one for each file name, in order.
pub open spec fn untagged(file_names: Seq<Seq<char>>) -> Seq<Entry> {
    Seq::new(file_names.len(), |i: int| Entry { name: file_names[i], tags: Seq::empty() })
}

/// The name of the directory of the batch with number `id`.
pub fn part_name(id: u64) -> (name: String)
    ensures
        name@ == part_dir(id),
{
    let mut name = String::from_str("part-");
    push_decimal(&mut name, id);
    name
}

/// The tags file of a new batch: every file listed, none tagged yet.
pub fn new_batch(file_names: &Vec<String>) -> (batch: TagsFile)
    ensures
        batch@ == untagged(strings_view(file_names@)),
{
    let mut videos: Vec<TagsVideo> = Vec::new();
    let mut i: usize = 0;
    while i < file_names.len()
        invariant
            i <= file_names.len(),
            entries_view(videos@) =~= untagged(strings_view(file_names@)).take(i as int),
        decreases file_names.len() - i,
    {
        let video = TagsVideo::new(file_names[i].clone());
        let ghost before = videos@;
        videos.push(video);
        assert(entries_view(videos@) =~= entries_view(before).push(video@));
        i += 1;
    }
    assert(untagged(strings_view(file_names@)).take(i as int) =~= untagged(
        strings_view(file_names@),
    ));
    TagsFile { videos }
}

} // verus!
