//! Which thumbnail belongs to which video, and which thumbnails are still
//! to be made.
//!
//! A thumbnail is named after the first characters of its video's
//! fingerprint, so that a video and its thumbnail are found from one
//! another.

use crate::error::Error;
use crate::library::{thumbs_view, Thumb, Thumbnail};
use crate::order::order_view;
use crate::restrictions::contains_tag;
use crate::tags_file::{entries_view, Entry, TagsVideo};
use crate::text::{chars_of, find_last_dot, last_dot, string_of, strings_view};
use vstd::prelude::*;
use vstd::string::StringExecFns;

verus! {

/// What the thumbnails stage has to do: the thumbnail of every video, in the
/// order of the videos, and the positions of those whose file is yet to be
/// made.
#[derive(Debug)]
pub struct ThumbnailPlan {
    pub mapping: Vec<Thumbnail>,
    pub missing: Vec<usize>,
}

/// The first `n` characters of `s`, or all of it where it is shorter.
pub open spec fn prefix_of(s: Seq<char>, n: nat) -> Seq<char> {
    if n <= s.len() {
        s.take(n as int)
    } else {
        s
    }
}

/// What the thumbnail of a video is named after: the start of what stands
/// before the last full stop of the video's name.
pub open spec fn thumbnail_stem(name: Seq<char>, prefix: nat) -> Option<Seq<char>> {
    if last_dot(name) < 0 {
        None
    } else {
        Some(prefix_of(name.take(last_dot(name)), prefix))
    }
}

/// The file name of a thumbnail.
pub open spec fn thumbnail_file(stem: Seq<char>) -> Seq<char> {
    stem + ".webp"@
}

/// The thumbnail of each video, in the order of the videos.
pub open spec fn planned(entries: Seq<Entry>, prefix: nat) -> Seq<Thumb> {
    Seq::new(
        entries.len(),
        |i: int|
            Thumb {
                video: entries[i].name,
                thumbnail: thumbnail_file(thumbnail_stem(entries[i].name, prefix).unwrap()),
            },
    )
}

/// The positions of the videos whose thumbnail is not among `existing`, in
/// ascending order.
pub open spec fn missing_of(entries: Seq<Entry>, prefix: nat, existing: Seq<Seq<char>>) -> Seq<
    int,
>
    decreases entries.len(),
{
    if entries.len() == 0 {
        Seq::empty()
    } else {
        let before = missing_of(entries.drop_last(), prefix, existing);
        if existing.contains(thumbnail_stem(entries.last().name, prefix).unwrap()) {
            before
        } else {
            before.push(entries.len() - 1)
        }
    }
}

/// Every video has something before a full stop in its name.
pub open spec fn all_have_stems(entries: Seq<Entry>) -> bool {
    forall|i: int| 0 <= i < entries.len() ==> last_dot((#[trigger] entries[i]).name) >= 0
}

/// What the thumbnail of the video is named after. Fails where the video's
/// name holds no full stop.
pub fn thumbnail_hash(video_name: &str, prefix: usize) -> (r: Result<String, Error>)
    ensures
        match r {
            Ok(stem) => thumbnail_stem(video_name@, prefix as nat) == Some(stem@),
            Err(e) => e == Error::MissingExtension && thumbnail_stem(
                video_name@,
                prefix as nat,
            ).is_none(),
        },
{
    let chars = chars_of(video_name);
    match find_last_dot(&chars) {
        None => Err(Error::MissingExtension),
        Some(dot) => {
            let end = if prefix <= dot {
                prefix
            } else {
                dot
            };
            let stem = string_of(&chars, 0, end);
            assert(chars@.subrange(0, end as int) =~= prefix_of(
                chars@.take(dot as int),
                prefix as nat,
            ));
            Ok(stem)
        },
    }
}

/// The file name of the thumbnail that is named after `stem`.
pub fn thumbnail_name(stem: &str) -> (name: String)
    ensures
        name@ == thumbnail_file(stem@),
{
    let mut name = String::from_str(stem);
    name.append(".webp");
    name
}

/// Plans the thumbnails of the videos. `existing` holds what the thumbnails
/// that are already there are named after. Fails where the name of a video
/// holds no full stop.
pub fn plan_thumbnails(videos: &Vec<TagsVideo>, prefix: usize, existing: &Vec<String>) -> (r:
    Result<ThumbnailPlan, Error>)
    ensures
        match r {
            Ok(plan) => {
                &&& all_have_stems(entries_view(videos@))
                &&& thumbs_view(plan.mapping@) == planned(
                    entries_view(videos@),
                    prefix as nat,
                )
                &&& order_view(plan.missing@) == missing_of(
                    entries_view(videos@),
                    prefix as nat,
                    strings_view(existing@),
                )
            },
            Err(e) => e == Error::MissingExtension && !all_have_stems(
                entries_view(videos@),
            ),
        },
{
    let ghost entries = entries_view(videos@);
    let mut mapping: Vec<Thumbnail> = Vec::new();
    let mut missing: Vec<usize> = Vec::new();
    let mut i: usize = 0;
    assert(entries.take(0) =~= Seq::<Entry>::empty());
    while i < videos.len()
        invariant
            i <= videos.len(),
            entries == entries_view(videos@),
            all_have_stems(entries.take(i as int)),
            thumbs_view(mapping@) =~= planned(entries.take(i as int), prefix as nat),
            order_view(missing@) =~= missing_of(
                entries.take(i as int),
                prefix as nat,
                strings_view(existing@),
            ),
        decreases videos.len() - i,
    {
        let video = &videos[i];
        assert(entries[i as int] == video@);
        assert(entries.take(i + 1).drop_last() =~= entries.take(i as int));
        match thumbnail_hash(video.name.as_str(), prefix) {
            Err(e) => {
                return Err(e);
            },
            Ok(stem) => {
                let thumbnail = Thumbnail {
                    video: video.name.clone(),
                    thumbnail: thumbnail_name(stem.as_str()),
                };
                let ghost before = mapping@;
                mapping.push(thumbnail);
                assert(thumbs_view(mapping@) =~= thumbs_view(before).push(thumbnail@));
                if !contains_tag(existing, &stem) {
                    missing.push(i);
                }
                assert forall|k: int| 0 <= k < i + 1 implies last_dot(
                    (#[trigger] entries.take(i + 1)[k]).name,
                ) >= 0 by {
                    if k < i {
                        assert(entries.take(i as int)[k] == entries.take(i + 1)[k]);
                    }
                }
            },
        }
        i += 1;
    }
    assert(entries.take(i as int) =~= entries);
    Ok(ThumbnailPlan { mapping, missing })
}

} // verus!
