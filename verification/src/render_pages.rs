//! What the pages show of the library's tags: each tag once, with a name
//! that can stand in a file name.

use crate::ingest::{merge_tags, merged_tags};
use crate::library::{Library, Video};
use crate::text::{chars_of, strings_view};
use unidecode::unidecode;
use vstd::prelude::*;

verus! {

/// A tag and the name of its page.
#[derive(Debug)]
pub struct TagData {
    pub name: String,
    pub clean_name: String,
}

/// The ASCII transliteration that `unidecode` gives of a text.
pub uninterp spec fn unidecoded(text: Seq<char>) -> Seq<char>;

/// An ASCII letter or digit.
pub open spec fn is_ascii_alphanumeric(c: char) -> bool {
    let u = c as u32;
    (0x30 <= u <= 0x39) || (0x41 <= u <= 0x5A) || (0x61 <= u <= 0x7A)
}

/// `text` with a hyphen in place of every character that is no ASCII letter
/// or digit.
pub open spec fn cleaned(text: Seq<char>) -> Seq<char> {
    Seq::new(
        text.len(),
        |i: int|
            if is_ascii_alphanumeric(text[i]) {
                text[i]
            } else {
                '-'
            },
    )
}

/// The name of a tag's page.
pub open spec fn clean_name_of(tag: Seq<char>) -> Seq<char> {
    cleaned(unidecoded(tag))
}

/// The tags of the videos, each once, in the order in which they first
/// appear.
pub open spec fn distinct_tags(videos: Seq<Video>) -> Seq<Seq<char>>
    decreases videos.len(),
{
    if videos.len() == 0 {
        Seq::empty()
    } else {
        merged_tags(distinct_tags(videos.drop_last()), videos.last().tags)
    }
}

/// `unidecode::unidecode`: the transliteration of the text, a function of
/// the text alone.
#[verifier::external_body]
fn transliterate(text: &str) -> (out: String)
    ensures
        out@ == unidecoded(text@),
{
    unidecode(text)
}

/// `text` with a hyphen in place of every character that is no ASCII letter
/// or digit.
pub fn clean(text: &str) -> (out: String)
    ensures
        out@ == cleaned(text@),
{
    let chars = chars_of(text);
    let mut out = String::new();
    let mut i: usize = 0;
    while i < chars.len()
        invariant
            i <= chars.len(),
            chars@ == text@,
            out@ =~= cleaned(text@).take(i as int),
        decreases chars.len() - i,
    {
        let c = chars[i];
        let u: u32 = c as u32;
        if (0x30 <= u && u <= 0x39) || (0x41 <= u && u <= 0x5A) || (0x61 <= u && u <= 0x7A) {
            out.push(c);
        } else {
            out.push('-');
        }
        i += 1;
    }
    assert(cleaned(text@).take(i as int) =~= cleaned(text@));
    out
}

/// A tag with the name of its page: its transliteration, cleaned.
pub fn tag_data(tag: &String) -> (data: TagData)
    ensures
        data.name@ == tag@,
        data.clean_name@ == clean_name_of(tag@),
{
    let plain = transliterate(tag.as_str());
    TagData { name: tag.clone(), clean_name: clean(plain.as_str()) }
}

/// The tags of the library, each once, in the order in which they first
/// appear.
pub fn all_tags(library: &Library) -> (tags: Vec<String>)
    ensures
        strings_view(tags@) == distinct_tags(library@),
{
    let mut tags: Vec<String> = Vec::new();
    let mut i: usize = 0;
    assert(library@.take(0) =~= Seq::<Video>::empty());
    assert(strings_view(tags@) =~= Seq::<Seq<char>>::empty());
    while i < library.videos.len()
        invariant
            i <= library.videos.len(),
            strings_view(tags@) == distinct_tags(library@.take(i as int)),
        decreases library.videos.len() - i,
    {
        assert(library@.take(i + 1).drop_last() =~= library@.take(i as int));
        assert(library@.take(i + 1).last() == library.videos@[i as int]@);
        merge_tags(&mut tags, &library.videos[i].tags);
        i += 1;
    }
    assert(library@.take(i as int) =~= library@);
    tags
}

} // verus!
