//! The library: the catalog joined with the access rules and the thumbnails,
//! ready to be rendered.

use crate::config::Config;
use crate::encrypt::{
    can_seal, encrypt, encrypt_with_nonce, is_token_for, sealable, token_ciphertext, token_iv,
};
use crate::error::Error;
use crate::order::{arranged, keys_view, order_view, sort_order, sorted_order, Key, SortKey};
use crate::restrictions::{
    lemma_first_match_heads_matching, matching_rules, rules_view, RestrictionRule, Restrictions,
    Rule,
};
use crate::tags_file::{Entry, TagsFile, TagsVideo};
use crate::text::{chars_of, lemma_strings_view_push, strings_view};
use vstd::prelude::*;
use vstd::utf8::encode_utf8;

verus! {

/// The videos of the library: the dated ones first, the latest date first,
/// then the undated ones; among equal dates by canonical name.
#[derive(Debug)]
pub struct Library {
    pub videos: Vec<LibraryVideo>,
}

/// One video of the library.
#[derive(Debug)]
pub struct LibraryVideo {
    pub date: Option<Date>,
    pub tags: Vec<String>,
    pub thumbnail: String,
    pub access: VideoAccess,
}

/// How a video is reached: by its name, or through the access tokens of the
/// rules that gate it.
#[derive(Debug)]
pub enum VideoAccess {
    Public { canonical_name: String },
    Restricted { accesses: Vec<LibraryRestriction> },
}

/// A calendar date as a tag spells it. The month and day are not checked
/// against the calendar.
#[derive(Debug, Clone, Copy, PartialEq, Eq, PartialOrd, Ord, Structural)]
pub struct Date {
    pub year: u16,
    pub month: u8,
    pub day: u8,
}

/// The access token of one rule.
#[derive(Debug)]
pub struct LibraryRestriction {
    pub rule: String,
    pub iv: String,
    pub ciphertext: String,
}

/// The thumbnail of one video.
#[derive(Debug)]
pub struct Thumbnail {
    pub video: String,
    pub thumbnail: String,
}

/// What a `LibraryRestriction` stands for.
pub struct Token {
    pub rule: Seq<char>,
    pub iv: Seq<char>,
    pub ciphertext: Seq<char>,
}

/// What a `VideoAccess` stands for.
pub enum Access {
    Public { canonical_name: Seq<char> },
    Restricted { accesses: Seq<Token> },
}

/// What a `LibraryVideo` stands for.
pub struct Video {
    pub date: Option<Date>,
    pub tags: Seq<Seq<char>>,
    pub thumbnail: Seq<char>,
    pub access: Access,
}

/// What a `Thumbnail` stands for.
pub struct Thumb {
    pub video: Seq<char>,
    pub thumbnail: Seq<char>,
}

impl View for LibraryRestriction {
    type V = Token;

    open spec fn view(&self) -> Token {
        Token { rule: self.rule@, iv: self.iv@, ciphertext: self.ciphertext@ }
    }
}

/// The tokens that a list of access tokens stands for.
pub open spec fn tokens_view(tokens: Seq<LibraryRestriction>) -> Seq<Token> {
    Seq::new(tokens.len(), |i: int| tokens[i]@)
}

impl View for VideoAccess {
    type V = Access;

    open spec fn view(&self) -> Access {
        match self {
            VideoAccess::Public { canonical_name } => Access::Public {
                canonical_name: canonical_name@,
            },
            VideoAccess::Restricted { accesses } => Access::Restricted {
                accesses: tokens_view(accesses@),
            },
        }
    }
}

impl View for LibraryVideo {
    type V = Video;

    open spec fn view(&self) -> Video {
        Video {
            date: self.date,
            tags: strings_view(self.tags@),
            thumbnail: self.thumbnail@,
            access: self.access@,
        }
    }
}

impl View for Library {
    type V = Seq<Video>;

    open spec fn view(&self) -> Seq<Video> {
        Seq::new(self.videos@.len(), |i: int| self.videos@[i]@)
    }
}

impl View for Thumbnail {
    type V = Thumb;

    open spec fn view(&self) -> Thumb {
        Thumb { video: self.video@, thumbnail: self.thumbnail@ }
    }
}

/// The thumbnails that a list of thumbnails stands for.
pub open spec fn thumbs_view(thumbnails: Seq<Thumbnail>) -> Seq<Thumb> {
    Seq::new(thumbnails.len(), |i: int| thumbnails[i]@)
}

/// An ASCII decimal digit.
pub open spec fn is_digit(c: char) -> bool {
    0x30 <= c as u32 <= 0x39
}

/// The value of an ASCII decimal digit.
pub open spec fn digit_value(c: char) -> int {
    c as u32 - 0x30
}

/// The tag has the shape `YYYY-MM-DD`, every letter an ASCII digit.
pub open spec fn is_date_tag(t: Seq<char>) -> bool {
    &&& t.len() == 10
    &&& is_digit(t[0])
    &&& is_digit(t[1])
    &&& is_digit(t[2])
    &&& is_digit(t[3])
    &&& t[4] == '-'
    &&& is_digit(t[5])
    &&& is_digit(t[6])
    &&& t[7] == '-'
    &&& is_digit(t[8])
    &&& is_digit(t[9])
}

/// The date that a tag of that shape spells.
pub open spec fn date_of_tag(t: Seq<char>) -> Date {
    Date {
        year: (1000 * digit_value(t[0]) + 100 * digit_value(t[1]) + 10 * digit_value(t[2])
            + digit_value(t[3])) as u16,
        month: (10 * digit_value(t[5]) + digit_value(t[6])) as u8,
        day: (10 * digit_value(t[8]) + digit_value(t[9])) as u8,
    }
}

/// The date of the first tag that has the shape of a date, whether or not
/// the calendar knows that date.
pub open spec fn first_date(tags: Seq<Seq<char>>) -> Option<Date>
    decreases tags.len(),
{
    if tags.len() == 0 {
        None
    } else if is_date_tag(tags[0]) {
        Some(date_of_tag(tags[0]))
    } else {
        first_date(tags.drop_first())
    }
}

/// Where a date stands in the library: a later date has a smaller rank, and
/// no date has the largest.
pub open spec fn date_rank(date: Option<Date>) -> int {
    match date {
        Some(d) => 0xFFFF_FFFF - ((d.year as int * 256 + d.month as int) * 256 + d.day as int),
        None => 0x1_0000_0000,
    }
}

/// What the videos of a catalog are ordered by in the library: the date of
/// each, then its name.
pub open spec fn library_keys(entries: Seq<Entry>) -> Seq<Key> {
    Seq::new(
        entries.len(),
        |i: int| Key { rank: date_rank(first_date(entries[i].tags)), text: entries[i].name },
    )
}

/// What the tags of a video are ordered by: their text.
pub open spec fn tag_keys(tags: Seq<Seq<char>>) -> Seq<Key> {
    Seq::new(tags.len(), |i: int| Key { rank: 0, text: tags[i] })
}

/// `sorted` holds the tags of `tags` in code point order.
pub open spec fn tags_in_order(sorted: Seq<Seq<char>>, tags: Seq<Seq<char>>) -> bool {
    exists|order: Seq<int>| #[trigger]
        sorted_order(tag_keys(tags), order) && sorted == arranged(tags, order)
}

/// The thumbnail of the video named `name`: that of the first entry for it.
pub open spec fn thumbnail_for(thumbnails: Seq<Thumb>, name: Seq<char>) -> Option<Seq<char>>
    decreases thumbnails.len(),
{
    if thumbnails.len() == 0 {
        None
    } else if thumbnails[0].video == name {
        Some(thumbnails[0].thumbnail)
    } else {
        thumbnail_for(thumbnails.drop_first(), name)
    }
}

/// Why a video of the catalog cannot enter the library, if anything stands
/// in its way: a rule gates it and its name is too long to be sealed, or it
/// has no thumbnail.
pub open spec fn entry_error(entry: Entry, rules: Seq<Rule>, thumbnails: Seq<Thumb>) -> Option<
    Error,
> {
    if matching_rules(rules, entry.tags).len() > 0 && !sealable(encode_utf8(entry.name).len()) {
        Some(Error::PlaintextTooLong)
    } else if thumbnail_for(thumbnails, entry.name).is_none() {
        Some(Error::MissingThumbnail)
    } else {
        None
    }
}

/// The error of the first video of the catalog that cannot enter the
/// library.
pub open spec fn first_failure(entries: Seq<Entry>, rules: Seq<Rule>, thumbnails: Seq<Thumb>) -> Option<
    Error,
>
    decreases entries.len(),
{
    if entries.len() == 0 {
        None
    } else if entry_error(entries[0], rules, thumbnails).is_some() {
        entry_error(entries[0], rules, thumbnails)
    } else {
        first_failure(entries.drop_first(), rules, thumbnails)
    }
}

/// `token` is the access token of `rule` for the video named `name`.
pub open spec fn token_of_rule(
    token: Token,
    rule: Rule,
    salt: Seq<char>,
    iterations: u32,
    name: Seq<char>,
) -> bool {
    &&& token.rule == rule.name
    &&& is_token_for(token.iv, token.ciphertext, rule.password, salt, iterations, name)
}

/// `access` is how the video `entry` is reached under `rules`: by its name
/// where no rule gates it, and else through one token for each rule that
/// does, in the order of the rules.
pub open spec fn access_of(
    access: Access,
    entry: Entry,
    rules: Seq<Rule>,
    salt: Seq<char>,
    iterations: u32,
) -> bool {
    let matching = matching_rules(rules, entry.tags);
    match access {
        Access::Public { canonical_name } => matching.len() == 0 && canonical_name == entry.name,
        Access::Restricted { accesses } => {
            &&& matching.len() > 0
            &&& accesses.len() == matching.len()
            &&& forall|k: int|
                0 <= k < accesses.len() ==> token_of_rule(
                    #[trigger] accesses[k],
                    matching[k],
                    salt,
                    iterations,
                    entry.name,
                )
        },
    }
}

/// `video` is what `entry` becomes in the library.
pub open spec fn converted(
    video: Video,
    entry: Entry,
    rules: Seq<Rule>,
    thumbnails: Seq<Thumb>,
    salt: Seq<char>,
    iterations: u32,
) -> bool {
    &&& video.date == first_date(entry.tags)
    &&& tags_in_order(video.tags, entry.tags)
    &&& thumbnail_for(thumbnails, entry.name) == Some(video.thumbnail)
    &&& access_of(video.access, entry, rules, salt, iterations)
}

/// `videos` is the library of the catalog `entries`: every video converted,
/// in the order of their dates and names.
pub open spec fn library_of(
    videos: Seq<Video>,
    entries: Seq<Entry>,
    rules: Seq<Rule>,
    thumbnails: Seq<Thumb>,
    salt: Seq<char>,
    iterations: u32,
) -> bool {
    exists|order: Seq<int>|
        {
            &&& #[trigger] sorted_order(library_keys(entries), order)
            &&& videos.len() == entries.len()
            &&& forall|k: int|
                0 <= k < videos.len() ==> converted(
                    #[trigger] videos[k],
                    entries[order[k]],
                    rules,
                    thumbnails,
                    salt,
                    iterations,
                )
        }
}

/// The value of an ASCII decimal digit, if `c` is one.
fn digit_of(c: char) -> (r: Option<u16>)
    ensures
        match r {
            Some(v) => is_digit(c) && v == digit_value(c),
            None => !is_digit(c),
        },
{
    let u: u32 = c as u32;
    if 0x30 <= u && u <= 0x39 {
        Some((u - 0x30) as u16)
    } else {
        None
    }
}

/// The date that a tag spells, if it has the shape `YYYY-MM-DD`.
pub fn parse_date(tag: &str) -> (r: Option<Date>)
    ensures
        r == (if is_date_tag(tag@) {
            Some(date_of_tag(tag@))
        } else {
            None
        }),
{
    let t = chars_of(tag);
    if t.len() != 10 || t[4] != '-' || t[7] != '-' {
        return None;
    }
    match (
        digit_of(t[0]),
        digit_of(t[1]),
        digit_of(t[2]),
        digit_of(t[3]),
        digit_of(t[5]),
        digit_of(t[6]),
        digit_of(t[8]),
        digit_of(t[9]),
    ) {
        (Some(y0), Some(y1), Some(y2), Some(y3), Some(m0), Some(m1), Some(d0), Some(d1)) => {
            Some(
                Date {
                    year: 1000 * y0 + 100 * y1 + 10 * y2 + y3,
                    month: (10 * m0 + m1) as u8,
                    day: (10 * d0 + d1) as u8,
                },
            )
        },
        _ => None,
    }
}

/// The date of a video: that of its first tag that has the shape of a date.
pub fn extract_date(tags: &Vec<String>) -> (r: Option<Date>)
    ensures
        r == first_date(strings_view(tags@)),
{
    let mut i: usize = 0;
    assert(strings_view(tags@).skip(0) =~= strings_view(tags@));
    while i < tags.len()
        invariant
            i <= tags.len(),
            first_date(strings_view(tags@)) == first_date(strings_view(tags@).skip(i as int)),
        decreases tags.len() - i,
    {
        assert(strings_view(tags@).skip(i as int)[0] == tags@[i as int]@);
        assert(strings_view(tags@).skip(i as int).drop_first() =~= strings_view(tags@).skip(i + 1));
        match parse_date(tags[i].as_str()) {
            Some(date) => {
                return Some(date);
            },
            None => {},
        }
        i += 1;
    }
    None
}

/// The rank of a date in the library.
pub fn rank_of(date: Option<Date>) -> (r: u64)
    ensures
        r == date_rank(date),
{
    match date {
        Some(d) => 0xFFFF_FFFF - ((d.year as u64 * 256 + d.month as u64) * 256 + d.day as u64),
        None => 0x1_0000_0000,
    }
}

/// The thumbnail of the video named `name`, if one is listed.
pub fn find_thumbnail<'a>(thumbnails: &'a Vec<Thumbnail>, name: &String) -> (r: Option<
    &'a String,
>)
    ensures
        match r {
            Some(t) => thumbnail_for(thumbs_view(thumbnails@), name@) == Some(t@),
            None => thumbnail_for(thumbs_view(thumbnails@), name@).is_none(),
        },
{
    let ghost all = thumbs_view(thumbnails@);
    let mut i: usize = 0;
    assert(all.skip(0) =~= all);
    while i < thumbnails.len()
        invariant
            i <= thumbnails.len(),
            all == thumbs_view(thumbnails@),
            thumbnail_for(all, name@) == thumbnail_for(all.skip(i as int), name@),
        decreases thumbnails.len() - i,
    {
        assert(all.skip(i as int)[0] == thumbnails@[i as int]@);
        assert(all.skip(i as int).drop_first() =~= all.skip(i + 1));
        if thumbnails[i].video == *name {
            return Some(&thumbnails[i].thumbnail);
        }
        i += 1;
    }
    None
}

/// The tags in code point order.
pub fn sorted_tags(tags: &Vec<String>) -> (sorted: Vec<String>)
    ensures
        tags_in_order(strings_view(sorted@), strings_view(tags@)),
{
    let ghost items = strings_view(tags@);
    let mut keys: Vec<SortKey> = Vec::new();
    let mut i: usize = 0;
    while i < tags.len()
        invariant
            i <= tags.len(),
            items == strings_view(tags@),
            keys_view(keys@) =~= tag_keys(items).take(i as int),
        decreases tags.len() - i,
    {
        let key = SortKey { rank: 0, text: chars_of(tags[i].as_str()) };
        let ghost before = keys@;
        keys.push(key);
        assert(keys_view(keys@) =~= keys_view(before).push(key@));
        assert(key@ == tag_keys(items)[i as int]);
        i += 1;
    }
    assert(tag_keys(items).take(i as int) =~= tag_keys(items));
    let order = sort_order(&keys);
    let ghost positions = order_view(order@);
    let mut sorted: Vec<String> = Vec::new();
    let mut k: usize = 0;
    while k < order.len()
        invariant
            k <= order.len(),
            items == strings_view(tags@),
            positions == order_view(order@),
            sorted_order(tag_keys(items), positions),
            strings_view(sorted@) =~= arranged(items, positions).take(k as int),
        decreases order.len() - k,
    {
        assert(0 <= positions[k as int] < tags@.len());
        let tag = tags[order[k]].clone();
        proof {
            lemma_strings_view_push(sorted@, tag);
        }
        sorted.push(tag);
        k += 1;
    }
    assert(arranged(items, positions).take(k as int) =~= arranged(items, positions));
    sorted
}

/// The access token of `rule` for the video named `video_name`, sealed under
/// the given nonce.
pub fn create_file_access_with_nonce(
    config: &Config,
    video_name: &str,
    rule: &RestrictionRule,
    nonce: &[u8; 12],
) -> (r: Result<LibraryRestriction, Error>)
    ensures
        match r {
            Ok(token) => {
                &&& sealable(encode_utf8(video_name@).len())
                &&& token.rule@ == rule.name@
                &&& token.iv@ == token_iv(nonce@)
                &&& token.ciphertext@ == token_ciphertext(
                    rule.password@,
                    config.file_access_salt@,
                    config.file_access_iterations,
                    nonce@,
                    video_name@,
                )
                &&& token_of_rule(
                    token@,
                    rule@,
                    config.file_access_salt@,
                    config.file_access_iterations,
                    video_name@,
                )
            },
            Err(e) => e == Error::PlaintextTooLong && !sealable(encode_utf8(video_name@).len()),
        },
{
    match encrypt_with_nonce(
        rule.password.as_str(),
        config.file_access_salt.as_str(),
        config.file_access_iterations,
        nonce,
        video_name,
    ) {
        Err(e) => Err(e),
        Ok(encrypted) => Ok(
            LibraryRestriction {
                rule: rule.name.clone(),
                iv: encrypted.iv,
                ciphertext: encrypted.ciphertext,
            },
        ),
    }
}

/// The access token of `rule` for the video named `video_name`, sealed under
/// a nonce drawn for this call. Fails where the name is too long to be
/// sealed, and only there.
pub fn create_file_access(config: &Config, video_name: &str, rule: &RestrictionRule) -> (r: Result<
    LibraryRestriction,
    Error,
>)
    ensures
        match r {
            Ok(token) => {
                &&& sealable(encode_utf8(video_name@).len())
                &&& token_of_rule(
                    token@,
                    rule@,
                    config.file_access_salt@,
                    config.file_access_iterations,
                    video_name@,
                )
            },
            Err(e) => e == Error::PlaintextTooLong && !sealable(encode_utf8(video_name@).len()),
        },
{
    match encrypt(
        rule.password.as_str(),
        config.file_access_salt.as_str(),
        config.file_access_iterations,
        video_name,
    ) {
        Err(e) => Err(e),
        Ok(encrypted) => Ok(
            LibraryRestriction {
                rule: rule.name.clone(),
                iv: encrypted.iv,
                ciphertext: encrypted.ciphertext,
            },
        ),
    }
}

/// Why the video cannot enter the library, if anything stands in its way.
pub fn check_video(restrictions: &Restrictions, video: &TagsVideo, thumbnails: &Vec<Thumbnail>) -> (r:
    Option<Error>)
    ensures
        r == entry_error(video@, restrictions@, thumbs_view(thumbnails@)),
{
    proof {
        lemma_first_match_heads_matching(restrictions@, video@.tags);
    }
    if restrictions.find(video).is_some() && !can_seal(video.name.as_str()) {
        return Some(Error::PlaintextTooLong);
    }
    if find_thumbnail(thumbnails, &video.name).is_none() {
        return Some(Error::MissingThumbnail);
    }
    None
}

/// Converts one video of the catalog: its date, its tags in order, its
/// thumbnail, and how it is reached. Fails where `check_video` finds an
/// error, with that error, and nowhere else.
pub fn convert_video(
    config: &Config,
    restrictions: &Restrictions,
    video: &TagsVideo,
    thumbnails: &Vec<Thumbnail>,
) -> (r: Result<LibraryVideo, Error>)
    ensures
        match r {
            Ok(converted_video) => {
                &&& entry_error(video@, restrictions@, thumbs_view(thumbnails@)).is_none()
                &&& converted(
                    converted_video@,
                    video@,
                    restrictions@,
                    thumbs_view(thumbnails@),
                    config.file_access_salt@,
                    config.file_access_iterations,
                )
            },
            Err(e) => entry_error(video@, restrictions@, thumbs_view(thumbnails@)) == Some(e),
        },
{
    let found = restrictions.find_rules(video);
    let ghost matching = matching_rules(restrictions@, video@.tags);
    let mut accesses: Vec<LibraryRestriction> = Vec::new();
    let mut k: usize = 0;
    while k < found.len()
        invariant
            k <= found.len(),
            rules_view(found@) == matching,
            matching == matching_rules(restrictions@, video@.tags),
            accesses@.len() == k,
            k > 0 ==> sealable(encode_utf8(video.name@).len()),
            forall|j: int|
                0 <= j < k ==> token_of_rule(
                    #[trigger] tokens_view(accesses@)[j],
                    matching[j],
                    config.file_access_salt@,
                    config.file_access_iterations,
                    video.name@,
                ),
        decreases found.len() - k,
    {
        assert(rules_view(found@)[k as int] == found@[k as int]@);
        assert(matching.len() == found@.len());
        match create_file_access(config, video.name.as_str(), found[k]) {
            Err(e) => {
                return Err(e);
            },
            Ok(token) => {
                let ghost before = accesses@;
                accesses.push(token);
                assert(tokens_view(accesses@) =~= tokens_view(before).push(token@));
            },
        }
        k += 1;
    }
    let tags = sorted_tags(&video.tags);
    let date = extract_date(&video.tags);
    let thumbnail = match find_thumbnail(thumbnails, &video.name) {
        None => {
            return Err(Error::MissingThumbnail);
        },
        Some(t) => t.clone(),
    };
    let access = if found.len() == 0 {
        VideoAccess::Public { canonical_name: video.name.clone() }
    } else {
        VideoAccess::Restricted { accesses }
    };
    Ok(LibraryVideo { date, tags, thumbnail, access })
}

/// Builds the library of a catalog.
///
/// Fails with the error of the first video of the catalog that cannot enter
/// the library, and succeeds where there is none. On success every video is
/// converted and the videos stand in the order of the library.
pub fn create_library(
    config: &Config,
    tags_file: &TagsFile,
    restrictions: &Restrictions,
    thumbnails: &Vec<Thumbnail>,
) -> (r: Result<Library, Error>)
    ensures
        match r {
            Ok(library) => {
                &&& first_failure(tags_file@, restrictions@, thumbs_view(thumbnails@)).is_none()
                &&& library_of(
                    library@,
                    tags_file@,
                    restrictions@,
                    thumbs_view(thumbnails@),
                    config.file_access_salt@,
                    config.file_access_iterations,
                )
            },
            Err(e) => first_failure(tags_file@, restrictions@, thumbs_view(thumbnails@)) == Some(e),
        },
{
    let ghost entries = tags_file@;
    let ghost rules = restrictions@;
    let ghost thumbs = thumbs_view(thumbnails@);
    let mut i: usize = 0;
    assert(entries.skip(0) =~= entries);
    while i < tags_file.videos.len()
        invariant
            i <= tags_file.videos.len(),
            entries == tags_file@,
            rules == restrictions@,
            thumbs == thumbs_view(thumbnails@),
            first_failure(entries, rules, thumbs) == first_failure(
                entries.skip(i as int),
                rules,
                thumbs,
            ),
            forall|j: int| 0 <= j < i ==> entry_error(#[trigger] entries[j], rules, thumbs).is_none(),
        decreases tags_file.videos.len() - i,
    {
        assert(entries.skip(i as int)[0] == tags_file.videos@[i as int]@);
        assert(entries.skip(i as int).drop_first() =~= entries.skip(i + 1));
        match check_video(restrictions, &tags_file.videos[i], thumbnails) {
            Some(e) => {
                return Err(e);
            },
            None => {},
        }
        i += 1;
    }
    let mut keys: Vec<SortKey> = Vec::new();
    let mut i: usize = 0;
    while i < tags_file.videos.len()
        invariant
            i <= tags_file.videos.len(),
            entries == tags_file@,
            keys_view(keys@) =~= library_keys(entries).take(i as int),
        decreases tags_file.videos.len() - i,
    {
        let video = &tags_file.videos[i];
        let key = SortKey {
            rank: rank_of(extract_date(&video.tags)),
            text: chars_of(video.name.as_str()),
        };
        let ghost before = keys@;
        keys.push(key);
        assert(keys_view(keys@) =~= keys_view(before).push(key@));
        assert(key@ == library_keys(entries)[i as int]);
        i += 1;
    }
    assert(library_keys(entries).take(i as int) =~= library_keys(entries));
    let order = sort_order(&keys);
    let ghost positions = order_view(order@);
    let mut videos: Vec<LibraryVideo> = Vec::new();
    let mut k: usize = 0;
    while k < order.len()
        invariant
            k <= order.len(),
            entries == tags_file@,
            rules == restrictions@,
            thumbs == thumbs_view(thumbnails@),
            positions == order_view(order@),
            sorted_order(library_keys(entries), positions),
            forall|j: int|
                0 <= j < entries.len() ==> entry_error(#[trigger] entries[j], rules, thumbs).is_none(),
            videos@.len() == k,
            forall|j: int|
                0 <= j < k ==> converted(
                    (#[trigger] videos@[j])@,
                    entries[positions[j]],
                    rules,
                    thumbs,
                    config.file_access_salt@,
                    config.file_access_iterations,
                ),
        decreases order.len() - k,
    {
        assert(0 <= positions[k as int] < entries.len());
        let video = &tags_file.videos[order[k]];
        assert(video@ == entries[positions[k as int]]);
        match convert_video(config, restrictions, video, thumbnails) {
            Err(e) => {
                assert(false);
                return Err(e);
            },
            Ok(converted_video) => {
                videos.push(converted_video);
            },
        }
        k += 1;
    }
    let library = Library { videos };
    assert(library_of(
        library@,
        entries,
        rules,
        thumbs,
        config.file_access_salt@,
        config.file_access_iterations,
    )) by {
        assert(sorted_order(library_keys(entries), positions));
    }
    Ok(library)
}

/// What `first_failure` finds: where it finds nothing, no video stands in the
/// way; where it finds an error, that is the error of a video before which
/// none stands in the way.
pub proof fn lemma_first_failure(entries: Seq<Entry>, rules: Seq<Rule>, thumbnails: Seq<Thumb>)
    ensures
        match first_failure(entries, rules, thumbnails) {
            None => forall|i: int|
                0 <= i < entries.len() ==> entry_error(
                    #[trigger] entries[i],
                    rules,
                    thumbnails,
                ).is_none(),
            Some(e) => exists|i: int|
                {
                    &&& 0 <= i < entries.len()
                    &&& entry_error(#[trigger] entries[i], rules, thumbnails) == Some(e)
                    &&& forall|j: int|
                        0 <= j < i ==> entry_error(
                            #[trigger] entries[j],
                            rules,
                            thumbnails,
                        ).is_none()
                },
        },
    decreases entries.len(),
{
    if entries.len() > 0 {
        let rest = entries.drop_first();
        lemma_first_failure(rest, rules, thumbnails);
        if entry_error(entries[0], rules, thumbnails).is_some() {
            assert(forall|j: int|
                0 <= j < 0 ==> entry_error(#[trigger] entries[j], rules, thumbnails).is_none());
        } else {
            match first_failure(rest, rules, thumbnails) {
                None => {
                    assert forall|i: int| 0 <= i < entries.len() implies entry_error(
                        #[trigger] entries[i],
                        rules,
                        thumbnails,
                    ).is_none() by {
                        if i > 0 {
                            assert(entries[i] == rest[i - 1]);
                        }
                    }
                },
                Some(e) => {
                    let i = choose|i: int|
                        {
                            &&& 0 <= i < rest.len()
                            &&& entry_error(#[trigger] rest[i], rules, thumbnails) == Some(e)
                            &&& forall|j: int|
                                0 <= j < i ==> entry_error(
                                    #[trigger] rest[j],
                                    rules,
                                    thumbnails,
                                ).is_none()
                        };
                    assert(entries[i + 1] == rest[i]);
                    assert forall|j: int| 0 <= j < i + 1 implies entry_error(
                        #[trigger] entries[j],
                        rules,
                        thumbnails,
                    ).is_none() by {
                        if j > 0 {
                            assert(entries[j] == rest[j - 1]);
                        }
                    }
                },
            }
        }
    }
}

/// The date `a` is later than the date `b`: by the year, then the month, then
/// the day.
pub open spec fn later(a: Date, b: Date) -> bool {
    ||| a.year > b.year
    ||| a.year == b.year && a.month > b.month
    ||| a.year == b.year && a.month == b.month && a.day > b.day
}

/// In the library a later date stands before an earlier one, equal dates
/// stand together, and a video without a date stands after every dated one.
pub proof fn lemma_date_rank(a: Date, b: Date)
    ensures
        date_rank(Some(a)) < date_rank(Some(b)) <==> later(a, b),
        date_rank(Some(a)) == date_rank(Some(b)) <==> a == b,
        date_rank(Some(a)) < date_rank(None),
        0 <= date_rank(Some(a)) <= 0xFFFF_FFFF,
{
}

} // verus!
