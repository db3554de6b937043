//! Folding newly tagged videos into the catalog.
//!
//! What touches the disk is left to the caller: it hashes a file, looks in the
//! content store, and moves or deletes the file as it is told. The decisions
//! are made here: the canonical name of a video, what becomes of the catalog
//! and of the raw file, and which entries of a batch stay pending.

use crate::error::Error;
use crate::restrictions::contains_tag;
use crate::tags_file::{entries_view, serialize_ledger, Entry, TagsFile, TagsVideo};
use crate::text::{
    chars_of, clone_strings, find_last_dot, last_dot, lemma_strings_view_push, string_of,
    strings_view,
};
use vstd::prelude::*;
use vstd::string::StringExecFns;

verus! {

/// What the caller does with the raw file of a video.
#[derive(Debug, Clone, Copy, PartialEq, Eq, Structural)]
pub enum StoreAction {
    /// Move it into the content store, under the video's canonical name.
    MoveIntoStore,
    /// Delete it: the store already holds these bytes.
    DiscardDuplicate,
}

/// What becomes of a batch once its videos were handled.
#[derive(Debug)]
pub enum BatchOutcome {
    /// Every entry was ingested: remove the batch.
    Remove,
    /// Some entries are still pending: this is the new text of the batch's
    /// tags file.
    Rewrite(String),
}

/// What follows the last full stop of a file name, if it holds one.
pub open spec fn extension(name: Seq<char>) -> Option<Seq<char>> {
    if last_dot(name) < 0 {
        None
    } else {
        Some(name.skip(last_dot(name) + 1))
    }
}

/// The content-addressed name of a video: its fingerprint, a full stop, and
/// the extension of its original name.
pub open spec fn canonical(hash: Seq<char>, original_name: Seq<char>) -> Option<Seq<char>> {
    match extension(original_name) {
        None => None,
        Some(ext) => Some(hash + seq!['.'] + ext),
    }
}

/// `existing`, followed by the tags of `added` that are not there yet, each
/// once, in their order.
pub open spec fn merged_tags(existing: Seq<Seq<char>>, added: Seq<Seq<char>>) -> Seq<Seq<char>>
    decreases added.len(),
{
    if added.len() == 0 {
        existing
    } else {
        let merged = merged_tags(existing, added.drop_last());
        if merged.contains(added.last()) {
            merged
        } else {
            merged.push(added.last())
        }
    }
}

/// The position of the first entry named `name`, or the number of entries
/// where there is none.
pub open spec fn find_entry(entries: Seq<Entry>, name: Seq<char>) -> int
    decreases entries.len(),
{
    if entries.len() == 0 {
        0
    } else if entries[0].name == name {
        0
    } else {
        1 + find_entry(entries.drop_first(), name)
    }
}

/// The catalog lists a video named `name`.
pub open spec fn listed(entries: Seq<Entry>, name: Seq<char>) -> bool {
    find_entry(entries, name) < entries.len()
}

/// No two entries share a name.
pub open spec fn unique_names(entries: Seq<Entry>) -> bool {
    forall|i: int, j: int|
        0 <= i < j < entries.len() ==> (#[trigger] entries[i]).name != (#[trigger] entries[j]).name
}

/// The catalog after a video named `name` with tags `tags` was handled, the
/// content store holding a file of that name (`in_store`) or not.
///
/// A video that the catalog lists has the new tags merged into its entry. One
/// that neither the catalog nor the store knows gets a new entry at the end.
/// Where the store holds the file and the catalog does not list it, nothing
/// changes.
pub open spec fn ingested(
    entries: Seq<Entry>,
    name: Seq<char>,
    tags: Seq<Seq<char>>,
    in_store: bool,
) -> Seq<Entry> {
    let i = find_entry(entries, name);
    if i < entries.len() {
        entries.update(i, Entry { name: entries[i].name, tags: merged_tags(entries[i].tags, tags) })
    } else if in_store {
        entries
    } else {
        entries.push(Entry { name, tags })
    }
}

/// What is done with the raw file: it is moved into the store unless the
/// store already holds its bytes.
pub open spec fn action_for(in_store: bool) -> StoreAction {
    if in_store {
        StoreAction::DiscardDuplicate
    } else {
        StoreAction::MoveIntoStore
    }
}

/// The store holds the file but the catalog does not list it.
pub open spec fn inconsistent(entries: Seq<Entry>, name: Seq<char>, in_store: bool) -> bool {
    in_store && !listed(entries, name)
}

/// The names of the files in the store after the raw file was moved into it
/// or discarded.
pub open spec fn store_after(store: Set<Seq<char>>, name: Seq<char>) -> Set<Seq<char>> {
    match action_for(store.contains(name)) {
        StoreAction::MoveIntoStore => store.insert(name),
        StoreAction::DiscardDuplicate => store,
    }
}

/// A video is ready to be ingested once it has a tag.
pub open spec fn tagged(e: Entry) -> bool {
    e.tags.len() > 0
}

/// The entry at `i` was ingested: it is tagged and flagged as done.
pub open spec fn settled(entries: Seq<Entry>, done: Seq<bool>, i: int) -> bool {
    0 <= i < entries.len() && tagged(entries[i]) && i < done.len() && done[i]
}

/// The entries of a batch that were not ingested, in their order.
pub open spec fn still_pending(entries: Seq<Entry>, done: Seq<bool>) -> Seq<Entry>
    decreases entries.len(),
{
    if entries.len() == 0 {
        Seq::empty()
    } else {
        let before = still_pending(entries.drop_last(), done);
        if settled(entries, done, entries.len() - 1) {
            before
        } else {
            before.push(entries.last())
        }
    }
}

/// The extension of a file name. Fails where the name holds no full stop.
pub fn extension_of(name: &str) -> (r: Result<String, Error>)
    ensures
        match r {
            Ok(ext) => extension(name@) == Some(ext@),
            Err(e) => e == Error::MissingExtension && extension(name@).is_none(),
        },
{
    let chars = chars_of(name);
    match find_last_dot(&chars) {
        None => Err(Error::MissingExtension),
        Some(i) => {
            let ext = string_of(&chars, i + 1, chars.len());
            assert(chars@.subrange(i + 1, chars.len() as int) =~= name@.skip(i + 1));
            Ok(ext)
        },
    }
}

/// The canonical name of a video, from the fingerprint of its bytes and its
/// original name. Fails where the original name has no extension.
pub fn canonical_name(hash: &str, original_name: &str) -> (r: Result<String, Error>)
    ensures
        match r {
            Ok(name) => canonical(hash@, original_name@) == Some(name@),
            Err(e) => e == Error::MissingExtension && canonical(hash@, original_name@).is_none(),
        },
{
    match extension_of(original_name) {
        Err(e) => Err(e),
        Ok(ext) => {
            let mut name = String::from_str(hash);
            name.push('.');
            name.append(ext.as_str());
            Ok(name)
        },
    }
}

/// Adds to `existing` the tags of `added` that it does not hold yet.
pub fn merge_tags(existing: &mut Vec<String>, added: &Vec<String>)
    ensures
        strings_view(final(existing)@) == merged_tags(
            strings_view(old(existing)@),
            strings_view(added@),
        ),
{
    let mut i: usize = 0;
    assert(strings_view(added@).take(0) =~= Seq::<Seq<char>>::empty());
    while i < added.len()
        invariant
            i <= added.len(),
            strings_view(existing@) == merged_tags(
                strings_view(old(existing)@),
                strings_view(added@).take(i as int),
            ),
        decreases added.len() - i,
    {
        assert(strings_view(added@).take(i + 1).drop_last() =~= strings_view(added@).take(
            i as int,
        ));
        assert(strings_view(added@).take(i + 1).last() == added@[i as int]@);
        if !contains_tag(existing, &added[i]) {
            let tag = added[i].clone();
            proof {
                lemma_strings_view_push(existing@, tag);
            }
            existing.push(tag);
        }
        i += 1;
    }
    assert(strings_view(added@).take(i as int) =~= strings_view(added@));
}

/// Where the catalog lists `name`, if it does.
pub fn position_of(all_tags: &TagsFile, name: &String) -> (r: Option<usize>)
    ensures
        match r {
            Some(i) => i == find_entry(all_tags@, name@) && i < all_tags.videos@.len(),
            None => find_entry(all_tags@, name@) == all_tags.videos@.len(),
        },
{
    let mut i: usize = 0;
    assert(all_tags@.skip(0) =~= all_tags@);
    while i < all_tags.videos.len()
        invariant
            i <= all_tags.videos.len(),
            find_entry(all_tags@, name@) == i + find_entry(all_tags@.skip(i as int), name@),
        decreases all_tags.videos.len() - i,
    {
        assert(all_tags@.skip(i as int)[0] == all_tags.videos@[i as int]@);
        assert(all_tags@.skip(i as int).drop_first() =~= all_tags@.skip(i + 1));
        if all_tags.videos[i].name == *name {
            return Some(i);
        }
        i += 1;
    }
    None
}

/// What to do with the raw file of a video: move it into the content store,
/// or discard it where the store already holds a file of its canonical name
/// (`in_store`).
pub fn store_action(in_store: bool) -> (action: StoreAction)
    ensures
        action == action_for(in_store),
{
    if in_store {
        StoreAction::DiscardDuplicate
    } else {
        StoreAction::MoveIntoStore
    }
}

/// Brings the catalog up to date with one tagged video whose canonical name
/// is known, once its raw file was moved into the store or discarded.
///
/// `in_store` says whether the content store held a file of that name before.
/// Fails with `InconsistentStore`, and leaves the catalog as it is, where the
/// store held the file and the catalog does not list it.
pub fn ingest_video(
    all_tags: &mut TagsFile,
    canonical_name: String,
    tags: &Vec<String>,
    in_store: bool,
) -> (r: Result<(), Error>)
    ensures
        match r {
            Ok(()) => !inconsistent(old(all_tags)@, canonical_name@, in_store),
            Err(e) => e == Error::InconsistentStore && inconsistent(
                old(all_tags)@,
                canonical_name@,
                in_store,
            ),
        },
        final(all_tags)@ == ingested(
            old(all_tags)@,
            canonical_name@,
            strings_view(tags@),
            in_store,
        ),
        unique_names(old(all_tags)@) ==> unique_names(final(all_tags)@),
{
    proof {
        lemma_ingested_unique(old(all_tags)@, canonical_name@, strings_view(tags@), in_store);
    }
    match position_of(all_tags, &canonical_name) {
        Some(i) => {
            let name = all_tags.videos[i].name.clone();
            let mut merged = clone_strings(&all_tags.videos[i].tags);
            merge_tags(&mut merged, tags);
            let ghost before = all_tags.videos@;
            let video = TagsVideo { name, tags: merged };
            all_tags.videos.set(i, video);
            assert(all_tags@ =~= entries_view(before).update(i as int, video@));
            Ok(())
        },
        None => {
            if in_store {
                Err(Error::InconsistentStore)
            } else {
                let ghost before = all_tags.videos@;
                let video = TagsVideo { name: canonical_name, tags: clone_strings(tags) };
                all_tags.videos.push(video);
                assert(all_tags@ =~= entries_view(before).push(video@));
                Ok(())
            }
        },
    }
}

/// Whether the video has a tag, and so is ready to be ingested.
pub fn is_tagged(video: &TagsVideo) -> (r: bool)
    ensures
        r == tagged(video@),
{
    video.tags.len() > 0
}

/// A copy of a video.
pub fn clone_video(video: &TagsVideo) -> (copy: TagsVideo)
    ensures
        copy@ == video@,
{
    TagsVideo { name: video.name.clone(), tags: clone_strings(&video.tags) }
}

/// Settles a batch once each of its tagged videos was tried: `done[i]` says
/// whether the video at `i` was ingested. The batch is removed where nothing
/// is left of it, and rewritten with the entries that are still pending
/// otherwise: the untagged ones and those that failed.
pub fn settle_batch(batch: &TagsFile, done: &Vec<bool>) -> (outcome: BatchOutcome)
    ensures
        match outcome {
            BatchOutcome::Remove => still_pending(batch@, done@).len() == 0,
            BatchOutcome::Rewrite(text) => {
                &&& still_pending(batch@, done@).len() > 0
                &&& text@ == serialize_ledger(still_pending(batch@, done@))
            },
        },
{
    let mut pending: Vec<TagsVideo> = Vec::new();
    let mut i: usize = 0;
    assert(batch@.take(0) =~= Seq::<Entry>::empty());
    assert(entries_view(pending@) =~= Seq::<Entry>::empty());
    while i < batch.videos.len()
        invariant
            i <= batch.videos.len(),
            entries_view(pending@) == still_pending(batch@.take(i as int), done@),
        decreases batch.videos.len() - i,
    {
        let video = &batch.videos[i];
        assert(batch@.take(i + 1).drop_last() =~= batch@.take(i as int));
        assert(batch@.take(i + 1).last() == video@);
        let ingested = is_tagged(video) && i < done.len() && done[i];
        if !ingested {
            let copy = clone_video(video);
            let ghost before = pending@;
            pending.push(copy);
            assert(entries_view(pending@) =~= entries_view(before).push(copy@));
        }
        i += 1;
    }
    assert(batch@.take(i as int) =~= batch@);
    if pending.len() == 0 {
        BatchOutcome::Remove
    } else {
        let rest = TagsFile { videos: pending };
        BatchOutcome::Rewrite(rest.to_string())
    }
}

/// Handling a video keeps the names of the catalog distinct.
pub proof fn lemma_ingested_unique(
    entries: Seq<Entry>,
    name: Seq<char>,
    tags: Seq<Seq<char>>,
    in_store: bool,
)
    ensures
        unique_names(entries) ==> unique_names(ingested(entries, name, tags, in_store)),
{
    let after = ingested(entries, name, tags, in_store);
    lemma_find_entry(entries, name);
    if unique_names(entries) {
        assert forall|i: int, j: int| 0 <= i < j < after.len() implies (#[trigger] after[i]).name
            != (#[trigger] after[j]).name by {
            if j < entries.len() {
                assert(after[i].name == entries[i].name);
                assert(after[j].name == entries[j].name);
            } else {
                assert(after[i] == entries[i]);
            }
        }
    }
}

/// What `find_entry` finds: the first entry of that name.
pub proof fn lemma_find_entry(entries: Seq<Entry>, name: Seq<char>)
    ensures
        0 <= find_entry(entries, name) <= entries.len(),
        forall|i: int| 0 <= i < find_entry(entries, name) ==> (#[trigger] entries[i]).name != name,
        find_entry(entries, name) < entries.len() ==> entries[find_entry(entries, name)].name
            == name,
    decreases entries.len(),
{
    if entries.len() > 0 && entries[0].name != name {
        let rest = entries.drop_first();
        lemma_find_entry(rest, name);
        assert forall|i: int| 0 <= i < find_entry(entries, name) implies (
        #[trigger] entries[i]).name != name by {
            if i > 0 {
                assert(entries[i] == rest[i - 1]);
            }
        }
    }
}

/// Merging keeps the tags that were there, in their place, adds only tags of
/// `added`, misses none of them, and adds none twice.
pub proof fn lemma_merged_tags(existing: Seq<Seq<char>>, added: Seq<Seq<char>>)
    ensures
        existing.len() <= merged_tags(existing, added).len(),
        merged_tags(existing, added).take(existing.len() as int) == existing,
        forall|t: Seq<char>| #[trigger]
            merged_tags(existing, added).contains(t) <==> existing.contains(t) || added.contains(t),
        existing.no_duplicates() ==> merged_tags(existing, added).no_duplicates(),
    decreases added.len(),
{
    let merged = merged_tags(existing, added);
    if added.len() == 0 {
        assert(existing.take(existing.len() as int) =~= existing);
    } else {
        let head = added.drop_last();
        let last = added.last();
        let before = merged_tags(existing, head);
        lemma_merged_tags(existing, head);
        assert(merged.take(existing.len() as int) =~= before.take(existing.len() as int));
        assert forall|t: Seq<char>| #[trigger]
            merged.contains(t) <==> existing.contains(t) || added.contains(t) by {
            if added.contains(t) {
                let k = choose|k: int| 0 <= k < added.len() && added[k] == t;
                if k < head.len() {
                    assert(head[k] == t);
                    assert(head.contains(t));
                }
            }
            if head.contains(t) {
                let k = choose|k: int| 0 <= k < head.len() && head[k] == t;
                assert(added[k] == t);
            }
            assert(added[added.len() - 1] == last);
            if before.contains(t) {
                let k = choose|k: int| 0 <= k < before.len() && before[k] == t;
                assert(merged[k] == t);
            }
            if merged.contains(t) && !before.contains(t) {
                let k = choose|k: int| 0 <= k < merged.len() && merged[k] == t;
                if k < before.len() {
                    assert(before[k] == t);
                }
            }
            if t == last && !before.contains(last) {
                assert(merged[merged.len() - 1] == t);
            }
        }
        if existing.no_duplicates() && !before.contains(last) {
            assert forall|i: int, j: int| 0 <= i < merged.len() && 0 <= j < merged.len() && i
                != j implies merged[i] != merged[j] by {
                if i < before.len() && j < before.len() {
                    assert(before[i] != before[j]);
                } else if i < before.len() {
                    assert(before[i] == merged[i]);
                } else {
                    assert(before[j] == merged[j]);
                }
            }
        }
    }
}

/// The names of two catalogs agree, place by place.
pub open spec fn same_names(a: Seq<Entry>, b: Seq<Entry>) -> bool {
    a.len() == b.len() && forall|k: int| 0 <= k < a.len() ==> (#[trigger] a[k]).name == b[k].name
}

/// Where a name is found depends on the names alone.
pub proof fn lemma_find_entry_same_names(a: Seq<Entry>, b: Seq<Entry>, name: Seq<char>)
    requires
        same_names(a, b),
    ensures
        find_entry(a, name) == find_entry(b, name),
    decreases a.len(),
{
    if a.len() > 0 {
        assert(a[0].name == b[0].name);
        let ra = a.drop_first();
        let rb = b.drop_first();
        assert forall|k: int| 0 <= k < ra.len() implies (#[trigger] ra[k]).name == rb[k].name by {
            assert(ra[k] == a[k + 1]);
            assert(rb[k] == b[k + 1]);
            assert(a[k + 1].name == b[k + 1].name);
        }
        lemma_find_entry_same_names(ra, rb, name);
    }
}

/// No entry holds a tag twice.
pub open spec fn no_repeated_tags(entries: Seq<Entry>) -> bool {
    forall|k: int| 0 <= k < entries.len() ==> (#[trigger] entries[k]).tags.no_duplicates()
}

/// Ingesting the same bytes twice, under whatever file names and with
/// whatever tags, leaves one file in the store and one entry in the catalog,
/// which holds the tags of both submissions and none twice.
///
/// The first time the file is moved into the store, unless it is there
/// already; the second time it is discarded. Left out are the store that
/// holds the file while the catalog does not list it, which is an error, and
/// a first submission that holds a tag twice for a video that is not listed
/// yet.
pub proof fn lemma_ingest_twice(
    entries: Seq<Entry>,
    store: Set<Seq<char>>,
    name: Seq<char>,
    first: Seq<Seq<char>>,
    second: Seq<Seq<char>>,
)
    requires
        unique_names(entries),
        no_repeated_tags(entries),
        !inconsistent(entries, name, store.contains(name)),
        listed(entries, name) || first.no_duplicates(),
    ensures
        ({
            let once = ingested(entries, name, first, store.contains(name));
            let store_once = store_after(store, name);
            let twice = ingested(once, name, second, store_once.contains(name));
            let store_twice = store_after(store_once, name);
            let at = find_entry(twice, name);
            &&& action_for(store_once.contains(name)) == StoreAction::DiscardDuplicate
            &&& !inconsistent(once, name, store_once.contains(name))
            &&& store_twice == store.insert(name)
            &&& unique_names(twice)
            &&& no_repeated_tags(twice)
            &&& 0 <= at < twice.len()
            &&& forall|i: int| 0 <= i < twice.len() ==> ((#[trigger] twice[i]).name == name <==> i == at)
            &&& forall|i: int| 0 <= i < entries.len() && i != at ==> twice[i] == entries[i]
            &&& twice.len() == if listed(entries, name) {
                entries.len()
            } else {
                entries.len() + 1
            }
            &&& forall|t: Seq<char>| #[trigger]
                twice[at].tags.contains(t) <==> first.contains(t) || second.contains(t) || (listed(
                    entries,
                    name,
                ) && entries[at].tags.contains(t))
        }),
{
    let in_store = store.contains(name);
    let once = ingested(entries, name, first, in_store);
    let twice = ingested(once, name, second, true);
    assert(store_after(store, name).contains(name));
    assert(store_after(store_after(store, name), name) =~= store.insert(name));
    lemma_find_entry(entries, name);
    let i = find_entry(entries, name);
    if i < entries.len() {
        let e = entries[i];
        lemma_merged_tags(e.tags, first);
        lemma_merged_tags(merged_tags(e.tags, first), second);
        assert(same_names(entries, once));
        lemma_find_entry_same_names(entries, once, name);
        assert(same_names(once, twice));
        lemma_find_entry_same_names(once, twice, name);
    } else {
        assert(once == entries.push(Entry { name, tags: first }));
        lemma_find_entry(once, name);
        assert(once[entries.len() as int].name == name);
        assert(find_entry(once, name) == entries.len()) by {
            if find_entry(once, name) < entries.len() {
                let k = find_entry(once, name);
                assert(once[k] == entries[k]);
            }
        }
        lemma_merged_tags(first, second);
        assert(same_names(once, twice));
        lemma_find_entry_same_names(once, twice, name);
    }
    let at = find_entry(twice, name);
    assert(at == i);
    assert forall|k: int| 0 <= k < twice.len() implies ((#[trigger] twice[k]).name == name <==> k
        == at) by {
        if k != at && k < entries.len() {
            assert(twice[k] == entries[k]);
            if at < entries.len() {
                assert(entries[at].name == name);
                if k < at {
                    assert(entries[k].name != entries[at].name);
                } else {
                    assert(entries[at].name != entries[k].name);
                }
            }
        }
    }
    assert forall|a: int, b: int| 0 <= a < b < twice.len() implies (#[trigger] twice[a]).name != (
    #[trigger] twice[b]).name by {
        if b < entries.len() {
            assert(twice[a].name == entries[a].name);
            assert(twice[b].name == entries[b].name);
        } else {
            assert(b == at);
            assert(twice[a] == entries[a]);
        }
    }
    assert forall|k: int| 0 <= k < twice.len() implies (#[trigger] twice[k]).tags.no_duplicates() by {
        if k != at {
            assert(twice[k] == entries[k]);
        }
    }
}

/// Merging tags that are all there already changes nothing.
pub proof fn lemma_merge_known_tags(existing: Seq<Seq<char>>, added: Seq<Seq<char>>)
    requires
        forall|k: int| 0 <= k < added.len() ==> existing.contains(#[trigger] added[k]),
    ensures
        merged_tags(existing, added) == existing,
    decreases added.len(),
{
    if added.len() > 0 {
        let head = added.drop_last();
        assert forall|k: int| 0 <= k < head.len() implies existing.contains(
            #[trigger] head[k],
        ) by {
            assert(head[k] == added[k]);
        }
        lemma_merge_known_tags(existing, head);
        assert(existing.contains(added[added.len() - 1]));
    }
}

/// Handing in a video once more, with tags that its entry already holds,
/// leaves the catalog as it is.
pub proof fn lemma_ingest_again(entries: Seq<Entry>, name: Seq<char>, tags: Seq<Seq<char>>)
    requires
        listed(entries, name),
        forall|k: int|
            0 <= k < tags.len() ==> entries[find_entry(entries, name)].tags.contains(
                #[trigger] tags[k],
            ),
    ensures
        ingested(entries, name, tags, true) == entries,
        ingested(entries, name, tags, false) == entries,
        !inconsistent(entries, name, true),
{
    lemma_find_entry(entries, name);
    let i = find_entry(entries, name);
    lemma_merge_known_tags(entries[i].tags, tags);
    assert(ingested(entries, name, tags, true) =~= entries);
}

} // verus!
