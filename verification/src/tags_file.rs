//! The catalog of videos and their tags, and its text format.
//!
//! The text is a sequence of blocks. A block starts with a header line, the
//! video's name between `[` and `]`, and every later line that is not blank,
//! up to the next header, is one tag. Lines are trimmed before they are read.

use crate::error::Error;
use crate::round_trip::{lemma_parse_is_valid, lemma_round_trip};
use crate::text::{
    chars_of, first_line_len, is_trimmed, join_lines, lemma_first_line_len,
    lemma_strings_view_push, line_end, lines_of, single_line, string_of, strings_view, trim_bounds,
    trimmed,
};
use vstd::prelude::*;
use vstd::string::StringExecFns;

verus! {

/// The videos of a catalog, in the order of their blocks.
#[derive(Debug)]
pub struct TagsFile {
    pub videos: Vec<TagsVideo>,
}

/// One video and its tags.
#[derive(Debug)]
pub struct TagsVideo {
    pub name: String,
    pub tags: Vec<String>,
}

/// What a `TagsVideo` stands for.
pub struct Entry {
    pub name: Seq<char>,
    pub tags: Seq<Seq<char>>,
}

impl View for TagsVideo {
    type V = Entry;

    open spec fn view(&self) -> Entry {
        Entry { name: self.name@, tags: strings_view(self.tags@) }
    }
}

/// The entries that a sequence of videos stands for.
pub open spec fn entries_view(videos: Seq<TagsVideo>) -> Seq<Entry> {
    Seq::new(videos.len(), |i: int| videos[i]@)
}

impl View for TagsFile {
    type V = Seq<Entry>;

    open spec fn view(&self) -> Seq<Entry> {
        entries_view(self.videos@)
    }
}

/// Appending a video appends its entry to the view.
pub proof fn lemma_entries_view_push(videos: Seq<TagsVideo>, video: TagsVideo)
    ensures
        entries_view(videos.push(video)) == entries_view(videos).push(video@),
{
    assert(entries_view(videos.push(video)) =~= entries_view(videos).push(video@));
}

/// What one line of the text says, once trimmed.
pub enum Line {
    Blank,
    Header(Seq<char>),
    Tag(Seq<char>),
}

/// A trimmed line that opens a block: it starts with `[` and ends with `]`.
pub open spec fn is_header(t: Seq<char>) -> bool {
    t.len() >= 2 && t[0] == '[' && t.last() == ']'
}

/// What a line says: a header with its trimmed name, a tag, or nothing.
pub open spec fn classify(line: Seq<char>) -> Line {
    let t = trimmed(line);
    if is_header(t) {
        Line::Header(trimmed(t.subrange(1, t.len() - 1)))
    } else if t.len() > 0 {
        Line::Tag(t)
    } else {
        Line::Blank
    }
}

/// The reader's state between two lines: the blocks that are closed, the block
/// that is open, and whether a tag was met outside any block.
pub struct Scan {
    pub done: Seq<Entry>,
    pub open: Option<Entry>,
    pub failed: bool,
}

/// The reader's state before the first line.
pub open spec fn scan_start() -> Scan {
    Scan { done: Seq::empty(), open: None, failed: false }
}

/// The blocks read so far, the open one last.
pub open spec fn scan_entries(st: Scan) -> Seq<Entry> {
    match st.open {
        Some(e) => st.done.push(e),
        None => st.done,
    }
}

/// The reader's state after one more line: a header closes the open block
/// and opens another, a tag joins the open block, and a blank line changes
/// nothing.
pub open spec fn scan_line(st: Scan, line: Seq<char>) -> Scan {
    if st.failed {
        st
    } else {
        match classify(line) {
            Line::Blank => st,
            Line::Header(name) => Scan {
                done: scan_entries(st),
                open: Some(Entry { name, tags: Seq::empty() }),
                failed: false,
            },
            Line::Tag(tag) => match st.open {
                Some(e) => Scan {
                    done: st.done,
                    open: Some(Entry { name: e.name, tags: e.tags.push(tag) }),
                    failed: false,
                },
                None => Scan { done: st.done, open: None, failed: true },
            },
        }
    }
}

/// The reader's state after some more lines.
pub open spec fn scan_lines(st: Scan, lines: Seq<Seq<char>>) -> Scan
    decreases lines.len(),
{
    if lines.len() == 0 {
        st
    } else {
        scan_lines(scan_line(st, lines[0]), lines.drop_first())
    }
}

/// The catalog that a text stands for, or `None` where a tag comes before any
/// header.
pub open spec fn parse_ledger(text: Seq<char>) -> Option<Seq<Entry>> {
    let st = scan_lines(scan_start(), lines_of(text));
    if st.failed {
        None
    } else {
        Some(scan_entries(st))
    }
}

/// The header line of a video.
pub open spec fn header_line(name: Seq<char>) -> Seq<char> {
    seq!['['] + name + seq![']']
}

/// The lines of a catalog: for each video its header and its tags, and one
/// empty line between two videos.
pub open spec fn ledger_lines(entries: Seq<Entry>) -> Seq<Seq<char>>
    decreases entries.len(),
{
    if entries.len() == 0 {
        Seq::empty()
    } else {
        let before = entries.drop_last();
        let e = entries.last();
        let gap: Seq<Seq<char>> = if before.len() == 0 {
            Seq::empty()
        } else {
            seq![Seq::empty()]
        };
        ledger_lines(before) + gap + seq![header_line(e.name)] + e.tags
    }
}

/// The text of a catalog.
pub open spec fn serialize_ledger(entries: Seq<Entry>) -> Seq<char> {
    join_lines(ledger_lines(entries))
}

/// A tag that the text format can hold: one trimmed, non-empty line that is
/// not a header.
pub open spec fn valid_tag(tag: Seq<char>) -> bool {
    &&& tag.len() > 0
    &&& single_line(tag)
    &&& is_trimmed(tag)
    &&& !is_header(tag)
}

/// A name that the text format can hold: one trimmed line.
pub open spec fn valid_name(name: Seq<char>) -> bool {
    single_line(name) && is_trimmed(name)
}

/// An entry whose name and tags the text format can hold.
pub open spec fn valid_entry(e: Entry) -> bool {
    &&& valid_name(e.name)
    &&& forall|j: int| 0 <= j < e.tags.len() ==> valid_tag(#[trigger] e.tags[j])
}

/// A catalog whose names and tags the text format can hold.
pub open spec fn valid_ledger(entries: Seq<Entry>) -> bool {
    forall|i: int| 0 <= i < entries.len() ==> valid_entry(#[trigger] entries[i])
}

impl TagsVideo {
    /// A video without tags.
    pub fn new(name: String) -> (video: TagsVideo)
        ensures
            video.name == name,
            video.tags@ == Seq::<String>::empty(),
            video@ == (Entry { name: name@, tags: Seq::empty() }),
    {
        let video = TagsVideo { name, tags: Vec::new() };
        assert(strings_view(video.tags@) =~= Seq::<Seq<char>>::empty());
        video
    }
}

impl Default for TagsFile {
    /// The empty catalog.
    fn default() -> (file: TagsFile)
        ensures
            file@ == Seq::<Entry>::empty(),
    {
        let file = TagsFile { videos: Vec::new() };
        assert(file@ =~= Seq::<Entry>::empty());
        file
    }
}

impl std::str::FromStr for TagsFile {
    type Err = Error;

    /// Reads a catalog from its text, as `TagsFile::from_str` does.
    fn from_str(s: &str) -> (r: Result<TagsFile, Error>)
        ensures
            match r {
                Ok(file) => parse_ledger(s@) == Some(file@) && valid_ledger(file@),
                Err(e) => e == Error::MalformedLedger && parse_ledger(s@).is_none(),
            },
    {
        TagsFile::from_str(s)
    }
}

/// What one line of the text says: the exec counterpart of `Line`.
pub enum LineKind {
    Blank,
    Header(String),
    Tag(String),
}

impl View for LineKind {
    type V = Line;

    open spec fn view(&self) -> Line {
        match self {
            LineKind::Blank => Line::Blank,
            LineKind::Header(name) => Line::Header(name@),
            LineKind::Tag(tag) => Line::Tag(tag@),
        }
    }
}

/// The reader's state while it holds `videos` and the open block `current`.
pub open spec fn scan_of(videos: Seq<TagsVideo>, current: Option<TagsVideo>) -> Scan {
    Scan {
        done: entries_view(videos),
        open: match current {
            Some(v) => Some(v@),
            None => None,
        },
        failed: false,
    }
}

/// Reads the line `chars[lo..hi]`.
pub fn classify_line(chars: &Vec<char>, lo: usize, hi: usize) -> (kind: LineKind)
    requires
        lo <= hi <= chars.len(),
    ensures
        kind@ == classify(chars@.subrange(lo as int, hi as int)),
{
    let (a, b) = trim_bounds(chars, lo, hi);
    let ghost t = chars@.subrange(a as int, b as int);
    if b - a >= 2 && chars[a] == '[' && chars[b - 1] == ']' {
        let (c, d) = trim_bounds(chars, a + 1, b - 1);
        assert(t.subrange(1, t.len() - 1) =~= chars@.subrange(a + 1, b - 1));
        LineKind::Header(string_of(chars, c, d))
    } else if a < b {
        LineKind::Tag(string_of(chars, a, b))
    } else {
        LineKind::Blank
    }
}

/// Reading a text line by line: the first line, then the rest.
pub proof fn lemma_scan_first_line(st: Scan, text: Seq<char>)
    requires
        text.len() > 0,
    ensures
        ({
            let n = first_line_len(text);
            let rest = if n < text.len() {
                text.skip(n + 1)
            } else {
                text.skip(n)
            };
            scan_lines(st, lines_of(text)) == scan_lines(
                scan_line(st, text.take(n)),
                lines_of(rest),
            )
        }),
{
    let n = first_line_len(text);
    lemma_first_line_len(text);
    if n < text.len() {
        let lines = seq![text.take(n)] + lines_of(text.skip(n + 1));
        assert(lines.drop_first() =~= lines_of(text.skip(n + 1)));
    } else {
        assert(text.take(n) =~= text);
        let lines = seq![text];
        assert(lines.drop_first() =~= Seq::<Seq<char>>::empty());
        assert(text.skip(n).len() == 0);
    }
}

/// Once a tag was met outside any block, no later line mends it.
pub proof fn lemma_scan_failed(st: Scan, lines: Seq<Seq<char>>)
    requires
        st.failed,
    ensures
        scan_lines(st, lines).failed,
    decreases lines.len(),
{
    if lines.len() > 0 {
        lemma_scan_failed(scan_line(st, lines[0]), lines.drop_first());
    }
}

impl TagsFile {
    /// Reads a catalog from its text. Fails where a tag line comes before any
    /// header. What is read holds only names and tags that the format can
    /// hold.
    pub fn from_str(s: &str) -> (r: Result<TagsFile, Error>)
        ensures
            match r {
                Ok(file) => parse_ledger(s@) == Some(file@) && valid_ledger(file@),
                Err(e) => e == Error::MalformedLedger && parse_ledger(s@).is_none(),
            },
    {
        proof {
            lemma_parse_is_valid(s@);
        }
        let chars = chars_of(s);
        let mut videos: Vec<TagsVideo> = Vec::new();
        let mut current: Option<TagsVideo> = None;
        let mut pos: usize = 0;
        assert(chars@.skip(0) =~= chars@);
        assert(entries_view(videos@) =~= Seq::<Entry>::empty());
        while pos < chars.len()
            invariant
                pos <= chars.len(),
                chars@ == s@,
                scan_lines(scan_of(videos@, current), lines_of(chars@.skip(pos as int)))
                    == scan_lines(scan_start(), lines_of(chars@)),
            decreases chars.len() - pos,
        {
            let ghost st = scan_of(videos@, current);
            let ghost rest = chars@.skip(pos as int);
            let end = line_end(&chars, pos);
            let next: usize = if end < chars.len() {
                end + 1
            } else {
                end
            };
            proof {
                lemma_scan_first_line(st, rest);
                assert(rest.take(end - pos) =~= chars@.subrange(pos as int, end as int));
                assert(rest.skip(next - pos) =~= chars@.skip(next as int));
            }
            let ghost line = chars@.subrange(pos as int, end as int);
            match classify_line(&chars, pos, end) {
                LineKind::Blank => {},
                LineKind::Header(name) => {
                    let opened = TagsVideo::new(name);
                    match current {
                        Some(video) => {
                            proof {
                                lemma_entries_view_push(videos@, video);
                            }
                            videos.push(video);
                        },
                        None => {},
                    }
                    current = Some(opened);
                },
                LineKind::Tag(tag) => {
                    match current {
                        Some(video) => {
                            let TagsVideo { name, tags } = video;
                            let mut tags = tags;
                            proof {
                                lemma_strings_view_push(tags@, tag);
                            }
                            tags.push(tag);
                            current = Some(TagsVideo { name, tags });
                        },
                        None => {
                            proof {
                                lemma_scan_failed(
                                    scan_line(st, line),
                                    lines_of(chars@.skip(next as int)),
                                );
                            }
                            return Err(Error::MalformedLedger);
                        },
                    }
                },
            }
            pos = next;
        }
        assert(lines_of(chars@.skip(pos as int)) =~= Seq::<Seq<char>>::empty());
        match current {
            Some(video) => {
                proof {
                    lemma_entries_view_push(videos@, video);
                }
                videos.push(video);
            },
            None => {},
        }
        Ok(TagsFile { videos })
    }

    /// The text of the catalog: a header line for each video, then its tags,
    /// one per line, with an empty line between two videos. Where the format
    /// can hold the names and tags of the catalog, the text reads back as the
    /// catalog.
    pub fn to_string(&self) -> (out: String)
        ensures
            out@ == serialize_ledger(self@),
            valid_ledger(self@) ==> parse_ledger(out@) == Some(self@),
    {
        proof {
            if valid_ledger(self@) {
                lemma_round_trip(self@);
            }
        }
        let mut out = String::new();
        let mut i: usize = 0;
        assert(self@.take(0) =~= Seq::<Entry>::empty());
        while i < self.videos.len()
            invariant
                i <= self.videos.len(),
                out@ == join_lines(ledger_lines(self@.take(i as int))),
            decreases self.videos.len() - i,
        {
            let video = &self.videos[i];
            let ghost before = ledger_lines(self@.take(i as int));
            let ghost e = self@[i as int];
            assert(e == video@);
            assert(self@.take(i + 1).drop_last() =~= self@.take(i as int));
            if i > 0 {
                out.push('\n');
                proof {
                    lemma_join_lines_push(before, Seq::empty());
                    assert(out@ =~= join_lines(before.push(Seq::empty())));
                }
            }
            let ghost gapped = if i > 0 {
                before.push(Seq::empty())
            } else {
                before
            };
            assert(out@ == join_lines(gapped));
            out.push('[');
            out.append(video.name.as_str());
            out.push(']');
            out.push('\n');
            proof {
                lemma_join_lines_push(gapped, header_line(e.name));
                assert(out@ =~= join_lines(gapped.push(header_line(e.name))));
            }
            let ghost headed = gapped.push(header_line(e.name));
            let mut j: usize = 0;
            assert(e.tags.take(0) =~= Seq::<Seq<char>>::empty());
            assert(headed + e.tags.take(0) =~= headed);
            while j < video.tags.len()
                invariant
                    j <= video.tags.len(),
                    e == video@,
                    out@ == join_lines(headed + e.tags.take(j as int)),
                decreases video.tags.len() - j,
            {
                out.append(video.tags[j].as_str());
                out.push('\n');
                proof {
                    lemma_join_lines_push(headed + e.tags.take(j as int), e.tags[j as int]);
                    assert((headed + e.tags.take(j as int)).push(e.tags[j as int]) =~= headed
                        + e.tags.take(j + 1));
                    assert(out@ =~= join_lines(headed + e.tags.take(j + 1)));
                }
                j += 1;
            }
            proof {
                assert(e.tags.take(j as int) =~= e.tags);
                let gap: Seq<Seq<char>> = if i > 0 {
                    seq![Seq::empty()]
                } else {
                    Seq::empty()
                };
                assert(headed + e.tags =~= before + gap + seq![header_line(e.name)] + e.tags);
            }
            i += 1;
        }
        assert(self@.take(i as int) =~= self@);
        out
    }
}

/// Joining the lines with one more at the end adds that line and a line feed.
pub proof fn lemma_join_lines_push(lines: Seq<Seq<char>>, line: Seq<char>)
    ensures
        join_lines(lines.push(line)) == join_lines(lines) + line + seq!['\n'],
    decreases lines.len(),
{
    if lines.len() == 0 {
        let one = lines.push(line);
        assert(one.drop_first() =~= Seq::<Seq<char>>::empty());
        assert(join_lines(one.drop_first()) =~= Seq::<char>::empty());
        assert(join_lines(lines) =~= Seq::<char>::empty());
        assert(one[0] == line);
        assert(join_lines(one) =~= join_lines(lines) + line + seq!['\n']);
    } else {
        let more = lines.push(line);
        assert(more.drop_first() =~= lines.drop_first().push(line));
        lemma_join_lines_push(lines.drop_first(), line);
        assert(join_lines(more) =~= join_lines(lines) + line + seq!['\n']);
    }
}

} // verus!
