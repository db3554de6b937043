//! Reading back what was written: the text of a catalog stands for that
//! catalog again, and what is read from any text can be written and read
//! back.

use crate::tags_file::{
    classify, header_line, ledger_lines, parse_ledger, scan_entries, scan_line, scan_lines,
    scan_start, serialize_ledger, valid_entry, valid_ledger, valid_name, valid_tag, Entry, Line,
    Scan,
};
use crate::text::{
    first_line_len, is_space, is_trimmed, join_lines, lemma_first_line_len,
    lemma_first_line_len_is, lemma_trimmed, lines_of, single_line, trimmed,
};
use vstd::prelude::*;

verus! {

/// Every line of `lines` is free of line feeds.
pub open spec fn all_single_line(lines: Seq<Seq<char>>) -> bool {
    forall|i: int| 0 <= i < lines.len() ==> single_line(#[trigger] lines[i])
}

/// Splitting what was joined gives the lines back.
pub proof fn lemma_lines_of_join(lines: Seq<Seq<char>>)
    requires
        all_single_line(lines),
    ensures
        lines_of(join_lines(lines)) == lines,
    decreases lines.len(),
{
    if lines.len() > 0 {
        let first = lines[0];
        let rest = lines.drop_first();
        let text = join_lines(lines);
        assert(single_line(first));
        assert forall|i: int| 0 <= i < rest.len() implies single_line(#[trigger] rest[i]) by {
            assert(rest[i] == lines[i + 1]);
        }
        lemma_lines_of_join(rest);
        let n = first.len() as int;
        assert(text =~= first + seq!['\n'] + join_lines(rest));
        assert forall|i: int| 0 <= i < n implies text[i] != '\n' by {
            assert(text[i] == first[i]);
        }
        assert(text[n] == '\n');
        lemma_first_line_len_is(text, n);
        assert(text.take(n) =~= first);
        assert(text.skip(n + 1) =~= join_lines(rest));
        assert(seq![first] + rest =~= lines);
    }
}

/// Reading two runs of lines, one after the other.
pub proof fn lemma_scan_lines_concat(st: Scan, a: Seq<Seq<char>>, b: Seq<Seq<char>>)
    ensures
        scan_lines(st, a + b) == scan_lines(scan_lines(st, a), b),
    decreases a.len(),
{
    if a.len() == 0 {
        assert(a + b =~= b);
    } else {
        assert((a + b).drop_first() =~= a.drop_first() + b);
        lemma_scan_lines_concat(scan_line(st, a[0]), a.drop_first(), b);
    }
}

/// A valid tag reads as itself.
pub proof fn lemma_classify_tag(tag: Seq<char>)
    requires
        valid_tag(tag),
    ensures
        classify(tag) == Line::Tag(tag),
{
}

/// The header line of a valid name reads as that name.
pub proof fn lemma_classify_header(name: Seq<char>)
    requires
        valid_name(name),
    ensures
        classify(header_line(name)) == Line::Header(name),
        single_line(header_line(name)),
{
    let h = header_line(name);
    assert(h[0] == '[');
    assert(h.last() == ']');
    assert(!is_space('['));
    assert(!is_space(']'));
    assert(is_trimmed(h));
    assert(trimmed(h) == h);
    assert(h.subrange(1, h.len() - 1) =~= name);
    assert forall|i: int| 0 <= i < h.len() implies h[i] != '\n' by {
        if 0 < i < h.len() - 1 {
            assert(h[i] == name[i - 1]);
        }
    }
}

/// Inside a block, valid tags are added to it one by one.
pub proof fn lemma_scan_tags(st: Scan, tags: Seq<Seq<char>>)
    requires
        !st.failed,
        st.open.is_some(),
        forall|j: int| 0 <= j < tags.len() ==> valid_tag(#[trigger] tags[j]),
    ensures
        scan_lines(st, tags) == (Scan {
            done: st.done,
            open: Some(Entry { name: st.open.unwrap().name, tags: st.open.unwrap().tags + tags }),
            failed: false,
        }),
    decreases tags.len(),
{
    let e = st.open.unwrap();
    if tags.len() == 0 {
        assert(e.tags + tags =~= e.tags);
    } else {
        let rest = tags.drop_first();
        assert(valid_tag(tags[0]));
        lemma_classify_tag(tags[0]);
        let next = scan_line(st, tags[0]);
        assert forall|j: int| 0 <= j < rest.len() implies valid_tag(#[trigger] rest[j]) by {
            assert(rest[j] == tags[j + 1]);
        }
        lemma_scan_tags(next, rest);
        assert(e.tags.push(tags[0]) + rest =~= e.tags + tags);
    }
}

/// The lines of a valid catalog hold no line feed.
pub proof fn lemma_ledger_lines_single(entries: Seq<Entry>)
    requires
        valid_ledger(entries),
    ensures
        all_single_line(ledger_lines(entries)),
    decreases entries.len(),
{
    if entries.len() > 0 {
        let before = entries.drop_last();
        let e = entries.last();
        assert(valid_entry(e));
        assert forall|i: int| 0 <= i < before.len() implies valid_entry(#[trigger] before[i]) by {
            assert(before[i] == entries[i]);
        }
        lemma_ledger_lines_single(before);
        lemma_classify_header(e.name);
        let lines = ledger_lines(entries);
        let head = ledger_lines(before);
        let gap: Seq<Seq<char>> = if before.len() == 0 {
            Seq::empty()
        } else {
            seq![Seq::empty()]
        };
        assert(lines == head + gap + seq![header_line(e.name)] + e.tags);
        assert forall|i: int| 0 <= i < lines.len() implies single_line(#[trigger] lines[i]) by {
            if i < head.len() {
                assert(lines[i] == head[i]);
            } else if i < head.len() + gap.len() {
                assert(lines[i] == gap[i - head.len()]);
            } else if i == head.len() + gap.len() {
                assert(lines[i] == header_line(e.name));
            } else {
                let j = i - head.len() - gap.len() - 1;
                assert(lines[i] == e.tags[j]);
                assert(valid_tag(e.tags[j]));
            }
        }
    }
}

/// Reading the lines of a valid catalog leaves its last video open and the
/// others closed.
pub proof fn lemma_scan_ledger_lines(entries: Seq<Entry>)
    requires
        valid_ledger(entries),
        entries.len() > 0,
    ensures
        scan_lines(scan_start(), ledger_lines(entries)) == (Scan {
            done: entries.drop_last(),
            open: Some(entries.last()),
            failed: false,
        }),
    decreases entries.len(),
{
    let before = entries.drop_last();
    let e = entries.last();
    assert(valid_entry(e));
    lemma_classify_header(e.name);
    let head = ledger_lines(before);
    let header = seq![header_line(e.name)];
    let opened = Scan {
        done: before,
        open: Some(Entry { name: e.name, tags: Seq::empty() }),
        failed: false,
    };
    let after_head = if before.len() == 0 {
        assert(head =~= Seq::<Seq<char>>::empty());
        assert(ledger_lines(entries) =~= header + e.tags);
        scan_start()
    } else {
        assert forall|i: int| 0 <= i < before.len() implies valid_entry(#[trigger] before[i]) by {
            assert(before[i] == entries[i]);
        }
        lemma_scan_ledger_lines(before);
        let blank: Seq<Seq<char>> = seq![Seq::empty()];
        assert(ledger_lines(entries) =~= head + (blank + (header + e.tags)));
        lemma_scan_lines_concat(scan_start(), head, blank + (header + e.tags));
        let st = scan_lines(scan_start(), head);
        lemma_scan_lines_concat(st, blank, header + e.tags);
        assert(blank.drop_first() =~= Seq::<Seq<char>>::empty());
        assert(trimmed(Seq::<char>::empty()) =~= Seq::<char>::empty());
        assert(classify(blank[0]) == Line::Blank);
        assert(scan_lines(st, blank) == scan_lines(scan_line(st, blank[0]), blank.drop_first()));
        assert(scan_lines(st, blank) == st);
        assert(scan_entries(st) =~= before);
        st
    };
    assert(scan_lines(scan_start(), ledger_lines(entries)) == scan_lines(
        after_head,
        header + e.tags,
    ));
    lemma_scan_lines_concat(after_head, header, e.tags);
    assert(header.drop_first() =~= Seq::<Seq<char>>::empty());
    assert(scan_lines(after_head, header) == scan_lines(
        scan_line(after_head, header[0]),
        header.drop_first(),
    ));
    assert(scan_entries(after_head) =~= before);
    assert(scan_lines(after_head, header) == opened);
    lemma_scan_tags(opened, e.tags);
    assert(Seq::<Seq<char>>::empty() + e.tags =~= e.tags);
}

/// The text of a catalog whose names and tags the format can hold reads back
/// as that catalog.
pub proof fn lemma_round_trip(entries: Seq<Entry>)
    requires
        valid_ledger(entries),
    ensures
        parse_ledger(serialize_ledger(entries)) == Some(entries),
{
    lemma_ledger_lines_single(entries);
    lemma_lines_of_join(ledger_lines(entries));
    if entries.len() == 0 {
        assert(scan_entries(scan_start()) =~= entries);
    } else {
        lemma_scan_ledger_lines(entries);
        assert(entries.drop_last().push(entries.last()) =~= entries);
    }
}

/// No line of a text holds a line feed.
pub proof fn lemma_lines_single(text: Seq<char>)
    ensures
        all_single_line(lines_of(text)),
    decreases text.len(),
{
    if text.len() > 0 {
        let n = first_line_len(text);
        lemma_first_line_len(text);
        if n < text.len() {
            let rest = lines_of(text.skip(n + 1));
            lemma_lines_single(text.skip(n + 1));
            let lines = seq![text.take(n)] + rest;
            assert forall|i: int| 0 <= i < lines.len() implies single_line(
                #[trigger] lines[i],
            ) by {
                if i > 0 {
                    assert(lines[i] == rest[i - 1]);
                }
            }
        }
    }
}

/// What a line without line feed says can be written down again: its name,
/// or its tag, is one that the format can hold.
pub proof fn lemma_classify_valid(line: Seq<char>)
    requires
        single_line(line),
    ensures
        match classify(line) {
            Line::Blank => true,
            Line::Header(name) => valid_name(name),
            Line::Tag(tag) => valid_tag(tag),
        },
{
    let t = trimmed(line);
    lemma_trimmed(line);
    if t.len() >= 2 {
        let inner = t.subrange(1, t.len() - 1);
        assert forall|i: int| 0 <= i < inner.len() implies inner[i] != '\n' by {
            assert(inner[i] == t[i + 1]);
        }
        lemma_trimmed(inner);
    }
}

/// The state of the reader holds only what the format can hold.
pub open spec fn valid_scan(st: Scan) -> bool {
    st.failed || valid_ledger(scan_entries(st))
}

/// Reading lines without line feed keeps the state of the reader valid.
pub proof fn lemma_scan_valid(st: Scan, lines: Seq<Seq<char>>)
    requires
        valid_scan(st),
        all_single_line(lines),
    ensures
        valid_scan(scan_lines(st, lines)),
    decreases lines.len(),
{
    if lines.len() > 0 {
        let line = lines[0];
        let rest = lines.drop_first();
        assert(single_line(line));
        lemma_classify_valid(line);
        let next = scan_line(st, line);
        if !next.failed {
            let before = scan_entries(st);
            let after = scan_entries(next);
            match classify(line) {
                Line::Blank => {},
                Line::Header(name) => {
                    assert(after == before.push(Entry { name, tags: Seq::empty() }));
                    assert forall|i: int| 0 <= i < after.len() implies valid_entry(
                        #[trigger] after[i],
                    ) by {
                        if i < before.len() {
                            assert(after[i] == before[i]);
                        }
                    }
                },
                Line::Tag(tag) => {
                    let e = st.open.unwrap();
                    let grown = Entry { name: e.name, tags: e.tags.push(tag) };
                    assert(before == st.done.push(e));
                    assert(after == st.done.push(grown));
                    assert(valid_entry(before[st.done.len() as int]));
                    assert forall|j: int| 0 <= j < grown.tags.len() implies valid_tag(
                        #[trigger] grown.tags[j],
                    ) by {
                        if j < e.tags.len() {
                            assert(grown.tags[j] == e.tags[j]);
                        }
                    }
                    assert forall|i: int| 0 <= i < after.len() implies valid_entry(
                        #[trigger] after[i],
                    ) by {
                        if i < st.done.len() {
                            assert(after[i] == before[i]);
                        }
                    }
                },
            }
        }
        assert forall|i: int| 0 <= i < rest.len() implies single_line(#[trigger] rest[i]) by {
            assert(rest[i] == lines[i + 1]);
        }
        lemma_scan_valid(next, rest);
    }
}

/// What is read from a text is a catalog that the format can hold: writing
/// it and reading it again gives the same catalog.
pub proof fn lemma_parse_is_valid(text: Seq<char>)
    ensures
        match parse_ledger(text) {
            Some(entries) => valid_ledger(entries) && parse_ledger(serialize_ledger(entries))
                == Some(entries),
            None => true,
        },
{
    lemma_lines_single(text);
    assert(scan_entries(scan_start()) =~= Seq::<Entry>::empty());
    lemma_scan_valid(scan_start(), lines_of(text));
    match parse_ledger(text) {
        Some(entries) => {
            lemma_round_trip(entries);
        },
        None => {},
    }
}

} // verus!
