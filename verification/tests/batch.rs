use lindy_videos::batch::{first_error, BatchIngest, Phase, Reply, Request};
use lindy_videos::error::Error;
use lindy_videos::hash_file::hash_content;
use lindy_videos::ingest::BatchOutcome;
use lindy_videos::tags_file::{TagsFile, TagsVideo};
use std::collections::BTreeMap;

fn strings(items: &[&str]) -> Vec<String> {
    items.iter().map(|t| t.to_string()).collect()
}

fn video(name: &str, tags: &[&str]) -> TagsVideo {
    TagsVideo {
        name: name.to_string(),
        tags: strings(tags),
    }
}

fn names_and_tags(file: &TagsFile) -> Vec<(String, Vec<String>)> {
    file.videos
        .iter()
        .map(|v| (v.name.clone(), v.tags.clone()))
        .collect()
}

/// The files of a batch and of the content store, held in memory.
struct Disk {
    batch: BTreeMap<String, Vec<u8>>,
    store: BTreeMap<String, Vec<u8>>,
    unreadable: Vec<String>,
    requests: Vec<String>,
}

impl Disk {
    fn new(files: &[(&str, &[u8])]) -> Disk {
        Disk {
            batch: files
                .iter()
                .map(|(name, bytes)| (name.to_string(), bytes.to_vec()))
                .collect(),
            store: BTreeMap::new(),
            unreadable: Vec::new(),
            requests: Vec::new(),
        }
    }

    fn perform(&mut self, request: &Request) -> Reply {
        match request {
            Request::Hash { file } => {
                self.requests.push(format!("hash {}", file));
                if self.unreadable.contains(file) {
                    return Reply::Failed;
                }
                match self.batch.get(file) {
                    Some(bytes) => Reply::Hashed(hash_content(bytes)),
                    None => Reply::Failed,
                }
            }
            Request::Probe { canonical_name } => {
                self.requests.push("probe".to_string());
                Reply::Probed(self.store.contains_key(canonical_name))
            }
            Request::Move {
                file,
                canonical_name,
            } => {
                self.requests.push(format!("move {}", file));
                match self.batch.remove(file) {
                    Some(bytes) => {
                        self.store.insert(canonical_name.clone(), bytes);
                        Reply::Acted
                    }
                    None => Reply::Failed,
                }
            }
            Request::Discard { file } => {
                self.requests.push(format!("discard {}", file));
                match self.batch.remove(file) {
                    Some(_) => Reply::Acted,
                    None => Reply::Failed,
                }
            }
            Request::Finish { .. } => unreachable!(),
        }
    }

    /// Ingests a batch and hands back what became of it and the first error.
    fn ingest(
        &mut self,
        ledger: &mut TagsFile,
        batch: TagsFile,
        error: Option<Error>,
    ) -> (BatchOutcome, Option<Error>) {
        let (mut state, mut request) = BatchIngest::start(batch, error);
        loop {
            if let Request::Finish { outcome, error } = request {
                assert_eq!(state.phase(), Phase::Finished);
                return (outcome, error);
            }
            let reply = self.perform(&request);
            request = state.reply(ledger, reply);
        }
    }
}

#[test]
fn one_tagged_video_into_an_empty_ledger() {
    let bytes = b"video.mp4 bytes";
    let mut disk = Disk::new(&[("video.mp4", bytes)]);
    let mut ledger = TagsFile::default();
    let batch = TagsFile::from_str("[video.mp4]\n2024-01-01\nsocial\n").unwrap();

    let (outcome, error) = disk.ingest(&mut ledger, batch, None);

    let name = format!("{}.mp4", hash_content(bytes));
    assert_eq!(error, None);
    assert!(matches!(outcome, BatchOutcome::Remove));
    assert_eq!(disk.store.keys().cloned().collect::<Vec<_>>(), vec![name.clone()]);
    assert_eq!(disk.store[&name], bytes);
    assert!(disk.batch.is_empty());
    assert_eq!(
        names_and_tags(&ledger),
        vec![(name, strings(&["2024-01-01", "social"]))]
    );
    assert_eq!(disk.requests, strings(&["hash video.mp4", "probe", "move video.mp4"]));
}

#[test]
fn the_same_bytes_twice_in_one_batch() {
    let bytes = b"the same bytes";
    let mut disk = Disk::new(&[("a.mp4", bytes), ("b.mp4", bytes)]);
    let mut ledger = TagsFile::default();
    let batch = TagsFile {
        videos: vec![
            video("a.mp4", &["social", "2024-01-01"]),
            video("b.mp4", &["class", "social"]),
        ],
    };

    let (outcome, error) = disk.ingest(&mut ledger, batch, None);

    let name = format!("{}.mp4", hash_content(bytes));
    assert_eq!(error, None);
    assert!(matches!(outcome, BatchOutcome::Remove));
    assert_eq!(disk.store.len(), 1);
    assert!(disk.batch.is_empty());
    assert_eq!(
        names_and_tags(&ledger),
        vec![(name, strings(&["social", "2024-01-01", "class"]))]
    );
    assert_eq!(
        disk.requests,
        strings(&["hash a.mp4", "probe", "move a.mp4", "hash b.mp4", "probe", "discard b.mp4"])
    );
}

#[test]
fn the_same_bytes_in_two_batches() {
    let bytes = b"the same bytes";
    let mut ledger = TagsFile::default();
    let mut disk = Disk::new(&[("a.mp4", bytes)]);
    let first = TagsFile {
        videos: vec![video("a.mp4", &["social"])],
    };
    let (_, error) = disk.ingest(&mut ledger, first, None);
    assert_eq!(error, None);

    disk.batch.insert("other name.mp4".to_string(), bytes.to_vec());
    let second = TagsFile {
        videos: vec![video("other name.mp4", &["social", "class"])],
    };
    let (outcome, error) = disk.ingest(&mut ledger, second, None);

    assert_eq!(error, None);
    assert!(matches!(outcome, BatchOutcome::Remove));
    assert_eq!(disk.store.len(), 1);
    assert_eq!(ledger.videos.len(), 1);
    assert_eq!(ledger.videos[0].tags, strings(&["social", "class"]));
}

#[test]
fn untagged_videos_stay_pending() {
    let mut disk = Disk::new(&[("a.mp4", b"a"), ("b.mp4", b"b"), ("c.mp4", b"c")]);
    let mut ledger = TagsFile::default();
    let batch = TagsFile {
        videos: vec![video("a.mp4", &[]), video("b.mp4", &["x"]), video("c.mp4", &[])],
    };

    let (outcome, error) = disk.ingest(&mut ledger, batch, None);

    assert_eq!(error, None);
    match outcome {
        BatchOutcome::Rewrite(text) => assert_eq!(text, "[a.mp4]\n\n[c.mp4]\n"),
        BatchOutcome::Remove => panic!("two videos are pending"),
    }
    assert_eq!(ledger.videos.len(), 1);
    assert_eq!(disk.batch.keys().cloned().collect::<Vec<_>>(), strings(&["a.mp4", "c.mp4"]));
    assert_eq!(disk.requests, strings(&["hash b.mp4", "probe", "move b.mp4"]));
}

#[test]
fn a_video_without_extension_does_not_stop_the_batch() {
    let mut disk = Disk::new(&[("noext", b"a"), ("b.mp4", b"b")]);
    let mut ledger = TagsFile::default();
    let batch = TagsFile {
        videos: vec![video("noext", &["x"]), video("b.mp4", &["y"])],
    };

    let (outcome, error) = disk.ingest(&mut ledger, batch, None);

    assert_eq!(error, Some(Error::MissingExtension));
    match outcome {
        BatchOutcome::Rewrite(text) => assert_eq!(text, "[noext]\nx\n"),
        BatchOutcome::Remove => panic!("one video is pending"),
    }
    assert_eq!(
        names_and_tags(&ledger),
        vec![(format!("{}.mp4", hash_content(b"b")), strings(&["y"]))]
    );
    assert_eq!(disk.requests, strings(&["hash b.mp4", "probe", "move b.mp4"]));
}

#[test]
fn a_file_that_cannot_be_read_stays_pending() {
    let mut disk = Disk::new(&[("a.mp4", b"a"), ("b.mp4", b"b")]);
    disk.unreadable.push("a.mp4".to_string());
    let mut ledger = TagsFile::default();
    let batch = TagsFile {
        videos: vec![video("a.mp4", &["x"]), video("b.mp4", &["y"])],
    };

    let (outcome, error) = disk.ingest(&mut ledger, batch, None);

    assert_eq!(error, Some(Error::IoError));
    match outcome {
        BatchOutcome::Rewrite(text) => assert_eq!(text, "[a.mp4]\nx\n"),
        BatchOutcome::Remove => panic!("one video is pending"),
    }
    assert_eq!(ledger.videos.len(), 1);
    assert_eq!(disk.store.len(), 1);
}

#[test]
fn a_store_file_without_entry_is_inconsistent() {
    let bytes = b"known bytes";
    let mut disk = Disk::new(&[("a.mp4", bytes)]);
    disk.store
        .insert(format!("{}.mp4", hash_content(bytes)), bytes.to_vec());
    let mut ledger = TagsFile::default();
    let batch = TagsFile {
        videos: vec![video("a.mp4", &["x"])],
    };

    let (outcome, error) = disk.ingest(&mut ledger, batch, None);

    assert_eq!(error, Some(Error::InconsistentStore));
    assert!(matches!(outcome, BatchOutcome::Rewrite(_)));
    assert!(ledger.videos.is_empty());
    assert_eq!(disk.requests, strings(&["hash a.mp4", "probe", "discard a.mp4"]));
}

#[test]
fn the_first_error_of_the_run_is_kept() {
    let mut disk = Disk::new(&[("a.mp4", b"a")]);
    disk.unreadable.push("a.mp4".to_string());
    let mut ledger = TagsFile::default();
    let batch = TagsFile {
        videos: vec![video("a.mp4", &["x"])],
    };
    let (_, error) = disk.ingest(&mut ledger, batch, Some(Error::MissingExtension));
    assert_eq!(error, Some(Error::MissingExtension));

    let (outcome, error) = disk.ingest(&mut ledger, TagsFile::default(), Some(Error::IoError));
    assert_eq!(error, Some(Error::IoError));
    assert!(matches!(outcome, BatchOutcome::Remove));
}

#[test]
fn a_reply_that_does_not_answer_the_request_fails_the_video() {
    let mut ledger = TagsFile::default();
    let batch = TagsFile {
        videos: vec![video("a.mp4", &["x"]), video("b.mp4", &["y"])],
    };
    let (mut state, request) = BatchIngest::start(batch, None);
    assert!(matches!(request, Request::Hash { ref file } if file == "a.mp4"));
    assert_eq!(state.phase(), Phase::Hashing);

    let request = state.reply(&mut ledger, Reply::Probed(true));
    assert!(matches!(request, Request::Hash { ref file } if file == "b.mp4"));

    let request = state.reply(&mut ledger, Reply::Hashed("abc".to_string()));
    assert!(matches!(request, Request::Probe { ref canonical_name } if canonical_name == "abc.mp4"));
    assert_eq!(state.phase(), Phase::Probing);

    let request = state.reply(&mut ledger, Reply::Probed(false));
    assert!(matches!(
        request,
        Request::Move { ref file, ref canonical_name } if file == "b.mp4" && canonical_name == "abc.mp4"
    ));
    assert_eq!(state.phase(), Phase::Acting);

    let request = state.reply(&mut ledger, Reply::Acted);
    match request {
        Request::Finish { outcome, error } => {
            assert_eq!(error, Some(Error::IoError));
            match outcome {
                BatchOutcome::Rewrite(text) => assert_eq!(text, "[a.mp4]\nx\n"),
                BatchOutcome::Remove => panic!("one video is pending"),
            }
        }
        other => panic!("{:?}", other),
    }
    assert_eq!(
        names_and_tags(&ledger),
        vec![("abc.mp4".to_string(), strings(&["y"]))]
    );

    let again = state.reply(&mut ledger, Reply::Acted);
    assert!(matches!(again, Request::Finish { .. }));
    assert_eq!(ledger.videos.len(), 1);
}

#[test]
fn an_empty_batch_is_finished_at_once() {
    let (state, request) = BatchIngest::start(TagsFile::default(), None);
    assert_eq!(state.phase(), Phase::Finished);
    assert!(matches!(
        request,
        Request::Finish {
            outcome: BatchOutcome::Remove,
            error: None
        }
    ));
}

#[test]
fn first_error_keeps_the_earlier_one() {
    assert_eq!(first_error(None, None), None);
    assert_eq!(
        first_error(None, Some(Error::MissingExtension)),
        Some(Error::MissingExtension)
    );
    assert_eq!(
        first_error(Some(Error::IoError), Some(Error::MissingExtension)),
        Some(Error::IoError)
    );
    assert_eq!(first_error(Some(Error::IoError), None), Some(Error::IoError));
}
