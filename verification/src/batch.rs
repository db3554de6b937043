//! Ingesting one batch, step by step.
//!
//! The caller owns the files; the batch says what to do with them. It asks
//! for one thing at a time (the fingerprint of a file, whether the store
//! holds a name, a move, a deletion) and is told how that went. A video that
//! fails is left pending and the next one is taken up: every video is tried,
//! and the first error is reported when the batch is finished.

use crate::error::Error;
use crate::ingest::{
    action_for, canonical, canonical_name, extension, extension_of, ingest_video, ingested,
    inconsistent, is_tagged, settle_batch, still_pending, store_action, store_after, tagged,
    unique_names, BatchOutcome, StoreAction,
};
use crate::tags_file::{serialize_ledger, Entry, TagsFile};
use vstd::prelude::*;

verus! {

/// What a batch is waiting for.
#[derive(Debug, Clone, Copy, PartialEq, Eq, Structural)]
pub enum Phase {
    /// The fingerprint of the video at hand.
    Hashing,
    /// Whether the store holds the canonical name of the video at hand.
    Probing,
    /// The move or the deletion of the raw file of the video at hand.
    Acting,
    /// Nothing: every video was handled.
    Finished,
}

/// A batch that is being ingested.
#[derive(Debug)]
pub struct BatchIngest {
    batch: TagsFile,
    done: Vec<bool>,
    canonical_name: String,
    in_store: bool,
    phase: Phase,
    error: Option<Error>,
}

/// What the caller is asked to do next.
#[derive(Debug)]
pub enum Request {
    /// Read the file of that name in the batch and reply with its
    /// fingerprint.
    Hash { file: String },
    /// Reply whether the content store holds a file of that name.
    Probe { canonical_name: String },
    /// Move the file of the batch into the content store, under its
    /// canonical name.
    Move { file: String, canonical_name: String },
    /// Delete the file of the batch: the store already holds its bytes.
    Discard { file: String },
    /// Remove or rewrite the batch; `error` is the first error that was met.
    Finish { outcome: BatchOutcome, error: Option<Error> },
}

/// How the last request went.
#[derive(Debug)]
pub enum Reply {
    /// The fingerprint that was asked for.
    Hashed(String),
    /// Whether the store holds the name that was asked about.
    Probed(bool),
    /// The file was moved or deleted as asked.
    Acted,
    /// The request could not be carried out.
    Failed,
}

/// What a `BatchIngest` stands for: the entries of the batch, whether each of
/// those handled so far was ingested, and what is known of the one at hand.
pub struct Progress {
    pub entries: Seq<Entry>,
    pub done: Seq<bool>,
    pub canonical_name: Seq<char>,
    pub in_store: bool,
    pub phase: Phase,
    pub error: Option<Error>,
}

/// What a `Request` stands for. The outcome of a finished batch is the new
/// text of its tags file, or `None` where the batch is to be removed.
pub enum Ask {
    Hash { file: Seq<char> },
    Probe { canonical_name: Seq<char> },
    Move { file: Seq<char>, canonical_name: Seq<char> },
    Discard { file: Seq<char> },
    Finish { outcome: Option<Seq<char>>, error: Option<Error> },
}

/// What a `Reply` stands for.
pub enum Answer {
    Hashed(Seq<char>),
    Probed(bool),
    Acted,
    Failed,
}

impl View for BatchOutcome {
    type V = Option<Seq<char>>;

    open spec fn view(&self) -> Option<Seq<char>> {
        match self {
            BatchOutcome::Remove => None,
            BatchOutcome::Rewrite(text) => Some(text@),
        }
    }
}

impl View for Request {
    type V = Ask;

    open spec fn view(&self) -> Ask {
        match self {
            Request::Hash { file } => Ask::Hash { file: file@ },
            Request::Probe { canonical_name } => Ask::Probe { canonical_name: canonical_name@ },
            Request::Move { file, canonical_name } => Ask::Move {
                file: file@,
                canonical_name: canonical_name@,
            },
            Request::Discard { file } => Ask::Discard { file: file@ },
            Request::Finish { outcome, error } => Ask::Finish { outcome: outcome@, error: *error },
        }
    }
}

impl View for Reply {
    type V = Answer;

    open spec fn view(&self) -> Answer {
        match self {
            Reply::Hashed(hash) => Answer::Hashed(hash@),
            Reply::Probed(found) => Answer::Probed(*found),
            Reply::Acted => Answer::Acted,
            Reply::Failed => Answer::Failed,
        }
    }
}

impl View for BatchIngest {
    type V = Progress;

    closed spec fn view(&self) -> Progress {
        Progress {
            entries: self.batch@,
            done: self.done@,
            canonical_name: self.canonical_name@,
            in_store: self.in_store,
            phase: self.phase,
            error: self.error,
        }
    }
}

/// The first error of two steps, if either failed.
pub open spec fn first_of(so_far: Option<Error>, step: Option<Error>) -> Option<Error> {
    if so_far.is_some() {
        so_far
    } else {
        step
    }
}

/// A video is taken up where it is tagged and its name has an extension.
pub open spec fn ready(e: Entry) -> bool {
    tagged(e) && extension(e.name).is_some()
}

/// Why a video that is not taken up is passed over: an untagged one waits
/// for its tags, a tagged one without extension is an error.
pub open spec fn passed_over(e: Entry) -> Option<Error> {
    if tagged(e) {
        Some(Error::MissingExtension)
    } else {
        None
    }
}

impl Progress {
    /// The state is one that a batch can be in: a video is at hand unless
    /// the batch is finished, and it is one that is taken up.
    pub open spec fn wf(self) -> bool {
        if self.phase == Phase::Finished {
            self.done.len() == self.entries.len()
        } else {
            self.done.len() < self.entries.len() && ready(self.entries[self.done.len() as int])
        }
    }

    /// The state itself, or, where no video is left, the finished state.
    pub open spec fn normal(self) -> Progress {
        if self.done.len() >= self.entries.len() {
            Progress { phase: Phase::Finished, ..self }
        } else {
            self
        }
    }

    /// The video at hand.
    pub open spec fn current(self) -> Entry {
        self.entries[self.done.len() as int]
    }

    /// The video at hand is settled, ingested or not, with the error of this
    /// step if it failed.
    pub open spec fn settle(self, ingested: bool, step: Option<Error>) -> Progress {
        Progress { done: self.done.push(ingested), error: first_of(self.error, step), ..self }
    }
}

/// The state once the videos that are not taken up were passed over: the
/// next video that is taken up is at hand, or the batch is finished.
pub open spec fn resume(p: Progress) -> Progress
    decreases p.entries.len() - p.done.len(),
{
    if p.done.len() >= p.entries.len() {
        Progress { phase: Phase::Finished, ..p }
    } else if ready(p.current()) {
        Progress { phase: Phase::Hashing, ..p }
    } else {
        resume(p.settle(false, passed_over(p.current())))
    }
}

/// The state in which a batch starts.
pub open spec fn started(entries: Seq<Entry>, error: Option<Error>) -> Progress {
    resume(
        Progress {
            entries,
            done: Seq::empty(),
            canonical_name: Seq::empty(),
            in_store: false,
            phase: Phase::Hashing,
            error,
        },
    )
}

/// What a batch in state `p` asks for.
pub open spec fn ask_of(p: Progress) -> Ask {
    match p.phase {
        Phase::Hashing => Ask::Hash { file: p.current().name },
        Phase::Probing => Ask::Probe { canonical_name: p.canonical_name },
        Phase::Acting => match action_for(p.in_store) {
            StoreAction::DiscardDuplicate => Ask::Discard { file: p.current().name },
            StoreAction::MoveIntoStore => Ask::Move {
                file: p.current().name,
                canonical_name: p.canonical_name,
            },
        },
        Phase::Finished => {
            let pending = still_pending(p.entries, p.done);
            Ask::Finish {
                outcome: if pending.len() == 0 {
                    None
                } else {
                    Some(serialize_ledger(pending))
                },
                error: p.error,
            }
        },
    }
}

/// The state of the batch after a reply.
///
/// A fingerprint gives the canonical name, which is then looked for in the
/// store; what the store holds decides between a move and a deletion; once
/// that is done the video is settled. A reply that says the request failed,
/// or that does not answer the request, settles the video as not ingested,
/// with `IoError`. A finished batch stays as it is.
pub open spec fn next_progress(p: Progress, ledger: Seq<Entry>, answer: Answer) -> Progress {
    let p = p.normal();
    match (p.phase, answer) {
        (Phase::Finished, _) => p,
        (Phase::Hashing, Answer::Hashed(hash)) => match canonical(hash, p.current().name) {
            Some(name) => Progress { canonical_name: name, phase: Phase::Probing, ..p },
            None => resume(p.settle(false, Some(Error::MissingExtension))),
        },
        (Phase::Probing, Answer::Probed(found)) => Progress {
            in_store: found,
            phase: Phase::Acting,
            ..p
        },
        (Phase::Acting, Answer::Acted) => if inconsistent(ledger, p.canonical_name, p.in_store) {
            resume(p.settle(false, Some(Error::InconsistentStore)))
        } else {
            resume(p.settle(true, None))
        },
        _ => resume(p.settle(false, Some(Error::IoError))),
    }
}

/// The catalog after a reply: it changes when the file of a video was moved
/// or deleted, and then as `ingested` says.
pub open spec fn next_ledger(p: Progress, ledger: Seq<Entry>, answer: Answer) -> Seq<Entry> {
    let p = p.normal();
    match (p.phase, answer) {
        (Phase::Acting, Answer::Acted) => ingested(
            ledger,
            p.canonical_name,
            p.current().tags,
            p.in_store,
        ),
        _ => ledger,
    }
}

/// Passing over videos leaves a state that a batch can be in.
pub proof fn lemma_resume_wf(p: Progress)
    requires
        p.done.len() <= p.entries.len(),
    ensures
        resume(p).wf(),
        resume(p).entries == p.entries,
        resume(p).phase == Phase::Hashing || resume(p).phase == Phase::Finished,
    decreases p.entries.len() - p.done.len(),
{
    if p.done.len() < p.entries.len() && !ready(p.current()) {
        lemma_resume_wf(p.settle(false, passed_over(p.current())));
    }
}

/// After a reply a video is at hand unless the batch is finished.
pub proof fn lemma_next_progress_in_range(p: Progress, ledger: Seq<Entry>, answer: Answer)
    ensures
        next_progress(p, ledger, answer).phase == Phase::Finished || next_progress(
            p,
            ledger,
            answer,
        ).done.len() < p.entries.len(),
        next_progress(p, ledger, answer).entries == p.entries,
{
    let p = p.normal();
    if p.phase != Phase::Finished {
        lemma_resume_wf(p.settle(false, Some(Error::MissingExtension)));
        lemma_resume_wf(p.settle(false, Some(Error::InconsistentStore)));
        lemma_resume_wf(p.settle(false, Some(Error::IoError)));
        lemma_resume_wf(p.settle(true, None));
    }
}

/// A reply leaves a state that a batch can be in.
pub proof fn lemma_next_progress_wf(p: Progress, ledger: Seq<Entry>, answer: Answer)
    ensures
        p.wf() ==> next_progress(p, ledger, answer).wf(),
{
    if p.wf() && p.phase != Phase::Finished {
        lemma_resume_wf(p.settle(false, Some(Error::MissingExtension)));
        lemma_resume_wf(p.settle(false, Some(Error::InconsistentStore)));
        lemma_resume_wf(p.settle(false, Some(Error::IoError)));
        lemma_resume_wf(p.settle(true, None));
    }
}

/// The first error of two steps, if either failed.
pub fn first_error(so_far: Option<Error>, step: Option<Error>) -> (r: Option<Error>)
    ensures
        r == first_of(so_far, step),
{
    match so_far {
        Some(e) => Some(e),
        None => step,
    }
}

impl BatchIngest {
    /// Takes up a batch. `error` is the first error that the run has met so
    /// far, if any. The request is the first thing to do for this batch.
    pub fn start(batch: TagsFile, error: Option<Error>) -> (r: (BatchIngest, Request))
        ensures
            r.0@ == started(batch@, error),
            r.0@.wf(),
            r.1@ == ask_of(r.0@),
    {
        let mut state = BatchIngest {
            batch,
            done: Vec::new(),
            canonical_name: String::new(),
            in_store: false,
            phase: Phase::Hashing,
            error,
        };
        proof {
            lemma_resume_wf(state@);
        }
        state.resume();
        let request = state.request();
        (state, request)
    }

    /// What the batch is waiting for.
    pub fn phase(&self) -> (phase: Phase)
        ensures
            phase == self@.phase,
    {
        self.phase
    }

    /// Takes the reply to the last request, brings the catalog up to date
    /// where a video was ingested, and says what to do next.
    pub fn reply(&mut self, all_tags: &mut TagsFile, reply: Reply) -> (request: Request)
        ensures
            final(self)@ == next_progress(old(self)@, old(all_tags)@, reply@),
            final(all_tags)@ == next_ledger(old(self)@, old(all_tags)@, reply@),
            request@ == ask_of(final(self)@),
            old(self)@.wf() ==> final(self)@.wf(),
            unique_names(old(all_tags)@) ==> unique_names(final(all_tags)@),
    {
        proof {
            lemma_next_progress_wf(old(self)@, old(all_tags)@, reply@);
            lemma_next_progress_in_range(old(self)@, old(all_tags)@, reply@);
        }
        if self.done.len() >= self.batch.videos.len() {
            self.phase = Phase::Finished;
        }
        match self.phase {
            Phase::Finished => {},
            Phase::Hashing => match reply {
                Reply::Hashed(hash) => {
                    let position = self.done.len();
                    match canonical_name(hash.as_str(), self.batch.videos[position].name.as_str()) {
                        Ok(name) => {
                            self.canonical_name = name;
                            self.phase = Phase::Probing;
                        },
                        Err(e) => {
                            self.settle(false, Some(e));
                        },
                    }
                },
                _ => {
                    self.settle(false, Some(Error::IoError));
                },
            },
            Phase::Probing => match reply {
                Reply::Probed(found) => {
                    self.in_store = found;
                    self.phase = Phase::Acting;
                },
                _ => {
                    self.settle(false, Some(Error::IoError));
                },
            },
            Phase::Acting => match reply {
                Reply::Acted => {
                    let position = self.done.len();
                    let name = self.canonical_name.clone();
                    match ingest_video(
                        all_tags,
                        name,
                        &self.batch.videos[position].tags,
                        self.in_store,
                    ) {
                        Ok(()) => {
                            self.settle(true, None);
                        },
                        Err(e) => {
                            self.settle(false, Some(e));
                        },
                    }
                },
                _ => {
                    self.settle(false, Some(Error::IoError));
                },
            },
        }
        self.request()
    }

    /// Settles the video at hand and passes on to the next one that is
    /// taken up.
    fn settle(&mut self, ingested: bool, step: Option<Error>)
        requires
            old(self)@.done.len() < old(self)@.entries.len(),
        ensures
            final(self)@ == resume(old(self)@.settle(ingested, step)),
    {
        self.done.push(ingested);
        self.error = first_error(self.error, step);
        self.resume();
    }

    /// Passes over the videos that are not taken up.
    fn resume(&mut self)
        requires
            old(self)@.done.len() <= old(self)@.entries.len(),
        ensures
            final(self)@ == resume(old(self)@),
    {
        while self.done.len() < self.batch.videos.len()
            invariant
                self@.done.len() <= self@.entries.len(),
                resume(self@) == resume(old(self)@),
            decreases self@.entries.len() - self@.done.len(),
        {
            let video = &self.batch.videos[self.done.len()];
            assert(video@ == self@.current());
            if is_tagged(video) {
                match extension_of(video.name.as_str()) {
                    Ok(_) => {
                        self.phase = Phase::Hashing;
                        return ;
                    },
                    Err(e) => {
                        self.done.push(false);
                        self.error = first_error(self.error, Some(e));
                    },
                }
            } else {
                self.done.push(false);
                self.error = first_error(self.error, None);
            }
        }
        self.phase = Phase::Finished;
    }

    /// What the batch asks for in its state.
    fn request(&self) -> (request: Request)
        requires
            self@.phase == Phase::Finished || self@.done.len() < self@.entries.len(),
        ensures
            request@ == ask_of(self@),
    {
        match self.phase {
            Phase::Finished => Request::Finish {
                outcome: settle_batch(&self.batch, &self.done),
                error: self.error,
            },
            Phase::Hashing => Request::Hash { file: self.batch.videos[self.done.len()].name.clone() },
            Phase::Probing => Request::Probe { canonical_name: self.canonical_name.clone() },
            Phase::Acting => {
                let file = self.batch.videos[self.done.len()].name.clone();
                match store_action(self.in_store) {
                    StoreAction::DiscardDuplicate => Request::Discard { file },
                    StoreAction::MoveIntoStore => Request::Move {
                        file,
                        canonical_name: self.canonical_name.clone(),
                    },
                }
            },
        }
    }
}

/// What an honest caller replies to a request: the fingerprint that `hashes`
/// gives of the file, what `store` holds, and that a move or a deletion was
/// done.
pub open spec fn honest_answer(
    ask: Ask,
    store: Set<Seq<char>>,
    hashes: spec_fn(Seq<char>) -> Seq<char>,
) -> Answer {
    match ask {
        Ask::Hash { file } => Answer::Hashed(hashes(file)),
        Ask::Probe { canonical_name } => Answer::Probed(store.contains(canonical_name)),
        _ => Answer::Acted,
    }
}

/// What the store holds once an honest caller has done what was asked.
pub open spec fn honest_store(ask: Ask, store: Set<Seq<char>>) -> Set<Seq<char>> {
    match ask {
        Ask::Move { file, canonical_name } => store.insert(canonical_name),
        _ => store,
    }
}

/// The catalog and the store after `steps` requests were answered honestly.
pub open spec fn honest_run(
    p: Progress,
    ledger: Seq<Entry>,
    store: Set<Seq<char>>,
    hashes: spec_fn(Seq<char>) -> Seq<char>,
    steps: nat,
) -> (Progress, Seq<Entry>, Set<Seq<char>>)
    decreases steps,
{
    if steps == 0 || p.phase == Phase::Finished {
        (p, ledger, store)
    } else {
        let answer = honest_answer(ask_of(p), store, hashes);
        honest_run(
            next_progress(p, ledger, answer),
            next_ledger(p, ledger, answer),
            honest_store(ask_of(p), store),
            hashes,
            (steps - 1) as nat,
        )
    }
}

/// What a batch comes to: every video from `from` on that is taken up is
/// ingested under the canonical name that its fingerprint gives, in the order
/// of the batch, and its file is in the store from then on.
pub open spec fn batch_result(
    entries: Seq<Entry>,
    from: int,
    ledger: Seq<Entry>,
    store: Set<Seq<char>>,
    hashes: spec_fn(Seq<char>) -> Seq<char>,
) -> (Seq<Entry>, Set<Seq<char>>)
    decreases entries.len() - from,
{
    if from < 0 || from >= entries.len() {
        (ledger, store)
    } else if !ready(entries[from]) {
        batch_result(entries, from + 1, ledger, store, hashes)
    } else {
        let name = canonical(hashes(entries[from].name), entries[from].name).unwrap();
        batch_result(
            entries,
            from + 1,
            ingested(ledger, name, entries[from].tags, store.contains(name)),
            store_after(store, name),
            hashes,
        )
    }
}

/// Passing over videos that are not taken up does not change what the batch
/// comes to.
pub proof fn lemma_resume_result(
    p: Progress,
    ledger: Seq<Entry>,
    store: Set<Seq<char>>,
    hashes: spec_fn(Seq<char>) -> Seq<char>,
)
    requires
        p.done.len() <= p.entries.len(),
    ensures
        batch_result(p.entries, resume(p).done.len() as int, ledger, store, hashes)
            == batch_result(p.entries, p.done.len() as int, ledger, store, hashes),
        p.done.len() <= resume(p).done.len() <= p.entries.len(),
        resume(p).entries == p.entries,
    decreases p.entries.len() - p.done.len(),
{
    if p.done.len() < p.entries.len() && !ready(p.current()) {
        lemma_resume_result(p.settle(false, passed_over(p.current())), ledger, store, hashes);
    }
}

/// With an honest caller a batch is finished after three requests for each
/// of its videos at most, and the catalog and the store are then what
/// `batch_result` says.
pub proof fn lemma_honest_run(
    p: Progress,
    ledger: Seq<Entry>,
    store: Set<Seq<char>>,
    hashes: spec_fn(Seq<char>) -> Seq<char>,
    steps: nat,
)
    requires
        p.wf(),
        p.phase == Phase::Hashing || p.phase == Phase::Finished,
        steps >= 3 * (p.entries.len() - p.done.len()),
    ensures
        honest_run(p, ledger, store, hashes, steps).0.phase == Phase::Finished,
        honest_run(p, ledger, store, hashes, steps).1 == batch_result(
            p.entries,
            p.done.len() as int,
            ledger,
            store,
            hashes,
        ).0,
        honest_run(p, ledger, store, hashes, steps).2 == batch_result(
            p.entries,
            p.done.len() as int,
            ledger,
            store,
            hashes,
        ).1,
    decreases p.entries.len() - p.done.len(),
{
    if p.phase == Phase::Hashing {
        let e = p.current();
        let name = canonical(hashes(e.name), e.name).unwrap();
        let a1 = honest_answer(ask_of(p), store, hashes);
        let p1 = next_progress(p, ledger, a1);
        assert(p1 == Progress { canonical_name: name, phase: Phase::Probing, ..p });
        let a2 = honest_answer(ask_of(p1), store, hashes);
        let p2 = next_progress(p1, ledger, a2);
        assert(p2 == Progress { in_store: store.contains(name), phase: Phase::Acting, ..p1 });
        let a3 = honest_answer(ask_of(p2), store, hashes);
        assert(a3 == Answer::Acted);
        let p3 = next_progress(p2, ledger, a3);
        let l3 = next_ledger(p2, ledger, a3);
        let s3 = honest_store(ask_of(p2), store);
        assert(l3 == ingested(ledger, name, e.tags, store.contains(name)));
        assert(s3 =~= store_after(store, name));
        let failed = inconsistent(ledger, name, store.contains(name));
        let settled = if failed {
            p2.settle(false, Some(Error::InconsistentStore))
        } else {
            p2.settle(true, None)
        };
        assert(p3 == resume(settled));
        lemma_resume_wf(settled);
        lemma_resume_result(settled, l3, s3, hashes);
        assert(honest_run(p, ledger, store, hashes, steps) == honest_run(
            p1,
            ledger,
            store,
            hashes,
            (steps - 1) as nat,
        ));
        assert(honest_run(p1, ledger, store, hashes, (steps - 1) as nat) == honest_run(
            p2,
            ledger,
            store,
            hashes,
            (steps - 2) as nat,
        ));
        assert(honest_run(p2, ledger, store, hashes, (steps - 2) as nat) == honest_run(
            p3,
            l3,
            s3,
            hashes,
            (steps - 3) as nat,
        ));
        lemma_honest_run(p3, l3, s3, hashes, (steps - 3) as nat);
    }
}

} // verus!
