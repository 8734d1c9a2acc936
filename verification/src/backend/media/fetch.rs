//! Fetching album art by way of the cache: what was fetched once is read from
//! disk later.

use crate::backend::media::art::{self, FetchStep, ART_FETCH_RETRIES};
use crate::backend::media::cache;
use vstd::prelude::*;

verus! {

/// What to do next.
pub enum ArtStep {
    /// Read this file, and tell by `file_read` what it holds.
    Read { path: String },
    /// Wait this many seconds, then ask the server, and tell by `attempt_ended`
    /// what came of it.
    Fetch { delay: u64 },
    /// Hand out the bytes. Write them to this file too, below this directory,
    /// and tell by `file_written` whether that worked.
    Keep { dir: String, path: String, bytes: Vec<u8> },
    /// Hand out the bytes, or say that there are none.
    Done(Option<Vec<u8>>),
}

/// What to do next, in terms of texts and bytes.
pub enum ArtPlan {
    Read(Seq<char>),
    Fetch(u64),
    Keep { dir: Seq<char>, path: Seq<char>, bytes: Seq<u8> },
    Done(Option<Seq<u8>>),
}

impl View for ArtStep {
    type V = ArtPlan;

    open spec fn view(&self) -> ArtPlan {
        match *self {
            ArtStep::Read { path } => ArtPlan::Read(path@),
            ArtStep::Fetch { delay } => ArtPlan::Fetch(delay),
            ArtStep::Keep { dir, path, bytes } => ArtPlan::Keep {
                dir: dir@,
                path: path@,
                bytes: bytes@,
            },
            ArtStep::Done(bytes) => ArtPlan::Done(contents(bytes)),
        }
    }
}

/// Bytes that may be missing.
pub open spec fn contents(bytes: Option<Vec<u8>>) -> Option<Seq<u8>> {
    match bytes {
        Some(b) => Some(b@),
        None => None,
    }
}

/// What an attempt brought, if it brought anything.
pub open spec fn brought(outcome: Result<Vec<u8>, String>) -> Option<Seq<u8>> {
    match outcome {
        Ok(b) => Some(b@),
        Err(_) => None,
    }
}

/// A text that may be missing.
pub open spec fn written(text: Option<String>) -> Option<Seq<char>> {
    match text {
        Some(s) => Some(s@),
        None => None,
    }
}

/// The start: look into the cache, where there is one.
pub open spec fn started(url: Seq<char>, dir: Option<Seq<char>>) -> ArtPlan {
    match dir {
        Some(d) => ArtPlan::Read(cache::cached_at(d, url)),
        None => ArtPlan::Fetch(0),
    }
}

/// A file with anything in it is all that is needed.
pub open spec fn after_read(cached: Option<Seq<u8>>) -> ArtPlan {
    match cached {
        Some(bytes) => if bytes.len() > 0 {
            ArtPlan::Done(Some(bytes))
        } else {
            ArtPlan::Fetch(0)
        },
        None => ArtPlan::Fetch(0),
    }
}

/// What was fetched is kept, where there is a cache. A failed attempt is made
/// again, each time a second later, until there were enough.
pub open spec fn after_attempt(
    url: Seq<char>,
    dir: Option<Seq<char>>,
    attempt: nat,
    outcome: Option<Seq<u8>>,
) -> ArtPlan {
    match outcome {
        Some(bytes) => match dir {
            Some(d) => ArtPlan::Keep { dir: d, path: cache::cached_at(d, url), bytes },
            None => ArtPlan::Done(Some(bytes)),
        },
        None => if attempt < ART_FETCH_RETRIES {
            ArtPlan::Fetch((attempt + 1) as u64)
        } else {
            ArtPlan::Done(None)
        },
    }
}

/// The fetching of one picture.
pub struct ArtFetch {
    pub url: String,
    /// The directory of the cache.
    pub dir: Option<String>,
    /// The attempt that is made at the moment, counted from 0.
    pub attempt: u32,
}

/// Begin to fetch what a web address holds.
pub fn fetch_art_cached(url: String, dir: Option<String>) -> (res: (ArtFetch, ArtStep))
    ensures
        res.0 == (ArtFetch { url, dir, attempt: 0 }),
        res.1@ == started(url@, written(dir)),
{
    let step: ArtStep = match &dir {
        Some(d) => ArtStep::Read { path: cache::art_cache_path(d, &url) },
        None => ArtStep::Fetch { delay: 0 },
    };
    (ArtFetch { url, dir, attempt: 0 }, step)
}

impl ArtFetch {
    /// The file of the cache was read; `None` if it could not be.
    pub fn file_read(&self, cached: Option<Vec<u8>>) -> (step: ArtStep)
        ensures
            step@ == after_read(contents(cached)),
    {
        match cache::cache_hit(cached) {
            Some(bytes) => ArtStep::Done(Some(bytes)),
            None => ArtStep::Fetch { delay: 0 },
        }
    }

    /// An attempt has ended.
    pub fn attempt_ended(&mut self, outcome: Result<Vec<u8>, String>) -> (step: ArtStep)
        ensures
            step@ == after_attempt(
                old(self).url@,
                written(old(self).dir),
                old(self).attempt as nat,
                brought(outcome),
            ),
            *final(self) == (ArtFetch {
                attempt: if step is Fetch {
                    (old(self).attempt + 1) as u32
                } else {
                    old(self).attempt
                },
                ..*old(self)
            }),
    {
        match art::fetch_art(self.attempt, outcome) {
            FetchStep::Done(bytes) => match &self.dir {
                Some(d) => ArtStep::Keep {
                    dir: d.clone(),
                    path: cache::art_cache_path(d, &self.url),
                    bytes,
                },
                None => ArtStep::Done(Some(bytes)),
            },
            FetchStep::Retry { attempt, delay } => {
                self.attempt = attempt;
                ArtStep::Fetch { delay }
            },
            FetchStep::GiveUp => ArtStep::Done(None),
        }
    }

    /// The file was written, or could not be; the directory to prune then.
    pub fn file_written(&self, done: bool) -> (prune: Option<String>)
        ensures
            written(prune) == if done {
                written(self.dir)
            } else {
                None
            },
    {
        if done {
            match &self.dir {
                Some(d) => Some(d.clone()),
                None => None,
            }
        } else {
            None
        }
    }
}

/// How a run of attempts ends, from this one on, if attempt `k` comes to
/// `outcomes(k)`.
pub open spec fn attempts_end(
    url: Seq<char>,
    dir: Option<Seq<char>>,
    attempt: nat,
    outcomes: spec_fn(nat) -> Option<Seq<u8>>,
) -> ArtPlan
    decreases ART_FETCH_RETRIES - attempt,
{
    match after_attempt(url, dir, attempt, outcomes(attempt)) {
        ArtPlan::Fetch(_) => if attempt < ART_FETCH_RETRIES {
            attempts_end(url, dir, attempt + 1, outcomes)
        } else {
            ArtPlan::Done(None)
        },
        end => end,
    }
}

/// What a file holds.
pub open spec fn held(files: Map<Seq<char>, Seq<u8>>, path: Seq<char>) -> Option<Seq<u8>> {
    if files.contains_key(path) {
        Some(files[path])
    } else {
        None
    }
}

/// How fetching ends with these files on disk.
pub open spec fn fetching_ends(
    url: Seq<char>,
    dir: Option<Seq<char>>,
    files: Map<Seq<char>, Seq<u8>>,
    outcomes: spec_fn(nat) -> Option<Seq<u8>>,
) -> ArtPlan {
    match started(url, dir) {
        ArtPlan::Read(path) => match after_read(held(files, path)) {
            ArtPlan::Fetch(_) => attempts_end(url, dir, 0, outcomes),
            end => end,
        },
        _ => attempts_end(url, dir, 0, outcomes),
    }
}

/// The files after fetching has ended so.
pub open spec fn files_after(files: Map<Seq<char>, Seq<u8>>, end: ArtPlan) -> Map<
    Seq<char>,
    Seq<u8>,
> {
    match end {
        ArtPlan::Keep { dir: _, path, bytes } => files.insert(path, bytes),
        _ => files,
    }
}

/// Art that is in the cache is handed out as it is there: nothing is fetched,
/// whatever the server would say, and nothing is written.
pub proof fn cached_art_is_not_fetched(
    url: Seq<char>,
    dir: Seq<char>,
    files: Map<Seq<char>, Seq<u8>>,
    outcomes: spec_fn(nat) -> Option<Seq<u8>>,
)
    requires
        held(files, cache::cached_at(dir, url)) matches Some(bytes) && bytes.len() > 0,
    ensures
        fetching_ends(url, Some(dir), files, outcomes) == ArtPlan::Done(
            Some(files[cache::cached_at(dir, url)]),
        ),
{
}

/// Art that is not in the cache and that an attempt brings is handed out and
/// written to its file, to the byte.
pub proof fn fetched_art_is_kept(
    url: Seq<char>,
    dir: Seq<char>,
    files: Map<Seq<char>, Seq<u8>>,
    outcomes: spec_fn(nat) -> Option<Seq<u8>>,
    k: nat,
)
    requires
        !(held(files, cache::cached_at(dir, url)) matches Some(bytes) && bytes.len() > 0),
        k <= ART_FETCH_RETRIES,
        outcomes(k) is Some,
        forall|i: nat| i < k ==> (#[trigger] outcomes(i)) is None,
    ensures
        fetching_ends(url, Some(dir), files, outcomes) == (ArtPlan::Keep {
            dir,
            path: cache::cached_at(dir, url),
            bytes: outcomes(k)->0,
        }),
{
    lemma_success(url, Some(dir), 0, outcomes, k);
}

proof fn lemma_success(
    url: Seq<char>,
    dir: Option<Seq<char>>,
    from: nat,
    outcomes: spec_fn(nat) -> Option<Seq<u8>>,
    k: nat,
)
    requires
        from <= k <= ART_FETCH_RETRIES,
        outcomes(k) is Some,
        forall|i: nat| i < k ==> (#[trigger] outcomes(i)) is None,
    ensures
        attempts_end(url, dir, from, outcomes) == after_attempt(url, dir, k, outcomes(k)),
    decreases k - from,
{
    if from < k {
        assert(outcomes(from) is None);
        lemma_success(url, dir, from + 1, outcomes, k);
    }
}

/// Where no attempt brings anything, nothing is handed out and nothing is
/// written.
pub proof fn failed_fetches_keep_nothing(
    url: Seq<char>,
    dir: Option<Seq<char>>,
    files: Map<Seq<char>, Seq<u8>>,
    outcomes: spec_fn(nat) -> Option<Seq<u8>>,
)
    requires
        dir matches Some(d) ==> !(held(files, cache::cached_at(d, url)) matches Some(bytes)
            && bytes.len() > 0),
        forall|i: nat| i <= ART_FETCH_RETRIES ==> (#[trigger] outcomes(i)) is None,
    ensures
        fetching_ends(url, dir, files, outcomes) == ArtPlan::Done(None),
        files_after(files, fetching_ends(url, dir, files, outcomes)) == files,
{
    lemma_failure(url, dir, 0, outcomes);
}

proof fn lemma_failure(
    url: Seq<char>,
    dir: Option<Seq<char>>,
    from: nat,
    outcomes: spec_fn(nat) -> Option<Seq<u8>>,
)
    requires
        from <= ART_FETCH_RETRIES,
        forall|i: nat| i <= ART_FETCH_RETRIES ==> (#[trigger] outcomes(i)) is None,
    ensures
        attempts_end(url, dir, from, outcomes) == ArtPlan::Done(None),
    decreases ART_FETCH_RETRIES - from,
{
    assert(outcomes(from) is None);
    if from < ART_FETCH_RETRIES {
        lemma_failure(url, dir, from + 1, outcomes);
    }
}

/// What was fetched and kept is what is handed out the next time, whatever the
/// server would say by then, as long as its file is there.
pub proof fn kept_art_is_read_back(
    url: Seq<char>,
    dir: Option<Seq<char>>,
    files: Map<Seq<char>, Seq<u8>>,
    outcomes: spec_fn(nat) -> Option<Seq<u8>>,
    later: spec_fn(nat) -> Option<Seq<u8>>,
)
    requires
        fetching_ends(url, dir, files, outcomes) matches ArtPlan::Keep { dir: _, path: _, bytes }
            && bytes.len() > 0,
    ensures
        ({
            let end = fetching_ends(url, dir, files, outcomes);
            let next = files_after(files, end);
            &&& fetching_ends(url, dir, next, later) == ArtPlan::Done(Some(end->bytes))
            &&& files_after(next, fetching_ends(url, dir, next, later)) == next
        }),
{
    lemma_kept_at(url, dir, 0, outcomes);
}

proof fn lemma_kept_at(
    url: Seq<char>,
    dir: Option<Seq<char>>,
    from: nat,
    outcomes: spec_fn(nat) -> Option<Seq<u8>>,
)
    ensures
        attempts_end(url, dir, from, outcomes) matches ArtPlan::Keep { dir: d, path, bytes: _ }
            ==> dir == Some(d) && path == cache::cached_at(d, url),
    decreases ART_FETCH_RETRIES - from,
{
    if from < ART_FETCH_RETRIES {
        lemma_kept_at(url, dir, from + 1, outcomes);
    }
}

/// A failed attempt is made again after one second, then after two, and then no more:
/// there are three attempts at most.
pub proof fn attempts_are_made_again_later(
    url: Seq<char>,
    dir: Option<Seq<char>>,
    attempt: nat,
    bytes: Seq<u8>,
)
    ensures
        after_attempt(url, dir, 0, None) == ArtPlan::Fetch(1),
        after_attempt(url, dir, 1, None) == ArtPlan::Fetch(2),
        attempt >= 2 ==> after_attempt(url, dir, attempt, None) == ArtPlan::Done(None),
        dir is None ==> after_attempt(url, dir, attempt, Some(bytes)) == ArtPlan::Done(
            Some(bytes),
        ),
        dir is None ==> started(url, dir) == ArtPlan::Fetch(0),
        dir matches Some(d) ==> started(url, dir) == ArtPlan::Read(cache::cached_at(d, url)),
{
}

} // verus!
