//! The store of file bodies on local disk: where each body lies, and the
//! steps by which a body is fetched so that no reader ever sees a part of
//! one.

use crate::fid::Fid;
use crate::text::append_chars;
use crate::text::chars_of;
use crate::text::same_chars;
use crate::text::string_of;
use crate::text::trim;
use crate::text::trimmed;
use rand::distributions::Alphanumeric;
use rand::distributions::DistString;
use vstd::prelude::*;

verus! {

/// The number of characters in the name of a scratch directory.
pub const NONCE_LEN: usize = 10;

/// Whether `c` is an ASCII letter or digit.
pub open spec fn is_alphanumeric(c: char) -> bool {
    ('0' <= c <= '9') || ('a' <= c <= 'z') || ('A' <= c <= 'Z')
}

/// Whether `s` is a name for a scratch directory: [`NONCE_LEN`] ASCII
/// letters and digits.
pub open spec fn is_nonce(s: Seq<char>) -> bool {
    s.len() == NONCE_LEN && forall|i: int| 0 <= i < s.len() ==> is_alphanumeric(#[trigger] s[i])
}

/// The text `/recfs/`.
pub open spec fn scratch_infix() -> Seq<char> {
    "/recfs/"@
}

/// The text `.download`.
pub open spec fn download_suffix() -> Seq<char> {
    ".download"@
}

/// The scratch directory named `nonce` under the directory `temp`.
pub open spec fn scratch_path(temp: Seq<char>, nonce: Seq<char>) -> Seq<char> {
    temp + scratch_infix() + nonce
}

/// The path of the complete body of `fid` in the scratch directory `base`.
pub open spec fn final_path(base: Seq<char>, fid: Fid) -> Seq<char> {
    base + "/"@ + fid.text()
}

/// The path under which the body of `fid` lies while it is fetched.
pub open spec fn download_path(base: Seq<char>, fid: Fid) -> Seq<char> {
    final_path(base, fid) + download_suffix()
}

/// `sample_string` of `rand::distributions::Alphanumeric` on
/// `rand::thread_rng`: `n` characters, each an ASCII letter or digit picked
/// at random.
#[verifier::external_body]
fn random_alphanumerics(n: usize) -> (r: String)
    ensures
        r@.len() == n,
        forall|i: int| 0 <= i < r@.len() ==> is_alphanumeric(#[trigger] r@[i]),
{
    Alphanumeric.sample_string(&mut rand::thread_rng(), n)
}

/// The store of file bodies: a scratch directory on local disk.
#[derive(Debug)]
pub struct Cache {
    basepath: String,
}

impl View for Cache {
    type V = Seq<char>;

    /// The path of the scratch directory.
    closed spec fn view(&self) -> Seq<char> {
        self.basepath@
    }
}

/// What is to be done to the scratch directory before it is used.
#[derive(Clone, Copy, Debug, PartialEq, Eq, Structural)]
pub enum InitAction {
    /// Create the directory and all that leads to it.
    Create,
    /// Ask the user whether the directory may be removed.
    Ask,
    /// Remove the directory with all that it holds.
    Wipe,
    /// Use the directory with what it holds.
    Reuse,
}

/// The text `y`.
pub open spec fn yes() -> Seq<char> {
    "y"@
}

/// What a step of fetching a body waits for or ends with.
#[derive(Clone, Copy, Debug, PartialEq, Eq, Structural)]
pub enum FetchPhase {
    /// The download path is to be opened for writing, created where it is
    /// missing, and locked for this fetch alone, waiting for the lock.
    Lock,
    /// Under the lock, the final path is to be looked for.
    Probe,
    /// Under the lock, the body is to be streamed from the address into the
    /// download path.
    Download,
    /// Under the lock, the download path is to be renamed to the final path.
    Publish,
    /// The body is at the final path; the lock is to be released.
    Done,
    /// The fetch failed; the lock, where it is held, is to be released.
    Failed,
}

/// What the outside did for a step of a fetch.
#[derive(Clone, Copy, Debug, PartialEq, Eq, Structural)]
pub enum FetchEvent {
    /// The lock is held.
    Locked,
    /// The final path exists, or does not.
    Probed(bool),
    /// The body was streamed to its end.
    Downloaded,
    /// The download path was renamed to the final path.
    Published,
    /// The step failed.
    Error,
}

/// The phase that follows `phase` when `event` comes: lock, look for the
/// final path, stream the body unless it is there, rename. An event that
/// does not answer the phase fails the fetch.
pub open spec fn next_phase(phase: FetchPhase, event: FetchEvent) -> FetchPhase {
    match (phase, event) {
        (FetchPhase::Lock, FetchEvent::Locked) => FetchPhase::Probe,
        (FetchPhase::Probe, FetchEvent::Probed(true)) => FetchPhase::Done,
        (FetchPhase::Probe, FetchEvent::Probed(false)) => FetchPhase::Download,
        (FetchPhase::Download, FetchEvent::Downloaded) => FetchPhase::Publish,
        (FetchPhase::Publish, FetchEvent::Published) => FetchPhase::Done,
        _ => FetchPhase::Failed,
    }
}

/// The phase that a fetch is in after `events`, from the phase `from`.
pub open spec fn phase_after(from: FetchPhase, events: Seq<FetchEvent>) -> FetchPhase
    decreases events.len(),
{
    if events.len() == 0 {
        from
    } else {
        next_phase(phase_after(from, events.drop_last()), events.last())
    }
}

/// How many times a fetch that goes through `events` from the phase `from`
/// is told to stream the body.
pub open spec fn downloads(from: FetchPhase, events: Seq<FetchEvent>) -> nat
    decreases events.len(),
{
    if events.len() == 0 {
        0
    } else {
        let before = downloads(from, events.drop_last());
        if phase_after(from, events) == FetchPhase::Download {
            before + 1
        } else {
            before
        }
    }
}

/// How many steps a fetch in `phase` has before it at most.
pub open spec fn steps_left(phase: FetchPhase) -> nat {
    match phase {
        FetchPhase::Lock => 4,
        FetchPhase::Probe => 3,
        FetchPhase::Download => 2,
        FetchPhase::Publish => 1,
        FetchPhase::Done => 0,
        FetchPhase::Failed => 0,
    }
}

/// Every step of a fetch brings it nearer to its end, and a fetch that has
/// ended stays ended or failed.
pub proof fn lemma_fetch_progress(phase: FetchPhase, event: FetchEvent)
    ensures
        steps_left(next_phase(phase, event)) < steps_left(phase) || steps_left(phase) == 0,
        steps_left(phase) == 0 ==> next_phase(phase, event) == FetchPhase::Failed,
{
}

/// A fetch is told to rename only after the body was streamed to its end,
/// and told to stream only after the final path was found missing under
/// the lock.
pub proof fn lemma_fetch_order(phase: FetchPhase, event: FetchEvent)
    ensures
        next_phase(phase, event) == FetchPhase::Publish ==> phase == FetchPhase::Download && event
            == FetchEvent::Downloaded,
        next_phase(phase, event) == FetchPhase::Download ==> phase == FetchPhase::Probe && event
            == FetchEvent::Probed(false),
        next_phase(phase, event) == FetchPhase::Probe ==> phase == FetchPhase::Lock && event
            == FetchEvent::Locked,
{
}

/// From its first step on, whatever the outside answers, a fetch is told to
/// stream the body at most once.
pub proof fn lemma_one_download(events: Seq<FetchEvent>)
    ensures
        downloads(FetchPhase::Lock, events) <= 1,
        downloads(FetchPhase::Lock, events) == 1 ==> steps_left(
            phase_after(FetchPhase::Lock, events),
        ) <= 2,
        steps_left(phase_after(FetchPhase::Lock, events)) > 2 ==> downloads(
            FetchPhase::Lock,
            events,
        ) == 0,
    decreases events.len(),
{
    if events.len() > 0 {
        lemma_one_download(events.drop_last());
        lemma_fetch_progress(phase_after(FetchPhase::Lock, events.drop_last()), events.last());
    }
}

/// What the outside answers to a fetch that meets no error, where the
/// final path is `present` or not when the fetch looks for it.
pub open spec fn answers(present: bool) -> Seq<FetchEvent> {
    if present {
        seq![FetchEvent::Locked, FetchEvent::Probed(true)]
    } else {
        seq![
            FetchEvent::Locked,
            FetchEvent::Probed(false),
            FetchEvent::Downloaded,
            FetchEvent::Published,
        ]
    }
}

/// How many times `n` fetches of one body stream it when each runs after
/// the one before has ended and none meets an error; `present` says
/// whether the body is there before the first.
pub open spec fn downloads_in_turn(n: nat, present: bool) -> nat
    decreases n,
{
    if n == 0 {
        0
    } else {
        downloads(FetchPhase::Lock, answers(present)) + downloads_in_turn((n - 1) as nat, true)
    }
}

/// A fetch that meets no error ends with the body at the final path, and
/// has streamed it once if it was missing and not at all if it was there.
pub proof fn lemma_fetch_without_error(present: bool)
    ensures
        phase_after(FetchPhase::Lock, answers(present)) == FetchPhase::Done,
        downloads(FetchPhase::Lock, answers(present)) == if present {
            0nat
        } else {
            1nat
        },
{
    let a = answers(present);
    if present {
        let a1 = a.drop_last();
        assert(a1 =~= seq![FetchEvent::Locked]);
        assert(a1.drop_last() =~= Seq::<FetchEvent>::empty());
        assert(phase_after(FetchPhase::Lock, a1.drop_last()) == FetchPhase::Lock);
        assert(phase_after(FetchPhase::Lock, a1) == FetchPhase::Probe);
        assert(downloads(FetchPhase::Lock, a1.drop_last()) == 0);
        assert(downloads(FetchPhase::Lock, a1) == 0);
    } else {
        let a3 = a.drop_last();
        let a2 = a3.drop_last();
        let a1 = a2.drop_last();
        assert(a3 =~= seq![FetchEvent::Locked, FetchEvent::Probed(false), FetchEvent::Downloaded]);
        assert(a2 =~= seq![FetchEvent::Locked, FetchEvent::Probed(false)]);
        assert(a1 =~= seq![FetchEvent::Locked]);
        assert(a1.drop_last() =~= Seq::<FetchEvent>::empty());
        assert(phase_after(FetchPhase::Lock, a1.drop_last()) == FetchPhase::Lock);
        assert(phase_after(FetchPhase::Lock, a1) == FetchPhase::Probe);
        assert(phase_after(FetchPhase::Lock, a2) == FetchPhase::Download);
        assert(phase_after(FetchPhase::Lock, a3) == FetchPhase::Publish);
        assert(downloads(FetchPhase::Lock, a1.drop_last()) == 0);
        assert(downloads(FetchPhase::Lock, a1) == 0);
        assert(downloads(FetchPhase::Lock, a2) == 1);
        assert(downloads(FetchPhase::Lock, a3) == 1);
    }
}

/// Fetches of one body that run in turn and meet no error stream the body
/// once in all, where it was missing before the first.
pub proof fn lemma_fetches_in_turn(n: nat)
    ensures
        downloads_in_turn(n, true) == 0,
        downloads_in_turn(n, false) == if n == 0 {
            0nat
        } else {
            1nat
        },
    decreases n,
{
    if n > 0 {
        lemma_fetches_in_turn((n - 1) as nat);
        lemma_fetch_without_error(true);
        lemma_fetch_without_error(false);
    }
}

/// One fetch of a body, at one of its steps.
#[derive(Debug)]
pub struct Fetch {
    phase: FetchPhase,
    url: String,
    download: String,
    target: String,
}

/// What a fetch holds.
pub struct FetchView {
    pub phase: FetchPhase,
    /// The address that the body is streamed from.
    pub url: Seq<char>,
    /// The path that the body is streamed into.
    pub download: Seq<char>,
    /// The path that the complete body is renamed to.
    pub target: Seq<char>,
}

impl View for Fetch {
    type V = FetchView;

    closed spec fn view(&self) -> FetchView {
        FetchView {
            phase: self.phase,
            url: self.url@,
            download: self.download@,
            target: self.target@,
        }
    }
}

impl Fetch {
    /// What is to be done next.
    pub fn phase(&self) -> (r: FetchPhase)
        ensures
            r == self@.phase,
    {
        self.phase
    }

    /// The address that the body is streamed from.
    pub fn url(&self) -> (r: &String)
        ensures
            r@ == self@.url,
    {
        &self.url
    }

    /// The path that the body is streamed into.
    pub fn download_path(&self) -> (r: &String)
        ensures
            r@ == self@.download,
    {
        &self.download
    }

    /// The path that the complete body is renamed to.
    pub fn final_path(&self) -> (r: &String)
        ensures
            r@ == self@.target,
    {
        &self.target
    }

    /// Takes the fetch to its next step: `event` is what the outside did
    /// for the step before.
    pub fn advance(&mut self, event: FetchEvent)
        ensures
            final(self)@ == (FetchView {
                phase: next_phase(old(self)@.phase, event),
                url: old(self)@.url,
                download: old(self)@.download,
                target: old(self)@.target,
            }),
    {
        self.phase = match (self.phase, event) {
            (FetchPhase::Lock, FetchEvent::Locked) => FetchPhase::Probe,
            (FetchPhase::Probe, FetchEvent::Probed(true)) => FetchPhase::Done,
            (FetchPhase::Probe, FetchEvent::Probed(false)) => FetchPhase::Download,
            (FetchPhase::Download, FetchEvent::Downloaded) => FetchPhase::Publish,
            (FetchPhase::Publish, FetchEvent::Published) => FetchPhase::Done,
            _ => FetchPhase::Failed,
        };
    }
}

impl Cache {
    /// The store in a new scratch directory under `temp_dir`, named at
    /// random.
    pub fn new(temp_dir: &str) -> (c: Self)
        ensures
            exists|nonce: Seq<char>| is_nonce(nonce) && c@ == scratch_path(temp_dir@, nonce),
    {
        let nonce = random_alphanumerics(NONCE_LEN);
        assert(is_nonce(nonce@));
        Cache::with_nonce(temp_dir, nonce.as_str())
    }

    /// The store in the scratch directory named `nonce` under `temp_dir`.
    pub fn with_nonce(temp_dir: &str, nonce: &str) -> (c: Self)
        ensures
            c@ == scratch_path(temp_dir@, nonce@),
    {
        let mut v = chars_of(temp_dir);
        append_chars(&mut v, chars_of("/recfs/").as_slice());
        append_chars(&mut v, chars_of(nonce).as_slice());
        Cache { basepath: string_of(v.as_slice()) }
    }

    /// The path of the scratch directory.
    pub fn basepath(&self) -> (r: &String)
        ensures
            r@ == self@,
    {
        &self.basepath
    }

    /// What is to be done first to the scratch directory: it is created
    /// where it does not exist; where it does, the user is asked.
    pub fn init_path(present: bool) -> (r: InitAction)
        ensures
            r == if present {
                InitAction::Ask
            } else {
                InitAction::Create
            },
    {
        if present {
            InitAction::Ask
        } else {
            InitAction::Create
        }
    }

    /// What is to be done to a scratch directory that exists, given the
    /// user's answer: it is removed on `y`, white space around it aside, and
    /// used as it is on every other answer.
    pub fn init_answer(answer: &str) -> (r: InitAction)
        ensures
            r == if trimmed(answer@) == yes() {
                InitAction::Wipe
            } else {
                InitAction::Reuse
            },
    {
        let a = trim(chars_of(answer).as_slice());
        if same_chars(a.as_slice(), chars_of("y").as_slice()) {
            InitAction::Wipe
        } else {
            InitAction::Reuse
        }
    }

    /// The path of the complete body of `fid`.
    pub fn final_path(&self, fid: Fid) -> (r: String)
        ensures
            r@ == final_path(self@, fid),
    {
        let mut v = chars_of(self.basepath.as_str());
        append_chars(&mut v, chars_of("/").as_slice());
        append_chars(&mut v, chars_of(fid.to_string().as_str()).as_slice());
        string_of(v.as_slice())
    }

    /// The path under which the body of `fid` lies while it is fetched.
    pub fn download_path(&self, fid: Fid) -> (r: String)
        ensures
            r@ == download_path(self@, fid),
    {
        let mut v = chars_of(self.final_path(fid).as_str());
        append_chars(&mut v, chars_of(".download").as_slice());
        string_of(v.as_slice())
    }

    /// The path of the body of `fid` where the store has it: `present` says
    /// whether the final path exists, which alone decides.
    pub fn contains(&self, fid: Fid, present: bool) -> (r: Option<String>)
        ensures
            r is Some <==> present,
            r matches Some(p) ==> p@ == final_path(self@, fid),
    {
        if present {
            Some(self.final_path(fid))
        } else {
            None
        }
    }

    /// Begins to fetch the body of `fid` from the address `url`.
    pub fn fetch(&self, fid: Fid, url: String) -> (f: Fetch)
        ensures
            f@ == (FetchView {
                phase: FetchPhase::Lock,
                url: url@,
                download: download_path(self@, fid),
                target: final_path(self@, fid),
            }),
    {
        Fetch {
            phase: FetchPhase::Lock,
            url,
            download: self.download_path(fid),
            target: self.final_path(fid),
        }
    }
}

} // verus!
