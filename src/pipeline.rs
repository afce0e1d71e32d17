//! The decisions of one extraction, as a state machine. The caller performs
//! each action (probe the disk, launch the browser, fetch the cookies, close
//! the session) and hands back what came of it as an event; the machine
//! answers with the next action. Once a browser has been launched, no result
//! is handed out before the session is closed.
use crate::cookie::{Cookie, CookieError};
use crate::domain::{extract_domain, normalized};
use crate::select::{collect_result, kept, outcome_ok, RawCookie};
use vstd::prelude::*;

verus! {

/// What the browser is launched with.
pub struct SessionConfig {
    pub executable: String,
    pub user_data_dir: String,
    /// The profile directory's name within the user data directory.
    pub profile: String,
}

/// The profile used where the caller names none.
pub open spec fn default_profile() -> Seq<char> {
    "Default"@
}

/// The command-line flags beside the executable and the user data
/// directory: the profile, headless mode, no GPU, no first-run prompts, no
/// extensions, and little logging.
pub open spec fn launch_flags(profile: Seq<char>) -> Seq<Seq<char>> {
    seq![
        "--profile-directory="@ + profile,
        "--headless=new"@,
        "--disable-gpu"@,
        "--no-first-run"@,
        "--disable-extensions"@,
        "--disable-logging"@,
        "--log-level=3"@,
    ]
}

impl SessionConfig {
    /// The flags that the browser is started with, besides its executable
    /// and its user data directory.
    pub fn launch_args(&self) -> (r: Vec<String>)
        ensures
            r@.len() == launch_flags(self.profile@).len(),
            forall|i: int| 0 <= i < r@.len() ==> #[trigger] r@[i]@ == launch_flags(self.profile@)[i],
    {
        let mut profile_arg = "--profile-directory=".to_string();
        profile_arg.append(self.profile.as_str());
        let mut r: Vec<String> = Vec::new();
        r.push(profile_arg);
        r.push("--headless=new".to_string());
        r.push("--disable-gpu".to_string());
        r.push("--no-first-run".to_string());
        r.push("--disable-extensions".to_string());
        r.push("--disable-logging".to_string());
        r.push("--log-level=3".to_string());
        r
    }
}

/// Where an extraction stands.
pub enum Phase {
    /// Waiting for the browser's executable and user data directory.
    Locating,
    /// Waiting for the browser to start.
    Launching,
    /// Waiting for the cookies.
    Fetching,
    /// Waiting for the session to close; the result is already decided.
    Closing(Result<Vec<Cookie>, CookieError>),
    /// The result has been handed out.
    Done,
}

/// What came of the last action.
pub enum Event {
    /// Both the user data directory and the executable were found.
    Located { user_data_dir: String, executable: String },
    /// The locator failed.
    LocateFailed(CookieError),
    /// The browser runs and its event stream is being drained.
    Launched,
    /// The browser could not be configured or started.
    LaunchFailed(String),
    /// The browser reported these cookies.
    Fetched(Vec<RawCookie>),
    /// The cookie request failed.
    FetchFailed(String),
    /// The browser was closed and the draining task cancelled, whether or
    /// not closing reported an error.
    Closed,
    /// The launch or the cookie request took longer than its deadline.
    TimedOut,
}

/// What the caller is to do next.
pub enum Action {
    Launch(SessionConfig),
    Fetch,
    Close,
    /// Hand this result to the caller; the extraction is over.
    Finish(Result<Vec<Cookie>, CookieError>),
    /// The event does not belong to this phase; nothing changes.
    Ignore,
}

/// One extraction: the canonical requested domain, the profile, and the
/// phase.
pub struct Extraction {
    pub target: String,
    pub profile: String,
    pub phase: Phase,
}

/// The detail of the error for a launch or request that took too long.
pub open spec fn timeout_detail() -> Seq<char> {
    "timeout"@
}

/// A browser process may be running.
pub open spec fn session_live(p: Phase) -> bool {
    p is Fetching || p is Closing
}

/// `s2` and `a` are what the machine in `s` gives for `ev`.
pub open spec fn step_rel(s: Extraction, ev: Event, s2: Extraction, a: Action) -> bool {
    &&& s2.target == s.target
    &&& s2.profile == s.profile
    &&& match (s.phase, ev) {
        (Phase::Locating, Event::Located { user_data_dir, executable }) => {
            &&& s2.phase == Phase::Launching
            &&& a matches Action::Launch(c)
            &&& c.executable == executable
            &&& c.user_data_dir == user_data_dir
            &&& c.profile@ == s.profile@
        },
        (Phase::Locating, Event::LocateFailed(e)) => s2.phase == Phase::Done && a == Action::Finish(
            Err(e),
        ),
        (Phase::Launching, Event::Launched) => s2.phase == Phase::Fetching && a == Action::Fetch,
        (Phase::Launching, Event::LaunchFailed(d)) => s2.phase == Phase::Done && a
            == Action::Finish(Err(CookieError::BrowserLaunchFailed(d))),
        (Phase::Fetching, Event::Fetched(raw)) => {
            &&& a == Action::Close
            &&& s2.phase matches Phase::Closing(r)
            &&& outcome_ok(raw@, s.target@, r)
        },
        (Phase::Fetching, Event::FetchFailed(d)) => a == Action::Close && s2.phase
            == Phase::Closing(Err(CookieError::Other(d))),
        (Phase::Launching, Event::TimedOut) => {
            &&& s2.phase == Phase::Done
            &&& a matches Action::Finish(Err(CookieError::Other(d)))
            &&& d@ == timeout_detail()
        },
        (Phase::Fetching, Event::TimedOut) => {
            &&& a == Action::Close
            &&& s2.phase matches Phase::Closing(Err(CookieError::Other(d)))
            &&& d@ == timeout_detail()
        },
        (Phase::Closing(r), Event::Closed) => s2.phase == Phase::Done && a == Action::Finish(r),
        _ => s2.phase == s.phase && a == Action::Ignore,
    }
}

impl Extraction {
    /// A new extraction for the cookies of `domain` (a URL or a domain) in
    /// `profile`, or in the default profile. The caller is to locate the
    /// browser first.
    pub fn new(domain: &str, profile: Option<&str>) -> (r: Extraction)
        ensures
            r.target@ == normalized(domain@),
            r.profile@ == (match profile {
                Some(p) => p@,
                None => default_profile(),
            }),
            r.phase == Phase::Locating,
    {
        let target = extract_domain(domain);
        let profile = match profile {
            Some(p) => p.to_string(),
            None => "Default".to_string(),
        };
        Extraction { target, profile, phase: Phase::Locating }
    }

    /// Whether a browser process may be running.
    pub fn session_open(&self) -> (r: bool)
        ensures
            r == session_live(self.phase),
    {
        match self.phase {
            Phase::Fetching | Phase::Closing(_) => true,
            _ => false,
        }
    }

    /// The next state and action after `ev`.
    pub fn step(self, ev: Event) -> (r: (Extraction, Action))
        ensures
            step_rel(self, ev, r.0, r.1),
    {
        let Extraction { target, profile, phase } = self;
        match (phase, ev) {
            (Phase::Locating, Event::Located { user_data_dir, executable }) => {
                let config = SessionConfig { executable, user_data_dir, profile: profile.clone() };
                (Extraction { target, profile, phase: Phase::Launching }, Action::Launch(config))
            },
            (Phase::Locating, Event::LocateFailed(e)) => {
                (Extraction { target, profile, phase: Phase::Done }, Action::Finish(Err(e)))
            },
            (Phase::Launching, Event::Launched) => {
                (Extraction { target, profile, phase: Phase::Fetching }, Action::Fetch)
            },
            (Phase::Launching, Event::LaunchFailed(d)) => {
                (
                    Extraction { target, profile, phase: Phase::Done },
                    Action::Finish(Err(CookieError::BrowserLaunchFailed(d))),
                )
            },
            (Phase::Fetching, Event::Fetched(raw)) => {
                let r = collect_result(raw, target.as_str());
                (Extraction { target, profile, phase: Phase::Closing(r) }, Action::Close)
            },
            (Phase::Fetching, Event::FetchFailed(d)) => {
                (
                    Extraction {
                        target,
                        profile,
                        phase: Phase::Closing(Err(CookieError::Other(d))),
                    },
                    Action::Close,
                )
            },
            (Phase::Launching, Event::TimedOut) => {
                (
                    Extraction { target, profile, phase: Phase::Done },
                    Action::Finish(Err(CookieError::Other("timeout".to_string()))),
                )
            },
            (Phase::Fetching, Event::TimedOut) => {
                (
                    Extraction {
                        target,
                        profile,
                        phase: Phase::Closing(Err(CookieError::Other("timeout".to_string()))),
                    },
                    Action::Close,
                )
            },
            (Phase::Closing(r), Event::Closed) => {
                (Extraction { target, profile, phase: Phase::Done }, Action::Finish(r))
            },
            (phase, _) => (Extraction { target, profile, phase }, Action::Ignore),
        }
    }
}

/// Where the locator fails, the extraction ends at once with the locator's
/// error, and no browser is ever launched: a finished extraction ignores
/// every later event.
pub proof fn lemma_locate_failure_never_launches(
    s: Extraction,
    e: CookieError,
    s2: Extraction,
    a: Action,
    later: Event,
    s3: Extraction,
    a3: Action,
)
    requires
        s.phase == Phase::Locating,
        step_rel(s, Event::LocateFailed(e), s2, a),
        step_rel(s2, later, s3, a3),
    ensures
        a == Action::Finish(Err::<Vec<Cookie>, CookieError>(e)),
        !session_live(s2.phase),
        a3 == Action::Ignore,
        s3.phase == Phase::Done,
{
}

/// Where the cookie request fails, the session is closed first, and only
/// then is `Other` handed out, with the failure's detail.
pub proof fn lemma_fetch_failure_closes_first(
    s0: Extraction,
    d: String,
    s1: Extraction,
    a1: Action,
    s2: Extraction,
    a2: Action,
)
    requires
        s0.phase == Phase::Fetching,
        step_rel(s0, Event::FetchFailed(d), s1, a1),
        step_rel(s1, Event::Closed, s2, a2),
    ensures
        a1 == Action::Close,
        session_live(s1.phase),
        a2 == Action::Finish(Err::<Vec<Cookie>, CookieError>(CookieError::Other(d))),
        !session_live(s2.phase),
{
}

/// While a browser may be running, a result is handed out only on the
/// event that the session was closed, and the session is then over.
pub proof fn lemma_no_result_while_live(s: Extraction, ev: Event, s2: Extraction, a: Action)
    requires
        session_live(s.phase),
        step_rel(s, ev, s2, a),
        a is Finish,
    ensures
        s.phase is Closing,
        ev is Closed,
        !session_live(s2.phase),
{
}

/// A fetch that leaves no cookie for the requested domain ends, after the
/// session is closed, in `NoCookies`, never in an empty list.
pub proof fn lemma_empty_fetch_is_no_cookies(
    s0: Extraction,
    raw: Vec<RawCookie>,
    s1: Extraction,
    a1: Action,
    s2: Extraction,
    a2: Action,
)
    requires
        s0.phase == Phase::Fetching,
        kept(raw@, s0.target@).len() == 0,
        step_rel(s0, Event::Fetched(raw), s1, a1),
        step_rel(s1, Event::Closed, s2, a2),
    ensures
        a2 == Action::Finish(Err::<Vec<Cookie>, CookieError>(CookieError::NoCookies)),
{
}

} // verus!
