//! The session: signing in and out, what survives a restart, and how the
//! sync loop keeps going through network loss.

use vstd::prelude::*;

use rand::RngExt;

use crate::community::{DmPolicy, Prefs};
use crate::protocol::{Event, Status};
use crate::refusal::Refusal;
use crate::secrets::Backend;
use crate::text;

verus! {

/// The longest wait between two tries, in seconds.
pub const MAX_WAIT: u64 = 60;

/// The first wait after a failed sync, in seconds.
pub const SYNC_WAIT: u64 = 2;

/// The first wait after a session that could not be restored, in seconds.
pub const RESTORE_WAIT: u64 = 5;

/// How long changes of the room list are gathered, in milliseconds.
pub const GATHER_MS: u64 = 300;

/// How long to sleep with no change pending, in milliseconds.
pub const IDLE_MS: u64 = 3_600_000;

pub fn version() -> (r: &'static str)
    ensures
        r@ == "1.0.1"@,
{
    "1.0.1"
}

/// The account of an open session.
#[derive(Debug, Clone, PartialEq, Eq)]
pub struct Account {
    pub user_id: Option<String>,
    pub homeserver: String,
}

/// A browser sign-in that is waiting for the redirect, or has ended.
#[derive(Debug, Clone, PartialEq, Eq)]
pub struct PendingLogin {
    pub store_path: String,
    pub finished: bool,
}

/// What the daemon knows of its session.
#[derive(Debug, Clone, PartialEq, Eq)]
pub struct Core {
    pub client: Option<Account>,
    pub pending: Option<PendingLogin>,
    pub syncing: bool,
    pub error: Option<String>,
    /// Where this session's secrets are kept, once known.
    pub secrets_backend: Option<Backend>,
    /// The store passphrase, so refreshed tokens can be saved beside it.
    pub store_passphrase: Option<String>,
    /// DM policy and community space.
    pub prefs: Prefs,
}

/// What is left to do after a sign-in was abandoned: the task to end and the
/// store to remove.
#[derive(Debug, Clone, PartialEq, Eq)]
pub struct Abandoned {
    pub store_path: String,
}

pub fn copy_prefs(p: &Prefs) -> (r: Prefs)
    ensures
        r == *p,
{
    Prefs { dm_policy: p.dm_policy, community: p.community.clone() }
}

/// A daemon that nobody has signed in to.
pub open spec fn fresh(prefs: Prefs) -> Core {
    Core {
        client: None,
        pending: None,
        syncing: false,
        error: None,
        secrets_backend: None,
        store_passphrase: None,
        prefs,
    }
}

impl Core {
    pub fn new(prefs: Prefs) -> (c: Core)
        ensures
            c == fresh(prefs),
    {
        Core {
            client: None,
            pending: None,
            syncing: false,
            error: None,
            secrets_backend: None,
            store_passphrase: None,
            prefs,
        }
    }

    /// A browser sign-in is waiting.
    pub open spec fn pending_login(&self) -> bool {
        self.pending is Some && !self.pending->0.finished
    }

    pub fn login_pending(&self) -> (r: bool)
        ensures
            r == self.pending_login(),
    {
        match &self.pending {
            Some(p) => !p.finished,
            None => false,
        }
    }

    /// The session's state for clients; `saved` says that a session file
    /// exists. A saved session is reported only while none is open.
    pub fn status(&self, saved: bool) -> (s: Status)
        ensures
            s.version@ == "1.0.1"@,
            s.logged_in == (self.client is Some),
            s.syncing == self.syncing,
            s.pending_login == self.pending_login(),
            s.user_id == match self.client {
                Some(a) => a.user_id,
                None => None,
            },
            s.homeserver == match self.client {
                Some(a) => Some(a.homeserver),
                None => None,
            },
            s.error == self.error,
            s.secrets == self.secrets_backend,
            s.saved_session == (self.client is None && saved),
            !(s.saved_session && s.logged_in),
    {
        let (user_id, homeserver) = match &self.client {
            Some(a) => (text::copy_opt(&a.user_id), Some(a.homeserver.clone())),
            None => (None, None),
        };
        Status {
            version: version().to_owned(),
            logged_in: self.client.is_some(),
            syncing: self.syncing,
            pending_login: self.login_pending(),
            user_id,
            homeserver,
            error: text::copy_opt(&self.error),
            secrets: self.secrets_backend,
            saved_session: self.client.is_none() && saved,
        }
    }

    /// Nobody is signed in, nor about to be.
    pub fn ensure_signed_out(&self) -> (r: Result<(), Refusal>)
        ensures
            r == (if self.client is Some {
                Err(Refusal::AlreadyLoggedIn)
            } else if self.pending_login() {
                Err(Refusal::SignInPending)
            } else {
                Ok(())
            }),
    {
        if self.client.is_some() {
            Err(Refusal::AlreadyLoggedIn)
        } else if self.login_pending() {
            Err(Refusal::SignInPending)
        } else {
            Ok(())
        }
    }

    /// A session was written; its secrets are where `backend` says.
    pub fn session_saved(&mut self, backend: Option<Backend>)
        ensures
            *final(self) == (Core { secrets_backend: backend, ..*old(self) }),
    {
        self.secrets_backend = backend;
    }

    /// The passphrase of the store that was opened.
    pub fn remember_passphrase(&mut self, passphrase: String)
        ensures
            *final(self) == (Core { store_passphrase: Some(passphrase), ..*old(self) }),
    {
        self.store_passphrase = Some(passphrase);
    }

    /// A saved session was opened.
    pub fn session_restored(&mut self, backend: Option<Backend>, passphrase: String)
        ensures
            *final(self) == (Core {
                secrets_backend: backend,
                store_passphrase: Some(passphrase),
                error: None,
                ..*old(self)
            }),
    {
        self.secrets_backend = backend;
        self.store_passphrase = Some(passphrase);
        self.error = None;
    }

    /// A client was built and its loops run: the session is open, and no
    /// sign-in is waiting any more.
    pub fn start(&mut self, account: Account)
        ensures
            *final(self) == (Core {
                client: Some(account),
                pending: None,
                error: None,
                ..*old(self)
            }),
            !final(self).pending_login(),
    {
        self.client = Some(account);
        self.pending = None;
        self.error = None;
    }

    /// A browser sign-in waits for the redirect.
    pub fn oauth_started(&mut self, store_path: String)
        ensures
            *final(self) == (Core {
                pending: Some(PendingLogin { store_path, finished: false }),
                ..*old(self)
            }),
            final(self).pending_login(),
    {
        self.pending = Some(PendingLogin { store_path, finished: false });
    }

    /// A browser sign-in failed; another may be started.
    pub fn oauth_failed(&mut self, why: String)
        ensures
            *final(self) == (Core {
                pending: match old(self).pending {
                    Some(p) => Some(PendingLogin { finished: true, ..p }),
                    None => None,
                },
                error: Some(why),
                ..*old(self)
            }),
            !final(self).pending_login(),
    {
        let mut pending: Option<PendingLogin> = None;
        std::mem::swap(&mut pending, &mut self.pending);
        if let Some(p) = pending {
            self.pending = Some(PendingLogin { store_path: p.store_path, finished: true });
        }
        self.error = Some(why);
    }

    /// Abandon a browser sign-in. One that is still waiting leaves a task and
    /// a store to end.
    pub fn login_cancel(&mut self) -> (r: Result<Option<Abandoned>, Refusal>)
        ensures
            *final(self) == (Core { pending: None, ..*old(self) }),
            r == match old(self).pending {
                None => Err(Refusal::NoSignIn),
                Some(p) => if p.finished {
                    Ok(None)
                } else {
                    Ok(Some(Abandoned { store_path: p.store_path }))
                },
            },
    {
        let mut pending: Option<PendingLogin> = None;
        std::mem::swap(&mut pending, &mut self.pending);
        match pending {
            None => Err(Refusal::NoSignIn),
            Some(p) => if p.finished {
                Ok(None)
            } else {
                Ok(Some(Abandoned { store_path: p.store_path }))
            },
        }
    }

    /// Orderly stop: the sync loop and any pending sign-in end, and the
    /// client is released. The saved session stays.
    pub fn shutdown(&mut self)
        ensures
            *final(self) == (Core { client: None, pending: None, syncing: false, ..*old(self) }),
    {
        self.client = None;
        self.pending = None;
        self.syncing = false;
    }

    /// Sign out: the client and any pending sign-in go. Returns the store of
    /// the sign-in to remove, and whether there was a session, which then is
    /// to be ended on the server and forgotten here.
    pub fn logout(&mut self) -> (r: (Option<Abandoned>, Result<(), Refusal>))
        ensures
            *final(self) == signed_out(*old(self)),
            r.0 == match old(self).pending {
                Some(p) => Some(Abandoned { store_path: p.store_path }),
                None => None,
            },
            r.1 == (if old(self).client is Some {
                Ok(())
            } else {
                Err(Refusal::NotLoggedIn)
            }),
    {
        let mut pending: Option<PendingLogin> = None;
        std::mem::swap(&mut pending, &mut self.pending);
        let was_in = self.client.is_some();
        self.client = None;
        let gone = match pending {
            Some(p) => Some(Abandoned { store_path: p.store_path }),
            None => None,
        };
        (
            gone,
            if was_in {
                Ok(())
            } else {
                Err(Refusal::NotLoggedIn)
            },
        )
    }

    /// The saved session was dropped, with everything known of it.
    pub fn forget_session(&mut self)
        ensures
            *final(self) == forgotten(*old(self)),
    {
        self.syncing = false;
        self.error = None;
        self.secrets_backend = None;
        self.store_passphrase = None;
    }

    /// Live updates run, or do not. Running ones clear the error.
    pub fn set_syncing(&mut self, syncing: bool)
        ensures
            *final(self) == (Core {
                syncing,
                error: if syncing {
                    None
                } else {
                    old(self).error
                },
                ..*old(self)
            }),
    {
        self.syncing = syncing;
        if syncing {
            self.error = None;
        }
    }

    pub fn set_error(&mut self, error: Option<String>)
        ensures
            *final(self) == (Core { error, ..*old(self) }),
    {
        self.error = error;
    }

    /// Change who may open a direct chat, and the community where one is
    /// named. Returns the preferences to save.
    pub fn set_dm_policy(&mut self, policy: DmPolicy, community: String) -> (r: Prefs)
        ensures
            *final(self) == (Core {
                prefs: Prefs {
                    dm_policy: policy,
                    community: if community@.len() == 0 {
                        old(self).prefs.community
                    } else {
                        community
                    },
                },
                ..*old(self)
            }),
            r == final(self).prefs,
    {
        self.prefs.dm_policy = policy;
        if !community.as_str().is_empty() {
            self.prefs.community = community;
        }
        copy_prefs(&self.prefs)
    }

    /// A community was joined. Returns the preferences to save.
    pub fn community_joined(&mut self, alias: String) -> (r: Prefs)
        ensures
            *final(self) == (Core {
                prefs: Prefs { community: alias, ..old(self).prefs },
                ..*old(self)
            }),
            r == final(self).prefs,
    {
        self.prefs.community = alias;
        copy_prefs(&self.prefs)
    }
}

/// What signing out leaves.
pub open spec fn signed_out(c: Core) -> Core {
    Core { client: None, pending: None, ..c }
}

/// What forgetting the session leaves.
pub open spec fn forgotten(c: Core) -> Core {
    Core { syncing: false, error: None, secrets_backend: None, store_passphrase: None, ..c }
}

/// Signing out and forgetting the session leaves a daemon as it was before
/// anyone signed in, but for the preferences: nothing of the account stays.
pub proof fn lemma_logout_forgets(c: Core)
    ensures
        forgotten(signed_out(c)) == fresh(c.prefs),
{
}

/// The wait before the `n`th try after a failure: `first` seconds, doubling up
/// to the longest.
pub open spec fn wait_of(first: u64, n: nat) -> u64
    decreases n,
{
    if n <= 1 {
        first
    } else {
        doubled(wait_of(first, (n - 1) as nat))
    }
}

/// Twice the wait, up to the longest.
pub open spec fn doubled(wait: u64) -> u64 {
    if 2 * wait > MAX_WAIT {
        MAX_WAIT
    } else {
        (2 * wait) as u64
    }
}

/// A wait is never longer than the longest, and no shorter than the one
/// before it.
pub proof fn lemma_waits(first: u64, n: nat)
    requires
        first <= MAX_WAIT,
    ensures
        first <= wait_of(first, n) <= MAX_WAIT,
        wait_of(first, n) <= wait_of(first, n + 1),
    decreases n,
{
    if n > 1 {
        lemma_waits(first, (n - 1) as nat);
    }
    reveal_with_fuel(wait_of, 2);
}

/// Waits that double after every failure.
pub struct Backoff {
    first: u64,
    wait: u64,
    /// Failures so far.
    tries: Ghost<nat>,
}

impl Backoff {
    pub closed spec fn first(&self) -> u64 {
        self.first
    }

    /// Failures so far.
    pub closed spec fn tries(&self) -> nat {
        self.tries@
    }

    pub closed spec fn wf(&self) -> bool {
        self.first <= MAX_WAIT && self.wait == wait_of(self.first, self.tries@ + 1)
    }

    pub fn new(first: u64) -> (b: Backoff)
        requires
            first <= MAX_WAIT,
        ensures
            b.wf(),
            b.first() == first,
            b.tries() == 0,
    {
        Backoff { first, wait: first, tries: Ghost(0) }
    }

    /// Another failure: the seconds to wait before the next try.
    pub fn failed(&mut self) -> (wait: u64)
        requires
            old(self).wf(),
        ensures
            final(self).wf(),
            final(self).first() == old(self).first(),
            final(self).tries() == old(self).tries() + 1,
            wait == wait_of(old(self).first(), final(self).tries()),
            wait <= MAX_WAIT,
    {
        let wait: u64 = self.wait;
        proof {
            lemma_waits(self.first, self.tries@ + 1);
        }
        self.wait = if wait > MAX_WAIT / 2 {
            MAX_WAIT
        } else {
            wait * 2
        };
        self.tries = Ghost((self.tries@ + 1) as nat);
        wait
    }
}

/// What to do about a saved session that could not be opened at first.
#[derive(Debug, Clone, Copy, PartialEq, Eq, Structural)]
pub enum Retry {
    /// Someone signed in meanwhile, or the session is gone: give up.
    Stop,
    /// Try to open it, without asking for the keyring to be unlocked.
    Load,
}

/// A quiet retry is due only while nobody is signed in and the session file
/// is there.
pub fn retry(core: &Core, saved: bool) -> (r: Retry)
    ensures
        r == (if core.client is Some || !saved {
            Retry::Stop
        } else {
            Retry::Load
        }),
{
    if core.client.is_some() || !saved {
        Retry::Stop
    } else {
        Retry::Load
    }
}

/// The saved session could not be read, or not be opened: the error says so.
pub fn restore_failed(core: &mut Core, read: bool, why: &str)
    ensures
        text::opt(final(core).error) == Some(
            (if read {
                "Could not restore the session: "@
            } else {
                "Could not read the saved session: "@
            }) + why@,
        ),
        *final(core) == (Core { error: final(core).error, ..*old(core) }),
{
    let head = if read {
        "Could not restore the session: "
    } else {
        "Could not read the saved session: "
    };
    core.set_error(Some(text::plus(head, why)));
}

/// The first sync failed: the error says so, and it is tried again after the
/// wait that comes back, in seconds.
pub fn first_sync_failed(core: &mut Core, backoff: &mut Backoff, why: &str) -> (wait: u64)
    requires
        old(backoff).wf(),
    ensures
        final(backoff).wf(),
        final(backoff).first() == old(backoff).first(),
        final(backoff).tries() == old(backoff).tries() + 1,
        wait == wait_of(old(backoff).first(), final(backoff).tries()),
        text::opt(final(core).error) == Some("sync: "@ + why@),
        *final(core) == (Core { error: final(core).error, ..*old(core) }),
{
    core.set_error(Some(text::plus("sync: ", why)));
    backoff.failed()
}

/// The sync loop ended for good, with an error or without.
pub fn sync_ended(core: &mut Core, why: Option<String>)
    ensures
        !final(core).syncing,
        text::opt(final(core).error) == match why {
            Some(e) => Some("sync stopped: "@ + e@),
            None => text::opt(old(core).error),
        },
        *final(core) == (Core { syncing: false, error: final(core).error, ..*old(core) }),
{
    core.set_syncing(false);
    if let Some(e) = why {
        core.set_error(Some(text::plus("sync stopped: ", e.as_str())));
    }
}

/// How the live sync is doing.
#[derive(Debug, Clone, PartialEq, Eq)]
pub struct Health {
    /// Failures since the last sync that succeeded.
    pub failures: u32,
}

/// While syncs fail, the status says so.
pub open spec fn in_step(core: Core, health: Health) -> bool {
    health.failures > 0 ==> !core.syncing && core.error is Some
}

proof fn lemma_longest(n: nat)
    requires
        n >= 6,
    ensures
        wait_of(SYNC_WAIT, n) == MAX_WAIT,
    decreases n,
{
    if n > 6 {
        lemma_longest((n - 1) as nat);
    } else {
        reveal_with_fuel(wait_of, 6);
    }
}

/// The seconds to wait after `failures` failed syncs.
pub fn sync_wait(failures: u32) -> (r: u64)
    requires
        failures >= 1,
    ensures
        r == wait_of(SYNC_WAIT, failures as nat),
{
    proof {
        reveal_with_fuel(wait_of, 6);
        if failures >= 6 {
            lemma_longest(failures as nat);
        }
    }
    if failures == 1 {
        2
    } else if failures == 2 {
        4
    } else if failures == 3 {
        8
    } else if failures == 4 {
        16
    } else if failures == 5 {
        32
    } else {
        60
    }
}

impl Health {
    /// The first sync succeeded: live updates run.
    pub fn new() -> (h: Health)
        ensures
            h.failures == 0,
    {
        Health { failures: 0 }
    }

    /// A sync failed (network gone, laptop asleep, server hiccup). That does
    /// not end live updates: the status says that we are behind, and the sync
    /// is tried again after the wait that comes back, in seconds.
    pub fn failed(&mut self, core: &mut Core, why: &str) -> (wait: u64)
        ensures
            final(self).failures == (if old(self).failures == u32::MAX {
                u32::MAX
            } else {
                (old(self).failures + 1) as u32
            }),
            wait == wait_of(SYNC_WAIT, final(self).failures as nat),
            final(core).syncing == (old(self).failures > 0 && old(core).syncing),
            text::opt(final(core).error) == Some("Reconnecting… ("@ + why@ + ")"@),
            *final(core) == (Core {
                syncing: final(core).syncing,
                error: final(core).error,
                ..*old(core)
            }),
            in_step(*old(core), *old(self)) ==> in_step(*final(core), *final(self)),
    {
        if self.failures < u32::MAX {
            self.failures = self.failures + 1;
        }
        if self.failures == 1 {
            core.set_syncing(false);
        }
        core.set_error(Some(text::plus3("Reconnecting… (", why, ")")));
        sync_wait(self.failures)
    }

    /// A sync succeeded. After failures, the status is put right: live updates
    /// run, and the error is gone.
    pub fn succeeded(&mut self, core: &mut Core)
        ensures
            final(self).failures == 0,
            *final(core) == (if old(self).failures > 0 {
                Core { syncing: true, error: None, ..*old(core) }
            } else {
                *old(core)
            }),
            in_step(*final(core), *final(self)),
    {
        if self.failures > 0 {
            self.failures = 0;
            core.set_syncing(true);
        }
    }
}

/// A change to the session that the client reports.
#[derive(Debug, Clone, Copy, PartialEq, Eq, Structural)]
pub enum SessionChange {
    /// The tokens were refreshed: the new ones have to be saved.
    TokensRefreshed,
    /// The homeserver does not know our token.
    UnknownToken,
}

/// What a session change asks for: whether the tokens are to be saved.
pub fn on_session_change(core: &mut Core, change: SessionChange) -> (save: bool)
    ensures
        save == (change == SessionChange::TokensRefreshed),
        match change {
            SessionChange::TokensRefreshed => *final(core) == *old(core),
            SessionChange::UnknownToken => {
                &&& text::opt(final(core).error) == Some(
                    "session expired; sign out and sign in again"@,
                )
                &&& *final(core) == (Core { error: final(core).error, ..*old(core) })
            },
        },
{
    match change {
        SessionChange::TokensRefreshed => true,
        SessionChange::UnknownToken => {
            core.set_error(Some("session expired; sign out and sign in again".to_owned()));
            false
        },
    }
}

/// Gathers changes of the room list into one announcement.
#[derive(Debug, Clone, PartialEq, Eq)]
pub struct Gathering {
    pub pending: bool,
}

impl Gathering {
    pub fn new() -> (g: Gathering)
        ensures
            !g.pending,
    {
        Gathering { pending: false }
    }

    /// How long to wait for the next change, in milliseconds.
    pub fn wait_ms(&self) -> (ms: u64)
        ensures
            ms == (if self.pending {
                GATHER_MS
            } else {
                IDLE_MS
            }),
    {
        if self.pending {
            GATHER_MS
        } else {
            IDLE_MS
        }
    }

    /// A room changed: by a read receipt, an unread flag or a new latest
    /// event, which the room list shows, or otherwise.
    pub fn changed(&mut self, receipt: bool, unread: bool, latest: bool)
        ensures
            final(self).pending == (old(self).pending || receipt || unread || latest),
    {
        if receipt || unread || latest {
            self.pending = true;
        }
    }

    /// Changes were missed: the room list may have changed.
    pub fn lagged(&mut self)
        ensures
            final(self).pending,
    {
        self.pending = true;
    }

    /// No change came within the wait: what was gathered is announced, once.
    pub fn quiet(&mut self) -> (r: Option<Event>)
        ensures
            !final(self).pending,
            r == (if old(self).pending {
                Some(Event::RoomsChanged)
            } else {
                None
            }),
    {
        if self.pending {
            self.pending = false;
            Some(Event::RoomsChanged)
        } else {
            None
        }
    }
}

/// What survives a restart, in the session file. Sessions from before the
/// keyring, and those without one, carry their secrets inline.
#[derive(Debug, Clone, PartialEq, Eq)]
pub struct PersistedSession {
    pub homeserver: String,
    pub store_path: String,
    pub sync_token: Option<String>,
    pub secrets: Option<Backend>,
    pub store_passphrase: Option<String>,
    /// The Matrix tokens, as JSON.
    pub auth: Option<String>,
}

/// The secret half of a session.
#[derive(Debug, Clone, PartialEq, Eq)]
pub struct SessionSecrets {
    pub store_passphrase: String,
    /// The Matrix tokens, as JSON.
    pub auth: String,
}

/// A new session, before its secrets are stored.
pub fn new_session(homeserver: String, store_path: String) -> (s: PersistedSession)
    ensures
        s == (PersistedSession {
            homeserver,
            store_path,
            sync_token: None,
            secrets: None,
            store_passphrase: None,
            auth: None,
        }),
{
    PersistedSession {
        homeserver,
        store_path,
        sync_token: None,
        secrets: None,
        store_passphrase: None,
        auth: None,
    }
}

/// The session file's content: with the secrets in the keyring it only points
/// there, else it holds them.
pub open spec fn written(
    saved: PersistedSession,
    secrets: SessionSecrets,
    in_keyring: bool,
) -> PersistedSession {
    if in_keyring {
        PersistedSession {
            secrets: Some(Backend::Keyring),
            store_passphrase: None,
            auth: None,
            ..saved
        }
    } else {
        PersistedSession {
            secrets: Some(Backend::File),
            store_passphrase: Some(secrets.store_passphrase),
            auth: Some(secrets.auth),
            ..saved
        }
    }
}

pub fn save_session(saved: PersistedSession, secrets: &SessionSecrets, in_keyring: bool) -> (r:
    PersistedSession)
    ensures
        r == written(saved, *secrets, in_keyring),
{
    let mut saved = saved;
    if in_keyring {
        saved.secrets = Some(Backend::Keyring);
        saved.store_passphrase = None;
        saved.auth = None;
    } else {
        saved.secrets = Some(Backend::File);
        saved.store_passphrase = Some(secrets.store_passphrase.clone());
        saved.auth = Some(secrets.auth.clone());
    }
    saved
}

/// Where a session's secrets are found.
#[derive(Debug, Clone, PartialEq, Eq)]
pub enum Loaded {
    /// In the file: the session without them, to be saved again, since the
    /// keyring may be available now.
    Inline(PersistedSession, SessionSecrets),
    /// In the keyring.
    Keyring(PersistedSession),
    Nowhere(Refusal),
}

pub open spec fn loaded(saved: PersistedSession) -> Loaded {
    if saved.store_passphrase is Some && saved.auth is Some {
        Loaded::Inline(
            PersistedSession { store_passphrase: None, auth: None, ..saved },
            SessionSecrets { store_passphrase: saved.store_passphrase->0, auth: saved.auth->0 },
        )
    } else if saved.secrets == Some(Backend::Keyring) {
        Loaded::Keyring(PersistedSession { store_passphrase: None, auth: None, ..saved })
    } else {
        Loaded::Nowhere(Refusal::NoSecrets)
    }
}

pub fn load_session(saved: PersistedSession) -> (r: Loaded)
    ensures
        r == loaded(saved),
{
    let PersistedSession { homeserver, store_path, sync_token, secrets, store_passphrase, auth } =
        saved;
    let rest = PersistedSession {
        homeserver,
        store_path,
        sync_token,
        secrets,
        store_passphrase: None,
        auth: None,
    };
    match (store_passphrase, auth) {
        (Some(store_passphrase), Some(auth)) => Loaded::Inline(
            rest,
            SessionSecrets { store_passphrase, auth },
        ),
        _ => match rest.secrets {
            Some(Backend::Keyring) => Loaded::Keyring(rest),
            _ => Loaded::Nowhere(Refusal::NoSecrets),
        },
    }
}

/// A session that was written is found again: its secrets where they were
/// put, and its homeserver, store and sync token as they were. The file holds
/// no secret once the keyring does.
pub proof fn lemma_saved_is_loaded(
    saved: PersistedSession,
    secrets: SessionSecrets,
    in_keyring: bool,
)
    ensures
        match loaded(written(saved, secrets, in_keyring)) {
            Loaded::Inline(session, found) => {
                &&& !in_keyring
                &&& found == secrets
                &&& session.homeserver == saved.homeserver
                &&& session.store_path == saved.store_path
                &&& session.sync_token == saved.sync_token
            },
            Loaded::Keyring(session) => {
                &&& in_keyring
                &&& session.homeserver == saved.homeserver
                &&& session.store_path == saved.store_path
                &&& session.sync_token == saved.sync_token
            },
            Loaded::Nowhere(_) => false,
        },
        in_keyring ==> {
            let file = written(saved, secrets, in_keyring);
            file.store_passphrase is None && file.auth is None
        },
{
}

/// The session file with a new sync token, which is not secret.
pub fn with_sync_token(saved: PersistedSession, token: String) -> (r: PersistedSession)
    ensures
        r == (PersistedSession { sync_token: Some(token), ..saved }),
{
    let mut saved = saved;
    saved.sync_token = Some(token);
    saved
}

/// The tokens of the session that is open, as JSON: a browser sign-in's where
/// there are such, else a password's.
pub fn tokens(oauth: Option<String>, password: Option<String>) -> (r: Result<String, Refusal>)
    ensures
        r == match oauth {
            Some(t) => Ok::<String, Refusal>(t),
            None => match password {
                Some(t) => Ok(t),
                None => Err(Refusal::NoSession),
            },
        },
{
    match oauth {
        Some(t) => Ok(t),
        None => match password {
            Some(t) => Ok(t),
            None => Err(Refusal::NoSession),
        },
    }
}

/// The secrets to save after the tokens were refreshed; the passphrase has to
/// be known.
pub fn refreshed_secrets(core: &Core, auth: String) -> (r: Result<SessionSecrets, Refusal>)
    ensures
        r == match core.store_passphrase {
            Some(p) => Ok(SessionSecrets { store_passphrase: p, auth }),
            None => Err(Refusal::NoPassphrase),
        },
{
    match &core.store_passphrase {
        Some(p) => Ok(SessionSecrets { store_passphrase: p.clone(), auth }),
        None => Err(Refusal::NoPassphrase),
    }
}

/// What to remove with a session file: the store it names, and the keyring
/// item unless the secrets were in the file.
#[derive(Debug, Clone, PartialEq, Eq)]
pub struct Removal {
    pub store_path: Option<String>,
    pub keyring: bool,
}

/// What to remove beside the session file, which could be read or not. Where
/// it could not, nothing says that the secrets were in it.
pub fn removal(saved: Option<PersistedSession>) -> (r: Removal)
    ensures
        r == match saved {
            Some(s) => Removal {
                store_path: Some(s.store_path),
                keyring: s.secrets != Some(Backend::File),
            },
            None => Removal { store_path: None, keyring: true },
        },
{
    match saved {
        Some(s) => {
            let keyring = match s.secrets {
                Some(Backend::File) => false,
                _ => true,
            };
            Removal { store_path: Some(s.store_path), keyring }
        },
        None => Removal { store_path: None, keyring: true },
    }
}

/// The ASCII letters and digits.
pub open spec fn alphanumeric(c: char) -> bool {
    ('0' <= c <= '9') || ('a' <= c <= 'z') || ('A' <= c <= 'Z')
}

/// `rand::distr::Alphanumeric` sampled `n` times: that many ASCII letters and
/// digits. Which ones is left to chance.
#[verifier::external_body]
fn random_text(n: usize) -> (r: String)
    ensures
        r@.len() == n,
        forall|i: int| 0 <= i < r@.len() ==> alphanumeric(#[trigger] r@[i]),
{
    rand::rng().sample_iter(rand::distr::Alphanumeric).take(n).map(char::from).collect()
}

/// A new store's directory name and passphrase, both random.
pub fn new_store() -> (r: (String, String))
    ensures
        exists|tail: Seq<char>|
            {
                &&& r.0@ == #[trigger] ("store-"@ + tail)
                &&& tail.len() == 8
                &&& forall|i: int| 0 <= i < tail.len() ==> alphanumeric(#[trigger] tail[i])
            },
        r.1@.len() == 32,
        forall|i: int| 0 <= i < r.1@.len() ==> alphanumeric(#[trigger] r.1@[i]),
{
    let tail = random_text(8);
    let name = text::plus("store-", tail.as_str());
    assert(name@ == "store-"@ + tail@);
    (name, random_text(32))
}

/// What a sign-in waits for.
#[derive(Debug, Clone, Copy, PartialEq, Eq, Structural)]
pub enum SignIn {
    /// A client for the homeserver, with a fresh store.
    Connect,
    /// The answer to user name and password.
    Password,
    /// The homeserver's sign-in metadata.
    Metadata,
    /// The local listener for the redirect.
    Listener,
    /// The address to open in the browser.
    Address,
    /// The redirect from the browser.
    Redirect,
    /// The homeserver's answer to the redirect.
    Exchange,
    /// The session to be saved.
    Save,
    /// Nothing: the session is open.
    Open,
    /// Nothing: it failed.
    Failed,
}

/// What came of it.
#[derive(Debug, Clone, Copy, PartialEq, Eq, Structural)]
pub enum Outcome {
    Done,
    Error,
    /// The homeserver has no browser sign-in.
    Unsupported,
    /// Ten minutes passed without a redirect.
    TimedOut,
    /// The browser came back with nothing.
    Empty,
}

/// The steps of a sign-in with a password or with the browser.
pub open spec fn step_after(s: SignIn, browser: bool) -> SignIn {
    match s {
        SignIn::Connect => if browser {
            SignIn::Metadata
        } else {
            SignIn::Password
        },
        SignIn::Password => SignIn::Save,
        SignIn::Metadata => SignIn::Listener,
        SignIn::Listener => SignIn::Address,
        SignIn::Address => SignIn::Redirect,
        SignIn::Redirect => SignIn::Exchange,
        SignIn::Exchange => SignIn::Save,
        SignIn::Save => SignIn::Open,
        SignIn::Open => SignIn::Open,
        SignIn::Failed => SignIn::Failed,
    }
}

/// Whether a sign-in that fails at a step removes the store that was made for
/// it: always, but for a password that was accepted.
pub fn removes_store(s: SignIn, browser: bool) -> (r: bool)
    ensures
        r == (browser || s != SignIn::Save),
{
    browser || s != SignIn::Save
}

/// The next step of a sign-in. Whatever goes wrong on the way ends it. Where
/// the failure is not one of the homeserver's or the network's, it is named.
pub fn sign_in_step(s: SignIn, browser: bool, outcome: Outcome) -> (r: (SignIn, Option<Refusal>))
    ensures
        s == SignIn::Open || s == SignIn::Failed ==> r == (s, None::<Refusal>),
        s != SignIn::Open && s != SignIn::Failed ==> {
            &&& outcome == Outcome::Done ==> r == (step_after(s, browser), None::<Refusal>)
            &&& outcome != Outcome::Done ==> r.0 == SignIn::Failed
            &&& r.1 == (if s == SignIn::Metadata && outcome == Outcome::Unsupported {
                Some(Refusal::SignInUnsupported)
            } else if s == SignIn::Redirect && outcome == Outcome::TimedOut {
                Some(Refusal::SignInTimedOut)
            } else if s == SignIn::Redirect && outcome == Outcome::Empty {
                Some(Refusal::SignInEmpty)
            } else {
                None
            })
        },
{
    match s {
        SignIn::Open => return (SignIn::Open, None),
        SignIn::Failed => return (SignIn::Failed, None),
        _ => {},
    }
    match outcome {
        Outcome::Done => {
            let next = match s {
                SignIn::Connect => if browser {
                    SignIn::Metadata
                } else {
                    SignIn::Password
                },
                SignIn::Password => SignIn::Save,
                SignIn::Metadata => SignIn::Listener,
                SignIn::Listener => SignIn::Address,
                SignIn::Address => SignIn::Redirect,
                SignIn::Redirect => SignIn::Exchange,
                SignIn::Exchange => SignIn::Save,
                _ => SignIn::Open,
            };
            (next, None)
        },
        Outcome::Unsupported => if s == SignIn::Metadata {
            (SignIn::Failed, Some(Refusal::SignInUnsupported))
        } else {
            (SignIn::Failed, None)
        },
        Outcome::TimedOut => if s == SignIn::Redirect {
            (SignIn::Failed, Some(Refusal::SignInTimedOut))
        } else {
            (SignIn::Failed, None)
        },
        Outcome::Empty => if s == SignIn::Redirect {
            (SignIn::Failed, Some(Refusal::SignInEmpty))
        } else {
            (SignIn::Failed, None)
        },
        Outcome::Error => (SignIn::Failed, None),
    }
}

/// The first wait is the one that was asked for, and each further wait is
/// twice the one before, up to the longest wait.
pub proof fn lemma_doubling(first: u64, n: nat)
    requires
        first <= MAX_WAIT,
        n >= 1,
    ensures
        wait_of(first, 1) == first,
        2 * wait_of(first, n) <= MAX_WAIT ==> wait_of(first, n + 1) == 2 * wait_of(first, n),
        2 * wait_of(first, n) > MAX_WAIT ==> wait_of(first, n + 1) == MAX_WAIT,
{
    lemma_waits(first, n);
}

/// A sign-in goes forward to its end: by password over connecting, the
/// password and saving; by browser over everything that the browser needs
/// and then saving. It opens only what was saved and never fails by itself.
pub proof fn lemma_sign_in_order(s: SignIn, browser: bool)
    ensures
        step_after(s, browser) == SignIn::Failed <==> s == SignIn::Failed,
        step_after(s, browser) == SignIn::Open <==> s == SignIn::Save || s == SignIn::Open,
        step_after(s, browser) == SignIn::Save <==> s == SignIn::Password || s == SignIn::Exchange,
        step_after(s, browser) == SignIn::Password <==> s == SignIn::Connect && !browser,
        step_after(s, browser) == SignIn::Metadata <==> s == SignIn::Connect && browser,
        step_after(s, browser) == SignIn::Exchange <==> s == SignIn::Redirect,
        step_after(s, browser) == SignIn::Redirect <==> s == SignIn::Address,
        step_after(s, browser) == SignIn::Address <==> s == SignIn::Listener,
        step_after(s, browser) == SignIn::Listener <==> s == SignIn::Metadata,
        step_after(s, browser) != SignIn::Connect,
{
}

/// Signing out and forgetting the session leave no secret behind and keep
/// the user's settings.
pub proof fn lemma_nothing_left(c: Core)
    ensures
        signed_out(c).client is None && signed_out(c).pending is None,
        signed_out(c).prefs == c.prefs,
        forgotten(c).store_passphrase is None,
        forgotten(c).secrets_backend is None,
        forgotten(c).error is None,
        !forgotten(c).syncing,
        forgotten(c).prefs == c.prefs,
        forgotten(c).client == c.client && forgotten(c).pending == c.pending,
        signed_out(c).error == c.error && signed_out(c).syncing == c.syncing,
{
}

} // verus!
