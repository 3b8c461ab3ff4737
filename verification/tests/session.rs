use yapperd::community::{DmPolicy, Prefs};
use yapperd::protocol::Event;
use yapperd::refusal::Refusal;
use yapperd::secrets;
use yapperd::secrets::{Backend, LockStep};
use yapperd::session;
use yapperd::session::{
    Abandoned, Account, Backoff, Core, Gathering, Health, Loaded, Outcome, PersistedSession, Retry,
    SessionChange, SessionSecrets, SignIn,
};

fn prefs() -> Prefs {
    Prefs { dm_policy: DmPolicy::Contacts, community: "#c:e".to_string() }
}

fn account() -> Account {
    Account { user_id: Some("@me:e".to_string()), homeserver: "https://e/".to_string() }
}

fn saved() -> PersistedSession {
    let s = session::new_session("https://e/".to_string(), "/d/store-x".to_string());
    session::with_sync_token(s, "t".to_string())
}

fn keys() -> SessionSecrets {
    SessionSecrets { store_passphrase: "pass".to_string(), auth: "{}".to_string() }
}

#[test]
fn status_follows_the_session() {
    let mut c = Core::new(prefs());
    let s = c.status(true);
    assert!(!s.logged_in && s.saved_session && !s.pending_login);
    assert_eq!(s.version, "1.0.1");
    c.start(account());
    let s = c.status(true);
    assert!(s.logged_in && !s.saved_session);
    assert_eq!(s.user_id, Some("@me:e".to_string()));
    assert_eq!(s.homeserver, Some("https://e/".to_string()));
    assert_eq!(c.ensure_signed_out(), Err(Refusal::AlreadyLoggedIn));
}

#[test]
fn a_browser_sign_in_can_be_abandoned() {
    let mut c = Core::new(prefs());
    assert_eq!(c.login_cancel(), Err(Refusal::NoSignIn));
    c.oauth_started("/d/store-x".to_string());
    assert!(c.login_pending());
    assert_eq!(c.ensure_signed_out(), Err(Refusal::SignInPending));
    assert_eq!(c.login_cancel(), Ok(Some(Abandoned { store_path: "/d/store-x".to_string() })));
    assert_eq!(c.ensure_signed_out(), Ok(()));
    c.oauth_started("/d/store-y".to_string());
    c.oauth_failed("no".to_string());
    assert!(!c.login_pending());
    assert_eq!(c.error, Some("no".to_string()));
    assert_eq!(c.login_cancel(), Ok(None));
}

#[test]
fn signing_out_leaves_nothing_of_the_account() {
    let mut c = Core::new(prefs());
    assert_eq!(c.logout().1, Err(Refusal::NotLoggedIn));
    c.start(account());
    c.session_restored(Some(Backend::Keyring), "pass".to_string());
    c.set_syncing(true);
    c.oauth_started("/d/s".to_string());
    let (gone, was_in) = c.logout();
    assert_eq!(gone, Some(Abandoned { store_path: "/d/s".to_string() }));
    assert_eq!(was_in, Ok(()));
    c.forget_session();
    assert_eq!(c, Core::new(prefs()));
}

#[test]
fn an_orderly_stop_keeps_the_saved_session() {
    let mut c = Core::new(prefs());
    c.session_saved(Some(Backend::File));
    c.remember_passphrase("pass".to_string());
    c.start(account());
    c.set_syncing(true);
    c.shutdown();
    assert_eq!(c.client, None);
    assert!(!c.syncing);
    assert_eq!(c.store_passphrase, Some("pass".to_string()));
    assert_eq!(c.secrets_backend, Some(Backend::File));
}

#[test]
fn failed_syncs_back_off() {
    let mut core = Core::new(prefs());
    core.set_syncing(true);
    let mut h = Health::new();
    let mut waits = Vec::new();
    let mut n = 0;
    while n < 8 {
        waits.push(h.failed(&mut core, "offline"));
        n += 1;
    }
    assert_eq!(waits, vec![2, 4, 8, 16, 32, 60, 60, 60]);
    assert!(!core.syncing);
    assert_eq!(core.error, Some("Reconnecting… (offline)".to_string()));
    h.succeeded(&mut core);
    assert!(core.syncing);
    assert_eq!(core.error, None);
    assert_eq!(h.failures, 0);
    assert_eq!(session::sync_wait(3), 8);
}

#[test]
fn retries_wait_longer_and_longer() {
    let mut b = Backoff::new(session::RESTORE_WAIT);
    let mut waits = Vec::new();
    let mut n = 0;
    while n < 6 {
        waits.push(b.failed());
        n += 1;
    }
    assert_eq!(waits, vec![5, 10, 20, 40, 60, 60]);
    let mut core = Core::new(prefs());
    let mut b = Backoff::new(session::SYNC_WAIT);
    assert_eq!(session::first_sync_failed(&mut core, &mut b, "gone"), 2);
    assert_eq!(core.error, Some("sync: gone".to_string()));
    assert_eq!(session::first_sync_failed(&mut core, &mut b, "gone"), 4);
    assert_eq!(session::retry(&core, true), Retry::Load);
    assert_eq!(session::retry(&core, false), Retry::Stop);
    core.start(account());
    assert_eq!(session::retry(&core, true), Retry::Stop);
}

#[test]
fn errors_say_what_went_wrong() {
    let mut core = Core::new(prefs());
    session::restore_failed(&mut core, false, "x");
    assert_eq!(core.error, Some("Could not read the saved session: x".to_string()));
    session::restore_failed(&mut core, true, "x");
    assert_eq!(core.error, Some("Could not restore the session: x".to_string()));
    core.set_syncing(true);
    session::sync_ended(&mut core, Some("x".to_string()));
    assert_eq!(core.error, Some("sync stopped: x".to_string()));
    assert!(!core.syncing);
    assert!(session::on_session_change(&mut core, SessionChange::TokensRefreshed));
    assert!(!session::on_session_change(&mut core, SessionChange::UnknownToken));
    assert_eq!(core.error, Some("session expired; sign out and sign in again".to_string()));
}

#[test]
fn changes_of_the_room_list_are_gathered() {
    let mut g = Gathering::new();
    assert_eq!(g.wait_ms(), 3_600_000);
    assert_eq!(g.quiet(), None);
    g.changed(false, false, false);
    assert!(!g.pending);
    g.changed(false, true, false);
    assert_eq!(g.wait_ms(), 300);
    assert_eq!(g.quiet(), Some(Event::RoomsChanged));
    assert_eq!(g.quiet(), None);
    g.lagged();
    assert_eq!(g.quiet(), Some(Event::RoomsChanged));
}

#[test]
fn a_saved_session_is_found_again() {
    let file = session::save_session(saved(), &keys(), false);
    assert_eq!(file.secrets, Some(Backend::File));
    match session::load_session(file) {
        Loaded::Inline(s, k) => {
            assert_eq!(k, keys());
            assert_eq!(s.sync_token, Some("t".to_string()));
            assert_eq!(s.store_passphrase, None);
        },
        _ => panic!("not inline"),
    }
    let file = session::save_session(saved(), &keys(), true);
    assert_eq!((file.store_passphrase.clone(), file.auth.clone()), (None, None));
    match session::load_session(file) {
        Loaded::Keyring(s) => assert_eq!(s.store_path, "/d/store-x"),
        _ => panic!("not in the keyring"),
    }
    assert_eq!(session::load_session(saved()), Loaded::Nowhere(Refusal::NoSecrets));
}

#[test]
fn refreshed_tokens_are_saved_beside_the_passphrase() {
    let mut core = Core::new(prefs());
    assert_eq!(
        session::refreshed_secrets(&core, "{}".to_string()),
        Err(Refusal::NoPassphrase)
    );
    core.remember_passphrase("pass".to_string());
    assert_eq!(session::refreshed_secrets(&core, "{}".to_string()), Ok(keys()));
    let (o, p) = (Some("o".to_string()), Some("p".to_string()));
    assert_eq!(session::tokens(o.clone(), p.clone()), Ok("o".to_string()));
    assert_eq!(session::tokens(None, p), Ok("p".to_string()));
    assert_eq!(session::tokens(None, None), Err(Refusal::NoSession));
}

#[test]
fn what_goes_with_a_session() {
    let r = session::removal(Some(session::save_session(saved(), &keys(), true)));
    assert_eq!((r.store_path, r.keyring), (Some("/d/store-x".to_string()), true));
    let r = session::removal(Some(session::save_session(saved(), &keys(), false)));
    assert!(!r.keyring);
    // A session from before the keyring may have been moved there.
    assert!(session::removal(Some(saved())).keyring);
    // A file that cannot be read does not keep the keyring item alive.
    let r = session::removal(None);
    assert_eq!((r.store_path, r.keyring), (None, true));
}

#[test]
fn stores_are_random() {
    let (name, pass) = session::new_store();
    let (other, _) = session::new_store();
    assert_ne!(name, other);
    assert!(name.starts_with("store-"));
    assert_eq!(name.len(), 14);
    assert_eq!(pass.len(), 32);
    assert!(pass.chars().all(|c| c.is_ascii_alphanumeric()));
}

#[test]
fn a_sign_in_goes_step_by_step() {
    let walk = |browser: bool| {
        let mut s = SignIn::Connect;
        let mut steps = vec![s];
        while s != SignIn::Open {
            s = session::sign_in_step(s, browser, Outcome::Done).0;
            steps.push(s);
        }
        steps
    };
    assert_eq!(
        walk(false),
        vec![SignIn::Connect, SignIn::Password, SignIn::Save, SignIn::Open]
    );
    assert_eq!(walk(true).len(), 8);
    assert_eq!(
        session::sign_in_step(SignIn::Metadata, true, Outcome::Unsupported),
        (SignIn::Failed, Some(Refusal::SignInUnsupported))
    );
    assert_eq!(
        session::sign_in_step(SignIn::Redirect, true, Outcome::TimedOut),
        (SignIn::Failed, Some(Refusal::SignInTimedOut))
    );
    assert_eq!(
        session::sign_in_step(SignIn::Redirect, true, Outcome::Empty),
        (SignIn::Failed, Some(Refusal::SignInEmpty))
    );
    assert_eq!(
        session::sign_in_step(SignIn::Password, false, Outcome::Error),
        (SignIn::Failed, None)
    );
    assert!(session::removes_store(SignIn::Password, false));
    assert!(!session::removes_store(SignIn::Save, false));
    assert!(session::removes_store(SignIn::Save, true));
}

#[test]
fn preferences_are_changed_and_saved() {
    let mut core = Core::new(prefs());
    let p = core.set_dm_policy(DmPolicy::Nobody, "".to_string());
    assert_eq!((p.dm_policy, p.community.as_str()), (DmPolicy::Nobody, "#c:e"));
    let p = core.set_dm_policy(DmPolicy::Community, "#d:e".to_string());
    assert_eq!(p.community, "#d:e");
    let p = core.community_joined("#e:e".to_string());
    assert_eq!((p.dm_policy, p.community.as_str()), (DmPolicy::Community, "#e:e"));
    assert_eq!(core.prefs, p);
    let d = Prefs::default();
    assert_eq!((d.dm_policy, d.community.as_str()), (DmPolicy::Anyone, ""));
}

#[test]
fn a_locked_keyring_is_asked_for_once() {
    assert_eq!(secrets::lock_step(false, false, false), LockStep::Proceed);
    assert_eq!(secrets::lock_step(true, false, false), LockStep::Refuse);
    assert_eq!(secrets::lock_step(true, true, false), LockStep::Unlock);
    assert_eq!(secrets::lock_step(true, true, true), LockStep::Refuse);
    assert_eq!(secrets::locked_error(), "the keyring is locked");
    assert_eq!(secrets::label("@me:e"), "Yapper Matrix session (@me:e)");
    let a = secrets::attributes("/d");
    assert_eq!(a[0], ("application", "omarchy-yapperd".to_string()));
    assert_eq!(a[1], ("data_dir", "/d".to_string()));
}
