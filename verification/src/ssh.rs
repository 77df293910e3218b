//! Decisions of the SSH tunnel: which private keys are looked for, the order
//! in which authentication methods are tried (a found private key first,
//! then the password, at most once), and the messages of a failed tunnel.
use vstd::prelude::*;
use crate::text::{chars_to_string, decimal, push_decimal, push_str};

verus! {

/// Where authentication stands.
#[derive(Debug, Clone, Copy, PartialEq, Eq, Structural)]
pub enum AuthPhase {
    /// Nothing tried yet; the private key is being looked for.
    Start,
    /// The private key found on disk has been offered.
    KeyOffered,
    /// The password has been offered.
    PasswordOffered,
    /// The server accepted one of the methods.
    Authenticated,
    /// The server refused the password, or the password exchange failed.
    Rejected,
}

/// How the password exchange ended.
#[derive(Debug)]
pub enum PasswordOutcome {
    Accepted,
    Refused,
    /// The exchange itself failed; the cause as text.
    Failed(String),
}

/// What happened since the last step.
#[derive(Debug)]
pub enum AuthEvent {
    /// The search for a private key ended.
    KeyProbed { found: bool },
    /// The public-key exchange ended: accepted, or refused or failed.
    KeyReply { accepted: bool },
    /// The password exchange ended.
    PasswordReply(PasswordOutcome),
}

/// What the tunnel does next.
#[derive(Debug)]
pub enum AuthAction {
    /// Offer the private key that was found (with SHA-256 signatures).
    OfferKey,
    /// Offer the password.
    OfferPassword,
    /// Authentication is done: go on to open the tunnel.
    Proceed,
    /// Give up with this message.
    Abort(String),
    /// Nothing to do for this event.
    Wait,
}

/// The abstract action: `Abort` carries the message as text.
pub enum ActionView {
    OfferKey,
    OfferPassword,
    Proceed,
    Abort(Seq<char>),
    Wait,
}

impl View for AuthAction {
    type V = ActionView;

    open spec fn view(&self) -> ActionView {
        match self {
            AuthAction::OfferKey => ActionView::OfferKey,
            AuthAction::OfferPassword => ActionView::OfferPassword,
            AuthAction::Proceed => ActionView::Proceed,
            AuthAction::Abort(m) => ActionView::Abort(m@),
            AuthAction::Wait => ActionView::Wait,
        }
    }
}

/// The message when the server refuses the password.
pub open spec fn refused_message() -> Seq<char> {
    "SSH 认证失败：用户或密码/密钥不正确"@
}

/// The message when the password exchange fails.
pub open spec fn failed_message(detail: Seq<char>) -> Seq<char> {
    "SSH 认证失败: "@ + detail
}

/// One step of authentication: the next phase and the action to take.
/// A refused or failed key exchange falls back to the password; events
/// that do not belong to the current phase change nothing.
pub open spec fn auth_next(phase: AuthPhase, event: AuthEvent) -> (AuthPhase, ActionView) {
    match (phase, event) {
        (AuthPhase::Start, AuthEvent::KeyProbed { found }) => if found {
            (AuthPhase::KeyOffered, ActionView::OfferKey)
        } else {
            (AuthPhase::PasswordOffered, ActionView::OfferPassword)
        },
        (AuthPhase::KeyOffered, AuthEvent::KeyReply { accepted }) => if accepted {
            (AuthPhase::Authenticated, ActionView::Proceed)
        } else {
            (AuthPhase::PasswordOffered, ActionView::OfferPassword)
        },
        (AuthPhase::PasswordOffered, AuthEvent::PasswordReply(outcome)) => match outcome {
            PasswordOutcome::Accepted => (AuthPhase::Authenticated, ActionView::Proceed),
            PasswordOutcome::Refused => (
                AuthPhase::Rejected,
                ActionView::Abort(refused_message()),
            ),
            PasswordOutcome::Failed(d) => (
                AuthPhase::Rejected,
                ActionView::Abort(failed_message(d@)),
            ),
        },
        (p, _) => (p, ActionView::Wait),
    }
}

/// Takes one step of authentication.
pub fn auth_step(phase: AuthPhase, event: AuthEvent) -> (res: (AuthPhase, AuthAction))
    ensures
        (res.0, res.1@) == auth_next(phase, event),
{
    match (phase, event) {
        (AuthPhase::Start, AuthEvent::KeyProbed { found }) => {
            if found {
                (AuthPhase::KeyOffered, AuthAction::OfferKey)
            } else {
                (AuthPhase::PasswordOffered, AuthAction::OfferPassword)
            }
        },
        (AuthPhase::KeyOffered, AuthEvent::KeyReply { accepted }) => {
            if accepted {
                (AuthPhase::Authenticated, AuthAction::Proceed)
            } else {
                (AuthPhase::PasswordOffered, AuthAction::OfferPassword)
            }
        },
        (AuthPhase::PasswordOffered, AuthEvent::PasswordReply(outcome)) => match outcome {
            PasswordOutcome::Accepted => (AuthPhase::Authenticated, AuthAction::Proceed),
            PasswordOutcome::Refused => (
                AuthPhase::Rejected,
                AuthAction::Abort(String::from_str("SSH 认证失败：用户或密码/密钥不正确")),
            ),
            PasswordOutcome::Failed(d) => {
                let mut v: Vec<char> = Vec::new();
                push_str(&mut v, "SSH 认证失败: ");
                push_str(&mut v, d.as_str());
                let m = chars_to_string(&v);
                assert(m@ =~= failed_message(d@));
                (AuthPhase::Rejected, AuthAction::Abort(m))
            },
        },
        (p, _) => (p, AuthAction::Wait),
    }
}

/// The event was a reply in which the server accepted a method.
pub open spec fn is_acceptance(event: AuthEvent) -> bool {
    ||| event matches AuthEvent::KeyReply { accepted } && accepted
    ||| event matches AuthEvent::PasswordReply(PasswordOutcome::Accepted)
}

/// Authentication succeeds only on a reply in which the server accepted a
/// method, and the tunnel goes ahead exactly then.
pub proof fn lemma_authenticated_only_when_accepted(phase: AuthPhase, event: AuthEvent)
    requires
        phase != AuthPhase::Authenticated,
    ensures
        auth_next(phase, event).0 == AuthPhase::Authenticated ==> is_acceptance(event),
        auth_next(phase, event).1 is Proceed <==> auth_next(phase, event).0
            == AuthPhase::Authenticated,
{
}

/// Once authenticated or rejected, nothing changes any more.
pub proof fn lemma_final_phases_stay(phase: AuthPhase, event: AuthEvent)
    requires
        phase == AuthPhase::Authenticated || phase == AuthPhase::Rejected,
    ensures
        auth_next(phase, event) == (phase, ActionView::Wait),
{
}

/// Each offer moves to the phase that awaits its reply, and the reply is
/// then always acted on: a driver that answers every offer with the matching
/// reply never gets `Wait`.
pub proof fn lemma_offers_await_their_reply(
    phase: AuthPhase,
    event: AuthEvent,
    accepted: bool,
    outcome: PasswordOutcome,
)
    ensures
        auth_next(phase, event).1 is OfferKey ==> auth_next(phase, event).0
            == AuthPhase::KeyOffered,
        auth_next(phase, event).1 is OfferPassword ==> auth_next(phase, event).0
            == AuthPhase::PasswordOffered,
        !(auth_next(AuthPhase::KeyOffered, AuthEvent::KeyReply { accepted }).1 is Wait),
        !(auth_next(AuthPhase::PasswordOffered, AuthEvent::PasswordReply(outcome)).1 is Wait),
        !(auth_next(AuthPhase::Start, AuthEvent::KeyProbed { found: accepted }).1 is Wait),
{
}

/// The order of the phases: authentication only moves forward.
pub open spec fn phase_rank(p: AuthPhase) -> nat {
    match p {
        AuthPhase::Start => 0,
        AuthPhase::KeyOffered => 1,
        AuthPhase::PasswordOffered => 2,
        AuthPhase::Authenticated => 3,
        AuthPhase::Rejected => 3,
    }
}

/// The phase after a run of events.
pub open spec fn phase_after(phase: AuthPhase, events: Seq<AuthEvent>) -> AuthPhase
    decreases events.len(),
{
    if events.len() == 0 {
        phase
    } else {
        auth_next(phase_after(phase, events.drop_last()), events.last()).0
    }
}

/// How often a run of events makes the tunnel offer the password.
pub open spec fn password_offers(phase: AuthPhase, events: Seq<AuthEvent>) -> nat
    decreases events.len(),
{
    if events.len() == 0 {
        0
    } else {
        password_offers(phase, events.drop_last()) + (if auth_next(
            phase_after(phase, events.drop_last()),
            events.last(),
        ).1 is OfferPassword {
            1nat
        } else {
            0nat
        })
    }
}

proof fn lemma_offers_bounded(phase: AuthPhase, events: Seq<AuthEvent>)
    ensures
        phase_rank(phase_after(phase, events)) >= phase_rank(phase),
        password_offers(phase, events) <= 1,
        phase_rank(phase_after(phase, events)) < 2 ==> password_offers(phase, events) == 0,
        phase_rank(phase) >= 2 ==> password_offers(phase, events) == 0,
    decreases events.len(),
{
    if events.len() > 0 {
        lemma_offers_bounded(phase, events.drop_last());
    }
}

/// Over any run of events, the password is offered at most once, and never
/// once the password phase has been reached.
pub proof fn lemma_password_offered_at_most_once(phase: AuthPhase, events: Seq<AuthEvent>)
    ensures
        password_offers(phase, events) <= 1,
        phase_rank(phase) >= 2 ==> password_offers(phase, events) == 0,
{
    lemma_offers_bounded(phase, events);
}

/// The private keys looked for in `~/.ssh`, in this order.
pub open spec fn key_names() -> Seq<Seq<char>> {
    seq!["id_ed25519"@, "id_rsa"@, "id_ecdsa"@, "id_ecdsa_sk"@, "id_ed25519_sk"@]
}

/// The paths of the private keys looked for, under the home directory `home`.
pub fn key_candidate_paths(home: &str) -> (res: Vec<String>)
    ensures
        res@.len() == key_names().len(),
        forall|i: int|
            0 <= i < res@.len() ==> (#[trigger] res@[i])@ == home@ + "/.ssh/"@ + key_names()[i],
{
    let names = ["id_ed25519", "id_rsa", "id_ecdsa", "id_ecdsa_sk", "id_ed25519_sk"];
    let mut out: Vec<String> = Vec::new();
    let mut i: usize = 0;
    while i < 5
        invariant
            i <= 5,
            out@.len() == i,
            names@ =~= seq!["id_ed25519", "id_rsa", "id_ecdsa", "id_ecdsa_sk", "id_ed25519_sk"],
            forall|j: int|
                0 <= j < i ==> (#[trigger] out@[j])@ == home@ + "/.ssh/"@ + key_names()[j],
        decreases 5 - i,
    {
        let mut v: Vec<char> = Vec::new();
        push_str(&mut v, home);
        push_str(&mut v, "/.ssh/");
        push_str(&mut v, names[i]);
        out.push(chars_to_string(&v));
        i = i + 1;
    }
    out
}

/// The message when the SSH server cannot be reached.
pub open spec fn spec_connect_error(host: Seq<char>, port: nat, detail: Seq<char>) -> Seq<char> {
    "SSH 连接失败（"@ + host + ":"@ + decimal(port) + "）: "@ + detail
}

/// The message when the SSH server cannot be reached.
pub fn connect_error(host: &str, port: u16, detail: &str) -> (res: String)
    ensures
        res@ == spec_connect_error(host@, port as nat, detail@),
{
    let mut v: Vec<char> = Vec::new();
    push_str(&mut v, "SSH 连接失败（");
    push_str(&mut v, host);
    push_str(&mut v, ":");
    push_decimal(&mut v, port as u128);
    push_str(&mut v, "）: ");
    push_str(&mut v, detail);
    chars_to_string(&v)
}

/// A private key found on disk is offered first, and only then; a refused
/// or failed key falls back to the password; a refused or failed password
/// ends with a message that says authentication failed ("认证失败" after
/// "SSH "), which for a failed exchange ends with its cause.
pub proof fn lemma_key_before_password(found: bool, detail: String)
    ensures
        (auth_next(AuthPhase::Start, AuthEvent::KeyProbed { found }).1 is OfferKey) <==> found,
        (auth_next(AuthPhase::Start, AuthEvent::KeyProbed { found }).1 is OfferPassword) <==> !found,
        auth_next(AuthPhase::KeyOffered, AuthEvent::KeyReply { accepted: false }).1 is OfferPassword,
        auth_next(AuthPhase::PasswordOffered, AuthEvent::PasswordReply(PasswordOutcome::Refused)).0
            == AuthPhase::Rejected,
        auth_next(AuthPhase::PasswordOffered, AuthEvent::PasswordReply(PasswordOutcome::Refused)).1 matches ActionView::Abort(
            m,
        ) && m.subrange(0, 8) == "SSH 认证失败"@,
        auth_next(
            AuthPhase::PasswordOffered,
            AuthEvent::PasswordReply(PasswordOutcome::Failed(detail)),
        ).1 matches ActionView::Abort(m) && m.subrange(0, 8) == "SSH 认证失败"@ && m.skip(
            m.len() - detail@.len(),
        ) == detail@,
{
    reveal_strlit("SSH 认证失败：用户或密码/密钥不正确");
    reveal_strlit("SSH 认证失败: ");
    reveal_strlit("SSH 认证失败");
    let m = failed_message(detail@);
    assert(m.subrange(0, 8) =~= "SSH 认证失败"@);
    assert(m.skip(m.len() - detail@.len()) =~= detail@);
    assert(refused_message().subrange(0, 8) =~= "SSH 认证失败"@);
}

} // verus!
