//! The steps by which a node comes up: it looks for a bond, has its domain scheduled,
//! catches up with the ballots that it missed, and then takes part.

use vstd::prelude::*;
use vstd::utf8::encode_utf8;

use crate::hex_text::{hex_encode, hex_text, hex_text_digits};
use crate::referendum::{sha256, sha256_digest};

verus! {

/// The name of the node's domain.
pub const DOMAIN_NAME: &'static str = "char_dns";

/// How many ballots are fetched at once when catching up.
pub const MAX_FETCH: u64 = 100;

/// What the server says of a domain for which nothing was decided yet.
pub const EMPTY_DOMAIN_MESSAGE: &'static str = "No decided ballots for this domain";

/// Why a call of the server failed.
#[derive(Debug, Clone)]
pub enum TransportError {
    /// The server answered with an error.
    Rpc { code: i64, message: String },
    /// No answer was had.
    Other,
}

/// Whether a failure says that nothing was decided yet for the domain.
pub open spec fn says_empty_domain(error: TransportError) -> bool {
    error matches TransportError::Rpc { code, message } && code == -1 && message@
        == EMPTY_DOMAIN_MESSAGE@
}

/// Whether a failure says that nothing was decided yet for the domain.
pub fn is_empty_domain_error(err: &TransportError) -> (empty: bool)
    ensures
        empty == says_empty_domain(*err),
        empty <==> (*err matches TransportError::Rpc { code, message } && code == -1 && message@
            == "No decided ballots for this domain"@),
{
    match err {
        TransportError::Rpc { code, message } => *code == -1 && *message
            == EMPTY_DOMAIN_MESSAGE.to_owned(),
        TransportError::Other => false,
    }
}

/// The key of a domain: the SHA-256 digest of its name, in hexadecimal.
pub fn domain_key_hex(name: &str) -> (key: String)
    ensures
        key@ == hex_text(sha256_digest(encode_utf8(name@))),
        key@.len() == 64,
        forall|i: int|
            0 <= i < 32 ==> {
                let byte = #[trigger] sha256_digest(encode_utf8(name@))[i] as int;
                &&& key@[2 * i] == "0123456789abcdef"@[byte / 16]
                &&& key@[2 * i + 1] == "0123456789abcdef"@[byte % 16]
            },
{
    let digest = sha256(name.as_bytes());
    proof {
        hex_text_digits(digest@);
    }
    hex_encode(digest.as_slice())
}

/// What the node waits for. `bond` is the transaction that holds its bond.
pub enum StartupState {
    /// The list of bonds.
    Bonds,
    /// Word that the domain is scheduled.
    Schedule { bond: String },
    /// The height of the domain.
    DomainInfo { bond: String },
    /// The end of the catching up.
    Reconcile { bond: String },
    /// Nothing: the node takes part.
    Running { bond: String },
    /// Nothing: the node has given up.
    Stopped,
}

/// What came of the last action.
pub enum StartupEvent {
    /// The transactions that hold a bond.
    Bonds { txids: Vec<String> },
    BondsFailed,
    Scheduled { success: bool },
    ScheduleFailed,
    /// The height of the last ballot that was decided.
    DomainTip { tip_height: u64 },
    DomainInfoFailed { error: TransportError },
    /// The ballot that comes after those caught up with.
    Reconciled { next_ballot: u64 },
    ReconcileFailed,
}

/// What the node does next.
pub enum StartupAction {
    /// Schedule the domain.
    ScheduleDomain,
    /// Ask for the height of the domain.
    QueryDomain,
    /// Catch up with the ballots from the node's own to the domain's last.
    Reconcile { from_ballot: u64, to_ballot: u64, max_fetch: u64 },
    /// Keep the number of the next ballot, then take part.
    SaveAndRun { next_ballot: u64 },
    /// Take part. Nothing is decided yet; `fresh` says whether the node expected that.
    RunEmptyDomain { fresh: bool },
    /// Take part although catching up failed.
    RunUnreconciled,
    /// Give up.
    Exit,
    /// Go on waiting.
    Wait,
}

/// The step that an event makes, for a node whose own next ballot is `last_ballot`.
/// An event that is not waited for changes nothing.
pub open spec fn startup_step(state: StartupState, event: StartupEvent, last_ballot: u64) -> (
    StartupState,
    StartupAction,
) {
    match (state, event) {
        (StartupState::Bonds, StartupEvent::Bonds { txids }) => if txids@.len() > 0 {
            (StartupState::Schedule { bond: txids@[0] }, StartupAction::ScheduleDomain)
        } else {
            (StartupState::Stopped, StartupAction::Exit)
        },
        (StartupState::Bonds, StartupEvent::BondsFailed) => (
            StartupState::Stopped,
            StartupAction::Exit,
        ),
        (StartupState::Schedule { bond }, StartupEvent::Scheduled { success }) => if success {
            (StartupState::DomainInfo { bond }, StartupAction::QueryDomain)
        } else {
            (StartupState::Stopped, StartupAction::Exit)
        },
        (StartupState::Schedule { bond }, StartupEvent::ScheduleFailed) => (
            StartupState::Stopped,
            StartupAction::Exit,
        ),
        (StartupState::DomainInfo { bond }, StartupEvent::DomainTip { tip_height }) => (
            StartupState::Reconcile { bond },
            StartupAction::Reconcile {
                from_ballot: last_ballot,
                to_ballot: tip_height,
                max_fetch: MAX_FETCH,
            },
        ),
        (StartupState::DomainInfo { bond }, StartupEvent::DomainInfoFailed { error }) =>
            if says_empty_domain(error) {
                (
                    StartupState::Running { bond },
                    StartupAction::RunEmptyDomain { fresh: last_ballot == 0 },
                )
            } else {
                (StartupState::Stopped, StartupAction::Exit)
            },
        (StartupState::Reconcile { bond }, StartupEvent::Reconciled { next_ballot }) => (
            StartupState::Running { bond },
            StartupAction::SaveAndRun { next_ballot },
        ),
        (StartupState::Reconcile { bond }, StartupEvent::ReconcileFailed) => (
            StartupState::Running { bond },
            StartupAction::RunUnreconciled,
        ),
        _ => (state, StartupAction::Wait),
    }
}

/// Takes the step that an event makes, for a node whose own next ballot is `last_ballot`.
pub fn advance_startup(state: StartupState, event: StartupEvent, last_ballot: u64) -> (result: (
    StartupState,
    StartupAction,
))
    ensures
        result == startup_step(state, event, last_ballot),
{
    match (state, event) {
        (StartupState::Bonds, StartupEvent::Bonds { txids }) => {
            let mut txids = txids;
            if txids.len() == 0 {
                return (StartupState::Stopped, StartupAction::Exit);
            }
            let bond = txids.swap_remove(0);
            (StartupState::Schedule { bond }, StartupAction::ScheduleDomain)
        },
        (StartupState::Bonds, StartupEvent::BondsFailed) => (
            StartupState::Stopped,
            StartupAction::Exit,
        ),
        (StartupState::Schedule { bond }, StartupEvent::Scheduled { success }) => {
            if success {
                (StartupState::DomainInfo { bond }, StartupAction::QueryDomain)
            } else {
                (StartupState::Stopped, StartupAction::Exit)
            }
        },
        (StartupState::Schedule { bond: _ }, StartupEvent::ScheduleFailed) => (
            StartupState::Stopped,
            StartupAction::Exit,
        ),
        (StartupState::DomainInfo { bond }, StartupEvent::DomainTip { tip_height }) => (
            StartupState::Reconcile { bond },
            StartupAction::Reconcile {
                from_ballot: last_ballot,
                to_ballot: tip_height,
                max_fetch: MAX_FETCH,
            },
        ),
        (StartupState::DomainInfo { bond }, StartupEvent::DomainInfoFailed { error }) => {
            if is_empty_domain_error(&error) {
                (
                    StartupState::Running { bond },
                    StartupAction::RunEmptyDomain { fresh: last_ballot == 0 },
                )
            } else {
                (StartupState::Stopped, StartupAction::Exit)
            }
        },
        (StartupState::Reconcile { bond }, StartupEvent::Reconciled { next_ballot }) => (
            StartupState::Running { bond },
            StartupAction::SaveAndRun { next_ballot },
        ),
        (StartupState::Reconcile { bond }, StartupEvent::ReconcileFailed) => (
            StartupState::Running { bond },
            StartupAction::RunUnreconciled,
        ),
        (state, _) => (state, StartupAction::Wait),
    }
}

/// The state that a node is in after some events.
pub open spec fn startup_after(events: Seq<StartupEvent>, last_ballot: u64) -> StartupState
    decreases events.len(),
{
    if events.len() == 0 {
        StartupState::Bonds
    } else {
        let (state, _) = startup_step(
            startup_after(events.drop_last(), last_ballot),
            events.last(),
            last_ballot,
        );
        state
    }
}

/// The bond of a state that has one.
pub open spec fn bond_of(state: StartupState) -> Option<String> {
    match state {
        StartupState::Schedule { bond } => Some(bond),
        StartupState::DomainInfo { bond } => Some(bond),
        StartupState::Reconcile { bond } => Some(bond),
        StartupState::Running { bond } => Some(bond),
        _ => None,
    }
}

/// Whether some event lists bonds, the given one first.
pub open spec fn bond_listed(events: Seq<StartupEvent>, bond: String) -> bool {
    exists|i: int|
        0 <= i < events.len() && (#[trigger] events[i] matches StartupEvent::Bonds { txids }
            && txids@.len() > 0 && txids@[0] == bond)
}

/// Whether some event says that the domain is scheduled.
pub open spec fn domain_scheduled(events: Seq<StartupEvent>) -> bool {
    exists|i: int|
        0 <= i < events.len() && (#[trigger] events[i] matches StartupEvent::Scheduled { success }
            && success)
}

/// A node has only ever a bond that was listed first.
pub proof fn bond_was_listed(events: Seq<StartupEvent>, last_ballot: u64)
    ensures
        bond_of(startup_after(events, last_ballot)) matches Some(bond) ==> bond_listed(
            events,
            bond,
        ),
    decreases events.len(),
{
    if events.len() > 0 {
        let before = events.drop_last();
        bond_was_listed(before, last_ballot);
        let last = events[events.len() - 1];
        assert(last == events.last());
        if let Some(bond) = bond_of(startup_after(events, last_ballot)) {
            if bond_listed(before, bond) {
                let i = choose|i: int|
                    0 <= i < before.len() && (#[trigger] before[i] matches StartupEvent::Bonds {
                        txids,
                    } && txids@.len() > 0 && txids@[0] == bond);
                assert(events[i] == before[i]);
            }
        }
    }
}

/// A node takes part only after its domain was scheduled.
pub proof fn running_means_scheduled(events: Seq<StartupEvent>, last_ballot: u64)
    ensures
        ({
            let state = startup_after(events, last_ballot);
            state is DomainInfo || state is Reconcile || state is Running ==> domain_scheduled(
                events,
            )
        }),
    decreases events.len(),
{
    if events.len() > 0 {
        let before = events.drop_last();
        running_means_scheduled(before, last_ballot);
        let last = events[events.len() - 1];
        assert(last == events.last());
        if domain_scheduled(before) {
            let i = choose|i: int|
                0 <= i < before.len() && (#[trigger] before[i] matches StartupEvent::Scheduled {
                    success,
                } && success);
            assert(events[i] == before[i]);
        }
    }
}

/// A node that takes part or has given up stays as it is.
pub proof fn startup_ends(state: StartupState, event: StartupEvent, last_ballot: u64)
    requires
        state is Running || state is Stopped,
    ensures
        startup_step(state, event, last_ballot) == (state, StartupAction::Wait),
{
}

/// A node catches up exactly when it learns the domain's height: from its own ballot to that
/// height, whatever the two are, a hundred at once.
pub proof fn no_ballot_is_passed_over(state: StartupState, event: StartupEvent, last_ballot: u64)
    ensures
        ({
            let (_, action) = startup_step(state, event, last_ballot);
            &&& action is Reconcile <==> state is DomainInfo && event is DomainTip
            &&& action matches StartupAction::Reconcile { from_ballot, to_ballot, max_fetch } ==> {
                &&& from_ballot == last_ballot
                &&& to_ballot == event->tip_height
                &&& max_fetch == 100
            }
        }),
{
}

/// A node keeps the ballot that catching up ended with, and no other.
pub proof fn reconciled_ballot_is_kept(state: StartupState, event: StartupEvent, last_ballot: u64)
    ensures
        ({
            let (_, action) = startup_step(state, event, last_ballot);
            &&& action is SaveAndRun <==> state is Reconcile && event is Reconciled
            &&& action matches StartupAction::SaveAndRun { next_ballot } ==> next_ballot
                == event->next_ballot
            &&& action is RunUnreconciled <==> state is Reconcile && event is ReconcileFailed
        }),
{
}

/// A node runs without catching up exactly when the server says that nothing was decided; it
/// expected that exactly where its own ballot is the first.
pub proof fn empty_domain_runs(state: StartupState, event: StartupEvent, last_ballot: u64)
    ensures
        ({
            let (_, action) = startup_step(state, event, last_ballot);
            &&& action is RunEmptyDomain <==> state is DomainInfo && (
            event matches StartupEvent::DomainInfoFailed { error } && (
            error matches TransportError::Rpc { code, message } && code == -1 && message@
                == "No decided ballots for this domain"@))
            &&& action matches StartupAction::RunEmptyDomain { fresh } ==> fresh == (last_ballot
                == 0)
        }),
{
}

/// A node asks for its domain to be scheduled exactly when it has found a bond, and for the
/// domain's height exactly when the domain is scheduled.
pub proof fn steps_in_order(state: StartupState, event: StartupEvent, last_ballot: u64)
    ensures
        ({
            let (_, action) = startup_step(state, event, last_ballot);
            &&& action is ScheduleDomain <==> state is Bonds && (
            event matches StartupEvent::Bonds { txids } && txids@.len() > 0)
            &&& action is QueryDomain <==> state is Schedule && (
            event matches StartupEvent::Scheduled { success } && success)
        }),
{
}

/// A node gives up exactly where a step that it cannot do without failed: no bond, a domain
/// that is not scheduled, or a height that is not had although something was decided.
pub proof fn gives_up_on_failure(state: StartupState, event: StartupEvent, last_ballot: u64)
    ensures
        ({
            let (next, action) = startup_step(state, event, last_ballot);
            &&& action is Exit <==> {
                ||| state is Bonds && event is BondsFailed
                ||| state is Bonds && (event matches StartupEvent::Bonds { txids } && txids@.len()
                    == 0)
                ||| state is Schedule && event is ScheduleFailed
                ||| state is Schedule && (event matches StartupEvent::Scheduled { success }
                    && !success)
                ||| state is DomainInfo && (event matches StartupEvent::DomainInfoFailed { error }
                    && !(error matches TransportError::Rpc { code, message } && code == -1
                    && message@ == "No decided ballots for this domain"@))
            }
            &&& next is Stopped <==> state is Stopped || action is Exit
        }),
{
}

/// What is done tells what is waited for next, and the bond stays the one that was listed
/// first; where nothing is done nothing changes.
pub proof fn action_and_state_agree(state: StartupState, event: StartupEvent, last_ballot: u64)
    ensures
        ({
            let (next, action) = startup_step(state, event, last_ballot);
            &&& action is ScheduleDomain ==> next == (StartupState::Schedule {
                bond: event->txids@[0],
            })
            &&& action is QueryDomain ==> next == (StartupState::DomainInfo {
                bond: state->Schedule_bond,
            })
            &&& action is Reconcile ==> next == (StartupState::Reconcile {
                bond: state->DomainInfo_bond,
            })
            &&& action is SaveAndRun || action is RunUnreconciled ==> next == (
            StartupState::Running { bond: state->Reconcile_bond })
            &&& action is RunEmptyDomain ==> next == (StartupState::Running {
                bond: state->DomainInfo_bond,
            })
            &&& action is Exit ==> next is Stopped
            &&& action is Wait ==> next == state
        }),
{
}

} // verus!
