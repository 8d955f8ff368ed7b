//! The loop that every background service runs in: wake up, select rows, handle each.
use crate::text::{decimal, decimal_u64};
use vstd::prelude::*;
use vstd::string::*;

verus! {

/// What a background service is called, and how it calls its rows.
pub trait Service {
    type Row;

    fn name(&self) -> &'static str;

    /// Names one row in an error line.
    fn row_context(&self, row: &Self::Row) -> String;
}

/// The longest a poller sleeps, in seconds, unless configured otherwise. Signals wake it
/// sooner; this notices what another process wrote.
pub const POLL_INTERVAL: u64 = 1;

/// How long a poller that could not select pauses, in seconds, unless configured otherwise.
pub const RESTART_PAUSE: u64 = 5;

/// What a poller does next.
#[derive(Clone, Copy, Debug, PartialEq, Eq, Structural)]
pub enum PollerAction {
    /// Sleeps until it is woken or its interval is over.
    Wait,
    /// Selects its rows.
    Select,
    /// Handles a row, by place.
    Handle(usize),
    /// Pauses for so many seconds, and starts over.
    Pause(u64),
}

/// What the last thing a poller did came to.
#[derive(Clone, Copy, Debug, PartialEq, Eq, Structural)]
pub enum PollerEvent {
    /// It was woken, or its interval is over.
    Woken,
    /// It selected so many rows.
    Selected(usize),
    /// It could not select.
    SelectFailed,
    /// It handled a row.
    Handled,
    /// It could not handle a row.
    HandleFailed,
    /// Its pause is over.
    Paused,
}

/// Where a poller stands: so many rows are selected, and it is doing something.
#[derive(Clone, Copy, Debug, PartialEq, Eq, Structural)]
pub struct PollerState {
    pub rows: usize,
    pub action: PollerAction,
}

/// What a poller does after handling a row: the next, or wait if there is none.
pub open spec fn after_row(rows: usize, row: usize) -> PollerAction {
    if row + 1 < rows {
        PollerAction::Handle((row + 1) as usize)
    } else {
        PollerAction::Wait
    }
}

/// Where a poller that pauses for so many seconds stands after an event. An event that is no
/// answer to what it is doing changes nothing.
pub open spec fn polled(state: PollerState, event: PollerEvent, pause: u64) -> PollerState {
    match (state.action, event) {
        (PollerAction::Wait, PollerEvent::Woken) => PollerState {
            rows: 0,
            action: PollerAction::Select,
        },
        (PollerAction::Select, PollerEvent::Selected(rows)) => PollerState {
            rows,
            action: if rows == 0 {
                PollerAction::Wait
            } else {
                PollerAction::Handle(0)
            },
        },
        (PollerAction::Select, PollerEvent::SelectFailed) => PollerState {
            rows: 0,
            action: PollerAction::Pause(pause),
        },
        (PollerAction::Handle(row), PollerEvent::Handled) => PollerState {
            rows: state.rows,
            action: after_row(state.rows, row),
        },
        (PollerAction::Handle(row), PollerEvent::HandleFailed) => PollerState {
            rows: state.rows,
            action: after_row(state.rows, row),
        },
        (PollerAction::Pause(_), PollerEvent::Paused) => PollerState {
            rows: 0,
            action: PollerAction::Select,
        },
        _ => state,
    }
}

/// Starts a poller: it selects at once.
pub fn start() -> (state: PollerState)
    ensures
        state.rows == 0,
        state.action is Select,
{
    PollerState { rows: 0, action: PollerAction::Select }
}

/// Moves a poller on.
///
/// A row that cannot be handled does not keep the next from being handled: it is left for the
/// next time. Rows that cannot be selected make the poller pause, for so many seconds,
/// and start over.
pub fn next(state: PollerState, event: PollerEvent, pause: u64) -> (r: PollerState)
    ensures
        r == polled(state, event, pause),
{
    match (state.action, event) {
        (PollerAction::Wait, PollerEvent::Woken) => PollerState {
            rows: 0,
            action: PollerAction::Select,
        },
        (PollerAction::Select, PollerEvent::Selected(rows)) => PollerState {
            rows,
            action: if rows == 0 {
                PollerAction::Wait
            } else {
                PollerAction::Handle(0)
            },
        },
        (PollerAction::Select, PollerEvent::SelectFailed) => PollerState {
            rows: 0,
            action: PollerAction::Pause(pause),
        },
        (PollerAction::Handle(row), PollerEvent::Handled)
        | (PollerAction::Handle(row), PollerEvent::HandleFailed) => PollerState {
            rows: state.rows,
            action: if row < state.rows && state.rows - row > 1 {
                PollerAction::Handle(row + 1)
            } else {
                PollerAction::Wait
            },
        },
        (PollerAction::Pause(_), PollerEvent::Paused) => PollerState {
            rows: 0,
            action: PollerAction::Select,
        },
        _ => state,
    }
}

/// What is logged of rows that cannot be selected.
pub fn describe_select_failure(name: &str, pause: u64, error: &str) -> (line: String)
    ensures
        line@ == name@ + " error, restarting in "@ + decimal(pause as nat) + "s: "@ + error@,
{
    let mut line = name.to_owned();
    line.append(" error, restarting in ");
    line.append(decimal_u64(pause).as_str());
    line.append("s: ");
    line.append(error);
    line
}

/// What is logged of a row that cannot be handled.
pub fn describe_row_failure(name: &str, context: &str, error: &str) -> (line: String)
    ensures
        line@ == name@ + " error on "@ + context@ + ": "@ + error@,
{
    let mut line = name.to_owned();
    line.append(" error on ");
    line.append(context);
    line.append(": ");
    line.append(error);
    line
}

/// The rows a poller handles from a state on, with an outcome for each, until it waits again.
pub open spec fn rows_handled(state: PollerState, outcomes: Seq<bool>, pause: u64) -> Seq<usize>
    decreases outcomes.len(),
{
    match state.action {
        PollerAction::Handle(row) => if outcomes.len() == 0 {
            Seq::empty()
        } else {
            let event = if outcomes[0] {
                PollerEvent::Handled
            } else {
                PollerEvent::HandleFailed
            };
            seq![row] + rows_handled(polled(state, event, pause), outcomes.drop_first(), pause)
        },
        _ => Seq::empty(),
    }
}

/// Whatever handling each row comes to, every row that was selected is handled once, in
/// order.
pub proof fn every_row_is_handled(rows: usize, from: usize, outcomes: Seq<bool>, pause: u64)
    requires
        from <= rows,
        outcomes.len() == rows - from,
    ensures
        ({
            let state = PollerState {
                rows,
                action: if from == rows {
                    PollerAction::Wait
                } else {
                    PollerAction::Handle(from)
                },
            };
            rows_handled(state, outcomes, pause) == Seq::new(
                (rows - from) as nat,
                |i: int| (from + i) as usize,
            )
        }),
    decreases rows - from,
{
    let state = PollerState {
        rows,
        action: if from == rows {
            PollerAction::Wait
        } else {
            PollerAction::Handle(from)
        },
    };
    let expected = Seq::new((rows - from) as nat, |i: int| (from + i) as usize);
    if from < rows {
        let next = (from + 1) as usize;
        every_row_is_handled(rows, next, outcomes.drop_first(), pause);
        let rest = Seq::new((rows - next) as nat, |i: int| (next + i) as usize);
        assert(expected =~= seq![from] + rest);
    } else {
        assert(expected =~= Seq::empty());
    }
}

/// A poller that handles a row goes on to the very next one whether or not the row could be
/// handled, waits after the last, and never loses count of its rows.
pub proof fn a_failed_row_holds_nothing_up(rows: usize, row: usize, pause: u64)
    requires
        row < rows,
    ensures
        ({
            let state = PollerState { rows, action: PollerAction::Handle(row) };
            let next = polled(state, PollerEvent::Handled, pause);
            &&& polled(state, PollerEvent::HandleFailed, pause) == next
            &&& next.rows == rows
            &&& next.action is Wait <==> row == rows - 1
            &&& next.action matches PollerAction::Handle(after) ==> after == row + 1
            &&& next.action is Wait || next.action is Handle
        }),
{
}

/// A poller always comes back to selecting: once woken, and once a pause is over. One that
/// could not select pauses for as long as it was told; one that found rows begins with the
/// first, and one that found none waits.
pub proof fn a_poller_always_comes_back(state: PollerState, found: usize, pause: u64)
    ensures
        state.action is Wait ==> polled(state, PollerEvent::Woken, pause).action is Select,
        state.action is Pause ==> polled(state, PollerEvent::Paused, pause).action is Select,
        state.action is Select ==> {
            &&& polled(state, PollerEvent::SelectFailed, pause).action == PollerAction::Pause(pause)
            &&& polled(state, PollerEvent::Selected(found), pause).rows == found
            &&& polled(state, PollerEvent::Selected(found), pause).action is Wait <==> found == 0
            &&& found > 0 ==> polled(state, PollerEvent::Selected(found), pause).action
                == PollerAction::Handle(0)
        },
{
}

/// An event that is no answer to what a poller is doing leaves it where it was.
pub proof fn a_stray_event_changes_nothing(state: PollerState, event: PollerEvent, pause: u64)
    requires
        event is Woken ==> !(state.action is Wait),
        event is Selected || event is SelectFailed ==> !(state.action is Select),
        event is Handled || event is HandleFailed ==> !(state.action is Handle),
        event is Paused ==> !(state.action is Pause),
    ensures
        polled(state, event, pause) == state,
{
}

} // verus!
