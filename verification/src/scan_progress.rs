//! The interactive indicator of a library scan: a spinner, and the console
//! filter that holds back the heartbeat which the spinner replaces.

use crate::scanner::{counts_text, heartbeat_text, in_seconds, rounded_seconds, scan_counts, since};
use crate::text::{decimal, push_number};
use vstd::prelude::*;
use vstd::string::*;

verus! {

/// The filter of the console log, as the indicator drives it.
pub trait ConsoleFilter {
    /// `true` lets the heartbeat reach the console, `false` holds it back.
    fn set_console_heartbeat(&self, enabled: bool);
}

/// Where a program keeps its console filter. The first filter put in stays.
#[derive(Debug)]
pub struct ConsoleSlot<F> {
    filter: Option<F>,
}

impl<F> ConsoleSlot<F> {
    /// The filter that is installed.
    pub closed spec fn installed(&self) -> Option<F> {
        self.filter
    }

    /// A slot with nothing in it.
    pub fn empty() -> (r: Self)
        ensures
            r.installed() is None,
    {
        ConsoleSlot { filter: None }
    }
}

/// Installs the console filter that the indicator drives. Only the first
/// filter counts; later ones are dropped.
pub fn install_console_filter<F: ConsoleFilter>(slot: &mut ConsoleSlot<F>, filter: F)
    ensures
        final(slot).installed() == (match old(slot).installed() {
            Some(first) => Some(first),
            None => Some(filter),
        }),
{
    if slot.filter.is_none() {
        slot.filter = Some(filter);
    }
}

/// The installed console filter, if any.
pub fn installed_console_filter<F: ConsoleFilter>(slot: &ConsoleSlot<F>) -> (r: Option<&F>)
    ensures
        match r {
            Some(f) => slot.installed() == Some(*f),
            None => slot.installed() is None,
        },
{
    match &slot.filter {
        Some(f) => Some(f),
        None => None,
    }
}

/// The spinner's message after so many milliseconds.
pub open spec fn message_text(files: nat, albums: nat, millis: nat) -> Seq<char> {
    "Scanning library: "@ + counts_text(files, albums) + " ("@ + decimal(in_seconds(millis))
        + "s elapsed)"@
}

/// The counts and the time of a scan, as the spinner and the heartbeat give
/// them.
pub open spec fn elapsed_text(files: nat, albums: nat, millis: nat) -> Seq<char> {
    counts_text(files, albums) + " ("@ + decimal(in_seconds(millis)) + "s elapsed)"@
}

/// The spinner and the heartbeat never disagree: of one moment both show the
/// same counts and the same seconds.
pub proof fn law_spinner_and_heartbeat_agree(files: nat, albums: nat, started: u64, now: u64)
    ensures
        message_text(files, albums, since(started, now)) == "Scanning library: "@ + elapsed_text(
            files,
            albums,
            since(started, now),
        ),
        heartbeat_text(files, albums, in_seconds(since(started, now)))
            == "Library scan still running: "@ + elapsed_text(files, albums, since(started, now)),
{
    let tail = elapsed_text(files, albums, since(started, now));
    assert(message_text(files, albums, since(started, now)) =~= "Scanning library: "@ + tail);
    assert(heartbeat_text(files, albums, in_seconds(since(started, now)))
        =~= "Library scan still running: "@ + tail);
}

/// The spinner's message after so many milliseconds: the counts and the time
/// that the heartbeat reports.
pub fn scan_message(files: usize, albums: usize, elapsed: u64) -> (r: String)
    ensures
        r@ == message_text(files as nat, albums as nat, elapsed as nat),
{
    let mut out: String = "Scanning library: ".to_owned();
    let counts: String = scan_counts(files, albums);
    out.append(counts.as_str());
    out.append(" (");
    push_number(&mut out, rounded_seconds(elapsed));
    out.append("s elapsed)");
    out
}

/// What the indicator wants done.
#[derive(Debug)]
pub enum IndicatorAction {
    /// Show a spinner with this message.
    ShowBar(String),
    /// Take the spinner away.
    ClearBar,
    /// Let the heartbeat reach the console, or hold it back.
    SetHeartbeat(bool),
}

/// What an [`IndicatorAction`] says.
pub enum ActionView {
    ShowBar(Seq<char>),
    ClearBar,
    SetHeartbeat(bool),
}

impl View for IndicatorAction {
    type V = ActionView;

    open spec fn view(&self) -> ActionView {
        match self {
            IndicatorAction::ShowBar(message) => ActionView::ShowBar(message@),
            IndicatorAction::ClearBar => ActionView::ClearBar,
            IndicatorAction::SetHeartbeat(on) => ActionView::SetHeartbeat(*on),
        }
    }
}

/// What a list of actions says.
pub open spec fn action_views(list: Seq<IndicatorAction>) -> Seq<ActionView> {
    list.map_values(|a: IndicatorAction| a@)
}

/// The indicator of one scan.
#[derive(Debug)]
pub struct ScanIndicator {
    bar: bool,
    console: bool,
    released: bool,
}

/// Where an indicator stands.
pub struct IndicatorView {
    /// It shows a spinner.
    pub bar: bool,
    /// It holds the heartbeat back.
    pub console: bool,
    /// It has let go of both.
    pub released: bool,
}

impl View for ScanIndicator {
    type V = IndicatorView;

    closed spec fn view(&self) -> IndicatorView {
        IndicatorView { bar: self.bar, console: self.console, released: self.released }
    }
}

/// What starting an indicator does: nothing without a display; with one the
/// spinner appears, and the heartbeat is held back where a filter is there.
pub open spec fn start_actions(display: bool, console: bool) -> Seq<ActionView> {
    if display && console {
        seq![ActionView::ShowBar(message_text(0, 0, 0)), ActionView::SetHeartbeat(false)]
    } else if display {
        seq![ActionView::ShowBar(message_text(0, 0, 0))]
    } else {
        seq![]
    }
}

/// What releasing an indicator does: once, the spinner goes and the heartbeat
/// comes back.
pub open spec fn release_actions(s: IndicatorView) -> Seq<ActionView> {
    if s.released || (!s.bar && !s.console) {
        seq![]
    } else if s.bar && s.console {
        seq![ActionView::ClearBar, ActionView::SetHeartbeat(true)]
    } else if s.bar {
        seq![ActionView::ClearBar]
    } else {
        seq![ActionView::SetHeartbeat(true)]
    }
}

impl ScanIndicator {
    /// Starts the indicator, with or without a display and a console filter.
    pub fn start(display: bool, console: bool) -> (r: (Self, Vec<IndicatorAction>))
        ensures
            r.0@ == (IndicatorView { bar: display, console: display && console, released: false }),
            action_views(r.1@) == start_actions(display, console),
    {
        let mut actions: Vec<IndicatorAction> = Vec::new();
        if display {
            actions.push(IndicatorAction::ShowBar(scan_message(0, 0, 0)));
            if console {
                actions.push(IndicatorAction::SetHeartbeat(false));
            }
        }
        proof {
            assert(action_views(actions@) =~= start_actions(display, console));
        }
        (ScanIndicator { bar: display, console: display && console, released: false }, actions)
    }

    /// The new message of the spinner after so many milliseconds, if there is a
    /// spinner.
    pub fn update(&self, files: usize, albums: usize, elapsed: u64) -> (r: Option<String>)
        ensures
            r is Some <==> self@.bar,
            r matches Some(m) ==> m@ == message_text(files as nat, albums as nat, elapsed as nat),
    {
        if self.bar {
            Some(scan_message(files, albums, elapsed))
        } else {
            None
        }
    }

    /// Lets go of the spinner and of the console. Doing so again does nothing.
    pub fn release(&mut self) -> (r: Vec<IndicatorAction>)
        ensures
            final(self)@ == (IndicatorView { released: true, ..old(self)@ }),
            action_views(r@) == release_actions(old(self)@),
    {
        let mut actions: Vec<IndicatorAction> = Vec::new();
        if !self.released {
            self.released = true;
            if self.bar {
                actions.push(IndicatorAction::ClearBar);
            }
            if self.console {
                actions.push(IndicatorAction::SetHeartbeat(true));
            }
        }
        proof {
            assert(action_views(actions@) =~= release_actions(old(self)@));
        }
        actions
    }
}

/// However often an indicator is released, the spinner that it showed goes
/// once and the heartbeat that it held back comes back once; without a
/// display nothing is touched at all.
pub proof fn law_release_undoes_start_once(display: bool, console: bool, s: IndicatorView)
    requires
        s == (IndicatorView { bar: display, console: display && console, released: false }),
    ensures
        release_actions(s).contains(ActionView::ClearBar) <==> start_actions(
            display,
            console,
        ).contains(ActionView::ShowBar(message_text(0, 0, 0))),
        release_actions(s).contains(ActionView::SetHeartbeat(true)) <==> start_actions(
            display,
            console,
        ).contains(ActionView::SetHeartbeat(false)),
        release_actions(s).no_duplicates(),
        release_actions(IndicatorView { released: true, ..s }).len() == 0,
        !display ==> start_actions(display, console).len() == 0 && release_actions(s).len() == 0,
{
    let begun = start_actions(display, console);
    let ended = release_actions(s);
    if display {
        assert(begun[0] == ActionView::ShowBar(message_text(0, 0, 0)));
        assert(ended[0] == ActionView::ClearBar);
        if console {
            assert(begun[1] == ActionView::SetHeartbeat(false));
            assert(ended[1] == ActionView::SetHeartbeat(true));
        }
    }
}

/// With a display a scan begins with a spinner that has counted nothing, and
/// the heartbeat is held back exactly where a filter is there to do it.
pub proof fn law_displays_show_a_spinner(console: bool)
    ensures
        start_actions(true, console)[0] == ActionView::ShowBar(message_text(0, 0, 0)),
        start_actions(true, console).contains(ActionView::SetHeartbeat(false)) <==> console,
        !start_actions(true, console).contains(ActionView::SetHeartbeat(true)),
        start_actions(true, console).len() <= 2,
        start_actions(false, console).len() == 0,
{
    let begun = start_actions(true, console);
    if console {
        assert(begun[1] == ActionView::SetHeartbeat(false));
    }
}

} // verus!
