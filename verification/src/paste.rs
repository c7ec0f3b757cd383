//! The text paster: what it does to the clipboard and the keyboard, step by step.

use crate::json::text_view;
use vstd::prelude::*;

verus! {

/// The pause that lets the user release the hotkey, in milliseconds.
pub const RELEASE_PAUSE: u64 = 40;

/// The pause in which the target takes the paste, in milliseconds.
pub const CONSUME_PAUSE: u64 = 140;

/// What the paster wants done next.
#[derive(Debug)]
pub enum PasteAction {
    ReadClipboard,
    SetClipboard(String),
    Sleep(u64),
    SendPaste,
    Done,
}

/// The model of an action.
pub enum PasteActionView {
    ReadClipboard,
    SetClipboard(Seq<char>),
    Sleep(u64),
    SendPaste,
    Done,
}

impl View for PasteAction {
    type V = PasteActionView;

    open spec fn view(&self) -> PasteActionView {
        match self {
            PasteAction::ReadClipboard => PasteActionView::ReadClipboard,
            PasteAction::SetClipboard(t) => PasteActionView::SetClipboard(t@),
            PasteAction::Sleep(ms) => PasteActionView::Sleep(*ms),
            PasteAction::SendPaste => PasteActionView::SendPaste,
            PasteAction::Done => PasteActionView::Done,
        }
    }
}

/// How the last action went: what was read from the clipboard, whether it could be set, or
/// simply that the action is done.
#[derive(Debug)]
pub enum PasteEvent {
    Read(Option<String>),
    Placed(bool),
    Passed,
}

/// Where a paste stands: what it waits for.
pub enum Stage {
    Reading,
    Placing { previous: Option<Seq<char>> },
    Releasing { previous: Option<Seq<char>> },
    Pasting { previous: Option<Seq<char>> },
    Settling { previous: Option<Seq<char>> },
    Restoring,
    Over,
}

/// The model of an event.
pub enum PasteEventView {
    Read(Option<Seq<char>>),
    Placed(bool),
    Passed,
}

impl View for PasteEvent {
    type V = PasteEventView;

    open spec fn view(&self) -> PasteEventView {
        match self {
            PasteEvent::Read(t) => PasteEventView::Read(text_view(*t)),
            PasteEvent::Placed(ok) => PasteEventView::Placed(*ok),
            PasteEvent::Passed => PasteEventView::Passed,
        }
    }
}

/// The course of a paste of `text`: remember what is on the clipboard, put the text there, and,
/// if that worked, paste it and put back what was there. An event that does not belong to the
/// action that was asked for ends the paste.
pub open spec fn advance(text: Seq<char>, stage: Stage, event: PasteEventView) -> (
    Stage,
    PasteActionView,
) {
    match (stage, event) {
        (Stage::Reading, PasteEventView::Read(previous)) => (
            Stage::Placing { previous },
            PasteActionView::SetClipboard(text),
        ),
        (Stage::Placing { previous }, PasteEventView::Placed(true)) => (
            Stage::Releasing { previous },
            PasteActionView::Sleep(RELEASE_PAUSE),
        ),
        (Stage::Releasing { previous }, PasteEventView::Passed) => (
            Stage::Pasting { previous },
            PasteActionView::SendPaste,
        ),
        (Stage::Pasting { previous }, PasteEventView::Passed) => (
            Stage::Settling { previous },
            PasteActionView::Sleep(CONSUME_PAUSE),
        ),
        (Stage::Settling { previous: Some(previous) }, PasteEventView::Passed) => (
            Stage::Restoring,
            PasteActionView::SetClipboard(previous),
        ),
        _ => (Stage::Over, PasteActionView::Done),
    }
}

#[derive(Debug)]
enum Step {
    Reading,
    Placing,
    Releasing,
    Pasting,
    Settling,
    Restoring,
    Over,
}

/// A paste under way.
#[derive(Debug)]
pub struct PasteRun {
    text: String,
    previous: Option<String>,
    step: Step,
}

impl PasteRun {
    /// The text that is pasted.
    pub closed spec fn text(&self) -> Seq<char> {
        self.text@
    }

    /// Where the paste stands.
    pub closed spec fn stage(&self) -> Stage {
        let previous = text_view(self.previous);
        match self.step {
            Step::Reading => Stage::Reading,
            Step::Placing => Stage::Placing { previous },
            Step::Releasing => Stage::Releasing { previous },
            Step::Pasting => Stage::Pasting { previous },
            Step::Settling => Stage::Settling { previous },
            Step::Restoring => Stage::Restoring,
            Step::Over => Stage::Over,
        }
    }

    /// Starts a paste: the clipboard is to be read.
    pub fn run_paste(text: String) -> (r: (PasteRun, PasteAction))
        ensures
            r.0.text() == text@,
            r.0.stage() is Reading,
            r.1@ is ReadClipboard,
    {
        (PasteRun { text, previous: None, step: Step::Reading }, PasteAction::ReadClipboard)
    }

    /// Takes how the last action went and says what to do next.
    pub fn next(&mut self, event: PasteEvent) -> (r: PasteAction)
        ensures
            final(self).text() == old(self).text(),
            (final(self).stage(), r@) == advance(old(self).text(), old(self).stage(), event@),
    {
        match (&self.step, event) {
            (Step::Reading, PasteEvent::Read(previous)) => {
                self.previous = previous;
                self.step = Step::Placing;
                PasteAction::SetClipboard(self.text.clone())
            },
            (Step::Placing, PasteEvent::Placed(true)) => {
                self.step = Step::Releasing;
                PasteAction::Sleep(RELEASE_PAUSE)
            },
            (Step::Releasing, PasteEvent::Passed) => {
                self.step = Step::Pasting;
                PasteAction::SendPaste
            },
            (Step::Pasting, PasteEvent::Passed) => {
                self.step = Step::Settling;
                PasteAction::Sleep(CONSUME_PAUSE)
            },
            (Step::Settling, PasteEvent::Passed) => {
                match &self.previous {
                    Some(previous) => {
                        let restored = previous.clone();
                        self.step = Step::Restoring;
                        PasteAction::SetClipboard(restored)
                    },
                    None => {
                        self.step = Step::Over;
                        PasteAction::Done
                    },
                }
            },
            _ => {
                self.step = Step::Over;
                PasteAction::Done
            },
        }
    }
}

/// The actions of a paste, from the one at hand on, with the answers it gets one after another.
pub open spec fn course(
    text: Seq<char>,
    stage: Stage,
    events: Seq<PasteEventView>,
) -> Seq<PasteActionView>
    decreases events.len(),
{
    if events.len() == 0 {
        Seq::empty()
    } else {
        let (next, action) = advance(text, stage, events[0]);
        seq![action] + course(text, next, events.drop_first())
    }
}

/// The clipboard is put back: a paste that could place its text pastes it and then sets the
/// clipboard to the text that was read from it at the start, if any; that is the last thing it
/// does to the clipboard.
pub proof fn clipboard_is_put_back(text: Seq<char>, previous: Option<Seq<char>>, restored: bool)
    ensures
        course(
            text,
            Stage::Reading,
            seq![
                PasteEventView::Read(previous),
                PasteEventView::Placed(true),
                PasteEventView::Passed,
                PasteEventView::Passed,
                PasteEventView::Passed,
            ],
        ) == seq![
            PasteActionView::SetClipboard(text),
            PasteActionView::Sleep(RELEASE_PAUSE),
            PasteActionView::SendPaste,
            PasteActionView::Sleep(CONSUME_PAUSE),
            match previous {
                Some(previous) => PasteActionView::SetClipboard(previous),
                None => PasteActionView::Done,
            },
        ],
        advance(text, Stage::Restoring, PasteEventView::Placed(restored)) == (
            Stage::Over,
            PasteActionView::Done,
        ),
{
    reveal_with_fuel(course, 6);
    let e = seq![
        PasteEventView::Read(previous),
        PasteEventView::Placed(true),
        PasteEventView::Passed,
        PasteEventView::Passed,
        PasteEventView::Passed,
    ];
    let e4 = e.drop_first();
    let e3 = e4.drop_first();
    let e2 = e3.drop_first();
    let e1 = e2.drop_first();
    assert(e4[0] == PasteEventView::Placed(true));
    assert(e3[0] == PasteEventView::Passed);
    assert(e2[0] == PasteEventView::Passed);
    assert(e1[0] == PasteEventView::Passed);
    assert(e1.drop_first().len() == 0);
    let got = course(text, Stage::Reading, e);
    assert(got.len() == 5);
    assert(got =~= seq![got[0], got[1], got[2], got[3], got[4]]);
}

/// Nothing is pasted that could not be placed: where the clipboard cannot be set, the paste is
/// over, and a paste that is over does nothing more.
pub proof fn unplaced_text_is_not_pasted(
    text: Seq<char>,
    previous: Option<Seq<char>>,
    event: PasteEventView,
)
    ensures
        advance(text, Stage::Placing { previous }, PasteEventView::Placed(false)) == (
            Stage::Over,
            PasteActionView::Done,
        ),
        advance(text, Stage::Over, event) == (Stage::Over, PasteActionView::Done),
{
}

/// The course of a paste, step by step and for every answer: the clipboard is read, the text is
/// placed, 40 milliseconds pass, the paste is sent, 140 milliseconds pass, and what was read is put
/// back, if anything was. A failed placing, and any answer that does not belong to the step, ends it.
pub proof fn paste_goes_step_by_step(
    text: Seq<char>,
    previous: Option<Seq<char>>,
    read: Seq<char>,
    event: PasteEventView,
)
    ensures
        advance(text, Stage::Reading, PasteEventView::Read(previous)) == (
            Stage::Placing { previous },
            PasteActionView::SetClipboard(text),
        ),
        advance(text, Stage::Placing { previous }, PasteEventView::Placed(true)) == (
            Stage::Releasing { previous },
            PasteActionView::Sleep(40),
        ),
        advance(text, Stage::Releasing { previous }, PasteEventView::Passed) == (
            Stage::Pasting { previous },
            PasteActionView::SendPaste,
        ),
        advance(text, Stage::Pasting { previous }, PasteEventView::Passed) == (
            Stage::Settling { previous },
            PasteActionView::Sleep(140),
        ),
        advance(text, Stage::Settling { previous: Some(read) }, PasteEventView::Passed) == (
            Stage::Restoring,
            PasteActionView::SetClipboard(read),
        ),
        advance(text, Stage::Settling { previous: None }, PasteEventView::Passed) == (
            Stage::Over,
            PasteActionView::Done,
        ),
        advance(text, Stage::Restoring, event) == (Stage::Over, PasteActionView::Done),
        advance(text, Stage::Over, event) == (Stage::Over, PasteActionView::Done),
        !(event is Read) ==> advance(text, Stage::Reading, event).1 is Done,
        event != PasteEventView::Placed(true) ==> advance(
            text,
            Stage::Placing { previous },
            event,
        ).1 is Done,
        !(event is Passed) ==> advance(text, Stage::Releasing { previous }, event).1 is Done
            && advance(text, Stage::Pasting { previous }, event).1 is Done && advance(
            text,
            Stage::Settling { previous },
            event,
        ).1 is Done,
{
}

/// Actions and answers are seen as they are.
pub proof fn steps_are_seen_as_they_are(t: String, ms: u64, ok: bool)
    ensures
        PasteAction::ReadClipboard@ == PasteActionView::ReadClipboard,
        PasteAction::SetClipboard(t)@ == PasteActionView::SetClipboard(t@),
        PasteAction::Sleep(ms)@ == PasteActionView::Sleep(ms),
        PasteAction::SendPaste@ == PasteActionView::SendPaste,
        PasteAction::Done@ == PasteActionView::Done,
        PasteEvent::Read(Some(t))@ == PasteEventView::Read(Some(t@)),
        PasteEvent::Read(None)@ == PasteEventView::Read(None),
        PasteEvent::Placed(ok)@ == PasteEventView::Placed(ok),
        PasteEvent::Passed@ == PasteEventView::Passed,
{
}

} // verus!
