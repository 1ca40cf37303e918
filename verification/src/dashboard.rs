//! The dashboard state machine: a pure reducer that folds the event
//! stream into a presentation model, plus the local input handling.
//! Exactly one phase is active at a time; `Complete` and `Failed` are
//! terminal, and late events no longer change anything.

use vstd::prelude::*;
use vstd::string::*;
use crate::scan::AssetKind;
use crate::events::{Event, EventView};

verus! {

/// The dashboard's top-level activity state.
#[derive(Clone, Copy, Debug, PartialEq, Eq, Structural)]
pub enum Phase {
    Scanning,
    Processing,
    Rendering,
    Complete,
    Failed,
}

/// Per-row status of one asset on screen.
pub enum FileStatus {
    Pending,
    InProgress,
    Done,
    Failed { message: String },
}

/// One visible row: created by an `AssetFound` event, mutated only by
/// status transitions, never deleted during a run.
pub struct FileEntry {
    pub filename: String,
    pub kind: AssetKind,
    pub status: FileStatus,
}

pub ghost enum StatusView {
    Pending,
    InProgress,
    Done,
    Failed { message: Seq<char> },
}

pub ghost struct EntryView {
    pub filename: Seq<char>,
    pub kind: AssetKind,
    pub status: StatusView,
}

impl View for FileStatus {
    type V = StatusView;

    open spec fn view(&self) -> StatusView {
        match self {
            FileStatus::Pending => StatusView::Pending,
            FileStatus::InProgress => StatusView::InProgress,
            FileStatus::Done => StatusView::Done,
            FileStatus::Failed { message } => StatusView::Failed { message: message@ },
        }
    }
}

impl View for FileEntry {
    type V = EntryView;

    open spec fn view(&self) -> EntryView {
        EntryView { filename: self.filename@, kind: self.kind, status: self.status@ }
    }
}

/// The whole presentation model.
pub struct App {
    pub phase: Phase,
    pub files: Vec<FileEntry>,
    pub scroll: usize,
    pub tick: u64,
    pub total_found: usize,
    pub processed_count: usize,
    pub failed_count: usize,
    pub client: String,
    pub date: String,
    pub columns: u8,
    pub output_path: String,
    pub error_msg: Option<String>,
}

pub ghost struct AppView {
    pub phase: Phase,
    pub entries: Seq<EntryView>,
    pub scroll: usize,
    pub tick: u64,
    pub total_found: usize,
    pub processed_count: usize,
    pub failed_count: usize,
    pub client: Seq<char>,
    pub date: Seq<char>,
    pub columns: u8,
    pub output_path: Seq<char>,
    pub error_msg: Option<Seq<char>>,
}

impl View for App {
    type V = AppView;

    open spec fn view(&self) -> AppView {
        AppView {
            phase: self.phase,
            entries: self.files@.map_values(|e: FileEntry| e@),
            scroll: self.scroll,
            tick: self.tick,
            total_found: self.total_found,
            processed_count: self.processed_count,
            failed_count: self.failed_count,
            client: self.client@,
            date: self.date@,
            columns: self.columns,
            output_path: self.output_path@,
            error_msg: crate::scan::opt_view(self.error_msg),
        }
    }
}

pub open spec fn terminal(p: Phase) -> bool {
    p is Complete || p is Failed
}

/// A counter bump that sticks at the top instead of wrapping.
pub open spec fn sat_inc(n: usize) -> usize {
    if n == usize::MAX {
        n
    } else {
        (n + 1) as usize
    }
}

/// Status update for row `i`; rows that do not exist are left alone.
pub open spec fn set_status(es: Seq<EntryView>, i: int, st: StatusView) -> Seq<EntryView> {
    if 0 <= i < es.len() {
        es.update(i, EntryView { status: st, ..es[i] })
    } else {
        es
    }
}

/// The reducer: one event folded into the model. The transition table:
/// `AssetFound` appends a pending row; `ScanDone` records the total
/// and enters `Processing`; `Processing{i}`/`Processed{i}`/`Failed{i}`
/// drive row `i` and the counters; `Rendering` and `Done` advance the
/// phase; `Error` enters `Failed`. In a terminal phase nothing moves.
pub open spec fn step(s: AppView, ev: EventView) -> AppView {
    if terminal(s.phase) {
        s
    } else {
        match ev {
            EventView::AssetFound { filename, kind } => AppView {
                entries: s.entries.push(
                    EntryView { filename, kind, status: StatusView::Pending },
                ),
                total_found: (s.entries.len() + 1) as usize,
                ..s
            },
            EventView::ScanDone { total } => AppView {
                total_found: total,
                phase: Phase::Processing,
                ..s
            },
            EventView::Processing { index } => AppView {
                entries: set_status(s.entries, index as int, StatusView::InProgress),
                ..s
            },
            EventView::Processed { index } => AppView {
                entries: set_status(s.entries, index as int, StatusView::Done),
                processed_count: sat_inc(s.processed_count),
                ..s
            },
            EventView::Failed { index, message } => AppView {
                entries: set_status(s.entries, index as int, StatusView::Failed { message }),
                processed_count: sat_inc(s.processed_count),
                failed_count: sat_inc(s.failed_count),
                ..s
            },
            EventView::Rendering => AppView { phase: Phase::Rendering, ..s },
            EventView::Done { output, total } => AppView {
                phase: Phase::Complete,
                output_path: output,
                processed_count: total,
                ..s
            },
            EventView::Error { message } => AppView {
                phase: Phase::Failed,
                error_msg: Option::Some(message),
                ..s
            },
        }
    }
}

impl App {
    /// A fresh dashboard: scanning, no rows, zeroed counters.
    pub fn new(client: &str, date: &str, columns: u8) -> (a: App)
        ensures
            a@ == (AppView {
                phase: Phase::Scanning,
                entries: Seq::empty(),
                scroll: 0,
                tick: 0,
                total_found: 0,
                processed_count: 0,
                failed_count: 0,
                client: client@,
                date: date@,
                columns,
                output_path: Seq::empty(),
                error_msg: Option::None,
            }),
    {
        let a = App {
            phase: Phase::Scanning,
            files: Vec::new(),
            scroll: 0,
            tick: 0,
            total_found: 0,
            processed_count: 0,
            failed_count: 0,
            client: String::from_str(client),
            date: String::from_str(date),
            columns,
            output_path: String::new(),
            error_msg: None,
        };
        proof {
            assert(a.files@.map_values(|e: FileEntry| e@) =~= Seq::<EntryView>::empty());
        }
        a
    }

    /// Whether the run has reached a terminal phase.
    pub fn is_terminal(&self) -> (r: bool)
        ensures
            r == terminal(self.phase),
    {
        match self.phase {
            Phase::Complete | Phase::Failed => true,
            _ => false,
        }
    }

    /// Folds one event into the model, exactly as `step` says.
    pub fn handle_event(&mut self, ev: Event)
        ensures
            final(self)@ == step(old(self)@, ev@),
    {
        if self.is_terminal() {
            return ;
        }
        match ev {
            Event::AssetFound { filename, kind } => {
                let ghost fpre = self.files@;
                self.files.push(FileEntry { filename, kind, status: FileStatus::Pending });
                self.total_found = self.files.len();
                proof {
                    assert(self.files@.map_values(|e: FileEntry| e@) =~~= fpre.map_values(
                        |e: FileEntry| e@,
                    ).push(self.files@.last()@));
                }
            },
            Event::ScanDone { total } => {
                self.total_found = total;
                self.phase = Phase::Processing;
            },
            Event::Processing { index } => {
                self.set_row(index, FileStatus::InProgress);
            },
            Event::Processed { index } => {
                self.set_row(index, FileStatus::Done);
                if self.processed_count < usize::MAX {
                    self.processed_count = self.processed_count + 1;
                }
            },
            Event::Failed { index, message } => {
                self.set_row(index, FileStatus::Failed { message });
                if self.processed_count < usize::MAX {
                    self.processed_count = self.processed_count + 1;
                }
                if self.failed_count < usize::MAX {
                    self.failed_count = self.failed_count + 1;
                }
            },
            Event::Rendering => {
                self.phase = Phase::Rendering;
            },
            Event::Done { output, total } => {
                self.phase = Phase::Complete;
                self.output_path = output;
                self.processed_count = total;
            },
            Event::Error { message } => {
                self.phase = Phase::Failed;
                self.error_msg = Some(message);
            },
        }
        proof {
            assert(self@ =~~= step(old(self)@, ev@));
        }
    }

    /// Rewrites the status of row `index`, if that row exists.
    fn set_row(&mut self, index: usize, st: FileStatus)
        ensures
            final(self).phase == old(self).phase,
            final(self).scroll == old(self).scroll,
            final(self).tick == old(self).tick,
            final(self).total_found == old(self).total_found,
            final(self).processed_count == old(self).processed_count,
            final(self).failed_count == old(self).failed_count,
            final(self).client == old(self).client,
            final(self).date == old(self).date,
            final(self).columns == old(self).columns,
            final(self).output_path == old(self).output_path,
            final(self).error_msg == old(self).error_msg,
            final(self).files@.map_values(|e: FileEntry| e@) == set_status(
                old(self).files@.map_values(|e: FileEntry| e@),
                index as int,
                st@,
            ),
    {
        if index < self.files.len() {
            let ghost fpre = self.files@;
            let filename = String::from_str(self.files[index].filename.as_str());
            let kind = self.files[index].kind;
            self.files[index] = FileEntry { filename, kind, status: st };
            proof {
                assert(self.files@.map_values(|e: FileEntry| e@) =~~= set_status(
                    fpre.map_values(|e: FileEntry| e@),
                    index as int,
                    st@,
                ));
            }
        } else {
            proof {
                assert(self.files@.map_values(|e: FileEntry| e@) =~~= set_status(
                    self.files@.map_values(|e: FileEntry| e@),
                    index as int,
                    st@,
                ));
            }
        }
    }
}

} // verus!

verus! {

/// One local user action per redraw tick.
#[derive(Clone, Copy, Debug, PartialEq, Eq, Structural)]
pub enum InputAction {
    Quit,
    Confirm,
    ScrollDown,
    ScrollUp,
    Other,
}

/// Whether an action ends the presentation loop in the given phase:
/// quitting always does; confirming only once the run is terminal.
pub open spec fn input_exits(p: Phase, a: InputAction) -> bool {
    a is Quit || (a is Confirm && terminal(p))
}

/// The scroll position after an action: down moves at most to the
/// last row, up saturates at zero, everything else leaves it alone.
pub open spec fn scroll_after(s: AppView, a: InputAction) -> usize {
    match a {
        InputAction::ScrollDown => if s.entries.len() > 0 && s.scroll < s.entries.len() - 1 {
            (s.scroll + 1) as usize
        } else {
            s.scroll
        },
        InputAction::ScrollUp => if s.scroll > 0 {
            (s.scroll - 1) as usize
        } else {
            s.scroll
        },
        _ => s.scroll,
    }
}

impl App {
    /// Handles one local action: adjusts the scroll position and says
    /// whether the loop should exit. Scrolling works in every phase.
    pub fn handle_input(&mut self, a: InputAction) -> (exit: bool)
        ensures
            exit == input_exits(old(self)@.phase, a),
            final(self)@ == (AppView { scroll: scroll_after(old(self)@, a), ..old(self)@ }),
    {
        match a {
            InputAction::Quit => true,
            InputAction::Confirm => self.is_terminal(),
            InputAction::ScrollDown => {
                if self.files.len() > 0 && self.scroll < self.files.len() - 1 {
                    self.scroll = self.scroll + 1;
                }
                false
            },
            InputAction::ScrollUp => {
                if self.scroll > 0 {
                    self.scroll = self.scroll - 1;
                }
                false
            },
            InputAction::Other => false,
        }
    }

    /// Advances the spinner clock; the count wraps at the top rather
    /// than overflowing.
    pub fn on_tick(&mut self)
        ensures
            final(self)@ == (AppView {
                tick: if old(self).tick == u64::MAX {
                    0u64
                } else {
                    (old(self).tick + 1) as u64
                },
                ..old(self)@
            }),
    {
        if self.tick == u64::MAX {
            self.tick = 0;
        } else {
            self.tick = self.tick + 1;
        }
    }

    /// The first visible row: the scroll position clamped so the last
    /// page stays full.
    pub fn visible_start(&self, visible: usize) -> (r: usize)
        ensures
            r == if self.scroll <= sub_sat(self.files@.len() as usize, visible) {
                self.scroll as int
            } else {
                sub_sat(self.files@.len() as usize, visible) as int
            },
    {
        let cap = if self.files.len() >= visible {
            self.files.len() - visible
        } else {
            0
        };
        if self.scroll <= cap {
            self.scroll
        } else {
            cap
        }
    }

    /// The spinner frame for the current tick.
    pub fn spinner(&self) -> (c: char)
        ensures
            c == spinner_spec(self.tick),
    {
        let i = (self.tick / 2) % 10;
        if i == 0 {
            '\u{280B}'
        } else if i == 1 {
            '\u{2819}'
        } else if i == 2 {
            '\u{2839}'
        } else if i == 3 {
            '\u{2838}'
        } else if i == 4 {
            '\u{283C}'
        } else if i == 5 {
            '\u{2834}'
        } else if i == 6 {
            '\u{2826}'
        } else if i == 7 {
            '\u{2827}'
        } else if i == 8 {
            '\u{2807}'
        } else {
            '\u{280F}'
        }
    }
}

pub open spec fn sub_sat(a: usize, b: usize) -> usize {
    if a >= b {
        (a - b) as usize
    } else {
        0
    }
}

/// The ten spinner frames, advanced every other tick.
pub open spec fn spinner_spec(tick: u64) -> char {
    let i = (tick as int / 2) % 10;
    if i == 0 {
        '\u{280B}'
    } else if i == 1 {
        '\u{2819}'
    } else if i == 2 {
        '\u{2839}'
    } else if i == 3 {
        '\u{2838}'
    } else if i == 4 {
        '\u{283C}'
    } else if i == 5 {
        '\u{2834}'
    } else if i == 6 {
        '\u{2826}'
    } else if i == 7 {
        '\u{2827}'
    } else if i == 8 {
        '\u{2807}'
    } else {
        '\u{280F}'
    }
}

} // verus!

verus! {

/// `COUNT/TOTAL processed`.
pub open spec fn progress_label_spec(processed: usize, total: usize) -> Seq<char> {
    crate::text::dec_digits(processed as nat) + seq!['/'] + crate::text::dec_digits(total as nat)
        + " processed"@
}

impl App {
    /// The header label of the current phase.
    pub fn phase_label(&self) -> (r: &'static str)
        ensures
            self.phase is Scanning ==> r@ == "Scanning..."@,
            self.phase is Processing ==> r@ == "Processing..."@,
            self.phase is Rendering ==> r@ == "Rendering PDF..."@,
            self.phase is Complete ==> r@ == "Done"@,
            self.phase is Failed ==> r@ == "Failed"@,
    {
        match self.phase {
            Phase::Scanning => "Scanning...",
            Phase::Processing => "Processing...",
            Phase::Rendering => "Rendering PDF...",
            Phase::Complete => "Done",
            Phase::Failed => "Failed",
        }
    }

    /// The key hints in the footer: confirm exits only once terminal.
    pub fn footer_hint(&self) -> (r: &'static str)
        ensures
            terminal(self.phase) ==> r@ == " q/Enter: exit  j/k: scroll "@,
            !terminal(self.phase) ==> r@ == " q: cancel  j/k: scroll "@,
    {
        match self.phase {
            Phase::Complete | Phase::Failed => " q/Enter: exit  j/k: scroll ",
            _ => " q: cancel  j/k: scroll ",
        }
    }

    /// Batch progress in whole percent: zero of an empty total, never
    /// past one hundred.
    pub fn progress_percent(&self) -> (r: u8)
        ensures
            self.total_found == 0 ==> r == 0,
            self.total_found > 0 && self.processed_count >= self.total_found ==> r == 100,
            0 < self.total_found && self.processed_count < self.total_found ==> r as int
                == self.processed_count as int * 100 / (self.total_found as int),
            r <= 100,
    {
        if self.total_found == 0 {
            0
        } else if self.processed_count >= self.total_found {
            100
        } else {
            let wide = (self.processed_count as u128) * 100 / (self.total_found as u128);
            proof {
                assert(wide as int == self.processed_count as int * 100 / (
                self.total_found as int));
                assert(self.processed_count as int * 100 / (self.total_found as int) < 100)
                    by (nonlinear_arith)
                    requires
                        0 <= (self.processed_count as int) < (self.total_found as int),
                ;
            }
            wide as u8
        }
    }

    /// The progress bar label while processing runs.
    pub fn progress_label(&self) -> (r: String)
        ensures
            r@ == progress_label_spec(self.processed_count, self.total_found),
    {
        let mut s = crate::text::u64_to_dec(self.processed_count as u64);
        crate::text::push_char(&mut s, '/');
        let t = crate::text::u64_to_dec(self.total_found as u64);
        let s = s.concat(t.as_str());
        let out = s.concat(" processed");
        proof {
            assert(out@ =~= progress_label_spec(self.processed_count, self.total_found));
        }
        out
    }
}

} // verus!
