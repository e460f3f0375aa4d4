//! The review session: a list of releases to select from, a pane of notes
//! to scroll, and the keys that move between them and end the session.

use crate::async_task::AsyncTaskStatus;
use crate::multi_select::{
    lemma_none_selected, lemma_toggle_twice, selected_of, toggled, MultiSelect, SelectOption,
};
use crate::release::{release_label, Release, ReleaseView};
use vstd::prelude::*;

verus! {

/// By how many lines one key press scrolls the notes.
pub const SCROLL_STEP_SIZE: u16 = 5;

/// The width of the list of releases at the start.
pub const LEFT_COLUMN_WIDTH: u16 = 40;

/// The two panes of the screen.
#[derive(Debug, Clone, Copy, PartialEq, Eq, Structural)]
pub enum Pane {
    Releases,
    ReleaseNotes,
}

/// How the user ends the session.
#[derive(Debug, Clone, Copy, PartialEq, Eq, Structural)]
pub enum ExitAction {
    Abort,
    PrintSelected,
}

/// The key of a key event, as far as the session tells keys apart.
#[derive(Debug, Clone, Copy, PartialEq, Eq, Structural)]
pub enum KeyCode {
    Char(char),
    Enter,
    Other,
}

/// Whether a key went down, is held or went up.
#[derive(Debug, Clone, Copy, PartialEq, Eq, Structural)]
pub enum KeyEventKind {
    Press,
    Repeat,
    Release,
}

/// A key event.
#[derive(Debug, Clone, Copy, PartialEq, Eq, Structural)]
pub struct KeyEvent {
    pub code: KeyCode,
    pub control: bool,
    pub kind: KeyEventKind,
}

/// The session as plain values.
pub struct AppView {
    pub scroll: u16,
    pub focused_pane: Pane,
    pub options: Seq<SelectOption<Release>>,
    pub cursor: int,
    pub should_exit: Option<ExitAction>,
    pub left_column_width: u16,
}

/// `a - b`, but not below 0.
pub open spec fn minus_floor(a: u16, b: u16) -> u16 {
    if a >= b {
        (a - b) as u16
    } else {
        0
    }
}

/// `a + b`, but not above the largest value.
pub open spec fn plus_ceiling(a: u16, b: u16) -> u16 {
    if a + b <= u16::MAX {
        (a + b) as u16
    } else {
        u16::MAX
    }
}

/// The cursor one option up; on the first option it stays.
pub open spec fn cursor_up(cursor: int) -> int {
    if cursor > 0 {
        cursor - 1
    } else {
        0
    }
}

/// The cursor one option down; on the last of `len` options it stays.
pub open spec fn cursor_down(cursor: int, len: int) -> int {
    if cursor + 1 < len {
        cursor + 1
    } else {
        len - 1
    }
}

/// Whether the key is the interrupt key: `c` with control held.
pub open spec fn is_interrupt(key: KeyEvent) -> bool {
    key.control && key.code == KeyCode::Char('c')
}

/// The session after a key event. Only presses count. The interrupt key
/// aborts from either pane; every other key means what the pane in focus
/// makes of it, and a key that the pane does not know changes nothing.
pub open spec fn spec_handle_key(app: AppView, key: KeyEvent) -> AppView {
    if key.kind != KeyEventKind::Press {
        app
    } else if is_interrupt(key) {
        AppView { should_exit: Some(ExitAction::Abort), ..app }
    } else {
        match app.focused_pane {
            Pane::Releases => match key.code {
                KeyCode::Char('l') => AppView { focused_pane: Pane::ReleaseNotes, ..app },
                KeyCode::Char('k') => AppView { cursor: cursor_up(app.cursor), ..app },
                KeyCode::Char('j') => AppView {
                    cursor: cursor_down(app.cursor, app.options.len() as int),
                    ..app
                },
                KeyCode::Char('-') => AppView {
                    left_column_width: minus_floor(app.left_column_width, 1),
                    ..app
                },
                KeyCode::Char('+') => AppView {
                    left_column_width: plus_ceiling(app.left_column_width, 1),
                    ..app
                },
                KeyCode::Char(' ') => AppView { options: toggled(app.options, app.cursor), ..app },
                KeyCode::Enter => AppView { should_exit: Some(ExitAction::PrintSelected), ..app },
                _ => app,
            },
            Pane::ReleaseNotes => match key.code {
                KeyCode::Char('h') => AppView { focused_pane: Pane::Releases, ..app },
                KeyCode::Char('k') => AppView {
                    scroll: minus_floor(app.scroll, SCROLL_STEP_SIZE),
                    ..app
                },
                KeyCode::Char('j') => AppView {
                    scroll: plus_ceiling(app.scroll, SCROLL_STEP_SIZE),
                    ..app
                },
                _ => app,
            },
        }
    }
}

/// Whether a key event makes the session ask for the notes of the release in
/// focus anew: a press of a key that moves the cursor in the list of
/// releases, whether or not the cursor could move.
pub open spec fn spec_fetches_notes(app: AppView, key: KeyEvent) -> bool {
    key.kind == KeyEventKind::Press && !is_interrupt(key) && app.focused_pane == Pane::Releases && (
    key.code == KeyCode::Char('k') || key.code == KeyCode::Char('j'))
}

/// Whether `options` are those of a new session over `releases`: one per
/// release and in the same order, labelled with the release's name, none
/// selected.
pub open spec fn fresh_options(options: Seq<SelectOption<Release>>, releases: Seq<Release>) -> bool {
    &&& options.len() == releases.len()
    &&& forall|i: int|
        0 <= i < options.len() ==> {
            &&& (#[trigger] options[i]).value == releases[i]
            &&& options[i].label@ == release_label(releases[i]@)
            &&& !options[i].selected
        }
}

/// The session. It always holds at least one release, and its cursor
/// always points at one.
pub struct App {
    scroll: u16,
    focused_pane: Pane,
    multiselect: MultiSelect<Release>,
    pub should_exit: Option<ExitAction>,
    left_column_width: u16,
}

impl View for App {
    type V = AppView;

    closed spec fn view(&self) -> AppView {
        AppView {
            scroll: self.scroll,
            focused_pane: self.focused_pane,
            options: self.multiselect.spec_options(),
            cursor: self.multiselect.spec_cursor(),
            should_exit: self.should_exit,
            left_column_width: self.left_column_width,
        }
    }
}

impl App {
    #[verifier::type_invariant]
    spec fn wf(&self) -> bool {
        0 <= self.multiselect.spec_cursor() < self.multiselect.spec_options().len()
    }

    /// A session over `releases`: the list of releases in focus, the cursor
    /// on the first release, nothing selected, nothing scrolled. The notes
    /// of the first release are to be fetched at once.
    pub fn new(releases: &[Release]) -> (app: App)
        requires
            releases@.len() > 0,
        ensures
            fresh_options(app@.options, releases@),
            app@.cursor == 0,
            app@.scroll == 0,
            app@.focused_pane == Pane::Releases,
            app@.should_exit == None::<ExitAction>,
            app@.left_column_width == LEFT_COLUMN_WIDTH,
            selected_of(app@.options) == Seq::<Release>::empty(),
    {
        let mut options: Vec<SelectOption<Release>> = Vec::new();
        let mut i: usize = 0;
        while i < releases.len()
            invariant
                i <= releases@.len(),
                fresh_options(options@, releases@.take(i as int)),
            decreases releases@.len() - i,
        {
            let release = &releases[i];
            options.push(SelectOption::new(release.to_string(), release.clone()));
            i += 1;
        }
        assert(releases@.take(i as int) == releases@);
        proof {
            lemma_none_selected(options@);
        }
        App {
            scroll: 0,
            multiselect: MultiSelect::new(options),
            focused_pane: Pane::Releases,
            should_exit: None,
            left_column_width: LEFT_COLUMN_WIDTH,
        }
    }

    /// Takes a key event. Returns whether the notes of the release in focus
    /// are to be fetched anew.
    pub fn handle_key(&mut self, key: KeyEvent) -> (fetch: bool)
        ensures
            final(self)@ == spec_handle_key(old(self)@, key),
            fetch == spec_fetches_notes(old(self)@, key),
            0 <= final(self)@.cursor < final(self)@.options.len(),
    {
        proof {
            use_type_invariant(&*self);
        }
        match key.kind {
            KeyEventKind::Press => {},
            _ => { return false; },
        }
        if key.control {
            match key.code {
                KeyCode::Char('c') => {
                    self.should_exit = Some(ExitAction::Abort);
                    return false;
                },
                _ => {},
            }
        }
        match self.focused_pane {
            Pane::Releases => match key.code {
                KeyCode::Char('l') => {
                    self.focus_pane(Pane::ReleaseNotes);
                    false
                },
                KeyCode::Char('k') => {
                    self.multiselect.previous();
                    true
                },
                KeyCode::Char('j') => {
                    self.multiselect.next();
                    true
                },
                KeyCode::Char('-') => {
                    self.shrink_left_column();
                    false
                },
                KeyCode::Char('+') => {
                    self.expand_left_column();
                    false
                },
                KeyCode::Char(' ') => {
                    self.multiselect.toggle();
                    false
                },
                KeyCode::Enter => {
                    self.should_exit = Some(ExitAction::PrintSelected);
                    false
                },
                _ => false,
            },
            Pane::ReleaseNotes => match key.code {
                KeyCode::Char('h') => {
                    self.focus_pane(Pane::Releases);
                    false
                },
                KeyCode::Char('k') => {
                    self.scroll_up();
                    false
                },
                KeyCode::Char('j') => {
                    self.scroll_down();
                    false
                },
                _ => false,
            },
        }
    }

    /// The release in focus: the one whose notes are shown, and are to be
    /// fetched whenever the focus has moved.
    pub fn show_release_notes_of_focused_release(&self) -> (r: &Release)
        ensures
            0 <= self@.cursor < self@.options.len(),
            *r == self@.options[self@.cursor].value,
    {
        proof {
            use_type_invariant(self);
        }
        self.multiselect.focused_value()
    }

    /// Scrolls the notes up by one step, not past their start.
    pub fn scroll_up(&mut self)
        ensures
            final(self)@ == (AppView {
                scroll: minus_floor(old(self)@.scroll, SCROLL_STEP_SIZE),
                ..old(self)@
            }),
    {
        proof {
            use_type_invariant(&*self);
        }
        self.scroll = self.scroll.saturating_sub(SCROLL_STEP_SIZE);
    }

    /// Scrolls the notes down by one step.
    pub fn scroll_down(&mut self)
        ensures
            final(self)@ == (AppView {
                scroll: plus_ceiling(old(self)@.scroll, SCROLL_STEP_SIZE),
                ..old(self)@
            }),
    {
        proof {
            use_type_invariant(&*self);
        }
        self.scroll = self.scroll.saturating_add(SCROLL_STEP_SIZE);
    }

    /// Moves the focus to `pane`.
    pub fn focus_pane(&mut self, pane: Pane)
        ensures
            final(self)@ == (AppView { focused_pane: pane, ..old(self)@ }),
    {
        proof {
            use_type_invariant(&*self);
        }
        self.focused_pane = pane;
    }

    /// The selected releases, in the order of the list.
    pub fn get_selected_releases(&self) -> (r: Vec<&Release>)
        ensures
            r@.map_values(|v: &Release| *v) == selected_of(self@.options),
    {
        self.multiselect.selected_values()
    }

    /// Makes the list of releases one column narrower.
    pub fn shrink_left_column(&mut self)
        ensures
            final(self)@ == (AppView {
                left_column_width: minus_floor(old(self)@.left_column_width, 1),
                ..old(self)@
            }),
    {
        proof {
            use_type_invariant(&*self);
        }
        self.left_column_width = self.left_column_width.saturating_sub(1);
    }

    /// Makes the list of releases one column wider.
    pub fn expand_left_column(&mut self)
        ensures
            final(self)@ == (AppView {
                left_column_width: plus_ceiling(old(self)@.left_column_width, 1),
                ..old(self)@
            }),
    {
        proof {
            use_type_invariant(&*self);
        }
        self.left_column_width = self.left_column_width.saturating_add(1);
    }
    /// How far the notes are scrolled.
    pub fn scroll(&self) -> (r: u16)
        ensures
            r == self@.scroll,
    {
        self.scroll
    }

    /// The pane in focus.
    pub fn focused_pane(&self) -> (r: Pane)
        ensures
            r == self@.focused_pane,
    {
        self.focused_pane
    }

    /// The width of the list of releases.
    pub fn left_column_width(&self) -> (r: u16)
        ensures
            r == self@.left_column_width,
    {
        self.left_column_width
    }

    /// The list of releases with its cursor. It is never empty.
    pub fn multiselect(&self) -> (r: &MultiSelect<Release>)
        ensures
            r.spec_options() == self@.options,
            r.spec_cursor() == self@.cursor,
            0 <= r.spec_cursor() < r.spec_options().len(),
    {
        proof {
            use_type_invariant(self);
        }
        &self.multiselect
    }

    /// Whether the session has ended, and if so, whether the selection is to
    /// be printed.
    pub fn exit_intent(&self) -> (r: Option<bool>)
        ensures
            r == match self@.should_exit {
                Some(action) => Some(action == ExitAction::PrintSelected),
                None => None,
            },
    {
        match self.should_exit {
            Some(ExitAction::PrintSelected) => Some(true),
            Some(ExitAction::Abort) => Some(false),
            None => None,
        }
    }
}

/// The keys that the pane in focus knows, in words.
pub fn get_keys_hints(pane: &Pane) -> (r: &'static str)
    ensures
        r@ == match *pane {
            Pane::Releases =>
                "down: j | up: k | focus release notes: l | toggle: ␣ | confirm: ⏎ | abort: ctrl+c | +: grow | -: shrink"@,
            Pane::ReleaseNotes => "down: j | up: k | focus releases: h | abort: ctrl+c"@,
        },
{
    match pane {
        Pane::Releases =>
            "down: j | up: k | focus release notes: l | toggle: ␣ | confirm: ⏎ | abort: ctrl+c | +: grow | -: shrink",
        Pane::ReleaseNotes => "down: j | up: k | focus releases: h | abort: ctrl+c",
    }
}

/// What the notes pane shows for a status.
pub open spec fn spec_status_text(status: AsyncTaskStatus<String>) -> Seq<char> {
    match status {
        AsyncTaskStatus::Idle => "--- No release notes ---"@,
        AsyncTaskStatus::Loading => "--- Loading release notes... ---"@,
        AsyncTaskStatus::Loaded(notes) => notes@,
        AsyncTaskStatus::Error(error) => "--- Error: "@ + error@ + " ---"@,
    }
}

/// What the notes pane shows for a status.
pub fn status_text(status: &AsyncTaskStatus<String>) -> (r: String)
    ensures
        r@ == spec_status_text(*status),
{
    match status {
        AsyncTaskStatus::Idle => String::from_str("--- No release notes ---"),
        AsyncTaskStatus::Loading => String::from_str("--- Loading release notes... ---"),
        AsyncTaskStatus::Loaded(notes) => notes.clone(),
        AsyncTaskStatus::Error(error) => {
            let mut text = String::from_str("--- Error: ");
            text.append(error.as_str());
            text.append(" ---");
            text
        },
    }
}

/// The names of `releases`, with one blank between each two.
pub open spec fn spec_output_line(releases: Seq<ReleaseView>) -> Seq<char>
    decreases releases.len(),
{
    if releases.len() == 0 {
        Seq::empty()
    } else if releases.len() == 1 {
        release_label(releases[0])
    } else {
        spec_output_line(releases.drop_last()) + seq![' '] + release_label(releases.last())
    }
}

/// The line that a confirmed session prints: the names of the selected
/// releases, in the order of the list, with one blank between each two.
pub fn output_line(selected: &Vec<&Release>) -> (r: String)
    ensures
        r@ == spec_output_line(selected@.map_values(|v: &Release| (*v)@)),
{
    let ghost views = selected@.map_values(|v: &Release| (*v)@);
    let mut line = String::new();
    let mut i: usize = 0;
    assert(views.take(0) =~= Seq::<ReleaseView>::empty());
    while i < selected.len()
        invariant
            i <= selected.len(),
            views == selected@.map_values(|v: &Release| (*v)@),
            line@ == spec_output_line(views.take(i as int)),
        decreases selected.len() - i,
    {
        proof {
            assert(views.take(i + 1).drop_last() == views.take(i as int));
            assert(views.take(i + 1).last() == (*selected@[i as int])@);
            reveal_strlit(" ");
            assert(" "@ =~= seq![' ']);
        }
        if i > 0 {
            line.append(" ");
        }
        let name = selected[i].to_string();
        line.append(name.as_str());
        proof {
            if i == 0 {
                assert(views.take(1)[0] == (*selected@[0])@);
                assert(line@ =~= release_label(views.take(1)[0]));
            }
        }
        i += 1;
    }
    assert(views.take(i as int) == views);
    line
}

/// Toggling the option in focus twice leaves the session as it was.
pub proof fn lemma_toggle_twice_restores(app: AppView)
    requires
        0 <= app.cursor < app.options.len(),
        app.focused_pane == Pane::Releases,
    ensures
        ({
            let space = KeyEvent {
                code: KeyCode::Char(' '),
                control: false,
                kind: KeyEventKind::Press,
            };
            spec_handle_key(spec_handle_key(app, space), space) == app
        }),
{
    lemma_toggle_twice(app.options, app.cursor);
}

/// The cursor never leaves the list, whatever key comes: on the first
/// release a move up leaves it there, on the last a move down leaves it
/// there, and every other key leaves it where it is.
pub proof fn lemma_cursor_stays_in_list(app: AppView, key: KeyEvent)
    requires
        0 <= app.cursor < app.options.len(),
    ensures
        0 <= spec_handle_key(app, key).cursor < spec_handle_key(app, key).options.len(),
        spec_handle_key(app, key).options.len() == app.options.len(),
        app.cursor == 0 ==> cursor_up(app.cursor) == 0,
        app.cursor == app.options.len() - 1 ==> cursor_down(app.cursor, app.options.len() as int)
            == app.cursor,
{
}

/// No key changes which releases the list holds or what they are called:
/// only whether they are selected.
pub proof fn lemma_keys_keep_releases(app: AppView, key: KeyEvent, i: int)
    requires
        0 <= app.cursor < app.options.len(),
        0 <= i < app.options.len(),
    ensures
        spec_handle_key(app, key).options[i].value == app.options[i].value,
        spec_handle_key(app, key).options[i].label == app.options[i].label,
{
}

/// Events that are no presses change nothing and fetch nothing.
pub proof fn lemma_only_presses_count(app: AppView, key: KeyEvent)
    requires
        key.kind != KeyEventKind::Press,
    ensures
        spec_handle_key(app, key) == app,
        !spec_fetches_notes(app, key),
{
}

/// The interrupt key aborts the session from either pane, and touches
/// nothing else.
pub proof fn lemma_interrupt_aborts(app: AppView, key: KeyEvent)
    requires
        key.kind == KeyEventKind::Press,
        is_interrupt(key),
    ensures
        spec_handle_key(app, key) == (AppView { should_exit: Some(ExitAction::Abort), ..app }),
{
}

/// In a new session nothing is selected.
pub proof fn lemma_new_session_selects_nothing(
    options: Seq<SelectOption<Release>>,
    releases: Seq<Release>,
)
    requires
        fresh_options(options, releases),
    ensures
        selected_of(options) == Seq::<Release>::empty(),
{
    lemma_none_selected(options);
}

} // verus!
