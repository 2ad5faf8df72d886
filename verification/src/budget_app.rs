//! The budget editor's interactive app, apart from its drawing and its
//! requests: three tabs (expenses, income and investments), one
//! investment's snapshot history, the add/edit form and the delete
//! confirmation, and how each key press moves them.
//!
//! Whatever needs the server (fetching rows, saving a form, deleting a row)
//! comes back from a key press as a [`Request`]; the caller makes it and
//! reports the outcome, which the app then shows. Rows hold the text each
//! form field starts with when the row is edited; the caller formats the
//! amounts and times.

use crate::editor::inserted;
use crate::text::{copy_strings, texts_of, trim, trimmed, with_char, without_char};
use crate::tui::{Key, Mods};
use vstd::prelude::*;

verus! {

broadcast use vstd::seq_lib::group_seq_properties;

/// The expenses tab.
pub const EXPENSES_TAB: usize = 0;

/// The income tab.
pub const INCOME_TAB: usize = 1;

/// The investments tab.
pub const INVESTMENTS_TAB: usize = 2;

/// How many tabs there are.
pub const TAB_COUNT: usize = 3;

/// Fields of an expense or income form: name, category or source, amount,
/// date and notes.
pub const ENTRY_FIELDS: usize = 5;

/// Fields of an investment form: name, type, currency, total cost, market
/// value, exchange rate and when it was updated.
pub const INVESTMENT_FIELDS: usize = 7;

/// Fields of a snapshot form: total cost, market value, exchange rate and
/// when it was recorded.
pub const SNAPSHOT_FIELDS: usize = 4;

/// Which of the two entry tables a row or form belongs to.
#[derive(Clone, Copy, PartialEq, Eq, Structural, Debug)]
pub enum EntryKind {
    Expense,
    Income,
}

/// A table on the server.
#[derive(Clone, Copy, PartialEq, Eq, Structural, Debug)]
pub enum Table {
    Expenses,
    Incomes,
    Investments,
    Snapshots,
}

/// A row as the app lists and edits it: its id, and the text each form
/// field starts with when it is edited.
pub struct Row {
    pub id: String,
    pub fields: Vec<String>,
}

/// A row as values.
#[verifier::ext_equal]
pub struct RowView {
    pub id: Seq<char>,
    pub fields: Seq<Seq<char>>,
}

/// A row as values.
pub open spec fn row_view(row: Row) -> RowView {
    RowView { id: row.id@, fields: texts_of(row.fields@) }
}

/// Rows as values.
pub open spec fn rows_view(rows: Seq<Row>) -> Seq<RowView> {
    rows.map_values(|row: Row| row_view(row))
}

/// What a form edits.
pub enum Target {
    Entry(EntryKind),
    Investment,
    Snapshot { investment_id: String },
}

/// What a form edits, as values.
#[verifier::ext_equal]
pub enum TargetView {
    Entry(EntryKind),
    Investment,
    Snapshot { investment_id: Seq<char> },
}

/// The add/edit form: the row it edits (none when it adds one), what it
/// edits, its field values, the focused field and the cursor in it.
pub struct Form {
    pub editing_id: Option<String>,
    pub target: Target,
    pub fields: Vec<String>,
    pub focus: usize,
    pub cursor: usize,
}

/// A form as values.
#[verifier::ext_equal]
pub struct FormView {
    pub editing_id: Option<Seq<char>>,
    pub target: TargetView,
    pub fields: Seq<Seq<char>>,
    pub focus: int,
    pub cursor: int,
}

/// What the app is doing.
pub enum Mode {
    List,
    Form(Form),
    ConfirmDelete { id: String },
}

/// What the app is doing, as values.
#[verifier::ext_equal]
pub enum ModeView {
    List,
    Form(FormView),
    ConfirmDelete(Seq<char>),
}

/// One investment's snapshot history, drilled into from the investments
/// tab.
pub struct SnapshotsView {
    pub investment_id: String,
    pub investment_name: String,
    pub rows: Vec<Row>,
    pub selected: Option<usize>,
}

/// A snapshot history as values.
#[verifier::ext_equal]
pub struct HistoryView {
    pub investment_id: Seq<char>,
    pub investment_name: Seq<char>,
    pub rows: Seq<RowView>,
    pub selected: Option<usize>,
}

/// The caller's local date (`YYYY-MM-DD`) and time (`YYYY-MM-DD HH:MM`),
/// which a new form starts with.
pub struct Clock {
    pub today: String,
    pub now: String,
}

/// What a key press asks of the caller.
pub enum Request {
    Nothing,
    /// Fetch every tab's rows again, report each with
    /// [`BudgetApp::refreshed`], then call [`BudgetApp::refresh_finished`].
    RefreshAll,
    /// Fetch one tab's rows again and report them with
    /// [`BudgetApp::refreshed`].
    Refresh(usize),
    /// Fetch an investment's snapshots and report them with
    /// [`BudgetApp::show_snapshots`].
    OpenSnapshots { investment_id: String, investment_name: String },
    /// Fetch the open history's snapshots again and report them with
    /// [`BudgetApp::snapshots_refreshed`].
    RefreshSnapshots { investment_id: String },
    /// Delete a row and report with [`BudgetApp::deleted`].
    Delete { table: Table, id: String },
    /// Validate and save a form and report with [`BudgetApp::saved`].
    Save(Form),
}

/// A request as values.
#[verifier::ext_equal]
pub enum RequestView {
    Nothing,
    RefreshAll,
    Refresh(int),
    OpenSnapshots(Seq<char>, Seq<char>),
    RefreshSnapshots(Seq<char>),
    Delete(Table, Seq<char>),
    Save(FormView),
}

/// How saving a form went.
pub enum SaveOutcome {
    /// Saved.
    Saved,
    /// An investment was saved, but the snapshot that goes with it was not.
    SnapshotFailed(String),
    /// Not saved: the form's problem, or the server's error.
    Refused(String),
}

/// The budget editor's state.
pub struct BudgetApp {
    pub tab: usize,
    /// Each tab's rows, newest first.
    pub lists: Vec<Vec<Row>>,
    /// Each tab's selected row.
    pub selected: Vec<Option<usize>>,
    pub snapshots: Option<SnapshotsView>,
    pub mode: Mode,
    /// A one-shot message for the status line, and whether it is an error.
    pub status: Option<(String, bool)>,
    pub quit: bool,
}

/// The app's state as values.
#[verifier::ext_equal]
pub struct BudgetModel {
    pub tab: int,
    pub lists: Seq<Seq<RowView>>,
    pub selected: Seq<Option<usize>>,
    pub snapshots: Option<HistoryView>,
    pub mode: ModeView,
    pub status: Option<(Seq<char>, bool)>,
    pub quit: bool,
}

pub open spec fn target_view(target: Target) -> TargetView {
    match target {
        Target::Entry(kind) => TargetView::Entry(kind),
        Target::Investment => TargetView::Investment,
        Target::Snapshot { investment_id } => TargetView::Snapshot { investment_id: investment_id@ },
    }
}

pub open spec fn opt_text(text: Option<String>) -> Option<Seq<char>> {
    match text {
        Some(t) => Some(t@),
        None => None,
    }
}

pub open spec fn form_view(form: Form) -> FormView {
    FormView {
        editing_id: opt_text(form.editing_id),
        target: target_view(form.target),
        fields: texts_of(form.fields@),
        focus: form.focus as int,
        cursor: form.cursor as int,
    }
}

pub open spec fn mode_view(mode: Mode) -> ModeView {
    match mode {
        Mode::List => ModeView::List,
        Mode::Form(form) => ModeView::Form(form_view(form)),
        Mode::ConfirmDelete { id } => ModeView::ConfirmDelete(id@),
    }
}

pub open spec fn history_view(view: SnapshotsView) -> HistoryView {
    HistoryView {
        investment_id: view.investment_id@,
        investment_name: view.investment_name@,
        rows: rows_view(view.rows@),
        selected: view.selected,
    }
}

pub open spec fn request_view(request: Request) -> RequestView {
    match request {
        Request::Nothing => RequestView::Nothing,
        Request::RefreshAll => RequestView::RefreshAll,
        Request::Refresh(tab) => RequestView::Refresh(tab as int),
        Request::OpenSnapshots { investment_id, investment_name } => RequestView::OpenSnapshots(
            investment_id@,
            investment_name@,
        ),
        Request::RefreshSnapshots { investment_id } => RequestView::RefreshSnapshots(investment_id@),
        Request::Delete { table, id } => RequestView::Delete(table, id@),
        Request::Save(form) => RequestView::Save(form_view(form)),
    }
}

impl View for BudgetApp {
    type V = BudgetModel;

    open spec fn view(&self) -> BudgetModel {
        BudgetModel {
            tab: self.tab as int,
            lists: self.lists@.map_values(|rows: Vec<Row>| rows_view(rows@)),
            selected: self.selected@,
            snapshots: match self.snapshots {
                Some(view) => Some(history_view(view)),
                None => None,
            },
            mode: mode_view(self.mode),
            status: match self.status {
                Some((text, error)) => Some((text@, error)),
                None => None,
            },
            quit: self.quit,
        }
    }
}

/// How many fields a form for `target` has.
pub open spec fn field_count(target: TargetView) -> int {
    match target {
        TargetView::Entry(_) => ENTRY_FIELDS as int,
        TargetView::Investment => INVESTMENT_FIELDS as int,
        TargetView::Snapshot { .. } => SNAPSHOT_FIELDS as int,
    }
}

/// How many fields the rows of tab `tab` carry.
pub open spec fn tab_fields(tab: int) -> int {
    if tab == INVESTMENTS_TAB {
        INVESTMENT_FIELDS as int
    } else {
        ENTRY_FIELDS as int
    }
}

/// A selection fits a list: a row of it, or none when it is empty.
pub open spec fn selection_ok(selected: Option<usize>, len: int) -> bool {
    match selected {
        Some(i) => i < len,
        None => len == 0,
    }
}

/// Every row carries `fields` fields.
pub open spec fn rows_ok(rows: Seq<RowView>, fields: int) -> bool {
    forall|i: int| 0 <= i < rows.len() ==> (#[trigger] rows[i]).fields.len() == fields
}

/// A form's fields are the ones its target has, and its focus and cursor
/// are within them.
pub open spec fn form_ok(form: FormView) -> bool {
    &&& form.fields.len() == field_count(form.target)
    &&& 0 <= form.focus < form.fields.len()
    &&& 0 <= form.cursor <= form.fields[form.focus].len()
}

/// The state every key press and every report keeps.
pub open spec fn app_ok(m: BudgetModel) -> bool {
    &&& 0 <= m.tab < TAB_COUNT
    &&& m.lists.len() == TAB_COUNT
    &&& m.selected.len() == TAB_COUNT
    &&& forall|t: int| 0 <= t < TAB_COUNT ==> selection_ok(#[trigger] m.selected[t], m.lists[t].len() as int)
    &&& forall|t: int| 0 <= t < TAB_COUNT ==> rows_ok(#[trigger] m.lists[t], tab_fields(t))
    &&& match m.snapshots {
        Some(view) => selection_ok(view.selected, view.rows.len() as int) && rows_ok(view.rows, SNAPSHOT_FIELDS as int),
        None => true,
    }
    &&& match m.mode {
        ModeView::Form(form) => form_ok(form),
        _ => true,
    }
}

/// A selection moved by `delta` within a list of `len` rows; unchanged when
/// the list is empty.
pub open spec fn stepped(selected: Option<usize>, len: int, delta: int) -> Option<usize> {
    if len == 0 {
        selected
    } else {
        let current = match selected {
            Some(i) => i as int,
            None => 0,
        };
        let next = current + delta;
        Some(
            (if next < 0 {
                0
            } else if next > len - 1 {
                len - 1
            } else {
                next
            }) as usize,
        )
    }
}

/// A selection kept within a list of `len` rows: none when it is empty,
/// else the row it was on, or the last.
pub open spec fn clamped(selected: Option<usize>, len: int) -> Option<usize> {
    if len > 0 {
        let current = match selected {
            Some(i) => i as int,
            None => 0,
        };
        Some((if current < len - 1 {
            current
        } else {
            len - 1
        }) as usize)
    } else {
        None
    }
}

/// The selected row of the tab in front.
pub open spec fn selected_row(m: BudgetModel) -> Option<int> {
    match m.selected[m.tab] {
        Some(i) => if i < m.lists[m.tab].len() {
            Some(i as int)
        } else {
            None
        },
        None => None,
    }
}

/// The selected row of the open snapshot history.
pub open spec fn selected_snapshot(view: HistoryView) -> Option<int> {
    match view.selected {
        Some(i) => if i < view.rows.len() {
            Some(i as int)
        } else {
            None
        },
        None => None,
    }
}

/// A form freshly opened: on its first field, the cursor at that field's
/// end when it edits a row and at its start when it adds one.
pub open spec fn opened_form(editing_id: Option<Seq<char>>, target: TargetView, fields: Seq<Seq<char>>) -> FormView {
    FormView {
        editing_id,
        target,
        fields,
        focus: 0,
        cursor: if editing_id is Some {
            fields[0].len() as int
        } else {
            0
        },
    }
}

/// The kind of entry the tab `tab` lists.
pub open spec fn entry_kind(tab: int) -> EntryKind {
    if tab == EXPENSES_TAB {
        EntryKind::Expense
    } else {
        EntryKind::Income
    }
}

/// What a form for a new row of the tab in front starts with: an entry
/// dated today, or an investment in CAD (its rate pinned to 1) updated now.
pub open spec fn add_form(m: BudgetModel, today: Seq<char>, now: Seq<char>) -> FormView {
    if m.tab == INVESTMENTS_TAB {
        opened_form(
            None,
            TargetView::Investment,
            seq![Seq::empty(), Seq::empty(), "CAD"@, Seq::empty(), Seq::empty(), "1"@, now],
        )
    } else {
        opened_form(
            None,
            TargetView::Entry(entry_kind(m.tab)),
            seq![Seq::empty(), Seq::empty(), Seq::empty(), today, Seq::empty()],
        )
    }
}

/// What a form editing row `i` of the tab in front starts with.
pub open spec fn edit_form(m: BudgetModel, i: int) -> FormView {
    let row = m.lists[m.tab][i];
    opened_form(
        Some(row.id),
        if m.tab == INVESTMENTS_TAB {
            TargetView::Investment
        } else {
            TargetView::Entry(entry_kind(m.tab))
        },
        row.fields,
    )
}

/// `m` with nothing asked of the caller.
pub open spec fn only(m: BudgetModel) -> (BudgetModel, RequestView) {
    (m, RequestView::Nothing)
}

/// A key on a tab's list: `q`/Esc quits; Tab/→ and BackTab/← cycle the
/// tabs and `1`-`3` pick one; ↑/`k` and ↓/`j` move the selection; `r`
/// refreshes every tab; `a` opens an add form, `e`/Enter an edit form on
/// the selected row, `d` asks to delete it, and `s` opens the selected
/// investment's snapshot history.
pub open spec fn list_key(m: BudgetModel, key: Key, today: Seq<char>, now: Seq<char>) -> (BudgetModel, RequestView) {
    let row = selected_row(m);
    if key == Key::Char('q') || key == Key::Esc {
        only(BudgetModel { quit: true, ..m })
    } else if key == Key::Tab || key == Key::Right {
        only(BudgetModel { tab: (m.tab + 1) % 3, ..m })
    } else if key == Key::BackTab || key == Key::Left {
        only(BudgetModel { tab: (m.tab + 2) % 3, ..m })
    } else if key == Key::Char('1') {
        only(BudgetModel { tab: 0, ..m })
    } else if key == Key::Char('2') {
        only(BudgetModel { tab: 1, ..m })
    } else if key == Key::Char('3') {
        only(BudgetModel { tab: 2, ..m })
    } else if key == Key::Up || key == Key::Char('k') {
        only(
            BudgetModel {
                selected: m.selected.update(m.tab, stepped(m.selected[m.tab], m.lists[m.tab].len() as int, -1)),
                ..m
            },
        )
    } else if key == Key::Down || key == Key::Char('j') {
        only(
            BudgetModel {
                selected: m.selected.update(m.tab, stepped(m.selected[m.tab], m.lists[m.tab].len() as int, 1)),
                ..m
            },
        )
    } else if key == Key::Char('r') {
        (m, RequestView::RefreshAll)
    } else if key == Key::Char('a') {
        only(BudgetModel { mode: ModeView::Form(add_form(m, today, now)), ..m })
    } else if key == Key::Char('e') || key == Key::Enter {
        match row {
            Some(i) => only(BudgetModel { mode: ModeView::Form(edit_form(m, i)), ..m }),
            None => only(m),
        }
    } else if key == Key::Char('d') {
        match row {
            Some(i) => only(BudgetModel { mode: ModeView::ConfirmDelete(m.lists[m.tab][i].id), ..m }),
            None => only(m),
        }
    } else if key == Key::Char('s') && m.tab == INVESTMENTS_TAB {
        match row {
            Some(i) => (
                m,
                RequestView::OpenSnapshots(m.lists[m.tab][i].id, m.lists[m.tab][i].fields[0]),
            ),
            None => only(m),
        }
    } else {
        only(m)
    }
}

/// A key in a snapshot history: Esc/`q` goes back to the investments;
/// ↑/`k` and ↓/`j` move the selection; `r` refreshes the history; `a`
/// opens a form for a new snapshot recorded now, `e`/Enter one editing the
/// selected snapshot, and `d` asks to delete it.
pub open spec fn history_key(m: BudgetModel, key: Key, now: Seq<char>) -> (BudgetModel, RequestView) {
    match m.snapshots {
        Some(view) => {
            let row = selected_snapshot(view);
            let target = TargetView::Snapshot { investment_id: view.investment_id };
            if key == Key::Esc || key == Key::Char('q') {
                only(BudgetModel { snapshots: None, ..m })
            } else if key == Key::Up || key == Key::Char('k') {
                only(
                    BudgetModel {
                        snapshots: Some(
                            HistoryView { selected: stepped(view.selected, view.rows.len() as int, -1), ..view },
                        ),
                        ..m
                    },
                )
            } else if key == Key::Down || key == Key::Char('j') {
                only(
                    BudgetModel {
                        snapshots: Some(
                            HistoryView { selected: stepped(view.selected, view.rows.len() as int, 1), ..view },
                        ),
                        ..m
                    },
                )
            } else if key == Key::Char('r') {
                (m, RequestView::RefreshSnapshots(view.investment_id))
            } else if key == Key::Char('a') {
                only(
                    BudgetModel {
                        mode: ModeView::Form(
                            opened_form(None, target, seq![Seq::empty(), Seq::empty(), "1"@, now]),
                        ),
                        ..m
                    },
                )
            } else if key == Key::Char('e') || key == Key::Enter {
                match row {
                    Some(i) => only(
                        BudgetModel {
                            mode: ModeView::Form(opened_form(Some(view.rows[i].id), target, view.rows[i].fields)),
                            ..m
                        },
                    ),
                    None => only(m),
                }
            } else if key == Key::Char('d') {
                match row {
                    Some(i) => only(BudgetModel { mode: ModeView::ConfirmDelete(view.rows[i].id), ..m }),
                    None => only(m),
                }
            } else {
                only(m)
            }
        },
        None => only(m),
    }
}

/// The form with field `focus` focused and the cursor at its end.
pub open spec fn refocused(form: FormView, focus: int) -> FormView {
    FormView { focus, cursor: form.fields[focus].len() as int, ..form }
}

/// A key in the form: Esc closes it, Enter hands it over to be saved,
/// Tab/↓ and BackTab/↑ cycle the fields, ←/→/Home/End move the cursor, and
/// Backspace and typed characters edit the focused field.
pub open spec fn form_key(m: BudgetModel, key: Key, mods: Mods) -> (BudgetModel, RequestView) {
    match m.mode {
        ModeView::Form(form) => {
            let n = form.fields.len() as int;
            let value = form.fields[form.focus];
            let edited = |f: FormView| BudgetModel { mode: ModeView::Form(f), ..m };
            if key == Key::Esc {
                only(BudgetModel { mode: ModeView::List, ..m })
            } else if key == Key::Enter {
                (BudgetModel { mode: ModeView::List, ..m }, RequestView::Save(form))
            } else if key == Key::Tab || key == Key::Down {
                only(edited(refocused(form, (form.focus + 1) % n)))
            } else if key == Key::BackTab || key == Key::Up {
                only(edited(refocused(form, (form.focus + n - 1) % n)))
            } else if key == Key::Left {
                only(edited(FormView { cursor: if form.cursor > 0 { form.cursor - 1 } else { 0 }, ..form }))
            } else if key == Key::Right {
                only(
                    edited(
                        FormView {
                            cursor: if form.cursor + 1 < value.len() {
                                form.cursor + 1
                            } else {
                                value.len() as int
                            },
                            ..form
                        },
                    ),
                )
            } else if key == Key::Home {
                only(edited(FormView { cursor: 0, ..form }))
            } else if key == Key::End {
                only(edited(FormView { cursor: value.len() as int, ..form }))
            } else if key == Key::Backspace && form.cursor > 0 {
                only(
                    edited(
                        FormView {
                            fields: form.fields.update(form.focus, value.remove(form.cursor - 1)),
                            cursor: form.cursor - 1,
                            ..form
                        },
                    ),
                )
            } else {
                match key {
                    Key::Char(c) => if !mods.ctrl {
                        only(
                            edited(
                                FormView {
                                    fields: form.fields.update(form.focus, inserted(value, form.cursor, c)),
                                    cursor: form.cursor + 1,
                                    ..form
                                },
                            ),
                        )
                    } else {
                        only(m)
                    },
                    _ => only(m),
                }
            }
        },
        _ => only(m),
    }
}

/// The table the confirmed deletion is from: the open history's snapshots,
/// else the tab in front's.
pub open spec fn delete_table(m: BudgetModel) -> Table {
    if m.snapshots is Some {
        Table::Snapshots
    } else if m.tab == EXPENSES_TAB {
        Table::Expenses
    } else if m.tab == INCOME_TAB {
        Table::Incomes
    } else {
        Table::Investments
    }
}

/// A key while asked to confirm a deletion: `y` deletes, `n`/Esc cancels.
pub open spec fn confirm_key(m: BudgetModel, key: Key) -> (BudgetModel, RequestView) {
    match m.mode {
        ModeView::ConfirmDelete(id) => if key == Key::Char('y') || key == Key::Char('Y') {
            (BudgetModel { mode: ModeView::List, ..m }, RequestView::Delete(delete_table(m), id))
        } else if key == Key::Char('n') || key == Key::Char('N') || key == Key::Esc {
            only(BudgetModel { mode: ModeView::List, ..m })
        } else {
            only(m)
        },
        _ => only(m),
    }
}

/// A key press: Ctrl+C quits from anywhere; any other key first dismisses
/// the status message, then goes to what is in front.
pub open spec fn key_step(m: BudgetModel, key: Key, mods: Mods, today: Seq<char>, now: Seq<char>) -> (
    BudgetModel,
    RequestView,
) {
    if key == Key::Char('c') && mods.ctrl {
        only(BudgetModel { quit: true, ..m })
    } else {
        let m0 = BudgetModel { status: None, ..m };
        match m0.mode {
            ModeView::List => if m0.snapshots is Some {
                history_key(m0, key, now)
            } else {
                list_key(m0, key, today, now)
            },
            ModeView::Form(_) => form_key(m0, key, mods),
            ModeView::ConfirmDelete(_) => confirm_key(m0, key),
        }
    }
}

/// A selection moved one row up or down within a list of `len` rows.
fn step_selection(selected: Option<usize>, len: usize, down: bool) -> (next: Option<usize>)
    ensures
        next == stepped(selected, len as int, if down { 1 } else { -1 }),
{
    if len == 0 {
        return selected;
    }
    let current = match selected {
        Some(i) => i,
        None => 0,
    };
    if down {
        if current >= len - 1 {
            Some(len - 1)
        } else {
            Some(current + 1)
        }
    } else if current == 0 {
        Some(0)
    } else if current - 1 > len - 1 {
        Some(len - 1)
    } else {
        Some(current - 1)
    }
}

/// A selection kept within a list of `len` rows.
fn clamp_selection(selected: Option<usize>, len: usize) -> (next: Option<usize>)
    ensures
        next == clamped(selected, len as int),
{
    if len == 0 {
        return None;
    }
    let current = match selected {
        Some(i) => i,
        None => 0,
    };
    if current < len - 1 {
        Some(current)
    } else {
        Some(len - 1)
    }
}

/// A form freshly opened on `fields`.
fn open_form(editing_id: Option<String>, target: Target, fields: Vec<String>) -> (form: Form)
    requires
        fields@.len() >= 1,
    ensures
        form_view(form) == opened_form(opt_text(editing_id), target_view(target), texts_of(fields@)),
{
    let cursor = match &editing_id {
        Some(_) => fields[0].as_str().unicode_len(),
        None => 0,
    };
    Form { editing_id, target, fields, focus: 0, cursor }
}

impl BudgetApp {
    /// The selected row of the tab in front.
    pub fn selected_index(&self) -> (index: Option<usize>)
        requires
            app_ok(self@),
        ensures
            match index {
                Some(i) => selected_row(self@) == Some(i as int),
                None => selected_row(self@) is None,
            },
    {
        match self.selected[self.tab] {
            Some(i) => if i < self.lists[self.tab].len() {
                Some(i)
            } else {
                None
            },
            None => None,
        }
    }

    /// A key on a tab's list.
    fn on_list_key(&mut self, key: Key, clock: &Clock) -> (request: Request)
        requires
            app_ok(old(self)@),
            old(self)@.mode == ModeView::List,
            old(self)@.snapshots is None,
        ensures
            final(self)@ == list_key(old(self)@, key, clock.today@, clock.now@).0,
            request_view(request) == list_key(old(self)@, key, clock.today@, clock.now@).1,
    {
        let ghost m = old(self)@;
        let tab = self.tab;
        let c = match key {
            Key::Esc => 'q',
            Key::Tab | Key::Right => {
                self.tab = (tab + 1) % 3;
                assert(self@ =~= list_key(m, key, clock.today@, clock.now@).0);
                return Request::Nothing;
            },
            Key::BackTab | Key::Left => {
                self.tab = (tab + 2) % 3;
                assert(self@ =~= list_key(m, key, clock.today@, clock.now@).0);
                return Request::Nothing;
            },
            Key::Up => 'k',
            Key::Down => 'j',
            Key::Enter => 'e',
            Key::Char(c) => c,
            _ => {
                assert(self@ =~= m);
                return Request::Nothing;
            },
        };
        let request = if c == 'q' {
            self.quit = true;
            Request::Nothing
        } else if c == '1' {
            self.tab = 0;
            Request::Nothing
        } else if c == '2' {
            self.tab = 1;
            Request::Nothing
        } else if c == '3' {
            self.tab = 2;
            Request::Nothing
        } else if c == 'k' || c == 'j' {
            let next = step_selection(self.selected[tab], self.lists[tab].len(), c == 'j');
            self.selected.set(tab, next);
            assert(self@.lists =~= m.lists);
            Request::Nothing
        } else if c == 'r' {
            Request::RefreshAll
        } else if c == 'a' {
            let mut fields: Vec<String> = Vec::new();
            let target = if tab == INVESTMENTS_TAB {
                fields.push(String::new());
                fields.push(String::new());
                fields.push(String::from_str("CAD"));
                fields.push(String::new());
                fields.push(String::new());
                fields.push(String::from_str("1"));
                fields.push(clock.now.clone());
                Target::Investment
            } else {
                fields.push(String::new());
                fields.push(String::new());
                fields.push(String::new());
                fields.push(clock.today.clone());
                fields.push(String::new());
                Target::Entry(if tab == EXPENSES_TAB {
                    EntryKind::Expense
                } else {
                    EntryKind::Income
                })
            };
            let ghost fv = texts_of(fields@);
            let form = open_form(None, target, fields);
            proof {
                if tab == INVESTMENTS_TAB {
                    assert(fv =~= seq![Seq::empty(), Seq::empty(), "CAD"@, Seq::empty(), Seq::empty(), "1"@, clock.now@]);
                } else {
                    assert(fv =~= seq![Seq::empty(), Seq::empty(), Seq::empty(), clock.today@, Seq::empty()]);
                }
            }
            self.mode = Mode::Form(form);
            Request::Nothing
        } else if c == 'e' {
            match self.selected_index() {
                Some(i) => {
                    let row = &self.lists[tab][i];
                    assert(row_view(*row) == m.lists[tab as int][i as int]);
                    let fields = copy_strings(&row.fields);
                    let target = if tab == INVESTMENTS_TAB {
                        Target::Investment
                    } else {
                        Target::Entry(if tab == EXPENSES_TAB {
                            EntryKind::Expense
                        } else {
                            EntryKind::Income
                        })
                    };
                    let form = open_form(Some(row.id.clone()), target, fields);
                    self.mode = Mode::Form(form);
                },
                None => {},
            }
            Request::Nothing
        } else if c == 'd' {
            match self.selected_index() {
                Some(i) => {
                    let id = self.lists[tab][i].id.clone();
                    self.mode = Mode::ConfirmDelete { id };
                },
                None => {},
            }
            Request::Nothing
        } else if c == 's' && tab == INVESTMENTS_TAB {
            match self.selected_index() {
                Some(i) => {
                    let row = &self.lists[tab][i];
                    assert(row_view(*row) == m.lists[tab as int][i as int]);
                    Request::OpenSnapshots {
                        investment_id: row.id.clone(),
                        investment_name: row.fields[0].clone(),
                    }
                },
                None => Request::Nothing,
            }
        } else {
            Request::Nothing
        };
        assert(self@ =~= list_key(m, key, clock.today@, clock.now@).0);
        request
    }
}

impl BudgetApp {
    /// A key in the open snapshot history.
    fn on_history_key(&mut self, key: Key, clock: &Clock) -> (request: Request)
        requires
            app_ok(old(self)@),
            old(self)@.mode == ModeView::List,
            old(self)@.snapshots is Some,
        ensures
            final(self)@ == history_key(old(self)@, key, clock.now@).0,
            request_view(request) == history_key(old(self)@, key, clock.now@).1,
    {
        let ghost m = old(self)@;
        let c = match key {
            Key::Esc => 'q',
            Key::Up => 'k',
            Key::Down => 'j',
            Key::Enter => 'e',
            Key::Char(c) => c,
            _ => {
                assert(self@ =~= m);
                return Request::Nothing;
            },
        };
        let mut taken: Option<SnapshotsView> = None;
        std::mem::swap(&mut taken, &mut self.snapshots);
        let mut view = match taken {
            Some(view) => view,
            None => {
                return Request::Nothing;
            },
        };
        let ghost v = history_view(view);
        let selected = match view.selected {
            Some(i) => if i < view.rows.len() {
                Some(i)
            } else {
                None
            },
            None => None,
        };
        let request = if c == 'q' {
            Request::Nothing
        } else if c == 'k' || c == 'j' {
            view.selected = step_selection(view.selected, view.rows.len(), c == 'j');
            assert(history_view(view) =~= HistoryView {
                selected: stepped(v.selected, v.rows.len() as int, if c == 'j' { 1 } else { -1 }),
                ..v
            });
            self.snapshots = Some(view);
            Request::Nothing
        } else if c == 'r' {
            let investment_id = view.investment_id.clone();
            self.snapshots = Some(view);
            Request::RefreshSnapshots { investment_id }
        } else if c == 'a' {
            let mut fields: Vec<String> = Vec::new();
            fields.push(String::new());
            fields.push(String::new());
            fields.push(String::from_str("1"));
            fields.push(clock.now.clone());
            assert(texts_of(fields@) =~= seq![Seq::empty(), Seq::empty(), "1"@, clock.now@]);
            let target = Target::Snapshot { investment_id: view.investment_id.clone() };
            self.mode = Mode::Form(open_form(None, target, fields));
            self.snapshots = Some(view);
            Request::Nothing
        } else if c == 'e' {
            match selected {
                Some(i) => {
                    let row = &view.rows[i];
                    assert(row_view(*row) == v.rows[i as int]);
                    let fields = copy_strings(&row.fields);
                    let target = Target::Snapshot { investment_id: view.investment_id.clone() };
                    self.mode = Mode::Form(open_form(Some(row.id.clone()), target, fields));
                },
                None => {},
            }
            self.snapshots = Some(view);
            Request::Nothing
        } else if c == 'd' {
            match selected {
                Some(i) => {
                    let id = view.rows[i].id.clone();
                    self.mode = Mode::ConfirmDelete { id };
                },
                None => {},
            }
            self.snapshots = Some(view);
            Request::Nothing
        } else {
            self.snapshots = Some(view);
            Request::Nothing
        };
        assert(self@ =~= history_key(m, key, clock.now@).0);
        request
    }

    /// A key in the form.
    fn on_form_key(&mut self, key: Key, mods: Mods) -> (request: Request)
        requires
            app_ok(old(self)@),
            old(self)@.mode is Form,
        ensures
            final(self)@ == form_key(old(self)@, key, mods).0,
            request_view(request) == form_key(old(self)@, key, mods).1,
    {
        let ghost m = old(self)@;
        let mut mode = Mode::List;
        std::mem::swap(&mut mode, &mut self.mode);
        let mut form = match mode {
            Mode::Form(form) => form,
            other => {
                self.mode = other;
                return Request::Nothing;
            },
        };
        let ghost f = form_view(form);
        let n = form.fields.len();
        let focus = form.focus;
        let len = form.fields[focus].as_str().unicode_len();
        match key {
            Key::Esc => {
                assert(self@ =~= form_key(m, key, mods).0);
                return Request::Nothing;
            },
            Key::Enter => {
                assert(self@ =~= form_key(m, key, mods).0);
                return Request::Save(form);
            },
            Key::Tab | Key::Down | Key::BackTab | Key::Up => {
                let next = match key {
                    Key::Tab | Key::Down => (focus + 1) % n,
                    _ => (focus + n - 1) % n,
                };
                form.focus = next;
                form.cursor = form.fields[next].as_str().unicode_len();
            },
            Key::Left => {
                form.cursor = if form.cursor > 0 {
                    form.cursor - 1
                } else {
                    0
                };
            },
            Key::Right => {
                form.cursor = if form.cursor < len {
                    form.cursor + 1
                } else {
                    len
                };
            },
            Key::Home => {
                form.cursor = 0;
            },
            Key::End => {
                form.cursor = len;
            },
            Key::Backspace => {
                if form.cursor > 0 {
                    let shorter = without_char(form.fields[focus].as_str(), form.cursor - 1);
                    form.fields.set(focus, shorter);
                    form.cursor = form.cursor - 1;
                }
            },
            Key::Char(c) => {
                if !mods.ctrl {
                    let longer = with_char(form.fields[focus].as_str(), form.cursor, c);
                    // The longer text's length is a `usize`, so the cursor
                    // after the new character is one too.
                    let _longer_len = longer.as_str().unicode_len();
                    form.fields.set(focus, longer);
                    form.cursor = form.cursor + 1;
                }
            },
            _ => {},
        }
        assert(texts_of(form.fields@) =~= form_view(form).fields);
        self.mode = Mode::Form(form);
        assert(self@ =~= form_key(m, key, mods).0);
        Request::Nothing
    }

    /// The table a confirmed deletion is from.
    fn delete_table_of(&self) -> (table: Table)
        ensures
            table == delete_table(self@),
    {
        if self.snapshots.is_some() {
            Table::Snapshots
        } else if self.tab == EXPENSES_TAB {
            Table::Expenses
        } else if self.tab == INCOME_TAB {
            Table::Incomes
        } else {
            Table::Investments
        }
    }

    /// A key while asked to confirm a deletion.
    fn on_confirm_key(&mut self, key: Key) -> (request: Request)
        requires
            old(self)@.mode is ConfirmDelete,
        ensures
            final(self)@ == confirm_key(old(self)@, key).0,
            request_view(request) == confirm_key(old(self)@, key).1,
    {
        let ghost m = old(self)@;
        let table = self.delete_table_of();
        let mut mode = Mode::List;
        std::mem::swap(&mut mode, &mut self.mode);
        let id = match mode {
            Mode::ConfirmDelete { id } => id,
            other => {
                self.mode = other;
                return Request::Nothing;
            },
        };
        let c = match key {
            Key::Esc => 'n',
            Key::Char(c) => c,
            _ => '\0',
        };
        if c == 'y' || c == 'Y' {
            assert(self@ =~= confirm_key(m, key).0);
            Request::Delete { table, id }
        } else if c == 'n' || c == 'N' {
            assert(self@ =~= confirm_key(m, key).0);
            Request::Nothing
        } else {
            self.mode = Mode::ConfirmDelete { id };
            assert(self@ =~= confirm_key(m, key).0);
            Request::Nothing
        }
    }

    /// A key press; what it asks of the caller comes back. `clock` is the
    /// caller's local date and time, which a new form starts with.
    pub fn on_key(&mut self, key: Key, mods: Mods, clock: &Clock) -> (request: Request)
        requires
            app_ok(old(self)@),
        ensures
            final(self)@ == key_step(old(self)@, key, mods, clock.today@, clock.now@).0,
            request_view(request) == key_step(old(self)@, key, mods, clock.today@, clock.now@).1,
            app_ok(final(self)@),
    {
        let ghost m = old(self)@;
        proof {
            lemma_key_step_ok(m, key, mods, clock.today@, clock.now@);
        }
        match key {
            Key::Char(c) => {
                if c == 'c' && mods.ctrl {
                    self.quit = true;
                    assert(self@ =~= key_step(m, key, mods, clock.today@, clock.now@).0);
                    return Request::Nothing;
                }
            },
            _ => {},
        }
        self.status = None;
        match self.mode {
            Mode::List => {
                if self.snapshots.is_some() {
                    self.on_history_key(key, clock)
                } else {
                    self.on_list_key(key, clock)
                }
            },
            Mode::Form(_) => self.on_form_key(key, mods),
            Mode::ConfirmDelete { .. } => self.on_confirm_key(key),
        }
    }
}

/// A key on a tab's list keeps the state well formed.
proof fn lemma_list_key_ok(m: BudgetModel, key: Key, today: Seq<char>, now: Seq<char>)
    requires
        app_ok(m),
        m.mode == ModeView::List,
    ensures
        app_ok(list_key(m, key, today, now).0),
{
    let next = list_key(m, key, today, now).0;
    assert forall|t: int| 0 <= t < TAB_COUNT implies selection_ok(#[trigger] next.selected[t], next.lists[t].len() as int) by {
        if t == m.tab {
            assert(selection_ok(m.selected[t], m.lists[t].len() as int));
        }
    }
    match selected_row(m) {
        Some(i) => {
            assert(m.lists[m.tab][i].fields.len() == tab_fields(m.tab));
        },
        None => {},
    }
}

/// A key in a snapshot history keeps the state well formed.
proof fn lemma_history_key_ok(m: BudgetModel, key: Key, now: Seq<char>)
    requires
        app_ok(m),
        m.mode == ModeView::List,
        m.snapshots is Some,
    ensures
        app_ok(history_key(m, key, now).0),
{
    let view = m.snapshots->Some_0;
    match selected_snapshot(view) {
        Some(i) => {
            assert(view.rows[i].fields.len() == SNAPSHOT_FIELDS);
        },
        None => {},
    }
}

/// A key in the form keeps the state well formed.
proof fn lemma_form_key_ok(m: BudgetModel, key: Key, mods: Mods)
    requires
        app_ok(m),
        m.mode is Form,
    ensures
        app_ok(form_key(m, key, mods).0),
{
    let form = m.mode->Form_0;
    let n = form.fields.len() as int;
    assert(0 <= (form.focus + 1) % n < n);
    assert(0 <= (form.focus + n - 1) % n < n);
    match form_key(m, key, mods).0.mode {
        ModeView::Form(f) => assert(form_ok(f)),
        _ => {},
    }
}

/// Every key press keeps the app's state well formed.
pub proof fn lemma_key_step_ok(m: BudgetModel, key: Key, mods: Mods, today: Seq<char>, now: Seq<char>)
    requires
        app_ok(m),
    ensures
        app_ok(key_step(m, key, mods, today, now).0),
{
    let m0 = BudgetModel { status: None, ..m };
    assert(app_ok(m0));
    match m0.mode {
        ModeView::List => if m0.snapshots is Some {
            lemma_history_key_ok(m0, key, now);
        } else {
            lemma_list_key_ok(m0, key, today, now);
        },
        ModeView::Form(_) => lemma_form_key_ok(m0, key, mods),
        ModeView::ConfirmDelete(_) => {},
    }
}

/// Fetched rows as values.
pub open spec fn fetched_view(fetched: Result<Vec<Row>, String>) -> Result<Seq<RowView>, Seq<char>> {
    match fetched {
        Ok(rows) => Ok(rows_view(rows@)),
        Err(e) => Err(e@),
    }
}

/// Tab `tab`'s rows fetched again: replaced, or the fetch's error shown;
/// either way its selection kept within them.
pub open spec fn after_refresh(m: BudgetModel, tab: int, fetched: Result<Seq<RowView>, Seq<char>>) -> BudgetModel {
    let m1 = match fetched {
        Ok(rows) => BudgetModel { lists: m.lists.update(tab, rows), ..m },
        Err(e) => BudgetModel { status: Some((e, true)), ..m },
    };
    BudgetModel { selected: m1.selected.update(tab, clamped(m1.selected[tab], m1.lists[tab].len() as int)), ..m1 }
}

/// Every tab fetched again: "Refreshed." unless a fetch failed.
pub open spec fn after_refresh_all(m: BudgetModel) -> BudgetModel {
    if m.status is None {
        BudgetModel { status: Some(("Refreshed."@, false)), ..m }
    } else {
        m
    }
}

/// An investment's snapshots fetched: its history opened on the first of
/// them, or the fetch's error shown.
pub open spec fn after_open_history(
    m: BudgetModel,
    investment_id: Seq<char>,
    investment_name: Seq<char>,
    fetched: Result<Seq<RowView>, Seq<char>>,
) -> BudgetModel {
    match fetched {
        Ok(rows) => BudgetModel {
            snapshots: Some(
                HistoryView {
                    investment_id,
                    investment_name,
                    rows,
                    selected: if rows.len() > 0 {
                        Some(0usize)
                    } else {
                        None
                    },
                },
            ),
            ..m
        },
        Err(e) => BudgetModel { status: Some((e, true)), ..m },
    }
}

/// The open history's snapshots fetched again: replaced, or the fetch's
/// error shown; either way its selection kept within them.
pub open spec fn after_history_refresh(m: BudgetModel, fetched: Result<Seq<RowView>, Seq<char>>) -> BudgetModel {
    match m.snapshots {
        Some(view) => {
            let rows = match fetched {
                Ok(rows) => rows,
                Err(_) => view.rows,
            };
            let status = match fetched {
                Ok(_) => m.status,
                Err(e) => Some((e, true)),
            };
            BudgetModel {
                snapshots: Some(HistoryView { rows, selected: clamped(view.selected, rows.len() as int), ..view }),
                status,
                ..m
            }
        },
        None => m,
    }
}

/// How a request went, as values.
pub open spec fn result_view(outcome: Result<(), String>) -> Result<(), Seq<char>> {
    match outcome {
        Ok(_) => Ok(()),
        Err(e) => Err(e@),
    }
}

/// What a row of `table` is called.
pub open spec fn table_noun(table: Table) -> Seq<char> {
    match table {
        Table::Expenses => "expense"@,
        Table::Incomes => "income"@,
        Table::Investments => "investment"@,
        Table::Snapshots => "snapshot"@,
    }
}

/// Fetching again what is in front: the open history, else the tab.
pub open spec fn refresh_front(m: BudgetModel) -> RequestView {
    match m.snapshots {
        Some(view) => RequestView::RefreshSnapshots(view.investment_id),
        None => RequestView::Refresh(m.tab),
    }
}

/// A deletion done: "Deleted …." and what is in front fetched again; or the
/// server's error shown.
pub open spec fn after_delete(m: BudgetModel, table: Table, outcome: Result<(), Seq<char>>) -> (BudgetModel, RequestView) {
    match outcome {
        Ok(_) => (
            BudgetModel { status: Some(("Deleted "@ + table_noun(table) + "."@, false)), ..m },
            refresh_front(m),
        ),
        Err(e) => only(BudgetModel { status: Some((e, true)), ..m }),
    }
}

/// What the row a form edits is called.
pub open spec fn form_noun(target: TargetView) -> Seq<char> {
    match target {
        TargetView::Entry(EntryKind::Expense) => "expense"@,
        TargetView::Entry(EntryKind::Income) => "income"@,
        TargetView::Investment => "investment"@,
        TargetView::Snapshot { .. } => "snapshot"@,
    }
}

/// "Updated" for a form that edited a row, "Added" for one that added one.
pub open spec fn save_verb(form: FormView) -> Seq<char> {
    if form.editing_id is Some {
        "Updated"@
    } else {
        "Added"@
    }
}

/// How saving went, as values.
pub enum OutcomeView {
    Saved,
    SnapshotFailed(Seq<char>),
    Refused(Seq<char>),
}

pub open spec fn outcome_view(outcome: SaveOutcome) -> OutcomeView {
    match outcome {
        SaveOutcome::Saved => OutcomeView::Saved,
        SaveOutcome::SnapshotFailed(e) => OutcomeView::SnapshotFailed(e@),
        SaveOutcome::Refused(e) => OutcomeView::Refused(e@),
    }
}

/// What is fetched again after a form is saved: its tab, or the open
/// history.
pub open spec fn refresh_after_save(m: BudgetModel, form: FormView) -> RequestView {
    match form.target {
        TargetView::Entry(_) => RequestView::Refresh(m.tab),
        TargetView::Investment => RequestView::Refresh(INVESTMENTS_TAB as int),
        TargetView::Snapshot { .. } => match m.snapshots {
            Some(view) => RequestView::RefreshSnapshots(view.investment_id),
            None => RequestView::Nothing,
        },
    }
}

/// A form's save reported: refused, the form open again with the reason
/// shown as an error; saved, "Added …." or "Updated …." and its rows fetched
/// again; an investment saved without its snapshot, that error shown and
/// the investments fetched again.
pub open spec fn after_save(m: BudgetModel, form: FormView, outcome: OutcomeView) -> (BudgetModel, RequestView) {
    match outcome {
        OutcomeView::Refused(e) => only(BudgetModel { status: Some((e, true)), mode: ModeView::Form(form), ..m }),
        OutcomeView::SnapshotFailed(e) => if form.target is Investment {
            (
                BudgetModel {
                    status: Some((save_verb(form) + " investment, but snapshot failed: "@ + e, true)),
                    ..m
                },
                RequestView::Refresh(INVESTMENTS_TAB as int),
            )
        } else {
            (
                BudgetModel { status: Some((save_verb(form) + " "@ + form_noun(form.target) + "."@, false)), ..m },
                refresh_after_save(m, form),
            )
        },
        OutcomeView::Saved => (
            BudgetModel { status: Some((save_verb(form) + " "@ + form_noun(form.target) + "."@, false)), ..m },
            refresh_after_save(m, form),
        ),
    }
}

/// What a row of `table` is called.
pub fn noun_of(table: Table) -> (noun: &'static str)
    ensures
        noun@ == table_noun(table),
{
    match table {
        Table::Expenses => "expense",
        Table::Incomes => "income",
        Table::Investments => "investment",
        Table::Snapshots => "snapshot",
    }
}

impl Table {
    /// The table's name on the server.
    pub fn name(self) -> (name: &'static str)
        ensures
            self == Table::Expenses ==> name@ == "expenses"@,
            self == Table::Incomes ==> name@ == "incomes"@,
            self == Table::Investments ==> name@ == "investments"@,
            self == Table::Snapshots ==> name@ == "investment_snapshots"@,
    {
        match self {
            Table::Expenses => "expenses",
            Table::Incomes => "incomes",
            Table::Investments => "investments",
            Table::Snapshots => "investment_snapshots",
        }
    }
}

impl BudgetApp {
    /// The app on the rows first fetched for each tab, on the expenses tab
    /// with each tab's first row selected.
    pub fn new(expenses: Vec<Row>, incomes: Vec<Row>, investments: Vec<Row>) -> (app: Self)
        requires
            rows_ok(rows_view(expenses@), ENTRY_FIELDS as int),
            rows_ok(rows_view(incomes@), ENTRY_FIELDS as int),
            rows_ok(rows_view(investments@), INVESTMENT_FIELDS as int),
        ensures
            app@.tab == EXPENSES_TAB,
            app@.lists == seq![rows_view(expenses@), rows_view(incomes@), rows_view(investments@)],
            app@.selected == seq![
                clamped(None, expenses@.len() as int),
                clamped(None, incomes@.len() as int),
                clamped(None, investments@.len() as int),
            ],
            app@.snapshots is None,
            app@.mode == ModeView::List,
            app@.status is None,
            !app@.quit,
            app_ok(app@),
    {
        let mut selected: Vec<Option<usize>> = Vec::new();
        selected.push(clamp_selection(None, expenses.len()));
        selected.push(clamp_selection(None, incomes.len()));
        selected.push(clamp_selection(None, investments.len()));
        let ghost views = seq![rows_view(expenses@), rows_view(incomes@), rows_view(investments@)];
        let mut lists: Vec<Vec<Row>> = Vec::new();
        lists.push(expenses);
        lists.push(incomes);
        lists.push(investments);
        let app = BudgetApp {
            tab: EXPENSES_TAB,
            lists,
            selected,
            snapshots: None,
            mode: Mode::List,
            status: None,
            quit: false,
        };
        assert(app@.lists =~= views);
        assert(app@.lists[0] == views[0]);
        assert(app@.lists[1] == views[1]);
        assert(app@.lists[2] == views[2]);
        app
    }

    /// Tab `tab`'s rows fetched again, or the error the fetch gave.
    pub fn refreshed(&mut self, tab: usize, fetched: Result<Vec<Row>, String>)
        requires
            app_ok(old(self)@),
            tab < TAB_COUNT,
            fetched matches Ok(rows) ==> rows_ok(rows_view(rows@), tab_fields(tab as int)),
        ensures
            final(self)@ == after_refresh(old(self)@, tab as int, fetched_view(fetched)),
            app_ok(final(self)@),
    {
        let ghost m = old(self)@;
        let ghost fv = fetched_view(fetched);
        match fetched {
            Ok(rows) => {
                self.lists.set(tab, rows);
            },
            Err(e) => {
                self.status = Some((e, true));
            },
        }
        let len = self.lists[tab].len();
        let next = clamp_selection(self.selected[tab], len);
        self.selected.set(tab, next);
        assert(self@ =~= after_refresh(m, tab as int, fv));
        assert forall|t: int| 0 <= t < TAB_COUNT implies rows_ok(#[trigger] self@.lists[t], tab_fields(t)) by {
            if t != tab {
                assert(self@.lists[t] == m.lists[t]);
            }
        }
    }

    /// Every tab fetched again: says so unless a fetch failed.
    pub fn refresh_finished(&mut self)
        ensures
            final(self)@ == after_refresh_all(old(self)@),
    {
        if self.status.is_none() {
            self.status = Some((String::from_str("Refreshed."), false));
        }
        assert(self@ =~= after_refresh_all(old(self)@));
    }

    /// An investment's snapshots fetched (or the error the fetch gave),
    /// asked for by [`Request::OpenSnapshots`].
    pub fn show_snapshots(&mut self, investment_id: String, investment_name: String, fetched: Result<Vec<Row>, String>)
        requires
            app_ok(old(self)@),
            fetched matches Ok(rows) ==> rows_ok(rows_view(rows@), SNAPSHOT_FIELDS as int),
        ensures
            final(self)@ == after_open_history(old(self)@, investment_id@, investment_name@, fetched_view(fetched)),
            app_ok(final(self)@),
    {
        let ghost m = old(self)@;
        let ghost fv = fetched_view(fetched);
        let ghost (id, name) = (investment_id@, investment_name@);
        match fetched {
            Ok(rows) => {
                let selected = if rows.len() > 0 {
                    Some(0)
                } else {
                    None
                };
                self.snapshots = Some(SnapshotsView { investment_id, investment_name, rows, selected });
            },
            Err(e) => {
                self.status = Some((e, true));
            },
        }
        assert(self@ =~= after_open_history(m, id, name, fv));
    }

    /// The open history's snapshots fetched again (or the error the fetch
    /// gave), asked for by [`Request::RefreshSnapshots`].
    pub fn snapshots_refreshed(&mut self, fetched: Result<Vec<Row>, String>)
        requires
            app_ok(old(self)@),
            fetched matches Ok(rows) ==> rows_ok(rows_view(rows@), SNAPSHOT_FIELDS as int),
        ensures
            final(self)@ == after_history_refresh(old(self)@, fetched_view(fetched)),
            app_ok(final(self)@),
    {
        let ghost m = old(self)@;
        let ghost fv = fetched_view(fetched);
        let mut taken: Option<SnapshotsView> = None;
        std::mem::swap(&mut taken, &mut self.snapshots);
        match taken {
            Some(mut view) => {
                match fetched {
                    Ok(rows) => {
                        view.rows = rows;
                    },
                    Err(e) => {
                        self.status = Some((e, true));
                    },
                }
                view.selected = clamp_selection(view.selected, view.rows.len());
                self.snapshots = Some(view);
            },
            None => {},
        }
        assert(self@ =~= after_history_refresh(m, fv));
    }

    /// A deletion asked for by [`Request::Delete`] done, or the server's
    /// error; what is in front is to be fetched again after a deletion.
    pub fn deleted(&mut self, table: Table, outcome: Result<(), String>) -> (request: Request)
        requires
            app_ok(old(self)@),
        ensures
            final(self)@ == after_delete(old(self)@, table, result_view(outcome)).0,
            request_view(request) == after_delete(old(self)@, table, result_view(outcome)).1,
            app_ok(final(self)@),
    {
        let ghost m = old(self)@;
        let ghost ov = result_view(outcome);
        match outcome {
            Ok(_) => {
                let mut text = String::from_str("Deleted ");
                text.append(noun_of(table));
                text.append(".");
                self.status = Some((text, false));
                assert(self@ =~= after_delete(m, table, ov).0);
                match &self.snapshots {
                    Some(view) => Request::RefreshSnapshots { investment_id: view.investment_id.clone() },
                    None => Request::Refresh(self.tab),
                }
            },
            Err(e) => {
                self.status = Some((e, true));
                assert(self@ =~= after_delete(m, table, ov).0);
                Request::Nothing
            },
        }
    }

    /// A form's save reported, asked for by [`Request::Save`].
    pub fn saved(&mut self, form: Form, outcome: SaveOutcome) -> (request: Request)
        requires
            app_ok(old(self)@),
            form_ok(form_view(form)),
        ensures
            final(self)@ == after_save(old(self)@, form_view(form), outcome_view(outcome)).0,
            request_view(request) == after_save(old(self)@, form_view(form), outcome_view(outcome)).1,
            app_ok(final(self)@),
    {
        let ghost m = old(self)@;
        let ghost fv = form_view(form);
        let ghost ov = outcome_view(outcome);
        let verb = match &form.editing_id {
            Some(_) => "Updated",
            None => "Added",
        };
        let noun = match &form.target {
            Target::Entry(EntryKind::Expense) => "expense",
            Target::Entry(EntryKind::Income) => "income",
            Target::Investment => "investment",
            Target::Snapshot { .. } => "snapshot",
        };
        let investment = match &form.target {
            Target::Investment => true,
            _ => false,
        };
        let refresh = match &form.target {
            Target::Entry(_) => Request::Refresh(self.tab),
            Target::Investment => Request::Refresh(INVESTMENTS_TAB),
            Target::Snapshot { .. } => match &self.snapshots {
                Some(view) => Request::RefreshSnapshots { investment_id: view.investment_id.clone() },
                None => Request::Nothing,
            },
        };
        match outcome {
            SaveOutcome::Refused(e) => {
                self.status = Some((e, true));
                self.mode = Mode::Form(form);
                assert(self@ =~= after_save(m, fv, ov).0);
                Request::Nothing
            },
            SaveOutcome::SnapshotFailed(e) if investment => {
                let mut text = String::from_str(verb);
                text.append(" investment, but snapshot failed: ");
                text.append(e.as_str());
                self.status = Some((text, true));
                assert(self@ =~= after_save(m, fv, ov).0);
                Request::Refresh(INVESTMENTS_TAB)
            },
            _ => {
                let mut text = String::from_str(verb);
                text.append(" ");
                text.append(noun);
                text.append(".");
                self.status = Some((text, false));
                assert(self@ =~= after_save(m, fv, ov).0);
                refresh
            },
        }
    }
}

/// The message a form that misses a required field gets.
pub open spec fn required_message(kind: EntryKind) -> Seq<char> {
    if kind == EntryKind::Expense {
        "Name, category, amount (\u{2265} 0), and date are required."@
    } else {
        "Name, amount (\u{2265} 0), and date are required."@
    }
}

/// What is wrong with an expense or income form, the web app's rules: a
/// name, an amount of at least 0 and a date are required, and so is a
/// category for an expense; the date must be a real `YYYY-MM-DD` date.
/// `amount_ok` says whether the amount field reads as a number of at least
/// 0.
pub open spec fn entry_problem_of(kind: EntryKind, fields: Seq<Seq<char>>, amount_ok: bool) -> Option<Seq<char>> {
    let name = trimmed(fields[0]);
    let group = trimmed(fields[1]);
    let date = trimmed(fields[3]);
    if name.len() == 0 || (kind == EntryKind::Expense && group.len() == 0) || date.len() == 0 || !amount_ok {
        Some(required_message(kind))
    } else if crate::in_canada::parsed_ymd(date) is None {
        Some("Date must be a valid YYYY-MM-DD."@)
    } else {
        None
    }
}

/// What is wrong with an expense or income form, if anything.
/// `amount_ok` says whether the amount field reads as a number of at least
/// 0, which the caller works out.
pub fn entry_problem(kind: EntryKind, fields: &Vec<String>, amount_ok: bool) -> (problem: Option<String>)
    requires
        fields@.len() == ENTRY_FIELDS,
    ensures
        opt_text(problem) == entry_problem_of(kind, texts_of(fields@), amount_ok),
{
    let ghost views = texts_of(fields@);
    assert(views[0] == fields@[0]@ && views[1] == fields@[1]@ && views[3] == fields@[3]@);
    let name = trim(fields[0].as_str());
    let group = trim(fields[1].as_str());
    let date = trim(fields[3].as_str());
    let expense = match kind {
        EntryKind::Expense => true,
        EntryKind::Income => false,
    };
    if name.as_str().unicode_len() == 0 || (expense && group.as_str().unicode_len() == 0)
        || date.as_str().unicode_len() == 0 || !amount_ok {
        if expense {
            return Some(String::from_str("Name, category, amount (\u{2265} 0), and date are required."));
        } else {
            return Some(String::from_str("Name, amount (\u{2265} 0), and date are required."));
        }
    }
    if crate::in_canada::parse_ymd(date.as_str()).is_none() {
        return Some(String::from_str("Date must be a valid YYYY-MM-DD."));
    }
    None
}

/// What is wrong with an investment form whose currency field reads
/// `currency` in upper case, the web app's rules: a name and a type are
/// required; the currency is CAD or USD; the cost and market value are at
/// least 0; a USD holding's exchange rate is above 0 (a CAD one's is pinned
/// to 1); the update time is a real local time. The caller works out each of
/// `cost_ok`, `market_ok`, `fx_ok` and `updated_ok`.
pub open spec fn investment_problem_in(
    fields: Seq<Seq<char>>,
    currency: Seq<char>,
    cost_ok: bool,
    market_ok: bool,
    fx_ok: bool,
    updated_ok: bool,
) -> Option<Seq<char>> {
    if trimmed(fields[0]).len() == 0 {
        Some("Name is required."@)
    } else if trimmed(fields[1]).len() == 0 {
        Some("Type is required."@)
    } else if currency != "CAD"@ && currency != "USD"@ {
        Some("Currency must be CAD or USD."@)
    } else if !cost_ok {
        Some("Total cost must be \u{2265} 0."@)
    } else if !market_ok {
        Some("Total market value must be \u{2265} 0."@)
    } else if currency != "CAD"@ && !fx_ok {
        Some("Exchange rate must be > 0."@)
    } else if !updated_ok {
        Some("Updated at must be a valid YYYY-MM-DD HH:MM."@)
    } else {
        None
    }
}

/// What is wrong with an investment form: its currency field, trimmed, is
/// read in upper case as `str::to_uppercase` gives it.
pub open spec fn investment_problem_of(
    fields: Seq<Seq<char>>,
    cost_ok: bool,
    market_ok: bool,
    fx_ok: bool,
    updated_ok: bool,
) -> Option<Seq<char>> {
    investment_problem_in(fields, crate::tui::uppercase_of(trimmed(fields[2])), cost_ok, market_ok, fx_ok, updated_ok)
}

/// What is wrong with an investment form whose currency field reads
/// `currency` in upper case, if anything.
pub fn investment_problem_in_currency(
    fields: &Vec<String>,
    currency: &str,
    cost_ok: bool,
    market_ok: bool,
    fx_ok: bool,
    updated_ok: bool,
) -> (problem: Option<String>)
    requires
        fields@.len() == INVESTMENT_FIELDS,
    ensures
        opt_text(problem) == investment_problem_in(texts_of(fields@), currency@, cost_ok, market_ok, fx_ok, updated_ok),
{
    let ghost views = texts_of(fields@);
    assert(views[0] == fields@[0]@ && views[1] == fields@[1]@);
    let name = trim(fields[0].as_str());
    if name.as_str().unicode_len() == 0 {
        return Some(String::from_str("Name is required."));
    }
    let kind = trim(fields[1].as_str());
    if kind.as_str().unicode_len() == 0 {
        return Some(String::from_str("Type is required."));
    }
    let cad = crate::text::same_text(currency, "CAD");
    let usd = crate::text::same_text(currency, "USD");
    if !cad && !usd {
        return Some(String::from_str("Currency must be CAD or USD."));
    }
    if !cost_ok {
        return Some(String::from_str("Total cost must be \u{2265} 0."));
    }
    if !market_ok {
        return Some(String::from_str("Total market value must be \u{2265} 0."));
    }
    if !cad && !fx_ok {
        return Some(String::from_str("Exchange rate must be > 0."));
    }
    if !updated_ok {
        return Some(String::from_str("Updated at must be a valid YYYY-MM-DD HH:MM."));
    }
    None
}

/// What is wrong with an investment form, if anything.
pub fn investment_problem(fields: &Vec<String>, cost_ok: bool, market_ok: bool, fx_ok: bool, updated_ok: bool) -> (problem:
    Option<String>)
    requires
        fields@.len() == INVESTMENT_FIELDS,
    ensures
        opt_text(problem) == investment_problem_of(texts_of(fields@), cost_ok, market_ok, fx_ok, updated_ok),
{
    let ghost views = texts_of(fields@);
    assert(views[2] == fields@[2]@);
    let currency = crate::tui::uppercased(trim(fields[2].as_str()).as_str());
    investment_problem_in_currency(fields, currency.as_str(), cost_ok, market_ok, fx_ok, updated_ok)
}

/// What is wrong with a snapshot form, the web app's rules: the cost and
/// market value are at least 0, the exchange rate above 0, and the time it
/// was recorded a real local time. The caller works out each check.
pub open spec fn snapshot_problem_of(cost_ok: bool, market_ok: bool, fx_ok: bool, recorded_ok: bool) -> Option<Seq<char>> {
    if !cost_ok {
        Some("Total cost must be \u{2265} 0."@)
    } else if !market_ok {
        Some("Total market value must be \u{2265} 0."@)
    } else if !fx_ok {
        Some("Exchange rate must be > 0."@)
    } else if !recorded_ok {
        Some("Recorded at must be a valid YYYY-MM-DD HH:MM."@)
    } else {
        None
    }
}

/// What is wrong with a snapshot form, if anything: the first check that
/// fails, in the form's order.
pub fn snapshot_problem(cost_ok: bool, market_ok: bool, fx_ok: bool, recorded_ok: bool) -> (problem: Option<String>)
    ensures
        opt_text(problem) == snapshot_problem_of(cost_ok, market_ok, fx_ok, recorded_ok),
{
    if !cost_ok {
        Some(String::from_str("Total cost must be \u{2265} 0."))
    } else if !market_ok {
        Some(String::from_str("Total market value must be \u{2265} 0."))
    } else if !fx_ok {
        Some(String::from_str("Exchange rate must be > 0."))
    } else if !recorded_ok {
        Some(String::from_str("Recorded at must be a valid YYYY-MM-DD HH:MM."))
    } else {
        None
    }
}

/// What a row of tab `tab` is called.
pub fn noun(tab: usize) -> (noun: &'static str)
    requires
        tab < TAB_COUNT,
    ensures
        tab == EXPENSES_TAB ==> noun@ == "expense"@,
        tab == INCOME_TAB ==> noun@ == "income"@,
        tab == INVESTMENTS_TAB ==> noun@ == "investment"@,
{
    if tab == INVESTMENTS_TAB {
        "investment"
    } else if tab == EXPENSES_TAB {
        "expense"
    } else {
        "income"
    }
}

/// The key help under the table, for what is in front.
pub open spec fn help_of(m: BudgetModel) -> Seq<char> {
    match m.mode {
        ModeView::List => if m.snapshots is Some {
            "\u{2191}/\u{2193} select \u{b7} a add \u{b7} e/enter edit \u{b7} d delete \u{b7} r refresh \u{b7} esc back"@
        } else if m.tab == INVESTMENTS_TAB {
            "\u{2191}/\u{2193} select \u{b7} a add \u{b7} e/enter edit \u{b7} d delete \u{b7} s snapshots \u{b7} tab switch \u{b7} r refresh \u{b7} q quit"@
        } else {
            "\u{2191}/\u{2193} select \u{b7} a add \u{b7} e/enter edit \u{b7} d delete \u{b7} tab switch \u{b7} r refresh \u{b7} q quit"@
        },
        ModeView::Form(_) => "enter save \u{b7} esc cancel \u{b7} tab/\u{2191}/\u{2193} field \u{b7} \u{2190}/\u{2192} move cursor"@,
        ModeView::ConfirmDelete(_) => "y delete \u{b7} n/esc cancel"@,
    }
}

/// The question the delete confirmation asks: an investment's goes with its
/// snapshots, so it says so.
pub open spec fn confirm_question(m: BudgetModel) -> Seq<char> {
    if m.snapshots is Some {
        "Delete this snapshot? (y/n)"@
    } else if m.tab == INVESTMENTS_TAB {
        "Delete this investment and all its snapshots? (y/n)"@
    } else if m.tab == EXPENSES_TAB {
        "Delete this expense? (y/n)"@
    } else {
        "Delete this income? (y/n)"@
    }
}

impl BudgetApp {
    /// The key help under the table.
    pub fn help_text(&self) -> (text: &'static str)
        ensures
            text@ == help_of(self@),
    {
        match self.mode {
            Mode::List => if self.snapshots.is_some() {
                "\u{2191}/\u{2193} select \u{b7} a add \u{b7} e/enter edit \u{b7} d delete \u{b7} r refresh \u{b7} esc back"
            } else if self.tab == INVESTMENTS_TAB {
                "\u{2191}/\u{2193} select \u{b7} a add \u{b7} e/enter edit \u{b7} d delete \u{b7} s snapshots \u{b7} tab switch \u{b7} r refresh \u{b7} q quit"
            } else {
                "\u{2191}/\u{2193} select \u{b7} a add \u{b7} e/enter edit \u{b7} d delete \u{b7} tab switch \u{b7} r refresh \u{b7} q quit"
            },
            Mode::Form(_) => "enter save \u{b7} esc cancel \u{b7} tab/\u{2191}/\u{2193} field \u{b7} \u{2190}/\u{2192} move cursor",
            Mode::ConfirmDelete { .. } => "y delete \u{b7} n/esc cancel",
        }
    }

    /// The question the delete confirmation asks.
    pub fn confirm_message(&self) -> (message: String)
        requires
            app_ok(self@),
        ensures
            message@ == confirm_question(self@),
    {
        if self.snapshots.is_some() {
            String::from_str("Delete this snapshot? (y/n)")
        } else if self.tab == INVESTMENTS_TAB {
            String::from_str("Delete this investment and all its snapshots? (y/n)")
        } else {
            let mut message = String::from_str("Delete this ");
            message.append(noun(self.tab));
            message.append("? (y/n)");
            proof {
                reveal_strlit("Delete this ");
                reveal_strlit("? (y/n)");
                reveal_strlit("expense");
                reveal_strlit("income");
                reveal_strlit("Delete this expense? (y/n)");
                reveal_strlit("Delete this income? (y/n)");
            }
            assert(message@ =~= confirm_question(self@));
            message
        }
    }
}

/// Ctrl+C quits from wherever the app is.
pub proof fn lemma_ctrl_c_quits(m: BudgetModel, mods: Mods, today: Seq<char>, now: Seq<char>)
    requires
        mods.ctrl,
    ensures
        key_step(m, Key::Char('c'), mods, today, now).0.quit,
        key_step(m, Key::Char('c'), mods, today, now).1 == RequestView::Nothing,
{
}

/// Status messages are one-shot: any key press but Ctrl+C dismisses the
/// one shown.
pub proof fn lemma_keys_dismiss_status(m: BudgetModel, key: Key, mods: Mods, today: Seq<char>, now: Seq<char>)
    requires
        !(key == Key::Char('c') && mods.ctrl),
    ensures
        key_step(m, key, mods, today, now).0.status is None,
{
}

/// On a tab's list, Tab and then BackTab come back to the same tab.
pub proof fn lemma_back_tab_undoes_tab(m: BudgetModel, mods: Mods, today: Seq<char>, now: Seq<char>)
    requires
        app_ok(m),
        m.mode == ModeView::List,
        m.snapshots is None,
    ensures
        key_step(key_step(m, Key::Tab, mods, today, now).0, Key::BackTab, mods, today, now).0.tab == m.tab,
{
}

/// Nothing is deleted without a confirmation: a key press asks for a
/// deletion only when the app was asking to confirm one, and the key was
/// `y`.
pub proof fn lemma_delete_needs_confirmation(m: BudgetModel, key: Key, mods: Mods, today: Seq<char>, now: Seq<char>)
    ensures
        key_step(m, key, mods, today, now).1 is Delete ==> m.mode is ConfirmDelete && (key == Key::Char('y')
            || key == Key::Char('Y')),
{
}

/// A form is handed over to be saved only by Enter in that form, and the
/// app goes back to the list while it is saved.
pub proof fn lemma_save_needs_enter(m: BudgetModel, key: Key, mods: Mods, today: Seq<char>, now: Seq<char>)
    ensures
        key_step(m, key, mods, today, now).1 is Save ==> ({
            &&& m.mode is Form
            &&& key == Key::Enter
            &&& key_step(m, key, mods, today, now).1 == RequestView::Save(m.mode->Form_0)
            &&& key_step(m, key, mods, today, now).0.mode == ModeView::List
        }),
{
}

/// A refused save loses nothing: the form comes back exactly as it was
/// handed over, with the reason shown as an error.
pub proof fn lemma_refused_form_stays(m: BudgetModel, form: FormView, reason: Seq<char>)
    ensures
        after_save(m, form, OutcomeView::Refused(reason)).0.mode == ModeView::Form(form),
        after_save(m, form, OutcomeView::Refused(reason)).0.status == Some((reason, true)),
        after_save(m, form, OutcomeView::Refused(reason)).0.lists == m.lists,
{
}

} // verus!
