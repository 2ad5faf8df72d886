use sam_toolkit::budget_app::{
    entry_problem, investment_problem, investment_problem_in_currency, noun, snapshot_problem, BudgetApp, Clock, EntryKind, Mode,
    Request, Row, SaveOutcome, Table, Target, EXPENSES_TAB, INVESTMENTS_TAB,
};
use sam_toolkit::tui::{Key, Mods};

fn row(id: &str, fields: &[&str]) -> Row {
    Row { id: id.to_string(), fields: fields.iter().map(|f| f.to_string()).collect() }
}

fn entry(id: &str, name: &str) -> Row {
    row(id, &[name, "Food", "12", "2026-07-01", ""])
}

fn investment(id: &str, name: &str) -> Row {
    row(id, &[name, "ETF", "CAD", "100", "110", "1", "2026-07-01 09:00"])
}

fn clock() -> Clock {
    Clock { today: "2026-07-04".to_string(), now: "2026-07-04 10:30".to_string() }
}

fn press(app: &mut BudgetApp, key: Key) -> Request {
    app.on_key(key, Mods::default(), &clock())
}

fn sample() -> BudgetApp {
    BudgetApp::new(
        vec![entry("e1", "Lunch"), entry("e2", "Rent")],
        vec![],
        vec![investment("i1", "TFSA")],
    )
}

fn strings(values: &[&str]) -> Vec<String> {
    values.iter().map(|v| v.to_string()).collect()
}

#[test]
fn tabs_cycle_and_number_keys_pick_one() {
    let mut app = sample();
    assert_eq!(app.tab, EXPENSES_TAB);
    assert_eq!(app.selected, vec![Some(0), None, Some(0)]);
    press(&mut app, Key::Tab);
    assert_eq!(app.tab, 1);
    press(&mut app, Key::Left);
    press(&mut app, Key::BackTab);
    assert_eq!(app.tab, INVESTMENTS_TAB);
    press(&mut app, Key::Char('1'));
    assert_eq!(app.tab, 0);
    assert!(matches!(press(&mut app, Key::Char('r')), Request::RefreshAll));
}

#[test]
fn selection_moves_within_the_rows() {
    let mut app = sample();
    press(&mut app, Key::Down);
    assert_eq!(app.selected[0], Some(1));
    press(&mut app, Key::Char('j'));
    assert_eq!(app.selected[0], Some(1));
    press(&mut app, Key::Up);
    press(&mut app, Key::Char('k'));
    assert_eq!(app.selected[0], Some(0));
    // The empty income tab has nothing to select.
    press(&mut app, Key::Char('2'));
    press(&mut app, Key::Down);
    assert_eq!(app.selected[1], None);
}

#[test]
fn add_form_starts_dated_today_and_saves_on_enter() {
    let mut app = sample();
    press(&mut app, Key::Char('a'));
    match &app.mode {
        Mode::Form(form) => {
            assert!(form.editing_id.is_none());
            assert_eq!(form.fields, strings(&["", "", "", "2026-07-04", ""]));
            assert_eq!((form.focus, form.cursor), (0, 0));
        }
        _ => panic!("no form"),
    }
    for c in "Tea".chars() {
        press(&mut app, Key::Char(c));
    }
    press(&mut app, Key::Backspace);
    press(&mut app, Key::Char('x'));
    press(&mut app, Key::Tab);
    press(&mut app, Key::Char('F'));
    let form = match press(&mut app, Key::Enter) {
        Request::Save(form) => form,
        _ => panic!("no save"),
    };
    assert!(matches!(app.mode, Mode::List));
    assert_eq!(form.fields[0], "Tex");
    assert_eq!(form.fields[1], "F");
    // The amount is missing, so the form is refused and comes back intact.
    let problem = entry_problem(EntryKind::Expense, &form.fields, false).unwrap();
    assert_eq!(problem, "Name, category, amount (≥ 0), and date are required.");
    assert!(matches!(app.saved(form, SaveOutcome::Refused(problem)), Request::Nothing));
    assert_eq!(app.status, Some(("Name, category, amount (≥ 0), and date are required.".to_string(), true)));
    match &app.mode {
        Mode::Form(form) => assert_eq!(form.fields[0], "Tex"),
        _ => panic!("form lost"),
    }
}

#[test]
fn saved_form_reports_and_refreshes_its_tab() {
    let mut app = sample();
    press(&mut app, Key::Enter);
    let form = match &app.mode {
        Mode::Form(form) => {
            assert_eq!(form.editing_id.as_deref(), Some("e1"));
            assert_eq!(form.cursor, 5);
            assert_eq!(form.fields[2], "12");
            form
        }
        _ => panic!("no form"),
    };
    assert!(matches!(form.target, Target::Entry(EntryKind::Expense)));
    let form = match press(&mut app, Key::Enter) {
        Request::Save(form) => form,
        _ => panic!("no save"),
    };
    match app.saved(form, SaveOutcome::Saved) {
        Request::Refresh(tab) => assert_eq!(tab, EXPENSES_TAB),
        _ => panic!("no refresh"),
    }
    assert_eq!(app.status, Some(("Updated expense.".to_string(), false)));
    app.refreshed(EXPENSES_TAB, Ok(vec![entry("e1", "Brunch")]));
    assert_eq!(app.lists[0].len(), 1);
    assert_eq!(app.selected[0], Some(0));
    // Any key dismisses the message.
    press(&mut app, Key::Char('x'));
    assert_eq!(app.status, None);
}

#[test]
fn refresh_failures_are_shown_and_success_is_announced() {
    let mut app = sample();
    app.refreshed(0, Ok(vec![]));
    assert_eq!(app.selected[0], None);
    app.refresh_finished();
    assert_eq!(app.status, Some(("Refreshed.".to_string(), false)));
    app.status = None;
    app.refreshed(2, Err("offline".to_string()));
    app.refresh_finished();
    assert_eq!(app.status, Some(("offline".to_string(), true)));
    assert_eq!(app.lists[2].len(), 1);
}

#[test]
fn deleting_asks_first() {
    let mut app = sample();
    press(&mut app, Key::Char('d'));
    assert_eq!(app.confirm_message(), "Delete this expense? (y/n)");
    assert_eq!(app.help_text(), "y delete · n/esc cancel");
    press(&mut app, Key::Char('n'));
    assert!(matches!(app.mode, Mode::List));
    press(&mut app, Key::Char('d'));
    match press(&mut app, Key::Char('y')) {
        Request::Delete { table, id } => {
            assert_eq!(table, Table::Expenses);
            assert_eq!(table.name(), "expenses");
            assert_eq!(id, "e1");
        }
        _ => panic!("no delete"),
    }
    assert!(matches!(app.deleted(Table::Expenses, Ok(())), Request::Refresh(0)));
    assert_eq!(app.status, Some(("Deleted expense.".to_string(), false)));
    assert!(matches!(app.deleted(Table::Expenses, Err("denied".to_string())), Request::Nothing));
    assert_eq!(app.status, Some(("denied".to_string(), true)));
}

#[test]
fn snapshot_history_opens_from_an_investment() {
    let mut app = sample();
    press(&mut app, Key::Char('3'));
    assert_eq!(
        app.help_text(),
        "↑/↓ select · a add · e/enter edit · d delete · s snapshots · tab switch · r refresh · q quit"
    );
    let (id, name) = match press(&mut app, Key::Char('s')) {
        Request::OpenSnapshots { investment_id, investment_name } => (investment_id, investment_name),
        _ => panic!("no snapshots"),
    };
    assert_eq!((id.as_str(), name.as_str()), ("i1", "TFSA"));
    app.show_snapshots(id, name, Ok(vec![row("s1", &["100", "105", "1", "2026-06-01 09:00"])]));
    let view = app.snapshots.as_ref().unwrap();
    assert_eq!(view.selected, Some(0));
    assert_eq!(app.confirm_message(), "Delete this snapshot? (y/n)");
    press(&mut app, Key::Char('a'));
    match &app.mode {
        Mode::Form(form) => {
            assert_eq!(form.fields, strings(&["", "", "1", "2026-07-04 10:30"]));
            assert!(matches!(&form.target, Target::Snapshot { investment_id } if investment_id == "i1"));
        }
        _ => panic!("no form"),
    }
    press(&mut app, Key::Esc);
    assert!(matches!(press(&mut app, Key::Char('r')), Request::RefreshSnapshots { .. }));
    app.snapshots_refreshed(Ok(vec![]));
    assert_eq!(app.snapshots.as_ref().unwrap().selected, None);
    press(&mut app, Key::Esc);
    assert!(app.snapshots.is_none());
}

#[test]
fn investment_add_form_pins_cad() {
    let mut app = sample();
    press(&mut app, Key::Char('3'));
    press(&mut app, Key::Char('a'));
    match &app.mode {
        Mode::Form(form) => {
            assert_eq!(form.fields, strings(&["", "", "CAD", "", "", "1", "2026-07-04 10:30"]));
        }
        _ => panic!("no form"),
    }
    press(&mut app, Key::Up);
    match &app.mode {
        Mode::Form(form) => assert_eq!((form.focus, form.cursor), (6, 16)),
        _ => panic!("no form"),
    }
}

#[test]
fn ctrl_c_quits_from_a_form() {
    let mut app = sample();
    press(&mut app, Key::Char('a'));
    app.on_key(Key::Char('c'), Mods { ctrl: true, shift: false, alt: false }, &clock());
    assert!(app.quit);
}

#[test]
fn expense_payload_requires_category() {
    let err = entry_problem(EntryKind::Expense, &strings(&["Lunch", "", "12", "2026-07-01", ""]), true).unwrap();
    assert!(err.contains("category"));
    assert!(entry_problem(EntryKind::Expense, &strings(&["Lunch", "Food", "12", "2026-07-01", ""]), true).is_none());
    // Income's source is optional.
    assert!(entry_problem(EntryKind::Income, &strings(&["Salary", "", "5000", "2026-07-01", " hi "]), true).is_none());
}

#[test]
fn invalid_date_is_rejected() {
    let err = entry_problem(EntryKind::Income, &strings(&["Salary", "", "1", "2026-13-40", ""]), true).unwrap();
    assert!(err.contains("YYYY-MM-DD"));
    assert!(entry_problem(EntryKind::Income, &strings(&["Salary", "", "1", "07/01/2026", ""]), true).is_some());
}

#[test]
fn investment_validation_errors() {
    let ok = ["A", "ETF", "CAD", "1", "1", "1", "2026-07-01 09:00"];
    let with = |i: usize, v: &str| {
        let mut fields = ok;
        fields[i] = v;
        strings(&fields)
    };
    assert_eq!(investment_problem(&with(0, " "), true, true, true, true).unwrap(), "Name is required.");
    assert_eq!(investment_problem(&with(1, ""), true, true, true, true).unwrap(), "Type is required.");
    assert_eq!(
        investment_problem(&with(2, "EUR"), true, true, true, true).unwrap(),
        "Currency must be CAD or USD."
    );
    assert!(investment_problem(&with(2, " cad "), true, true, false, true).is_none());
    assert_eq!(
        investment_problem(&with(2, "usd"), true, true, false, true).unwrap(),
        "Exchange rate must be > 0."
    );
    assert_eq!(investment_problem(&with(3, "-5"), false, true, true, true).unwrap(), "Total cost must be ≥ 0.");
    assert_eq!(
        investment_problem(&with(4, "x"), true, false, true, true).unwrap(),
        "Total market value must be ≥ 0."
    );
    assert_eq!(
        investment_problem(&with(6, "yesterday"), true, true, true, false).unwrap(),
        "Updated at must be a valid YYYY-MM-DD HH:MM."
    );
}

#[test]
fn snapshot_payload_checks_in_form_order() {
    assert_eq!(snapshot_problem(false, true, true, true).unwrap(), "Total cost must be ≥ 0.");
    assert_eq!(snapshot_problem(true, false, false, true).unwrap(), "Total market value must be ≥ 0.");
    assert_eq!(snapshot_problem(true, true, false, false).unwrap(), "Exchange rate must be > 0.");
    assert_eq!(
        snapshot_problem(true, true, true, false).unwrap(),
        "Recorded at must be a valid YYYY-MM-DD HH:MM."
    );
    assert!(snapshot_problem(true, true, true, true).is_none());
    assert_eq!(noun(INVESTMENTS_TAB), "investment");
}

#[test]
fn investment_saved_without_its_snapshot_says_so() {
    let mut app = sample();
    press(&mut app, Key::Char('3'));
    press(&mut app, Key::Char('e'));
    let form = match press(&mut app, Key::Enter) {
        Request::Save(form) => form,
        _ => panic!("no save"),
    };
    assert!(matches!(app.saved(form, SaveOutcome::SnapshotFailed("boom".to_string())), Request::Refresh(2)));
    assert_eq!(
        app.status,
        Some(("Updated investment, but snapshot failed: boom".to_string(), true))
    );
}

#[test]
fn currency_is_read_in_upper_case_before_it_is_checked() {
    let fields = strings(&["A", "ETF", "usd", "1", "1", "1", "2026-07-01 09:00"]);
    assert_eq!(
        investment_problem_in_currency(&fields, "usd", true, true, true, true).unwrap(),
        "Currency must be CAD or USD."
    );
    assert!(investment_problem_in_currency(&fields, "USD", true, true, true, true).is_none());
    assert_eq!(
        investment_problem_in_currency(&fields, "USD", true, true, false, true).unwrap(),
        "Exchange rate must be > 0."
    );
    assert!(investment_problem_in_currency(&fields, "CAD", true, true, false, true).is_none());
}
