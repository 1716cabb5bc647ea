use uuis::choices::{ChoiceSet, ClientRequest};
use uuis::codec::parse_client_request;
use uuis::picker::{diff_events, PickerState};
use uuis::types::{ArcStr, Choice, Event, Indices, Matcher};

fn choice(priority: i64, id: usize, text: &str) -> Choice {
    Choice { priority, id, text: ArcStr::new(String::from(text)) }
}

fn set_from(choices: Vec<Choice>, selected: Option<usize>) -> ChoiceSet {
    ChoiceSet::from_vec(choices, selected)
}

#[test]
fn selected_is_clamped_to_new_length() {
    let mut p = PickerState::new(Matcher::Off);
    p.set_choices(set_from(vec![choice(0, 1, "a"), choice(0, 2, "b")], Some(5)));
    assert_eq!(p.elems.selected, Some(1));
    // an in-range position is kept
    p.set_choices(set_from(vec![choice(0, 1, "a"), choice(0, 2, "b")], Some(0)));
    assert_eq!(p.elems.selected, Some(0));
}

#[test]
fn selected_is_cleared_on_empty_set() {
    let mut p = PickerState::new(Matcher::Off);
    p.set_choices(set_from(vec![], Some(3)));
    assert_eq!(p.elems.selected, None);
}

#[test]
fn fuzzy_sort_is_idempotent_for_same_input() {
    let mut a = set_from(
        vec![
            choice(0, 1, "apple pie"),
            choice(0, 2, "maple syrup"),
            choice(0, 3, "banana"),
            choice(0, 4, "pineapple"),
        ],
        None,
    );
    a.fuzzy_sort("apple");
    let once: Vec<(i64, usize)> = a.options.iter().map(|c| (c.priority, c.id)).collect();
    a.fuzzy_sort("apple");
    let twice: Vec<(i64, usize)> = a.options.iter().map(|c| (c.priority, c.id)).collect();
    assert_eq!(once, twice);
}

#[test]
fn fuzzy_sort_reorders_by_relevance() {
    let mut s = set_from(vec![choice(0, 1, "apple"), choice(0, 2, "banana")], None);
    s.fuzzy_sort("ban");
    // banana matches "ban", apple does not: banana first, apple pushed last
    assert_eq!(s.options[0].id, 2);
    assert!(s.options[0].priority < 0);
    assert_eq!(s.options[1].id, 1);
    assert_eq!(s.options[1].priority, i64::MAX);
}

#[test]
fn fuzzy_scenario_places_best_match_on_top_and_moves_cursor() {
    let mut p = PickerState::new(Matcher::Fuzzy);
    let line = b"{\"key\":\"set_choices\",\"data\":{\"options\":[{\"id\":1,\"text\":\"apple\"},{\"id\":2,\"text\":\"banana\"}]}}".to_vec();
    match parse_client_request(&line).unwrap() {
        ClientRequest::SetChoices(cs) => p.set_choices(cs),
        other => panic!("unexpected parse: {:?}", other),
    }
    let old_input = p.input.clone();
    let old_selected = p.elems.selected;
    p.set_input(String::from("app"));
    assert_eq!(p.elems.options[0].id, 1);
    assert_eq!(p.elems.options[1].id, 2);
    assert_eq!(p.elems.selected, Some(0));
    let events = diff_events(&old_input, old_selected, &p);
    assert_eq!(events.len(), 2);
    assert!(matches!(&events[0], Event::InputChange(t) if t == "app"));
    assert!(matches!(events[1], Event::CursorMove(0)));
}

#[test]
fn unchanged_input_under_fuzzy_keeps_options() {
    let mut p = PickerState::new(Matcher::Fuzzy);
    p.set_choices(set_from(vec![choice(0, 1, "alpha"), choice(0, 2, "beta")], None));
    let before: Vec<usize> = p.elems.options.iter().map(|c| c.id).collect();
    p.set_input(String::new());
    let after: Vec<usize> = p.elems.options.iter().map(|c| c.id).collect();
    assert_eq!(before, after);
}

#[test]
fn cursor_moves_wrap_and_stick() {
    let mut p = PickerState::new(Matcher::Off);
    p.set_choices(set_from(vec![choice(0, 1, "a"), choice(0, 2, "b"), choice(0, 3, "c")], None));
    p.move_down();
    assert_eq!(p.elems.selected, Some(0));
    p.move_down();
    p.move_down();
    assert_eq!(p.elems.selected, Some(2));
    p.move_down();
    assert_eq!(p.elems.selected, Some(2));
    p.move_up();
    assert_eq!(p.elems.selected, Some(1));
    p.move_up();
    p.move_up();
    assert_eq!(p.elems.selected, None);
    p.move_up();
    assert_eq!(p.elems.selected, Some(2));
}

#[test]
fn cursor_on_empty_set_stays_cleared() {
    let mut p = PickerState::new(Matcher::Off);
    p.move_down();
    assert_eq!(p.elems.selected, None);
    p.move_up();
    assert_eq!(p.elems.selected, None);
}

#[test]
fn confirm_reports_the_selected_id_or_nothing() {
    let mut p = PickerState::new(Matcher::Off);
    p.set_choices(set_from(vec![choice(0, 7, "a"), choice(0, 9, "b")], Some(1)));
    match p.confirm() {
        Some(Event::Select(Some(id))) => assert_eq!(id, 9),
        other => panic!("unexpected confirmation: {:?}", other),
    }
    let mut q = PickerState::new(Matcher::Off);
    match q.confirm() {
        Some(Event::Select(None)) => {},
        other => panic!("unexpected confirmation: {:?}", other),
    }
}

#[test]
fn diff_events_silent_without_changes() {
    let p = PickerState::new(Matcher::Off);
    let events = diff_events(&String::new(), None, &p);
    assert!(events.is_empty());
}

#[test]
fn indices_mark_only_the_selected_row() {
    assert!(Indices { current: 2, selected: Some(2) }.is_selected());
    assert!(!Indices { current: 1, selected: Some(2) }.is_selected());
    assert!(!Indices { current: 0, selected: None }.is_selected());
}

#[test]
fn rows_pair_each_choice_with_its_position() {
    let s = set_from(vec![choice(0, 1, "a"), choice(0, 2, "b"), choice(0, 3, "c")], Some(1));
    let rows = s.rows();
    assert_eq!(rows.len(), 3);
    for (i, (idx, c)) in rows.iter().enumerate() {
        assert_eq!(idx.current, i);
        assert_eq!(idx.selected, Some(1));
        assert_eq!(c.id, i + 1);
        assert_eq!(idx.is_selected(), i == 1);
    }
}

#[test]
fn choice_set_len_and_emptiness() {
    let s = set_from(vec![], None);
    assert_eq!(s.len(), 0);
    assert!(s.is_empty());
    let t = set_from(vec![choice(1, 1, "x")], None);
    assert_eq!(t.len(), 1);
    assert!(!t.is_empty());
}
