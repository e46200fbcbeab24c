use bg_driver::input_chain::{ActionKind, Button, Chain, InputAction};

fn mv(x: i32, y: i32, ts: u64) -> InputAction {
    InputAction::new(ActionKind::MouseMove { x, y }, ts)
}

fn down(b: Button, ts: u64) -> InputAction {
    InputAction::new(ActionKind::Down(b), ts)
}

#[test]
fn record_sorts_by_ts() {
    let mut c = Chain::new();
    c.record(mv(10, 10, 100));
    c.record(mv(20, 20, 50)); // out of order
    assert_eq!(c.actions[0].ts_ms, 50);
    assert_eq!(c.actions[1].ts_ms, 100);
}

#[test]
fn duration_ms_handles_empty() {
    assert_eq!(Chain::new().duration_ms(), 0);
}

#[test]
fn duration_ms_first_to_last() {
    let mut c = Chain::new();
    c.record(mv(0, 0, 100));
    c.record(mv(10, 10, 500));
    assert_eq!(c.duration_ms(), 400);
}

#[test]
fn replay_yields_gaps() {
    let mut c = Chain::new();
    c.record(mv(0, 0, 0));
    c.record(mv(1, 1, 50));
    c.record(mv(2, 2, 200));
    let gaps: Vec<u64> = c.replay().into_iter().map(|(g, _)| g).collect();
    assert_eq!(gaps, vec![0, 50, 150]);
}

#[test]
fn compress_coalesces_bursts() {
    let mut c = Chain::new();
    // Three moves within 10ms of each other, then a fourth 100ms later.
    c.record(mv(0, 0, 0));
    c.record(mv(5, 5, 5));
    c.record(mv(10, 10, 8));
    c.record(mv(20, 20, 108));
    c.compress_mouse_moves(10);
    // Expected: 2 moves (coalesced first burst -> last, then 108ms one).
    let moves: Vec<_> = c
        .actions
        .iter()
        .filter(|a| matches!(a.kind, ActionKind::MouseMove { .. }))
        .collect();
    assert_eq!(moves.len(), 2);
    assert_eq!(moves[0].ts_ms, 8); // kept last of first burst
    assert_eq!(moves[1].ts_ms, 108);
}

#[test]
fn compress_preserves_non_moves() {
    let mut c = Chain::new();
    c.record(mv(0, 0, 0));
    c.record(down(Button::Left, 5));
    c.record(mv(10, 10, 10));
    c.compress_mouse_moves(100);
    assert_eq!(c.len(), 3);
    // Middle action still a Down.
    assert!(matches!(c.actions[1].kind, ActionKind::Down(_)));
}

#[test]
fn typed_text_concatenates() {
    let mut c = Chain::new();
    c.record(InputAction::new(ActionKind::TypeText("Hello, ".into()), 0));
    c.record(InputAction::new(ActionKind::TypeText("World!".into()), 100));
    assert_eq!(c.typed_text(), "Hello, World!");
}

#[test]
fn filter_returns_subset() {
    let mut c = Chain::new();
    c.record(mv(0, 0, 0));
    c.record(down(Button::Left, 10));
    let downs = c.filter(|a| matches!(a.kind, ActionKind::Down(_)));
    assert_eq!(downs.len(), 1);
}

#[test]
fn gap_after_prev_saturates() {
    let a = InputAction::new(ActionKind::Scroll { delta: 1 }, 100);
    assert_eq!(a.gap_after_prev(200), 0);
    assert_eq!(a.gap_after_prev(50), 50);
}

// ---- further cases ---------------------------------------------------------

#[test]
fn record_in_order_appends() {
    let mut c = Chain::new();
    c.record(mv(1, 1, 10));
    c.record(mv(2, 2, 10));
    c.record(mv(3, 3, 20));
    let xs: Vec<u64> = c.actions.iter().map(|a| a.ts_ms).collect();
    assert_eq!(xs, vec![10, 10, 20]);
    assert_eq!(c.actions[0].kind, ActionKind::MouseMove { x: 1, y: 1 });
    assert_eq!(c.actions[1].kind, ActionKind::MouseMove { x: 2, y: 2 });
}

#[test]
fn record_sort_is_stable() {
    let mut c = Chain::new();
    c.record(mv(1, 1, 30));
    c.record(mv(2, 2, 10));
    c.record(mv(3, 3, 30));
    c.record(mv(4, 4, 20));
    c.record(mv(5, 5, 10));
    let got: Vec<(u64, ActionKind)> = c.actions.iter().map(|a| (a.ts_ms, a.kind.clone())).collect();
    assert_eq!(
        got,
        vec![
            (10, ActionKind::MouseMove { x: 2, y: 2 }),
            (10, ActionKind::MouseMove { x: 5, y: 5 }),
            (20, ActionKind::MouseMove { x: 4, y: 4 }),
            (30, ActionKind::MouseMove { x: 1, y: 1 }),
            (30, ActionKind::MouseMove { x: 3, y: 3 }),
        ]
    );
}

#[test]
fn record_sorts_unsorted_field_contents() {
    // The field is public; a record that finds the last two out of order
    // sorts everything.
    let mut c = Chain { actions: vec![mv(0, 0, 50), mv(0, 0, 10), mv(0, 0, 40)] };
    c.record(mv(0, 0, 20));
    let xs: Vec<u64> = c.actions.iter().map(|a| a.ts_ms).collect();
    assert_eq!(xs, vec![10, 20, 40, 50]);
}

#[test]
fn replay_gaps_sum_to_duration() {
    let mut c = Chain::new();
    for (i, ts) in [3u64, 7, 7, 40, 41].iter().enumerate() {
        c.record(mv(i as i32, 0, *ts));
    }
    let total: u64 = c.replay().into_iter().map(|(g, _)| g).sum();
    assert_eq!(total, c.duration_ms());
    assert_eq!(total, 38);
}

#[test]
fn replay_yields_the_actions() {
    let mut c = Chain::new();
    c.record(mv(1, 2, 5));
    c.record(down(Button::Key(13), 9));
    let r = c.replay();
    assert_eq!(r.len(), 2);
    assert_eq!(r[1].0, 4);
    assert_eq!(r[1].1.kind, ActionKind::Down(Button::Key(13)));
}

#[test]
fn compress_is_idempotent_on_sorted_chain() {
    let mut c = Chain::new();
    for ts in [0u64, 4, 9, 30, 33, 34, 90] {
        c.record(mv(ts as i32, 0, ts));
    }
    c.record(down(Button::Right, 35));
    c.compress_mouse_moves(5);
    let once: Vec<u64> = c.actions.iter().map(|a| a.ts_ms).collect();
    c.compress_mouse_moves(5);
    let twice: Vec<u64> = c.actions.iter().map(|a| a.ts_ms).collect();
    assert_eq!(once, vec![9, 34, 35, 90]);
    assert_eq!(once, twice);
}

#[test]
fn compress_keeps_moves_separated_by_other_actions() {
    let mut c = Chain::new();
    c.record(mv(0, 0, 0));
    c.record(InputAction::new(ActionKind::Scroll { delta: -3 }, 1));
    c.record(mv(1, 1, 2));
    c.compress_mouse_moves(1000);
    assert_eq!(c.len(), 3);
}

#[test]
fn compress_of_empty_chain_is_empty() {
    let mut c = Chain::new();
    c.compress_mouse_moves(10);
    assert!(c.is_empty());
}

#[test]
fn typed_text_skips_other_actions() {
    let mut c = Chain::new();
    c.record(InputAction::new(ActionKind::TypeText("ab".into()), 0));
    c.record(down(Button::Middle, 1));
    c.record(InputAction::new(ActionKind::TypeText("c".into()), 2));
    assert_eq!(c.typed_text(), "abc");
    assert_eq!(Chain::new().typed_text(), "");
}

#[test]
fn filter_keeps_order_and_contents() {
    let mut c = Chain::new();
    c.record(mv(0, 0, 0));
    c.record(down(Button::Left, 10));
    c.record(mv(1, 1, 20));
    c.record(InputAction::new(ActionKind::Up(Button::Left), 30));
    let moves = c.filter(|a| matches!(a.kind, ActionKind::MouseMove { .. }));
    assert_eq!(moves.actions, vec![mv(0, 0, 0), mv(1, 1, 20)]);
    let none = c.filter(|_| false);
    assert!(none.is_empty());
}

#[test]
fn chain_default_and_clone() {
    let c = Chain::default();
    assert!(c.is_empty());
    let mut d = Chain::new();
    d.record(mv(3, 4, 5));
    let e = d.clone();
    assert_eq!(d, e);
}

#[test]
fn duration_ms_saturates_on_unsorted_field() {
    let c = Chain { actions: vec![mv(0, 0, 50), mv(0, 0, 10)] };
    assert_eq!(c.duration_ms(), 0);
}

#[test]
fn records_hold_every_action_sorted_and_stable() {
    let acts = [(5u64, 1), (1, 2), (5, 3), (3, 4), (1, 5), (9, 6)];
    let mut c = Chain::new();
    for (ts, x) in acts.iter() {
        c.record(mv(*x, 0, *ts));
    }
    assert_eq!(c.len(), acts.len());
    let got: Vec<(u64, ActionKind)> = c.actions.iter().map(|a| (a.ts_ms, a.kind.clone())).collect();
    let want: Vec<(u64, ActionKind)> = vec![(1, 2), (1, 5), (3, 4), (5, 1), (5, 3), (9, 6)]
        .into_iter()
        .map(|(ts, x)| (ts, ActionKind::MouseMove { x, y: 0 }))
        .collect();
    assert_eq!(got, want);
}

#[test]
fn filter_of_sorted_chain_is_sorted() {
    let mut c = Chain::new();
    for ts in [7u64, 2, 9, 4, 4, 1] {
        c.record(mv(ts as i32, 0, ts));
    }
    let f = c.filter(|a| a.ts_ms != 4);
    let xs: Vec<u64> = f.actions.iter().map(|a| a.ts_ms).collect();
    assert_eq!(xs, vec![1, 2, 7, 9]);
}
