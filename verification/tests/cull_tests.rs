use photo_editor::cull::{
    apply_marks, bump_rating, click_star, has_cull_mark, read_keys, step_selection, toggle_flag,
    CullAction, CullInput, CullKey, Flag, KeyEvent,
};

fn key(k: CullKey) -> KeyEvent {
    KeyEvent { keys: vec![k], command: false, shift: false, repeat: false }
}

#[test]
fn clicking_the_current_star_steps_down() {
    assert_eq!(click_star(3, 3), 2);
    assert_eq!(click_star(3, 4), 4);
    assert_eq!(click_star(1, 1), 0);
    assert_eq!(click_star(0, 5), 5);
}

#[test]
fn flags_toggle() {
    assert_eq!(toggle_flag(Flag::Pick, Flag::Pick), Flag::Unflagged);
    assert_eq!(toggle_flag(Flag::Unflagged, Flag::Pick), Flag::Pick);
    assert_eq!(toggle_flag(Flag::Reject, Flag::Pick), Flag::Pick);
    assert_eq!(toggle_flag(Flag::Pick, Flag::Unflagged), Flag::Unflagged);
    // Pressing the same flag twice gives back the starting flag.
    let once = toggle_flag(Flag::Unflagged, Flag::Reject);
    assert_eq!(toggle_flag(once, Flag::Reject), Flag::Unflagged);
}

#[test]
fn defaults() {
    assert_eq!(Flag::default(), Flag::Unflagged);
    let a = CullAction::default();
    assert!(!a.changed);
    assert_eq!(a.step, 0);
}

#[test]
fn badges_need_a_rating_or_a_flag() {
    assert!(!has_cull_mark(0, Flag::Unflagged));
    assert!(has_cull_mark(1, Flag::Unflagged));
    assert!(has_cull_mark(0, Flag::Reject));
}

#[test]
fn nudging_stays_within_zero_to_five() {
    assert_eq!(bump_rating(5, 1), 5);
    assert_eq!(bump_rating(0, -1), 0);
    assert_eq!(bump_rating(3, 1), 4);
    assert_eq!(bump_rating(3, -1), 2);
}

#[test]
fn stepping_stops_at_either_end() {
    assert_eq!(step_selection(0, -1, 5), 0);
    assert_eq!(step_selection(4, 1, 5), 4);
    assert_eq!(step_selection(2, 1, 5), 3);
    assert_eq!(step_selection(2, -10, 5), 0);
}

#[test]
fn keys_rate_flag_and_advance() {
    let mut shift3 = key(CullKey::Digit(3));
    shift3.shift = true;
    let input = read_keys(&vec![shift3]);
    assert_eq!(input.rating, Some(3));
    assert!(input.advance);

    let input = read_keys(&vec![key(CullKey::P), key(CullKey::CloseBracket)]);
    assert_eq!(input.flag, Some(Flag::Pick));
    assert_eq!(input.bump, 1);
    assert!(!input.advance);
    assert_eq!(input.rating, None);
}

#[test]
fn command_keys_undo_and_redo() {
    let mut z = key(CullKey::Z);
    z.command = true;
    let input = read_keys(&vec![z.clone()]);
    assert!(input.undo);
    assert!(!input.redo);
    let mut shift_z = z.clone();
    shift_z.shift = true;
    let input = read_keys(&vec![shift_z]);
    assert!(input.redo);
    assert!(!input.undo);
    let mut y = key(CullKey::Y);
    y.command = true;
    assert!(read_keys(&vec![y]).redo);
    // Ctrl+P is not a flag key.
    let mut p = key(CullKey::P);
    p.command = true;
    assert_eq!(read_keys(&vec![p]).flag, None);
}

#[test]
fn held_arrows_only_navigate() {
    let mut held = key(CullKey::ArrowRight);
    held.repeat = true;
    held.keys.push(CullKey::Digit(2));
    let input = read_keys(&vec![held]);
    assert_eq!(input.nav, 1);
    assert!(input.nav_held);
    assert_eq!(input.rating, None);
    let input = read_keys(&vec![key(CullKey::ArrowUp)]);
    assert_eq!(input.nav, -1);
    assert!(!input.nav_held);
    assert_eq!(read_keys(&Vec::new()).nav, 0);
}

#[test]
fn later_digit_keys_win_and_u_clears() {
    let input = read_keys(&vec![key(CullKey::Digit(1)), key(CullKey::Digit(4)), key(CullKey::X), key(CullKey::U)]);
    assert_eq!(input.rating, Some(4));
    assert_eq!(input.flag, Some(Flag::Unflagged));
}

#[test]
fn marks_are_applied_in_order() {
    let input = CullInput {
        undo: false,
        redo: false,
        nav: 0,
        nav_held: false,
        rating: Some(5),
        bump: 1,
        flag: Some(Flag::Reject),
        advance: false,
    };
    let out = apply_marks(2, Flag::Reject, input, true);
    assert_eq!(out.rating, 5);
    assert_eq!(out.flag, Flag::Unflagged);
    assert!(out.edited);
    assert!(out.advance);

    let nothing = CullInput { rating: None, bump: 0, flag: None, ..input };
    let out = apply_marks(2, Flag::Pick, nothing, true);
    assert_eq!((out.rating, out.flag, out.edited, out.advance), (2, Flag::Pick, false, false));

    let same = CullInput { rating: Some(2), bump: 0, flag: None, advance: true, ..input };
    let out = apply_marks(2, Flag::Pick, same, false);
    assert!(!out.edited);
    assert!(out.advance);
}
