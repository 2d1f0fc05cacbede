use mine_sweeper::chkboxmng::ChkBoxMng;
use mine_sweeper::gamemain::{button_step, GameMain, PlayEvent};
use mine_sweeper::keymanager::{KeyKind, KeyManager};
use mine_sweeper::myconst::{CBGame, CBSetting, CBTitle, GameMode, GameStat};
use mine_sweeper::setting::GameSettings;
use mine_sweeper::titlemain::{recommended_bombs, TitleMain};
use mine_sweeper::txtbox::{int_to_text, parse_text, TextBox, TxtEvent, TxtKey};

fn chars(s: &str) -> Vec<char> {
    s.chars().collect()
}

fn text_of(t: &TextBox) -> String {
    t.get_text().iter().collect()
}

fn no_event() -> TxtEvent {
    TxtEvent {
        shift_pressed: false,
        shift_released: false,
        click: None,
        ch: None,
        key: TxtKey::NoKey,
        backspace: false,
    }
}

fn over_only(n: usize, i: usize) -> Vec<bool> {
    let mut v = vec![false; n];
    v[i] = true;
    v
}

fn idle(x: i32, y: i32) -> PlayEvent {
    PlayEvent {
        left_pressed: false,
        left_on: false,
        left_on_now: false,
        left_off_now: false,
        right_on: false,
        right_on_now: false,
        x,
        y,
        key_left: false,
        key_right: false,
        zoomed: false,
        key_f: false,
    }
}

#[test]
fn key_manager_holds_pressed_keys() {
    let mut k = KeyManager::new();
    assert_eq!(k.get_key(None), ' ');
    assert_eq!(k.get_key(Some(('a', KeyKind::Press))), 'a');
    assert_eq!(k.get_key(Some(('b', KeyKind::Repeat))), 'b');
    assert_eq!(k.get_key(Some(('b', KeyKind::Release))), ' ');
    assert_eq!(k.get_key(Some(('c', KeyKind::Press))), 'c');
    assert_eq!(k.get_key(None), ' ');
}

#[test]
fn numbers_to_text_and_back() {
    assert_eq!(int_to_text(0), chars("0"));
    assert_eq!(int_to_text(-123), chars("-123"));
    assert_eq!(int_to_text(2147483647), chars("2147483647"));
    assert_eq!(int_to_text(-2147483648), chars("-2147483648"));
    assert_eq!(parse_text(&chars("42")), Some(42));
    assert_eq!(parse_text(&chars("+42")), Some(42));
    assert_eq!(parse_text(&chars("-7")), Some(-7));
    assert_eq!(parse_text(&chars("007")), Some(7));
    assert_eq!(parse_text(&chars("-2147483648")), Some(-2147483648));
    assert_eq!(parse_text(&chars("2147483648")), None);
    assert_eq!(parse_text(&chars("99999999999999")), None);
    assert_eq!(parse_text(&chars("")), None);
    assert_eq!(parse_text(&chars("-")), None);
    assert_eq!(parse_text(&chars("1a")), None);
    assert_eq!(parse_text(&chars(" 1")), None);
    for n in [-1000, -1, 0, 5, 35, 900, 123456] {
        assert_eq!(parse_text(&int_to_text(n)), Some(n));
        assert_eq!(parse_text(&int_to_text(n)), n.to_string().parse::<i32>().ok());
    }
}

#[test]
fn text_box_value_is_within_bounds() {
    assert_eq!(TextBox::new("10", 5, 35).get_value(), 10);
    assert_eq!(TextBox::new("abc", 5, 35).get_value(), 5);
    assert_eq!(TextBox::new("99", 5, 35).get_value(), 35);
    assert_eq!(TextBox::new("-3", 5, 35).get_value(), 5);
    assert_eq!(TextBox::new("", 1, 900).get_value(), 1);
}

#[test]
fn text_box_takes_digits_and_arrows() {
    let mut t = TextBox::new("1", 1, 900);
    let mut ev = no_event();
    ev.click = Some(true);
    ev.ch = Some('7');
    t.update(&ev);
    assert!(t.is_focused());
    assert_eq!(text_of(&t), "17");
    let mut ev = no_event();
    ev.ch = Some('x');
    t.update(&ev);
    assert_eq!(text_of(&t), "17");
    let mut ev = no_event();
    ev.key = TxtKey::Up;
    t.update(&ev);
    assert_eq!(t.get_value(), 27);
    ev.key = TxtKey::Right;
    t.update(&ev);
    assert_eq!(t.get_value(), 28);
    ev.key = TxtKey::Down;
    t.update(&ev);
    assert_eq!(t.get_value(), 18);
    ev.key = TxtKey::Left;
    t.update(&ev);
    assert_eq!(t.get_value(), 17);
    let mut ev = no_event();
    ev.backspace = true;
    t.update(&ev);
    assert_eq!(text_of(&t), "1");
    t.update(&ev);
    assert_eq!(text_of(&t), "");
    t.update(&ev);
    assert_eq!(text_of(&t), "");
    let mut ev = no_event();
    ev.key = TxtKey::Down;
    t.update(&ev);
    assert_eq!(text_of(&t), "1");
}

#[test]
fn unfocused_text_box_snaps_into_bounds() {
    let mut t = TextBox::new("99", 5, 35);
    t.update(&no_event());
    assert_eq!(text_of(&t), "35");
    let mut t = TextBox::new("", 5, 35);
    t.update(&no_event());
    assert_eq!(text_of(&t), "5");
    let mut t = TextBox::new("2", 5, 35);
    t.set_max(40);
    t.update(&no_event());
    assert_eq!(text_of(&t), "5");
}

#[test]
fn text_box_tracks_shift_and_focus() {
    let mut t = TextBox::new("10", 5, 35);
    let mut ev = no_event();
    ev.shift_pressed = true;
    assert!(t.update(&ev));
    assert!(t.update(&no_event()));
    let mut ev = no_event();
    ev.shift_released = true;
    assert!(!t.update(&ev));
    t.focus();
    assert!(t.is_focused());
    let mut ev = no_event();
    ev.click = Some(false);
    t.update(&ev);
    assert!(!t.is_focused());
    t.focus();
    t.focus_off();
    assert!(!t.is_focused());
}

#[test]
fn check_boxes_follow_their_parent() {
    let mut m: ChkBoxMng<CBSetting> = ChkBoxMng::new();
    m.set_base("000000FF", "FFFFFFFF");
    m.add(CBSetting::Inference, String::from("USE INFERENCE"), false, false);
    m.addsub(CBSetting::SafeOn, CBSetting::Inference, String::from("SAFETY ON"), true);
    assert_eq!(m.len(), 2);
    assert!(!m.get(1).is_active());
    assert!(!m.get_flg(CBSetting::SafeOn));
    assert_eq!(m.get(1).get_fgcol(), "000000FF");
    // clicking the child does nothing while it is disabled
    assert_eq!(m.click(&over_only(2, 1)), None);
    // clicking the parent checks it and enables the child
    assert_eq!(m.click(&over_only(2, 0)), Some((CBSetting::Inference, true)));
    assert!(m.get(1).is_active());
    assert!(m.get_flg(CBSetting::SafeOn));
    assert_eq!(m.click(&over_only(2, 1)), Some((CBSetting::SafeOn, false)));
    m.set_flg(CBSetting::Inference, false);
    assert!(!m.get(1).is_active());
    m.set_lock_flg(CBSetting::Inference, true);
    assert!(m.get(0).is_lock() && m.get(1).is_lock());
    assert_eq!(m.click(&over_only(2, 0)), None);
    m.set_help(CBSetting::SafeOn, "a\nb");
    m.set_active_flg(CBSetting::SafeOn, true);
    assert_eq!(m.gethelp(&over_only(2, 1)), Some((CBSetting::SafeOn, "a\nb")));
    assert_eq!(m.gethelp(&vec![false, false]), None);
    m.set_col(CBSetting::SafeOn, "FF0000FF", "");
    assert_eq!(m.get(1).get_fgcol(), "FF0000FF");
    assert_eq!(m.get(1).get_bgcol(), "FFFFFFFF");
    m.clear_flg();
    assert!(!m.get(1).is_checked());
}

#[test]
fn settings_screen_rules() {
    let mut s = GameSettings::new();
    assert!(!s.is_open());
    assert!(!s.get_flg(CBSetting::DangOn));
    s.open();
    assert!(s.is_open());
    let n = s.chkbox().len();
    assert_eq!(n, 21);
    // inference on: the cursor frame turns on, danger marks are enabled
    s.click(&over_only(n, 6));
    assert!(s.get_flg(CBSetting::Inference));
    assert!(s.get_flg(CBSetting::CursolFlg));
    assert!(s.get_flg(CBSetting::DangOn));
    // emphasis on: inference goes off
    s.click(&over_only(n, 5));
    assert!(s.get_flg(CBSetting::BoldFlg));
    assert!(!s.get_flg(CBSetting::Inference));
    // hiding the board turns the assistance off and locks it
    s.click(&over_only(n, 3));
    assert!(s.get_flg(CBSetting::HideOn));
    assert!(!s.get_flg(CBSetting::BoldFlg));
    assert!(s.chkbox().get(5).is_lock());
    assert!(s.chkbox().get(7).is_lock());
    // the level boxes keep one checked
    assert!(s.get_flg(CBSetting::HideLv1));
    s.click(&over_only(n, 17));
    assert!(s.get_flg(CBSetting::HideLv3));
    assert!(!s.get_flg(CBSetting::HideLv1));
    // hiding numbers instead unchecks hiding the board
    s.click(&over_only(n, 4));
    assert!(s.get_flg(CBSetting::HideNumOn));
    assert!(!s.get_flg(CBSetting::HideOn));
    s.click(&over_only(n, 4));
    assert!(!s.get_flg(CBSetting::HideNumOn));
    assert!(!s.chkbox().get(5).is_lock());
    // closing
    s.click(&over_only(n, 9));
    assert!(!s.is_open());
    // while closed nothing is clicked
    s.click(&over_only(n, 0));
    assert!(s.get_flg(CBSetting::CursolFlg));
    s.set_playing_flg(true);
    assert!(s.chkbox().get(3).is_lock());
    s.set_playing_flg(false);
    assert!(!s.chkbox().get(3).is_lock());
}

#[test]
fn title_difficulties() {
    let mut s = GameSettings::new();
    let mut t = TitleMain::new();
    assert_eq!(t.get_setting(), (16, 16, 40));
    let n = t.chkbox().len();
    assert!(t.click_left(&over_only(n, 0), &mut s));
    assert_eq!(t.get_setting(), (9, 9, 10));
    assert!(t.click_left(&over_only(n, 2), &mut s));
    assert_eq!(t.get_setting(), (30, 16, 99));
    assert!(t.click_left(&over_only(n, 3), &mut s));
    assert!(t.txtwidth().is_focused());
    assert_eq!(t.get_setting(), (10, 10, 16));
    assert!(!t.click_left(&vec![false; n], &mut s));
    assert!(t.click_left(&over_only(n, 6), &mut s));
    assert!(s.is_open());
}

#[test]
fn title_control_starts_and_quits() {
    let mut s = GameSettings::new();
    let mut t = TitleMain::new();
    let n = t.chkbox().len();
    let ns = s.chkbox().len();
    let e = no_event();
    let m = t.titlecontrol(&mut s, false, &vec![false; n], &vec![false; ns], &e, &e, &e, false);
    assert_eq!(m, GameMode::Title);
    let m = t.titlecontrol(&mut s, true, &over_only(n, 4), &vec![false; ns], &e, &e, &e, false);
    assert_eq!(m, GameMode::Game);
    assert!(!t.chkbox().get_flg(CBTitle::Start));
    let m = t.titlecontrol(&mut s, true, &over_only(n, 5), &vec![false; ns], &e, &e, &e, false);
    assert_eq!(m, GameMode::Quit);
}

#[test]
fn title_tab_moves_the_focus() {
    let mut s = GameSettings::new();
    let mut t = TitleMain::new();
    let n = t.chkbox().len();
    let ns = s.chkbox().len();
    let e = no_event();
    let mut ew = no_event();
    ew.click = Some(true);
    let mut other = no_event();
    other.click = Some(false);
    t.titlecontrol(&mut s, false, &vec![false; n], &vec![false; ns], &ew, &other, &other, false);
    assert!(t.txtwidth().is_focused());
    t.titlecontrol(&mut s, false, &vec![false; n], &vec![false; ns], &e, &e, &e, true);
    assert!(!t.txtwidth().is_focused());
    assert!(t.txtheight().is_focused());
    assert_eq!(t.txtbom().get_value(), 16);
}

#[test]
fn game_starts_on_the_first_click() {
    let mut s = GameSettings::new();
    let mut g = GameMain::new();
    g.set_gameinfo(9, 9, 10);
    g.initial_game(&mut s, 4, 4);
    assert_eq!(g.get_stat(), GameStat::Ready);
    let n = g.chkbox().len();
    let ns = s.chkbox().len();
    let mut ev = idle(4, 4);
    ev.left_on = true;
    ev.left_on_now = true;
    ev.left_pressed = true;
    let out = g.playcontrol(&mut s, &ev, &vec![false; n], &vec![false; ns]);
    assert_eq!(out.mode, GameMode::Game);
    assert!(g.get_stat() == GameStat::Playing || g.get_stat() == GameStat::Success);
    let b = g.table().tbl_backup();
    assert_eq!(b.iter().filter(|p| p.is_bom()).count(), 10);
    assert!(b[40].is_open());
    assert!(!b[40].is_bom());
    assert!(g.table().get_opennum() >= 1);
    assert_eq!(g.table().history_len(), 1);
    assert!(s.chkbox().get(3).is_lock());
    // the kept board opens at least 5% of the panels (81 * 5 / 100 = 4), unless a
    // hundred tries all fell short
    assert!(g.table().get_opennum() >= 4);
}

#[test]
fn keys_take_no_undo_step() {
    let mut s = GameSettings::new();
    let mut g = GameMain::new();
    g.set_gameinfo(9, 9, 10);
    g.initial_game(&mut s, 4, 4);
    let n = g.chkbox().len();
    let ns = s.chkbox().len();
    let mut ev = idle(4, 4);
    ev.left_on = true;
    ev.left_on_now = true;
    ev.left_pressed = true;
    g.playcontrol(&mut s, &ev, &vec![false; n], &vec![false; ns]);
    if g.get_stat() != GameStat::Playing {
        return;
    }
    assert_eq!(g.table().history_len(), 1);
    let mut keys = idle(4, 4);
    keys.key_f = true;
    keys.zoomed = true;
    g.playcontrol(&mut s, &keys, &vec![false; n], &vec![false; ns]);
    assert_eq!(g.table().history_len(), 1);
}

#[test]
fn recommended_mines() {
    assert_eq!(recommended_bombs(9, 9), 12);
    assert_eq!(recommended_bombs(16, 16), 40);
    assert_eq!(recommended_bombs(30, 16), 99);
    assert_eq!(recommended_bombs(10, 30), 48);
    assert_eq!(recommended_bombs(0, 5), 0);
    assert_eq!(recommended_bombs(-3, 5), -3);
}

#[test]
fn game_is_won_when_every_free_panel_opens() {
    let mut s = GameSettings::new();
    let mut g = GameMain::new();
    g.set_gameinfo(3, 3, 0);
    g.initial_game(&mut s, 1, 1);
    let n = g.chkbox().len();
    let ns = s.chkbox().len();
    let mut ev = idle(1, 1);
    ev.left_on = true;
    ev.left_on_now = true;
    let out = g.playcontrol(&mut s, &ev, &vec![false; n], &vec![false; ns]);
    assert_eq!(g.table().get_opennum(), 9);
    assert_eq!(g.get_stat(), GameStat::Success);
    assert!(out.clear_mouse);
    assert_eq!(g.get_death_cnt(), 0);
}

/// Starts a game of `w` x `h` with `b` mines from cell `(x, y)`.
fn started(s: &mut GameSettings, w: i32, h: i32, b: i32, x: i32, y: i32) -> GameMain {
    let mut g = GameMain::new();
    g.set_gameinfo(w, h, b);
    g.initial_game(s, x, y);
    let n = g.chkbox().len();
    let ns = s.chkbox().len();
    let mut ev = idle(x, y);
    ev.left_on = true;
    g.playcontrol(s, &ev, &vec![false; n], &vec![false; ns]);
    g
}

#[test]
fn game_is_lost_on_a_mine() {
    let mut s = GameSettings::new();
    let mut g = started(&mut s, 3, 3, 7, 0, 0);
    assert_eq!(g.get_stat(), GameStat::Playing);
    let n = g.chkbox().len();
    let ns = s.chkbox().len();
    let b = g.table().tbl_backup();
    let m = b.iter().position(|p| p.is_bom()).unwrap() as i32;
    let mut ev = idle(m % 3, m / 3);
    ev.left_off_now = true;
    let out = g.playcontrol(&mut s, &ev, &vec![false; n], &vec![false; ns]);
    assert_eq!(g.get_stat(), GameStat::Failed);
    assert_eq!(g.get_death_cnt(), 1);
    assert_eq!(g.table().tbl_backup().iter().filter(|p| p.is_bomopen()).count(), 1);
    assert!(out.clear_mouse);
}

#[test]
fn game_menu_buttons() {
    let mut s = GameSettings::new();
    let mut g = started(&mut s, 10, 10, 30, 2, 2);
    let n = g.chkbox().len();
    let ns = s.chkbox().len();
    assert_eq!(g.get_stat(), GameStat::Playing);
    // reset
    let mut ev = idle(2, 2);
    ev.left_on_now = true;
    let out = g.playcontrol(&mut s, &ev, &over_only(n, 0), &vec![false; ns]);
    assert!(out.reset);
    assert_eq!(g.get_stat(), GameStat::Ready);
    assert_eq!(g.table().get_opennum(), 0);
    // settings open, then close
    let out = g.playcontrol(&mut s, &ev, &over_only(n, 1), &vec![false; ns]);
    assert_eq!(out.mode, GameMode::Game);
    assert!(s.is_open());
    let mut close = idle(2, 2);
    close.left_pressed = true;
    let out = g.playcontrol(&mut s, &close, &vec![false; n], &over_only(ns, 9));
    assert!(!s.is_open());
    assert!(out.clear_mouse);
    // back to the title
    let out = g.playcontrol(&mut s, &ev, &over_only(n, 2), &vec![false; ns]);
    assert_eq!(out.mode, GameMode::Title);
    assert!(!g.chkbox().get_flg(CBGame::Title));
}

#[test]
fn undo_brings_back_the_previous_board() {
    let mut s = GameSettings::new();
    s.open();
    let ns = s.chkbox().len();
    s.click(&over_only(ns, 7));
    s.click(&over_only(ns, 9));
    assert!(s.get_flg(CBSetting::UndoFlg));
    let mut g = started(&mut s, 10, 10, 30, 0, 0);
    assert_eq!(g.get_stat(), GameStat::Playing);
    let n = g.chkbox().len();
    let b = g.table().tbl_backup();
    let c = b.iter().position(|p| !p.is_open()).unwrap() as i32;
    let mut ev = idle(c % 10, c / 10);
    ev.right_on = true;
    ev.right_on_now = true;
    g.playcontrol(&mut s, &ev, &vec![false; n], &vec![false; ns]);
    assert_eq!(g.table().get_num_redflag(), 1);
    assert_eq!(g.table().history_len(), 2);
    let mut ev = idle(c % 10, c / 10);
    ev.key_left = true;
    g.playcontrol(&mut s, &ev, &vec![false; n], &vec![false; ns]);
    assert_eq!(g.get_stat(), GameStat::Playing);
    assert_eq!(g.table().get_num_redflag(), 0);
    let mut ev = idle(c % 10, c / 10);
    ev.key_right = true;
    g.playcontrol(&mut s, &ev, &vec![false; n], &vec![false; ns]);
    assert_eq!(g.table().get_num_redflag(), 1);
}

#[test]
fn settings_boxes_as_made() {
    let s = GameSettings::new();
    let m = s.chkbox();
    assert_eq!(m.len(), 21);
    let c = m.get(9);
    assert_eq!(c.get_type(), CBSetting::Close);
    assert_eq!(c.get_text(), "[CLOSE]");
    assert_eq!(c.get_fgcol(), "3333FFFF");
    assert!(!c.is_viewbox());
    assert!(c.is_absolute());
    assert_eq!(c.get_help(), "");
    let d = m.get(8);
    assert_eq!(d.get_type(), CBSetting::DispAll);
    assert!(!d.is_active());
    assert!(d.get_help().starts_with("[ALL DISPLAY]"));
    let b = m.get(14);
    assert_eq!(b.get_type(), CBSetting::BelieveFlag);
    assert_eq!(b.get_text(), "BELEVE FLAG");
    assert!(b.get_help().starts_with("[BELIEVE FLAG]"));
    assert_eq!(b.get_fgcol(), "000000FF");
}

#[test]
fn title_boxes_as_made() {
    let t = TitleMain::new();
    let m = t.chkbox();
    assert_eq!(m.len(), 8);
    assert_eq!(m.get(0).get_text(), "EASY");
    assert!(m.get(0).is_viewbox());
    assert_eq!(m.get(0).get_fgcol(), "FFFF00FF");
    assert_eq!(m.get(4).get_fgcol(), "7777FFFF");
    assert!(!m.get(4).is_viewbox());
    assert_eq!(m.get(7).get_type(), CBTitle::Credits);
    assert_eq!(m.get(7).get_fgcol(), "FFFFFFFF");
    assert_eq!(m.get(7).get_help(), "[CREDITS]\nLet's MINE SWEEPER v1.0");
}

#[test]
fn game_buttons_as_made() {
    let g = GameMain::new();
    let m = g.chkbox();
    assert_eq!(m.len(), 4);
    assert_eq!(m.get(0).get_text(), "[RESET]");
    assert_eq!(m.get(0).get_fgcol(), "FFFF77FF");
    assert_eq!(m.get(3).get_type(), CBGame::HowTo);
    assert_eq!(m.get(3).get_text(), "[HOW TO]");
    assert!(!m.get(3).is_viewbox());
}

#[test]
fn hide_levels_follow_the_boxes() {
    let mut s = GameSettings::new();
    // level 1 of each is checked when the screen is made, but the levels are
    // disabled (and so report nothing) while their mode is off
    assert_eq!(s.hide_levels(), (0, 0));
    s.open();
    let n = s.chkbox().len();
    // check HIDE BORD to enable its levels: level 1 shows
    let hide_on = (0..n).find(|&i| s.chkbox().get(i).get_type() == CBSetting::HideOn).unwrap();
    s.click(&over_only(n, hide_on));
    assert_eq!(s.hide_levels(), (1, 0));
    // then pick level 3
    let lv3 = (0..n).find(|&i| s.chkbox().get(i).get_type() == CBSetting::HideLv3).unwrap();
    s.click(&over_only(n, lv3));
    assert_eq!(s.hide_levels(), (3, 0));
}

#[test]
fn mouse_button_edges() {
    let p = button_step(false, true, false);
    assert!(p.on && p.on_now && !p.off_now);
    let held = button_step(true, true, false);
    assert!(held.on && !held.on_now && !held.off_now);
    let r = button_step(true, false, true);
    assert!(!r.on && !r.on_now && r.off_now);
    let idle = button_step(true, false, false);
    assert!(idle.on && !idle.on_now && !idle.off_now);
    let stray = button_step(false, false, true);
    assert!(!stray.on && !stray.off_now);
}

#[test]
fn boxes_stack_parents_then_children() {
    let mut s = GameSettings::new();
    // the show-everything box is disabled, and no parent is checked yet
    assert_eq!(s.chkbox().stack_order(), vec![0, 1, 2, 3, 4, 5, 6, 7, 9]);
    s.open();
    let n = s.chkbox().len();
    // checking HIDE BORD brings its three levels in under it
    s.click(&over_only(n, 3));
    assert_eq!(s.chkbox().stack_order(), vec![0, 1, 2, 3, 15, 16, 17, 4, 5, 6, 7, 9]);
}

fn index_of(s: &GameSettings, t: CBSetting) -> usize {
    (0..s.chkbox().len()).find(|&i| s.chkbox().get(i).get_type() == t).unwrap()
}

#[test]
fn levels_work_as_radio_buttons() {
    let mut s = GameSettings::new();
    s.open();
    let n = s.chkbox().len();
    s.click(&over_only(n, index_of(&s, CBSetting::HideNumOn)));
    s.click(&over_only(n, index_of(&s, CBSetting::HideNumLv2)));
    assert!(!s.get_flg(CBSetting::HideNumLv1));
    assert!(s.get_flg(CBSetting::HideNumLv2));
    assert!(!s.get_flg(CBSetting::HideNumLv3));
    // clicking the checked level again keeps it the checked one
    s.click(&over_only(n, index_of(&s, CBSetting::HideNumLv2)));
    assert!(s.get_flg(CBSetting::HideNumLv2));
    assert!(!s.get_flg(CBSetting::HideNumLv1));
    assert_eq!(s.hide_levels(), (0, 2));
}

#[test]
fn hiding_modes_exclude_each_other() {
    let mut s = GameSettings::new();
    s.open();
    let n = s.chkbox().len();
    s.click(&over_only(n, index_of(&s, CBSetting::HideOn)));
    assert!(s.get_flg(CBSetting::HideOn));
    s.click(&over_only(n, index_of(&s, CBSetting::HideNumOn)));
    assert!(s.get_flg(CBSetting::HideNumOn));
    assert!(!s.get_flg(CBSetting::HideOn));
}

#[test]
fn emphasis_and_inference_exclude_each_other() {
    let mut s = GameSettings::new();
    s.open();
    let n = s.chkbox().len();
    s.click(&over_only(n, index_of(&s, CBSetting::BoldFlg)));
    assert!(s.get_flg(CBSetting::BoldFlg));
    assert!(s.get_flg(CBSetting::CursolFlg));
    s.click(&over_only(n, index_of(&s, CBSetting::Inference)));
    assert!(s.get_flg(CBSetting::Inference));
    assert!(!s.get_flg(CBSetting::BoldFlg));
}
