use mine_sweeper::gametable::GameTable;
use mine_sweeper::inference::InfTable;
use mine_sweeper::myconst::{AutoSts, UserFlg};
use mine_sweeper::panel::{next_userflg, Panel};
use mine_sweeper::utils::get_index;

/// A board of `w` x `h` panels with mines at `mines` (indices), numbers set.
fn board_with(w: i32, h: i32, mines: &[usize]) -> Vec<Panel> {
    let mut v = Vec::new();
    for y in 0..h {
        for x in 0..w {
            v.push(Panel::new(x, y, w, h));
        }
    }
    for &m in mines {
        v[m].bomon();
        let around = v[m].get_around_tbl();
        for row in around.iter() {
            for &i in row.iter() {
                if i != -1 && i as usize != m {
                    v[i as usize].num_up();
                }
            }
        }
    }
    v
}

#[test]
fn get_index_on_and_off_board() {
    assert_eq!(get_index(2, 3, 10, 10), 32);
    assert_eq!(get_index(0, 0, 10, 10), 0);
    assert_eq!(get_index(9, 9, 10, 10), 99);
    assert_eq!(get_index(-1, 0, 10, 10), -1);
    assert_eq!(get_index(10, 0, 10, 10), -1);
    assert_eq!(get_index(0, 10, 10, 10), -1);
}

#[test]
fn flag_cycles() {
    let mut f = UserFlg::NoFlg;
    f = next_userflg(f, true, false);
    assert_eq!(f, UserFlg::RedFlg);
    f = next_userflg(f, true, false);
    assert_eq!(f, UserFlg::BlueFlg);
    f = next_userflg(f, true, false);
    assert_eq!(f, UserFlg::NoFlg);
    f = next_userflg(f, true, true);
    assert_eq!(f, UserFlg::BlueFlg);
    f = next_userflg(f, true, true);
    assert_eq!(f, UserFlg::RedFlg);
    f = next_userflg(f, true, true);
    assert_eq!(f, UserFlg::NoFlg);
    assert_eq!(next_userflg(UserFlg::NoFlg, false, true), UserFlg::RedFlg);
    assert_eq!(next_userflg(UserFlg::RedFlg, false, true), UserFlg::NoFlg);
    assert_eq!(next_userflg(UserFlg::BlueFlg, false, false), UserFlg::NoFlg);
}

#[test]
fn panel_neighbourhood() {
    let p = Panel::new(0, 0, 3, 3);
    assert_eq!(p.get_around_tbl(), [[-1, -1, -1], [-1, 0, 1], [-1, 3, 4]]);
    let q = Panel::new(1, 1, 3, 3);
    assert_eq!(q.get_around_tbl(), [[0, 1, 2], [3, 4, 5], [6, 7, 8]]);
    assert_eq!(q.get_pos(), (1, 1));
    assert!(!q.is_open());
    assert_eq!(q.get_around_num(), 0);
}

#[test]
fn numbers_count_mines() {
    let b = board_with(3, 3, &[0]);
    assert!(b[0].is_bom());
    assert_eq!(b[1].get_around_num(), 1);
    assert_eq!(b[3].get_around_num(), 1);
    assert_eq!(b[4].get_around_num(), 1);
    assert_eq!(b[8].get_around_num(), 0);
}

#[test]
fn panel_marks_near_cursor() {
    let mut p = Panel::new(2, 2, 5, 5);
    p.set_autoflag(AutoSts::Danger);
    assert!(p.cursol_around(1, 1, false));
    assert!(!p.cursol_around(0, 2, false));
    assert!(p.cursol_around(0, 0, true));
    assert_eq!(p.shown_mark(true), AutoSts::Danger);
    assert_eq!(p.shown_mark(false), AutoSts::Unmarked);
    p.set_userflg(UserFlg::RedFlg);
    assert_eq!(p.shown_mark(true), AutoSts::Unmarked);
}

#[test]
fn flood_opens_empty_board() {
    let mut t = GameTable::new(3, 3, 0);
    t.initial();
    let c = t.set_mousepos(1, 1);
    assert_eq!(c.index, 4);
    assert!(t.click_left());
    assert_eq!(t.get_opennum(), 9);
    assert!(!t.click_left());
    assert!(!t.click_right(false, false));
}

#[test]
fn cursor_off_board() {
    let mut t = GameTable::new(3, 3, 0);
    t.initial();
    let c = t.set_mousepos(5, 1);
    assert_eq!(c.index, -1);
    assert!(!t.click_left());
    assert!(!t.click_right(true, false));
    assert_eq!(t.get_opennum(), 0);
}

#[test]
fn right_click_cycles_flags() {
    let mut t = GameTable::new(2, 2, 0);
    t.initial();
    t.set_mousepos(0, 0);
    assert!(t.click_right(true, false));
    assert_eq!(t.tbl_backup()[0].get_userflg(), UserFlg::RedFlg);
    assert_eq!(t.get_num_redflag(), 1);
    assert!(t.click_right(true, false));
    assert_eq!(t.tbl_backup()[0].get_userflg(), UserFlg::BlueFlg);
    t.clear_blue_flag();
    assert_eq!(t.tbl_backup()[0].get_userflg(), UserFlg::NoFlg);
    assert!(t.click_right(false, false));
    assert!(t.click_right(false, false));
    assert_eq!(t.tbl_backup()[0].get_userflg(), UserFlg::NoFlg);
}

#[test]
fn a_red_flag_is_not_opened() {
    let mut t = GameTable::new(3, 3, 0);
    t.initial();
    t.set_mousepos(0, 0);
    t.click_right(false, false);
    assert!(!t.click_left());
    assert_eq!(t.get_opennum(), 0);
}

#[test]
fn mines_avoid_the_cursor() {
    for _ in 0..20 {
        let mut t = GameTable::new(4, 4, 0);
        t.initial();
        t.set_mousepos(1, 2);
        assert_eq!(t.get_freenum(), 15);
        t.setting_bom(15);
        let b = t.tbl_backup();
        let mines = b.iter().filter(|p| p.is_bom()).count();
        assert_eq!(mines, 15);
        assert!(!b[9].is_bom());
        assert_eq!(b[9].get_around_num(), 8);
        assert_eq!(t.get_freenum(), 0);
    }
}

#[test]
fn numbers_agree_after_placing() {
    let mut t = GameTable::new(5, 5, 0);
    t.initial();
    t.set_mousepos(0, 0);
    t.setting_bom(7);
    let b = t.tbl_backup();
    for p in b.iter() {
        if p.is_bom() {
            continue;
        }
        let mut n = 0;
        for row in p.get_around_tbl().iter() {
            for &i in row.iter() {
                if i != -1 && b[i as usize].is_bom() {
                    n += 1;
                }
            }
        }
        assert_eq!(p.get_around_num(), n);
    }
}

#[test]
fn opening_a_mine_counts() {
    let mut t = GameTable::new(3, 3, 0);
    t.initial();
    t.set_mousepos(2, 2);
    t.setting_bom(8);
    t.set_mousepos(0, 0);
    assert!(t.click_left());
    assert_eq!(t.get_opennum(), 1);
    assert_eq!(t.open_bomnum(), 1);
}

#[test]
fn chord_opens_around_a_flagged_number() {
    let mut t = GameTable::new(3, 1, 0);
    t.initial();
    t.set_mousepos(1, 0);
    t.setting_bom(2);
    // the only free cell is the middle one: both ends are mines
    assert!(t.click_left());
    assert_eq!(t.get_opennum(), 1);
    // no flags yet: a chord does nothing
    assert!(!t.clickoff_left());
    t.set_mousepos(0, 0);
    t.click_right(false, false);
    t.set_mousepos(2, 0);
    t.click_right(false, false);
    t.set_mousepos(1, 0);
    assert!(t.clickoff_left());
    assert_eq!(t.open_bomnum(), 0);
}

#[test]
fn undo_and_redo_walk_the_history() {
    let mut t = GameTable::new(2, 2, 0);
    t.initial();
    t.set_mousepos(0, 0);
    t.undo_push();
    t.click_right(false, false);
    t.undo_push();
    t.set_mousepos(1, 1);
    t.click_right(false, false);
    t.undo_push();
    assert_eq!(t.get_num_redflag(), 2);
    assert!(!t.is_useundo());
    t.table_undo();
    assert_eq!(t.get_num_redflag(), 2);
    t.table_undo();
    assert_eq!(t.get_num_redflag(), 1);
    t.table_undo();
    assert_eq!(t.get_num_redflag(), 0);
    t.table_undo();
    assert_eq!(t.get_num_redflag(), 0);
    t.table_redo();
    assert_eq!(t.get_num_redflag(), 1);
    t.table_redo();
    assert_eq!(t.get_num_redflag(), 2);
    t.table_redo();
    assert_eq!(t.get_num_redflag(), 2);
    assert!(t.is_useundo());
}

#[test]
fn pushing_the_same_board_twice_keeps_one_entry() {
    let mut t = GameTable::new(2, 2, 0);
    t.initial();
    t.undo_push();
    t.undo_push();
    assert_eq!(t.history_len(), 1);
}

#[test]
fn flags_follow_danger_marks() {
    let b = board_with(3, 3, &[0]);
    let mut t = GameTable::new(3, 3, 1);
    t.initial();
    let mut b = b;
    for i in 1..9 {
        b[i].open();
    }
    b[0].set_autoflag(AutoSts::Danger);
    t.tbl_restore(b);
    t.set_all_redflag();
    assert_eq!(t.get_num_redflag(), 1);
    t.assist_clear();
    assert_eq!(t.tbl_backup()[0].get_autoflag(), AutoSts::Unmarked);
}

#[test]
fn inference_marks_the_only_closed_neighbour() {
    let mut b = board_with(3, 3, &[0]);
    for i in 1..9 {
        b[i].open();
    }
    let mut inf = InfTable::new(b, 3, 3);
    inf.inference(true, true, false);
    let r = inf.get_table();
    assert_eq!(r[0].get_autoflag(), AutoSts::Danger);
    for i in 1..9 {
        assert_eq!(r[i].get_autoflag(), AutoSts::Unmarked);
    }
}

#[test]
fn believed_flags_make_safe_panels() {
    let mut b = board_with(3, 3, &[0]);
    for &i in &[1usize, 2, 4, 5, 7, 8] {
        b[i].open();
    }
    b[0].set_userflg(UserFlg::RedFlg);
    let mut without = InfTable::new(b.clone(), 3, 3);
    without.inference(true, true, false);
    let r = without.get_table();
    assert_eq!(r[3].get_autoflag(), AutoSts::Unmarked);
    let mut with = InfTable::new(b, 3, 3);
    with.inference(true, true, true);
    let r = with.get_table();
    assert_eq!(r[0].get_autoflag(), AutoSts::Danger);
    assert_eq!(r[3].get_autoflag(), AutoSts::Safety);
    assert_eq!(r[6].get_autoflag(), AutoSts::Safety);
}

#[test]
fn deep_inference_compares_two_numbers() {
    // 4 x 2 board, mine at (3, 0); top row closed, bottom row open:
    // bottom numbers 0 0 1 1. Panel (2,1) says one mine among (1,0) (2,0) (3,0);
    // panel (3,1) says one mine among (2,0) (3,0); so (1,0) is safe.
    let mut b = board_with(4, 2, &[3]);
    for i in 4..8 {
        b[i].open();
    }
    let mut inf = InfTable::new(b, 4, 2);
    inf.inference(true, true, false);
    let r = inf.get_table();
    assert_eq!(r[1].get_autoflag(), AutoSts::Safety);
    assert_ne!(r[2].get_autoflag(), AutoSts::Danger);
}

#[test]
fn emphasis_marks_numbers_with_their_mines_closed() {
    let mut b = board_with(3, 3, &[0]);
    for i in 1..9 {
        b[i].open();
    }
    let mut inf = InfTable::new(b, 3, 3);
    inf.set_bold(false);
    let r = inf.get_table();
    assert!(r[1].is_bold());
    assert!(r[4].is_bold());
    assert!(!r[8].is_bold());
    // once the mine carries a red flag the emphasis goes and safe marks appear
    let mut b2 = board_with(3, 3, &[0]);
    for &i in &[2usize, 4, 5, 6, 7, 8] {
        b2[i].open();
    }
    b2[0].set_userflg(UserFlg::RedFlg);
    let mut inf2 = InfTable::new(b2, 3, 3);
    inf2.set_bold(true);
    let r2 = inf2.get_table();
    assert!(!r2[4].is_bold());
    assert_eq!(r2[1].get_autoflag(), AutoSts::Safety);
    assert_eq!(r2[3].get_autoflag(), AutoSts::Safety);
    assert_eq!(r2[0].get_autoflag(), AutoSts::Unmarked);
}

#[test]
fn panels_within_hiding_levels() {
    let p = Panel::new(5, 5, 10, 10);
    assert!(p.within_hide(0, 0, 0));
    assert!(p.within_hide(1, 7, 3));
    assert!(!p.within_hide(1, 8, 5));
    assert!(p.within_hide(2, 6, 4));
    assert!(!p.within_hide(2, 7, 5));
    assert!(p.within_hide(3, 5, 5));
    assert!(!p.within_hide(3, 5, 6));
    assert!(p.within_hide(1, i32::MIN, i32::MIN) == false);
}

#[test]
fn drawn_cells_take_mines() {
    let mut t = GameTable::new(3, 3, 0);
    t.initial();
    t.set_mousepos(1, 1);
    // the cursor cell and cells off the board take no mine
    assert!(!t.place_draw(1, 1));
    assert!(!t.place_draw(3, 0));
    assert!(!t.place_draw(0, -1));
    assert!(t.place_draw(0, 0));
    // a cell that is a mine already takes no second one
    assert!(!t.place_draw(0, 0));
    assert!(t.place_draw(2, 2));
    let b = t.tbl_backup();
    assert!(b[0].is_bom() && b[8].is_bom());
    assert_eq!(b[4].get_around_num(), 2);
    assert_eq!(b[1].get_around_num(), 1);
}
