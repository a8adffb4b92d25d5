use bingo::bingo::{
    center_pad, layout_cell, layout_card, layout_grid, split_source, Bingo, Ink, Segment,
    SetupError,
};

fn phrases(bonus: &str, n: usize) -> Vec<String> {
    let mut v = vec![bonus.to_string()];
    for i in 0..n {
        v.push(format!("phrase {}", i));
    }
    v
}

fn sorted(v: &[String]) -> Vec<String> {
    let mut v = v.to_vec();
    v.sort();
    v
}

#[test]
fn pad_centres_short_text() {
    let r = center_pad("abc");
    assert_eq!(r, format!("{:^16}", "abc"));
    assert_eq!(r, "      abc       ");
    assert_eq!(center_pad(""), " ".repeat(16));
}

#[test]
fn pad_keeps_wide_text() {
    let t = "a text of twenty chars";
    assert_eq!(center_pad(t), t);
    assert_eq!(center_pad("sixteen chars ok"), "sixteen chars ok");
}

#[test]
fn pad_counts_characters_not_bytes() {
    let r = center_pad("héllo");
    assert_eq!(r, format!("{:^16}", "héllo"));
    assert_eq!(r.chars().count(), 16);
}

#[test]
fn split_takes_first_line_as_bonus() {
    let lines = vec!["FREE".to_string(), "a".to_string(), "".to_string(), "b".to_string()];
    let (pool, bonus) = split_source(lines).unwrap();
    assert_eq!(bonus, "FREE");
    assert_eq!(pool, vec!["a".to_string(), "".to_string(), "b".to_string()]);
    assert!(split_source(Vec::new()).is_none());
}

#[test]
fn grid_has_cell_count_plus_one_lines_per_axis() {
    let g = layout_grid(2000, 5);
    assert_eq!(g.len(), 12);
    for i in 0..6 {
        assert_eq!(g[2 * i], Segment { from_x: 0, from_y: i * 400, to_x: 2000, to_y: i * 400 });
        assert_eq!(g[2 * i + 1], Segment { from_x: i * 400, from_y: 0, to_x: i * 400, to_y: 2000 });
    }
}

#[test]
fn grid_spacing_uses_integer_division() {
    let g = layout_grid(10, 3);
    assert_eq!(g.len(), 8);
    assert_eq!(g[6], Segment { from_x: 0, from_y: 9, to_x: 10, to_y: 9 });
    assert_eq!(g[7], Segment { from_x: 9, from_y: 0, to_x: 9, to_y: 10 });
}

#[test]
fn cell_single_line_is_vertically_centred() {
    let wrapped = vec!["word".to_string()];
    let c = layout_cell(1, 2, 400, 2000, Ink::Black, &wrapped);
    assert_eq!((c.row, c.col, c.ink, c.scale), (1, 2, Ink::Black, 50));
    assert_eq!(c.lines.len(), 1);
    assert_eq!(c.lines[0].x, 800);
    assert_eq!(c.lines[0].y, 400 + 3 * 50);
    assert_eq!(c.lines[0].text, format!("{:^16}", "word"));
}

#[test]
fn cell_lines_stack_from_first_line() {
    let wrapped = vec!["a".to_string(), "b".to_string(), "c".to_string(), "d".to_string()];
    let c = layout_cell(0, 0, 400, 2000, Ink::Red, &wrapped);
    assert_eq!(c.lines.len(), 4);
    let tops: Vec<usize> = c.lines.iter().map(|l| l.y).collect();
    assert_eq!(tops, vec![50, 100, 150, 200]);
}

#[test]
fn cell_long_text_starts_at_top() {
    let wrapped: Vec<String> = (0..10).map(|i| format!("l{}", i)).collect();
    let c = layout_cell(0, 0, 400, 2000, Ink::Black, &wrapped);
    assert_eq!(c.lines.len(), 10);
    assert_eq!(c.lines[0].y, 0);
    assert_eq!(c.lines[9].y, 450);
}

#[test]
fn cell_lines_below_canvas_are_left_out() {
    let wrapped: Vec<String> = (0..10).map(|i| format!("l{}", i)).collect();
    let c = layout_cell(4, 0, 400, 2000, Ink::Black, &wrapped);
    assert_eq!(c.lines.len(), 9);
    assert_eq!(c.lines[8].y, 2000);
}

#[test]
fn new_rejects_zero_cells() {
    assert_eq!(Bingo::new(2000, 0, phrases("FREE", 24)).err(), Some(SetupError::NoCells));
}

#[test]
fn new_rejects_huge_canvas() {
    let r = Bingo::new(0x4000_0000, 5, phrases("FREE", 24));
    assert_eq!(r.err(), Some(SetupError::CanvasTooLarge));
}

#[test]
fn new_rejects_tiny_cells() {
    assert_eq!(Bingo::new(39, 5, phrases("FREE", 24)).err(), Some(SetupError::CellsTooSmall));
    assert!(Bingo::new(40, 5, phrases("FREE", 24)).is_ok());
}

#[test]
fn new_rejects_empty_source() {
    assert_eq!(Bingo::new(2000, 5, Vec::new()).err(), Some(SetupError::NoBonus));
}

#[test]
fn new_keeps_bonus_out_of_pool() {
    let b = Bingo::new(2000, 5, phrases("FREE SPACE", 3)).unwrap();
    assert_eq!(b.bonus_tile(), "FREE SPACE");
    assert_eq!(b.sources(), &phrases("FREE SPACE", 3)[1..].to_vec());
    assert!(b.card().is_none());
}

#[test]
fn shuffle_is_a_permutation() {
    let lines = phrases("FREE SPACE", 30);
    let mut b = Bingo::new(2000, 5, lines.clone()).unwrap();
    for _ in 0..5 {
        b.shuffle();
        assert_eq!(sorted(b.sources()), sorted(&lines[1..]));
        assert_eq!(b.bonus_tile(), "FREE SPACE");
    }
}

#[test]
fn shuffle_changes_the_order() {
    let lines = phrases("FREE SPACE", 30);
    let mut b = Bingo::new(2000, 5, lines.clone()).unwrap();
    let mut moved = false;
    for _ in 0..5 {
        b.shuffle();
        moved = moved || b.sources()[..] != lines[1..];
    }
    assert!(moved);
}

fn cell_text(c: &bingo::bingo::CellText) -> String {
    c.lines.iter().map(|l| l.text.trim()).collect::<Vec<_>>().join(" ")
}

#[test]
fn full_card_has_bonus_in_centre() {
    let mut b = Bingo::new(2000, 5, phrases("FREE SPACE", 24)).unwrap();
    b.shuffle();
    b.draw();
    let pool = b.sources().clone();
    let card = b.card().as_ref().unwrap();
    assert_eq!(card.side, 2001);
    assert_eq!(card.grid.len(), 12);
    assert_eq!(card.cells.len(), 25);
    let mut shown: Vec<String> = Vec::new();
    for (k, c) in card.cells.iter().enumerate() {
        assert_eq!((c.row, c.col), (k / 5, k % 5));
        if k == 12 {
            assert_eq!(c.ink, Ink::Red);
            assert_eq!(cell_text(c), "FREE SPACE");
        } else {
            assert_eq!(c.ink, Ink::Black);
            let e = if k < 12 { k } else { k - 1 };
            assert_eq!(cell_text(c), pool[e]);
            shown.push(cell_text(c));
        }
    }
    assert_eq!(sorted(&shown), sorted(&pool));
}

#[test]
fn short_pool_leaves_cells_empty() {
    let mut b = Bingo::new(2000, 5, phrases("FREE", 7)).unwrap();
    b.shuffle();
    b.draw();
    let pool = b.sources().clone();
    let card = b.card().as_ref().unwrap();
    assert_eq!(card.cells.len(), 8);
    for k in 0..7 {
        assert_eq!((card.cells[k].row, card.cells[k].col), (k / 5, k % 5));
        assert_eq!(card.cells[k].ink, Ink::Black);
        assert_eq!(cell_text(&card.cells[k]), pool[k]);
    }
    assert_eq!((card.cells[7].row, card.cells[7].col), (2, 2));
    assert_eq!(card.cells[7].ink, Ink::Red);
    assert_eq!(cell_text(&card.cells[7]), "FREE");
    assert_eq!(card.grid.len(), 12);
}

#[test]
fn empty_pool_still_shows_bonus() {
    let mut b = Bingo::new(2000, 5, phrases("FREE SPACE", 0)).unwrap();
    b.draw();
    let card = b.card().as_ref().unwrap();
    assert_eq!(card.cells.len(), 1);
    assert_eq!((card.cells[0].row, card.cells[0].col), (2, 2));
    assert_eq!(card.cells[0].ink, Ink::Red);
    assert_eq!(card.cells[0].lines.len(), 1);
    assert_eq!(card.cells[0].lines[0].x, 800);
    assert_eq!(card.cells[0].lines[0].y, 800 + 3 * 50);
    assert_eq!(card.cells[0].lines[0].text, format!("{:^16}", "FREE SPACE"));
}

#[test]
fn extra_entries_beyond_grid_are_left_out() {
    let mut b = Bingo::new(900, 3, phrases("FREE", 20)).unwrap();
    b.draw();
    let pool = b.sources().clone();
    let card = b.card().as_ref().unwrap();
    assert_eq!(card.cells.len(), 9);
    assert_eq!(card.cells[4].ink, Ink::Red);
    assert_eq!((card.cells[4].row, card.cells[4].col), (1, 1));
    assert_eq!(cell_text(&card.cells[3]), pool[3]);
    assert_eq!(cell_text(&card.cells[5]), pool[4]);
    assert_eq!((card.cells[8].row, card.cells[8].col), (2, 2));
    assert_eq!(cell_text(&card.cells[8]), pool[7]);
}

#[test]
fn blank_phrase_has_no_lines() {
    let pool = vec!["".to_string(), "   ".to_string()];
    let card = layout_card(2000, 5, &pool, &"B".to_string());
    assert_eq!(card.cells.len(), 3);
    assert!(card.cells[0].lines.is_empty());
    assert!(card.cells[1].lines.is_empty());
    assert_eq!(card.cells[2].ink, Ink::Red);
}

#[test]
fn cell_drops_final_empty_line() {
    let wrapped = vec!["".to_string(), "foo".to_string(), "".to_string()];
    let c = layout_cell(0, 0, 400, 2000, Ink::Black, &wrapped);
    assert_eq!(c.lines.len(), 2);
    assert_eq!(c.lines[0].y, 100);
    assert_eq!(c.lines[1].text, format!("{:^16}", "foo"));
    assert!(layout_cell(0, 0, 400, 2000, Ink::Black, &vec!["".to_string()]).lines.is_empty());
}

#[test]
fn layout_is_repeatable() {
    let pool: Vec<String> = (0..24).map(|i| format!("a rather long phrase number {}", i)).collect();
    let bonus = "FREE SPACE".to_string();
    let a = layout_card(2000, 5, &pool, &bonus);
    let b = layout_card(2000, 5, &pool, &bonus);
    assert_eq!(format!("{:?}", a), format!("{:?}", b));
}

#[test]
fn long_phrase_is_wrapped() {
    let pool = vec!["the quick brown fox jumps over the lazy dog".to_string()];
    let card = layout_card(2000, 5, &pool, &"B".to_string());
    let c = &card.cells[0];
    assert!(c.lines.len() > 1);
    for l in &c.lines {
        assert!(l.text.trim().chars().count() <= 14);
        assert_eq!(l.x, 0);
    }
    let text: Vec<&str> = c.lines.iter().map(|l| l.text.trim()).collect();
    assert_eq!(text.join(" "), pool[0]);
}
