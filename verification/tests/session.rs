use life_session::session::Session;

const GLIDER: &str = "bob$2bo$3o!";

fn alpha_indices(bitmap: &[u8]) -> Vec<usize> {
    let mut alive = Vec::new();
    let mut i = 0;
    while 4 * i + 3 < bitmap.len() {
        if bitmap[4 * i + 3] == 255 {
            alive.push(i);
        } else {
            assert_eq!(bitmap[4 * i + 3], 0);
        }
        i += 1;
    }
    alive
}

#[test]
fn load_glider_reports_ok() {
    let mut s = Session::new();
    assert_eq!(s.margin, 100);
    assert!(s.sim.is_none());
    assert!(s.bitmap.is_empty());
    let (ok, msg) = s.load(GLIDER);
    assert!(ok);
    assert_eq!(msg, "ok");
    let sim = s.sim.as_ref().expect("simulation active after load");
    assert_eq!(sim.width, 203);
    assert_eq!(sim.height, 203);
    assert_eq!(s.bitmap.len(), 4 * 203 * 203);
}

#[test]
fn draw_after_load_sets_alpha_of_glider_cells() {
    let mut s = Session::new();
    let (ok, _) = s.load(GLIDER);
    assert!(ok);
    let (ok, msg) = s.draw();
    assert!(ok);
    assert_eq!(msg, "ok");
    let expected: Vec<usize> = vec![
        100 * 203 + 101,
        101 * 203 + 102,
        102 * 203 + 100,
        102 * 203 + 101,
        102 * 203 + 102,
    ];
    assert_eq!(alpha_indices(&s.bitmap), expected);
}

#[test]
fn load_failure_reports_message_and_clears_simulation() {
    let mut s = Session::new();
    let (ok, _) = s.load(GLIDER);
    assert!(ok);
    assert!(s.sim.is_some());
    let (ok, msg) = s.load("a!");
    assert!(!ok);
    assert!(!msg.is_empty());
    assert_eq!(msg, "unrecognized character in pattern");
    assert!(s.sim.is_none());
    assert!(s.bitmap.is_empty());
}

#[test]
fn expand_reports_surface_attributes_at_twice_the_grid() {
    let mut s = Session::new();
    let (ok, _) = s.load(GLIDER);
    assert!(ok);
    let ss = s.expand(1).expect("glider decodes under margin 1");
    assert_eq!(s.margin, 1);
    assert_eq!(ss.width, 5);
    assert_eq!(ss.height, 5);
    assert_eq!(ss.style_width, 10);
    assert_eq!(ss.style_height, 10);
}

#[test]
fn expand_failure_comes_back_without_touching_the_surface_values() {
    let mut s = Session::new();
    let r = s.expand(1);
    assert_eq!(r.unwrap_err(), "pattern is not terminated");
    assert!(s.sim.is_none());
}

#[test]
fn expand_with_huge_margin_is_rejected() {
    let mut s = Session::new();
    let (ok, _) = s.load(GLIDER);
    assert!(ok);
    let r = s.expand(usize::MAX);
    assert_eq!(r.unwrap_err(), "pattern too large to render");
    assert!(s.sim.is_none());
}

#[test]
fn bitmap_is_zeroed_and_sized_after_reinitialize() {
    let mut s = Session::new();
    let (ok, _) = s.load(GLIDER);
    assert!(ok);
    s.draw().0.then_some(()).unwrap();
    let ss = s.expand(1).expect("reinitialize under margin 1");
    assert_eq!(s.bitmap.len(), 4 * (ss.width * ss.height));
    assert!(s.bitmap.iter().all(|&b| b == 0));
}

#[test]
fn reinitialize_replaces_never_merges() {
    let mut s = Session::new();
    let (ok, _) = s.load(GLIDER);
    assert!(ok);
    let ss = s.expand(1).expect("glider under margin 1");
    assert_eq!((ss.width, ss.height), (5, 5));
    let (ok, msg) = s.load("o!");
    assert!(ok);
    assert_eq!(msg, "ok");
    let sim = s.sim.as_ref().unwrap();
    assert_eq!((sim.width, sim.height), (3, 3));
    let alive: Vec<usize> =
        (0..9).filter(|&i| sim.cells[i]).collect();
    assert_eq!(alive, vec![4]);
    assert_eq!(s.bitmap.len(), 4 * 9);
}

#[test]
fn glider_advances_to_the_known_next_generations() {
    let mut s = Session::new();
    let (ok, _) = s.load(GLIDER);
    assert!(ok);
    s.expand(1).expect("glider under margin 1");
    let (ok, _) = s.draw();
    assert!(ok);
    assert_eq!(alpha_indices(&s.bitmap), vec![7, 13, 16, 17, 18]);
    s.step();
    let (ok, _) = s.draw();
    assert!(ok);
    assert_eq!(alpha_indices(&s.bitmap), vec![11, 13, 17, 18, 22]);
    s.step();
    let (ok, _) = s.draw();
    assert!(ok);
    assert_eq!(alpha_indices(&s.bitmap), vec![13, 16, 18, 22, 23]);
}

#[test]
fn draw_leaves_color_channels_alone() {
    let mut s = Session::new();
    let (ok, _) = s.load(GLIDER);
    assert!(ok);
    s.expand(1).expect("glider under margin 1");
    let (ok, _) = s.draw();
    assert!(ok);
    for i in 0..25 {
        assert_eq!(s.bitmap[4 * i], 0);
        assert_eq!(s.bitmap[4 * i + 1], 0);
        assert_eq!(s.bitmap[4 * i + 2], 0);
    }
}

#[test]
fn step_n_times_matches_the_engine_n_fold() {
    let mut s = Session::new();
    let (ok, _) = s.load("3o!");
    assert!(ok);
    s.expand(1).expect("blinker under margin 1");
    let initial = s.sim.as_ref().unwrap().cells.clone();
    let w = s.sim.as_ref().unwrap().width;
    let h = s.sim.as_ref().unwrap().height;
    assert_eq!((w, h), (5, 3));
    let mut expected = initial.clone();
    for _ in 0..4 {
        s.step();
        expected = life_session::engine::step_cells(&expected, w, h);
        assert_eq!(s.sim.as_ref().unwrap().cells, expected);
    }
    let alive: Vec<usize> = (0..15).filter(|&i| expected[i]).collect();
    assert_eq!(alive, vec![6, 7, 8]);
}

#[test]
fn blinker_oscillates_with_period_two() {
    let mut s = Session::new();
    let (ok, _) = s.load("3o!");
    assert!(ok);
    s.expand(1).expect("blinker under margin 1");
    let start = s.sim.as_ref().unwrap().cells.clone();
    s.step();
    let mid: Vec<usize> =
        (0..15).filter(|&i| s.sim.as_ref().unwrap().cells[i]).collect();
    assert_eq!(mid, vec![2, 7, 12]);
    s.step();
    assert_eq!(s.sim.as_ref().unwrap().cells, start);
}

#[test]
fn reload_uses_stored_text_and_margin() {
    let mut s = Session::new();
    let (ok, _) = s.load("o!");
    assert!(ok);
    s.expand(0).expect("single cell under margin 0");
    let sim = s.sim.as_ref().unwrap();
    assert_eq!((sim.width, sim.height), (1, 1));
    assert!(sim.cells[0]);
    assert!(s.reload().is_ok());
    let sim = s.sim.as_ref().unwrap();
    assert_eq!((sim.width, sim.height), (1, 1));
}
