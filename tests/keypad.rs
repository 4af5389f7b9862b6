use wheel_controller::keypad::Keypad;

fn open(cols: usize, rows: usize) -> Vec<Vec<bool>> {
    vec![vec![false; cols]; rows]
}

#[test]
fn keypad_starts_empty() {
    let k = Keypad::new(4, 4);
    assert_eq!(k.states(), 0);
    assert_eq!(k.cols(), 4);
    assert_eq!(k.rows(), 4);
}

#[test]
fn all_open_matrix_scans_zero() {
    let mut k = Keypad::new(4, 4);
    k.record_scan(&open(4, 4));
    assert_eq!(k.states(), 0);
}

#[test]
fn single_key_sets_its_bit() {
    for r in 0..4 {
        for c in 0..4 {
            let mut k = Keypad::new(4, 4);
            let mut levels = open(4, 4);
            levels[r][c] = true;
            k.record_scan(&levels);
            assert_eq!(k.states(), 1u16 << (r * 4 + c));
        }
    }
}

#[test]
fn several_keys_and_rescan() {
    let mut k = Keypad::new(4, 4);
    let mut levels = open(4, 4);
    levels[0][0] = true;
    levels[1][2] = true;
    levels[3][3] = true;
    k.record_scan(&levels);
    assert_eq!(k.states(), 0x8041);
    k.record_scan(&open(4, 4));
    assert_eq!(k.states(), 0);
}

#[test]
fn non_square_matrix_layout() {
    let mut k = Keypad::new(2, 3);
    let mut levels = open(2, 3);
    levels[2][1] = true;
    levels[1][0] = true;
    k.record_scan(&levels);
    assert_eq!(k.states(), (1 << 5) | (1 << 2));
}

#[test]
fn empty_matrix() {
    let mut k = Keypad::new(0, 0);
    k.record_scan(&Vec::new());
    assert_eq!(k.states(), 0);
}
