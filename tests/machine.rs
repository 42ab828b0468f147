use brainfuck::Machine;

#[test]
fn fresh_machine_has_one_zero_cell() {
    let m = Machine::new();
    assert_eq!(m.position(), 0);
    assert_eq!(m.get_data(), 0);
    let d = Machine::default();
    assert_eq!(d.position(), 0);
    assert_eq!(d.get_data(), 0);
}

#[test]
fn increment_256_times_is_identity() {
    let mut m = Machine::new();
    m.inc_data();
    m.inc_data();
    m.inc_data();
    for _ in 0..256 {
        m.inc_data();
    }
    assert_eq!(m.get_data(), 3);
}

#[test]
fn decrement_inverts_increment() {
    let mut m = Machine::new();
    m.inc_data();
    m.dec_data();
    assert_eq!(m.get_data(), 0);
    m.dec_data();
    assert_eq!(m.get_data(), 255);
    m.inc_data();
    assert_eq!(m.get_data(), 0);
}

#[test]
fn increment_wraps_at_255() {
    let mut m = Machine::new();
    for _ in 0..255 {
        m.inc_data();
    }
    assert_eq!(m.get_data(), 255);
    m.inc_data();
    assert_eq!(m.get_data(), 0);
}

#[test]
fn right_then_left_returns_to_the_cell() {
    let mut m = Machine::new();
    m.inc_data();
    m.inc_data();
    m.inc_ptr();
    assert_eq!(m.position(), 1);
    assert_eq!(m.get_data(), 0);
    m.dec_ptr();
    assert_eq!(m.position(), 0);
    assert_eq!(m.get_data(), 2);
}

#[test]
fn left_at_edge_adds_a_zero_cell() {
    let mut m = Machine::new();
    m.inc_data();
    m.dec_ptr();
    assert_eq!(m.position(), 0);
    assert_eq!(m.get_data(), 0);
    m.inc_ptr();
    assert_eq!(m.position(), 1);
    assert_eq!(m.get_data(), 1);
}

#[test]
fn cells_keep_their_values_across_moves() {
    let mut m = Machine::new();
    m.inc_data();
    m.inc_ptr();
    m.dec_data();
    m.inc_ptr();
    m.inc_data();
    m.inc_data();
    m.dec_ptr();
    assert_eq!(m.get_data(), 255);
    m.dec_ptr();
    assert_eq!(m.get_data(), 1);
    m.inc_ptr();
    m.inc_ptr();
    assert_eq!(m.get_data(), 2);
}
