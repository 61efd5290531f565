use button_matrix::control::{is_quit, KeyInput, Shutdown};

#[test]
fn quit_keys() {
    assert!(is_quit(KeyInput::Char('q')));
    assert!(is_quit(KeyInput::Ctrl('c')));
    assert!(!is_quit(KeyInput::Char('c')));
    assert!(!is_quit(KeyInput::Ctrl('q')));
    assert!(!is_quit(KeyInput::Other));
}

#[test]
fn flag_is_set_once_and_never_reset() {
    let mut s = Shutdown::new();
    assert!(!s.requested());
    assert!(!s.on_key(KeyInput::Char('a')));
    assert!(!s.requested());
    assert!(s.on_key(KeyInput::Char('q')));
    assert!(s.requested());
    assert!(!s.on_key(KeyInput::Other));
    assert!(s.requested());
}

#[test]
fn loop_stops_at_most_one_cycle_after_quit() {
    let mut s = Shutdown::new();
    let mut cycles_after_quit = 0;
    let mut quit_delivered = false;
    let mut cycle = 0;
    loop {
        if !s.run_cycle() {
            break;
        }
        // the key arrives while cycle 3 is in flight
        if cycle == 3 {
            s.on_key(KeyInput::Ctrl('c'));
            quit_delivered = true;
        }
        if quit_delivered {
            cycles_after_quit += 1;
        }
        cycle += 1;
        assert!(cycle < 100);
    }
    assert_eq!(cycles_after_quit, 1);
    assert_eq!(cycle, 4);
}
