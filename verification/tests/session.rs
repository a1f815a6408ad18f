use poslib::input::Key;
use poslib::session::{Os, Program, Scene, State, SECOND_MICROS, SPLASH_MICROS};
use poslib::BUFFER_LEN;

fn bit(key: Key) -> u64 {
    1u64 << (key as u8)
}

fn lines_of(os: &Os) -> Vec<String> {
    let mut lines = Vec::new();
    let mut n = 0;
    while let Some(line) = os.cli.console.line(n) {
        lines.push(line);
        n += 1;
    }
    lines
}

#[test]
fn a_new_session_is_in_init() {
    let os = Os::new();
    assert_eq!(os.state(), State::Init);
    assert_eq!(os.total_time(), 0);
    assert!(os.running_program.is_none());
    assert!(os.display.buf.iter().all(|c| *c == 0));
    assert_eq!(os.cli.input_buf, "");
    assert_eq!(os.cli.console.len(), 0);
}

#[test]
fn the_first_tick_leaves_init_for_the_command_line() {
    let mut os = Os::new();
    os.update(16_000);
    assert_eq!(os.state(), State::CommandLineInterface);
    assert_eq!(os.total_time(), 16_000);
    os.update(0);
    assert_eq!(os.state(), State::CommandLineInterface);
}

#[test]
fn init_is_left_even_if_no_time_passes() {
    let mut os = Os::new();
    os.update(0);
    assert_eq!(os.state(), State::CommandLineInterface);
    let mut os = Os::with_splashscreen();
    os.update(0);
    assert_eq!(os.state(), State::Splashscreen);
}

#[test]
fn initialize_picks_the_first_state() {
    let mut os = Os::new();
    os.initialize();
    assert_eq!(os.state(), State::CommandLineInterface);
    assert_eq!(os.total_time(), 0);
    let mut os = Os::with_splashscreen();
    os.initialize();
    assert_eq!(os.state(), State::Splashscreen);
}

#[test]
fn the_splashscreen_stays_for_four_and_a_half_seconds() {
    assert_eq!(SPLASH_MICROS, 4_500_000);
    assert_eq!(SECOND_MICROS, 1_000_000);
    let mut os = Os::with_splashscreen();
    assert_eq!(os.state(), State::Init);
    os.update(1_000_000);
    assert_eq!(os.state(), State::Splashscreen);
    os.update(3_000_000);
    assert_eq!(os.state(), State::Splashscreen);
    os.update(500_000);
    assert_eq!(os.total_time(), 4_500_000);
    assert_eq!(os.state(), State::Splashscreen);
    os.update(1);
    assert_eq!(os.total_time(), 4_500_001);
    assert_eq!(os.state(), State::CommandLineInterface);
    os.update(100_000_000);
    assert_eq!(os.state(), State::CommandLineInterface);
}

#[test]
fn a_late_first_tick_still_shows_the_splashscreen_once() {
    let mut os = Os::with_splashscreen();
    os.update(10_000_000);
    assert_eq!(os.state(), State::Splashscreen);
    os.update(0);
    assert_eq!(os.state(), State::CommandLineInterface);
}

#[test]
fn time_adds_up_and_stops_at_the_largest_value() {
    let mut os = Os::new();
    os.update(5);
    os.update(7);
    assert_eq!(os.total_time(), 12);
    os.update(u64::MAX - 12);
    assert_eq!(os.total_time(), u64::MAX);
    os.update(1);
    assert_eq!(os.total_time(), u64::MAX);
    os.update(u64::MAX);
    assert_eq!(os.total_time(), u64::MAX);
    assert_eq!(os.state(), State::CommandLineInterface);
}

#[test]
fn nothing_is_drawn_in_init() {
    let mut os = Os::new();
    let _ = os.display.set(1, 1, 5);
    assert!(matches!(os.draw(), Scene::Blank));
    assert_eq!(os.display.get(1, 1), 5);
}

#[test]
fn the_splashscreen_is_drawn_on_a_cleared_display() {
    let mut os = Os::with_splashscreen();
    os.update(10);
    let _ = os.display.set(1, 1, 5);
    assert!(matches!(os.draw(), Scene::Splash));
    assert!(os.display.buf.iter().all(|c| *c == 0));
}

#[test]
fn the_command_line_is_drawn_with_its_prompt() {
    let mut os = Os::new();
    os.update(100);
    let _ = os.display.set(1, 1, 5);
    os.update_input(bit(Key::L));
    os.update_input(bit(Key::S));
    match os.draw() {
        Scene::Terminal { prompt } => assert_eq!(prompt, "> LS "),
        _ => panic!("the command line draws a terminal"),
    }
    assert!(os.display.buf.iter().all(|c| *c == 0));
    assert_eq!(os.cli.input_buf, "LS");
}

#[test]
fn the_cursor_shows_in_the_second_half_of_each_second() {
    let mut os = Os::new();
    os.update(500_000);
    match os.draw() {
        Scene::Terminal { prompt } => assert_eq!(prompt, ">  "),
        _ => panic!("the command line draws a terminal"),
    }
    os.update(1);
    match os.draw() {
        Scene::Terminal { prompt } => assert_eq!(prompt, "> _"),
        _ => panic!("the command line draws a terminal"),
    }
    os.update(499_998);
    assert_eq!(os.total_time(), 999_999);
    match os.draw() {
        Scene::Terminal { prompt } => assert_eq!(prompt, "> _"),
        _ => panic!("the command line draws a terminal"),
    }
    os.update(1);
    match os.draw() {
        Scene::Terminal { prompt } => assert_eq!(prompt, ">  "),
        _ => panic!("the command line draws a terminal"),
    }
    os.update(1_600_000);
    match os.draw() {
        Scene::Terminal { prompt } => assert_eq!(prompt, "> _"),
        _ => panic!("the command line draws a terminal"),
    }
}

#[test]
fn keys_reach_the_command_line() {
    let mut os = Os::new();
    os.update(16);
    assert_eq!(os.update_input(bit(Key::L)), None);
    assert_eq!(os.update_input(bit(Key::L)), None);
    assert_eq!(os.update_input(bit(Key::S)), None);
    assert_eq!(os.cli.input_buf, "LS");
    assert_eq!(os.update_input(bit(Key::Return)), Some("bin/LS.wasm".to_string()));
    assert_eq!(os.cli.input_buf, "");
    assert_eq!(lines_of(&os), vec!["> LS"]);
}

#[test]
fn publishing_copies_the_display_into_the_surface() {
    let mut os = Os::new();
    os.display.with_func(|x, y| ((x + y) % 76) as u8);
    let mut surface = vec![200u8; BUFFER_LEN];
    assert!(os.publish(Some(&mut surface)));
    assert!(surface[..] == os.display.buf[..]);
    assert_eq!(surface[337], 2);
}

#[test]
fn publishing_is_skipped_when_the_surface_cannot_be_had() {
    let mut os = Os::new();
    os.display.clear(7);
    let surface = vec![200u8; BUFFER_LEN];
    assert!(!os.publish(None));
    assert!(surface.iter().all(|c| *c == 200));
    assert!(os.display.buf.iter().all(|c| *c == 7));
}

#[test]
fn a_started_program_runs() {
    let mut os = Os::new();
    let program = Program::new(42, vec![0, 97, 115, 109]);
    assert_eq!(os.start_program(Ok(program)), Ok(()));
    assert_eq!(os.running_program.as_ref().map(|p| p.id), Some(42));
    assert_eq!(os.cli.console.len(), 0);
}

#[test]
fn a_later_program_takes_the_place_of_the_earlier() {
    let mut os = Os::new();
    assert_eq!(os.start_program(Ok(Program::new(1, vec![]))), Ok(()));
    assert_eq!(os.start_program(Ok(Program::new(2, vec![1]))), Ok(()));
    assert_eq!(os.running_program.as_ref().map(|p| p.id), Some(2));
}

#[test]
fn a_failure_to_start_is_printed_on_the_console() {
    let mut os = Os::new();
    assert_eq!(os.start_program(Ok(Program::new(1, vec![]))), Ok(()));
    let failed = os.start_program(Err("file not found".to_string()));
    assert_eq!(failed, Err("file not found".to_string()));
    assert_eq!(lines_of(&os), vec!["file not found"]);
    assert_eq!(os.running_program.as_ref().map(|p| p.id), Some(1));
}

#[test]
fn typing_ls_and_return_end_to_end() {
    let mut os = Os::new();
    let mut surface = vec![0u8; BUFFER_LEN];
    let ticks = [bit(Key::L), 0, bit(Key::S), 0, bit(Key::Return), 0];
    for keys in ticks {
        if let Some(path) = os.update_input(keys) {
            assert_eq!(path, "bin/LS.wasm");
            let failed = os.start_program(Err(format!("cannot start {}", path)));
            assert!(failed.is_err());
        }
        os.update(16_667);
        let scene = os.draw();
        assert!(matches!(scene, Scene::Terminal { .. }));
        let text = os.cli.flush_to_display(None);
        assert!(text.is_empty() || text.starts_with("> LS\n"));
        assert!(os.publish(Some(&mut surface)));
    }
    assert_eq!(lines_of(&os), vec!["> LS", "cannot start bin/LS.wasm"]);
    assert_eq!(os.cli.input_buf, "");
    assert!(os.running_program.is_none());
    assert_eq!(os.state(), State::CommandLineInterface);
    assert_eq!(os.total_time(), 100_002);
}

#[test]
fn a_local_command_end_to_end() {
    let mut os = Os::new();
    os.update(16);
    for keys in [bit(Key::Period), 0, bit(Key::L), bit(Key::L) | bit(Key::S), 0] {
        assert_eq!(os.update_input(keys), None);
    }
    assert_eq!(os.cli.input_buf, ".LS");
    assert_eq!(os.update_input(bit(Key::Return)), None);
    assert_eq!(
        lines_of(&os),
        vec!["> .LS", "Running local executables not supported yet!"]
    );
    assert_eq!(os.cli.input_buf, "");
}
