use brainfuck_hcy::{input_to_u32, raw_code_to_token_vec, Event, Machine, Memory, MyError, OutputMode};

const HELLO: &str = "++++++++[>++++[>++>+++>+++>+<<<<-]>+>+>->>+[<]<-]>>.>---.+++++++..+++.";

fn machine(code: &str, cell_max: u32) -> Machine {
    Machine::new(cell_max, OutputMode::Bulk, raw_code_to_token_vec(code).unwrap())
}

fn run_to_end(m: &mut Machine) -> Result<Event, MyError> {
    loop {
        match m.run(1_000_000)? {
            Event::Continue | Event::Printed(_) => {}
            other => return Ok(other),
        }
    }
}

#[test]
fn hello_program_writes_hello() {
    let mut m = machine(HELLO, 255);
    assert_eq!(run_to_end(&mut m).unwrap(), Event::Finished);
    assert_eq!(m.io().buffer_to_string(), "Hello");
}

#[test]
fn each_write_is_reported_as_printed() {
    let mut m = machine("+++++++++++++++++++++++++++++++++.+.", 255);
    assert_eq!(m.run(100).unwrap(), Event::Printed('!'));
    assert_eq!(m.run(100).unwrap(), Event::Printed('"'));
    assert_eq!(m.run(100).unwrap(), Event::Finished);
}

#[test]
fn run_stops_when_fuel_runs_out() {
    let mut m = machine("+[]", 255);
    assert_eq!(m.run(50).unwrap(), Event::Continue);
}

#[test]
fn move_left_from_first_cell_underflows() {
    let mut m = machine("<", 255);
    match m.run(10) {
        Err(MyError::PointerUnderflow { ptr: 0, n: 1 }) => {}
        other => panic!("unexpected {:?}", other),
    }
}

#[test]
fn move_left_past_start_after_moves_right_underflows() {
    let mut m = machine(">><<<", 255);
    match m.run(10) {
        Err(MyError::PointerUnderflow { ptr: 2, n: 3 }) => {}
        other => panic!("unexpected {:?}", other),
    }
    assert_eq!(m.memory().ptr(), 2);
}

#[test]
fn writing_a_surrogate_fails() {
    let mut m = machine(",.", 65535);
    assert_eq!(m.run(10).unwrap(), Event::NeedsInput);
    assert_eq!(m.input_line("55296u32\n").unwrap(), false);
    match m.run(10) {
        Err(MyError::InvalidScalar(55296)) => {}
        other => panic!("unexpected {:?}", other),
    }
}

#[test]
fn writing_zero_gives_the_null_character() {
    let mut m = machine(".", 255);
    assert_eq!(m.run(10).unwrap(), Event::Printed('\0'));
    assert_eq!(m.io().buffer_to_string(), "\0");
}

#[test]
fn input_goes_to_the_current_cell() {
    let mut m = machine(">,+.", 255);
    assert_eq!(m.run(10).unwrap(), Event::NeedsInput);
    assert!(m.is_awaiting_input());
    assert_eq!(m.input_line("A\n").unwrap(), false);
    assert_eq!(m.run(10).unwrap(), Event::Printed('B'));
    assert_eq!(m.memory().cells(), &vec![0, 66]);
}

#[test]
fn input_above_the_ceiling_fails() {
    let mut m = machine(",", 255);
    assert_eq!(m.run(10).unwrap(), Event::NeedsInput);
    match m.input_line("300u32\n") {
        Err(MyError::InputOutOfRange { value: 300, max: 255 }) => {}
        other => panic!("unexpected {:?}", other),
    }
    assert!(m.is_awaiting_input());
}

#[test]
fn input_at_end_of_input_stores_zero() {
    let mut m = machine("+,", 255);
    assert_eq!(m.run(10).unwrap(), Event::NeedsInput);
    assert_eq!(m.input_line("").unwrap(), true);
    assert_eq!(m.memory().cells(), &vec![0]);
    assert_eq!(m.run(10).unwrap(), Event::Finished);
}

#[test]
fn input_line_parsing() {
    assert_eq!(input_to_u32("65u32\n").unwrap(), (65, false));
    assert_eq!(input_to_u32("  +7u32 \n").unwrap(), (7, false));
    assert_eq!(input_to_u32("4294967295u32").unwrap(), (4294967295, false));
    assert_eq!(input_to_u32("a\n").unwrap(), (97, false));
    assert_eq!(input_to_u32("b\r\n").unwrap(), (98, false));
    assert_eq!(input_to_u32("\n").unwrap(), (10, false));
    assert_eq!(input_to_u32("\r\n").unwrap(), (10, false));
    assert_eq!(input_to_u32("").unwrap(), (0, true));
    assert_eq!(input_to_u32("é\n").unwrap(), (233, false));
}

#[test]
fn input_line_errors() {
    assert!(matches!(input_to_u32("ab\n"), Err(MyError::InputTooLong)));
    assert!(matches!(input_to_u32("ab\r\n"), Err(MyError::InputTooLong)));
    assert!(matches!(input_to_u32("xu32\n"), Err(MyError::Parse(_))));
    assert!(matches!(input_to_u32("u32\n"), Err(MyError::Parse(_))));
    assert!(matches!(input_to_u32("4294967296u32\n"), Err(MyError::Parse(_))));
}

#[test]
fn tape_wraps_on_increment_and_decrement() {
    let mut t = Memory::new(255);
    t.data_increase(250);
    t.data_increase(10);
    assert_eq!(t.output(), 4);
    t.data_decrease(5);
    assert_eq!(t.output(), 255);
    t.data_increase(256);
    assert_eq!(t.output(), 255);
    t.data_decrease(300);
    assert_eq!(t.output(), 211);
    t.data_increase(300);
    assert_eq!(t.output(), 255);
}

#[test]
fn tape_wraps_at_the_widest_ceiling() {
    let mut t = Memory::new(u32::MAX);
    t.data_decrease(1);
    assert_eq!(t.output(), u32::MAX);
    t.data_increase(2);
    assert_eq!(t.output(), 1);
}

#[test]
fn full_turns_leave_a_cell_unchanged() {
    let mut t = Memory::new(65535);
    t.data_increase(1234);
    for _ in 0..3 {
        t.data_increase(65535);
        t.data_increase(1);
    }
    assert_eq!(t.output(), 1234);
}

#[test]
fn decrement_undoes_increment() {
    for v in [0u32, 1, 100, 254, 255] {
        for n in [0u32, 1, 7, 200, 255, 256, 1000] {
            let mut t = Memory::new(255);
            t.input(v);
            t.data_increase(n);
            t.data_decrease(n);
            assert_eq!(t.output(), v);
        }
    }
}

#[test]
fn moving_right_grows_the_tape_with_zeros() {
    let mut t = Memory::new(255);
    t.data_increase(9);
    t.ptr_increase(3);
    assert_eq!(t.cells(), &vec![9, 0, 0, 0]);
    assert_eq!(t.ptr(), 3);
    t.data_increase(1);
    assert!(t.ptr_decrease(2).is_ok());
    t.ptr_increase(1);
    assert_eq!(t.cells(), &vec![9, 0, 0, 1]);
    assert_eq!(t.ptr(), 2);
}

#[test]
fn moving_left_past_the_first_cell_fails_and_keeps_the_tape() {
    let mut t = Memory::new(255);
    t.ptr_increase(1);
    assert!(matches!(t.ptr_decrease(2), Err(MyError::PointerUnderflow { ptr: 1, n: 2 })));
    assert_eq!(t.ptr(), 1);
    assert_eq!(t.cells(), &vec![0, 0]);
}
