use brainfuck_hcy::{run, Config, Event, Launch, MyError, OutputMode, ReplCommand, Session, Token};

fn run_line(s: &mut Session, line: &str) -> Result<Vec<char>, MyError> {
    let mut printed = Vec::new();
    if s.handle_line(line)? != ReplCommand::Code {
        return Ok(printed);
    }
    loop {
        match s.run(1_000_000)? {
            Event::Printed(c) => printed.push(c),
            Event::Continue => {}
            _ => return Ok(printed),
        }
    }
}

#[test]
fn clear_resets_tape_and_output() {
    let mut s = Session::new(255, OutputMode::Individually, false);
    assert_eq!(run_line(&mut s, "+").unwrap(), vec![]);
    assert_eq!(run_line(&mut s, ".").unwrap(), vec!['\u{1}']);
    assert_eq!(s.handle_line("clear").unwrap(), ReplCommand::Clear);
    assert_eq!(s.machine().memory().cells(), &vec![0]);
    assert_eq!(run_line(&mut s, ".").unwrap(), vec!['\0']);
    assert_eq!(s.machine().io().buffer(), &vec![0]);
}

#[test]
fn state_survives_across_lines() {
    let mut s = Session::new(255, OutputMode::Bulk, false);
    run_line(&mut s, "++>+++").unwrap();
    run_line(&mut s, "<+").unwrap();
    assert_eq!(s.machine().memory().cells(), &vec![3, 3]);
    assert_eq!(s.machine().memory().ptr(), 0);
}

#[test]
fn session_survives_errors() {
    let mut s = Session::new(255, OutputMode::Bulk, false);
    run_line(&mut s, "+++").unwrap();
    assert!(matches!(run_line(&mut s, "<"), Err(MyError::PointerUnderflow { ptr: 0, n: 1 })));
    assert!(matches!(s.handle_line("[+"), Err(MyError::Compile(_))));
    run_line(&mut s, "+").unwrap();
    assert_eq!(s.machine().memory().cells(), &vec![4]);
}

#[test]
fn commands_are_recognised_after_trimming() {
    let mut s = Session::new(255, OutputMode::Bulk, false);
    assert_eq!(s.handle_line("  v \n").unwrap(), ReplCommand::Verbose);
    assert!(s.verbose());
    assert_eq!(s.handle_line("uv\n").unwrap(), ReplCommand::Quiet);
    assert!(!s.verbose());
    assert_eq!(s.handle_line("?").unwrap(), ReplCommand::Help);
    assert_eq!(s.handle_line("help\n").unwrap(), ReplCommand::Help);
    assert_eq!(s.handle_line("exit\n").unwrap(), ReplCommand::Exit);
    assert_eq!(s.handle_line("exits").unwrap(), ReplCommand::Code);
}

#[test]
fn config_defaults() {
    let c = Config::new();
    assert_eq!(c.raw_code, "");
    assert_eq!(c.output_mode, OutputMode::Individually);
    assert!(c.token_vec.is_empty());
    assert_eq!(c.cell_max, 255);
    assert!(!c.verbose && !c.repl_mode && !c.show_ir);
}

#[test]
fn run_shows_instructions_when_asked() {
    let mut c = Config::new();
    c.raw_code = String::from("++[-]");
    c.show_ir = true;
    match run(c) {
        Ok(Launch::ShowIr(v)) => assert_eq!(
            v,
            vec![Token::DataIncrease(2), Token::JumpForward(3), Token::DataDecrease(1), Token::JumpBack(1)]
        ),
        _ => panic!("expected the instructions"),
    }
}

#[test]
fn run_prepares_a_program() {
    let mut c = Config::new();
    c.raw_code = String::from("+++.");
    c.cell_max = 65535;
    match run(c) {
        Ok(Launch::Program(mut m)) => {
            assert_eq!(m.memory().cell_max(), 65535);
            assert_eq!(m.run(10).unwrap(), Event::Printed('\u{3}'));
        }
        _ => panic!("expected a program"),
    }
}

#[test]
fn run_prepares_a_session() {
    let mut c = Config::new();
    c.repl_mode = true;
    c.verbose = true;
    match run(c) {
        Ok(Launch::Repl(s)) => assert!(s.verbose()),
        _ => panic!("expected a session"),
    }
}

#[test]
fn run_reports_compile_errors() {
    let mut c = Config::new();
    c.raw_code = String::from("+]");
    assert!(matches!(run(c), Err(MyError::Compile(_))));
}
