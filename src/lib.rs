//! An interpreter for the eight-instruction tape language: a compiler from
//! source text to jump-resolved instructions, a bounded growable tape, and an
//! execution engine shared by one-shot runs and an interactive session.
use vstd::prelude::*;

pub mod compiler;
pub mod config;
pub mod errors;
pub mod interpreter;
pub mod io;
pub mod memory;
pub mod repl;

pub use compiler::{raw_code_to_token_vec, Token};
pub use config::Config;
pub use errors::{CompileError, CompileErrorKind, MyError};
pub use interpreter::{Event, ExecQueue, Machine};
pub use io::{input_to_u32, OutputMode, IO};
pub use memory::Memory;
pub use repl::{ReplCommand, Session};

use compiler::compile;
use interpreter::MachineView;
use memory::MemoryView;
use repl::SessionView;

verus! {

/// What a configuration leads to once its source has compiled.
pub enum Launch {
    /// Show the instructions instead of running them.
    ShowIr(Vec<Token>),
    /// Run the program once, on a fresh tape.
    Program(Machine),
    /// Start an interactive session on a fresh tape.
    Repl(Session),
}

/// Compiles the configured source and prepares what the configuration asks
/// for: the instructions to show, a machine at the program's start, or a
/// session; fails with the compile error of the source.
pub fn run(config: Config) -> (r: Result<Launch, MyError>)
    requires
        config.raw_code@.len() < u32::MAX,
    ensures
        match compile(config.raw_code@) {
            Err(e) => r matches Err(MyError::Compile(c)) && c == e,
            Ok(t) => match r {
                Ok(Launch::ShowIr(v)) => config.show_ir && v@ == t,
                Ok(Launch::Program(m)) => !config.show_ir && !config.repl_mode && m.wf()
                    && m.mode() == config.output_mode
                    && m@ == (MachineView {
                        mem: MemoryView::initial(config.cell_max),
                        out: Seq::empty(),
                        prog: t,
                        ip: 0,
                    }),
                Ok(Launch::Repl(s)) => !config.show_ir && config.repl_mode && s.wf()
                    && s.mode() == config.output_mode
                    && s@ == (SessionView {
                        machine: MachineView {
                            mem: MemoryView::initial(config.cell_max),
                            out: Seq::empty(),
                            prog: Seq::empty(),
                            ip: 0,
                        },
                        verbose: config.verbose,
                    }),
                Err(_) => false,
            },
        },
{
    let mut config = config;
    config.token_vec = match raw_code_to_token_vec(config.raw_code.as_str()) {
        Ok(v) => v,
        Err(e) => return Err(e),
    };
    if config.show_ir {
        Ok(Launch::ShowIr(config.token_vec))
    } else if config.repl_mode {
        Ok(Launch::Repl(Session::new(config.cell_max, config.output_mode, config.verbose)))
    } else {
        Ok(Launch::Program(Machine::new(config.cell_max, config.output_mode, config.token_vec)))
    }
}

} // verus!
