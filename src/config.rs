//! What a run is asked to do.
use vstd::prelude::*;

use crate::compiler::Token;
use crate::io::OutputMode;

verus! {

/// The source, the ceiling of a cell, and how to run.
pub struct Config {
    pub raw_code: String,
    pub output_mode: OutputMode,
    pub token_vec: Vec<Token>,
    pub cell_max: u32,
    pub verbose: bool,
    pub repl_mode: bool,
    pub show_ir: bool,
}

impl Config {
    /// No source, cells up to 255, each character written at once, and a
    /// one-shot run without tracing.
    pub fn new() -> (r: Config)
        ensures
            r.raw_code@ == Seq::<char>::empty(),
            r.output_mode == OutputMode::Individually,
            r.token_vec@ == Seq::<Token>::empty(),
            r.cell_max == 255,
            !r.verbose,
            !r.repl_mode,
            !r.show_ir,
    {
        Config {
            raw_code: String::new(),
            output_mode: OutputMode::Individually,
            token_vec: Vec::new(),
            cell_max: 255,
            verbose: false,
            repl_mode: false,
            show_ir: false,
        }
    }
}

impl Default for Config {
    fn default() -> (r: Config)
        ensures
            r.raw_code@ == Seq::<char>::empty(),
            r.output_mode == OutputMode::Individually,
            r.token_vec@ == Seq::<Token>::empty(),
            r.cell_max == 255,
            !r.verbose,
            !r.repl_mode,
            !r.show_ir,
    {
        Config::new()
    }
}

} // verus!
