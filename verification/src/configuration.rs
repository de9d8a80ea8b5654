//! The options that the analysis reads.

use vstd::prelude::*;
use crate::header::{MAX_LOOPS, STACK_ADDRESS};

verus! {

/// Which renderings of the result are asked for.
#[derive(Debug, Clone, Copy, PartialEq, Eq, Structural)]
pub struct OutputConfig {
    /// Print the disassembly.
    pub disassembly: bool,
    /// Render the function table.
    pub functions: bool,
    /// Render the header with its imports.
    pub imports: bool,
    /// Render the instruction map.
    pub disasm_json: bool,
}

/// The options for x86 code.
#[derive(Debug, Clone, Copy, PartialEq, Eq, Structural)]
pub struct ConfigX86 {
    /// Emulate the instructions of code, to resolve indirect targets.
    pub emulation_enabled: bool,
    /// Run the signature matcher over the function table.
    pub flirt_enabled: bool,
    /// Bound on the visits of one address along one lineage.
    pub loop_default_case: usize,
    /// Base address of the stack region.
    pub stack_address: u64,
    /// Size of the stack region for a raw buffer; 0 asks for the default.
    pub stack_size: u64,
    /// Address at which a raw buffer is loaded; 0 asks for the default.
    pub start_address: u64,
    /// Entry point of a raw buffer, as an offset from where it is loaded.
    pub entry_point: u64,
    pub output: OutputConfig,
}

/// The options of an analysis.
#[derive(Debug, Clone, Copy, PartialEq, Eq, Structural)]
pub struct Config {
    pub x86: ConfigX86,
}

impl Config {
    pub open spec fn spec_new() -> Config {
        Config {
            x86: ConfigX86 {
                emulation_enabled: true,
                flirt_enabled: false,
                loop_default_case: MAX_LOOPS,
                stack_address: STACK_ADDRESS,
                stack_size: 0,
                start_address: 0,
                entry_point: 0,
                output: OutputConfig {
                    disassembly: true,
                    functions: true,
                    imports: true,
                    disasm_json: true,
                },
            },
        }
    }

    /// The default options: emulation on, no signature matching, the
    /// default loop bound and stack, every rendering.
    pub fn new() -> (config: Config)
        ensures
            config == Config::spec_new(),
    {
        Config {
            x86: ConfigX86 {
                emulation_enabled: true,
                flirt_enabled: false,
                loop_default_case: MAX_LOOPS,
                stack_address: STACK_ADDRESS,
                stack_size: 0,
                start_address: 0,
                entry_point: 0,
                output: OutputConfig {
                    disassembly: true,
                    functions: true,
                    imports: true,
                    disasm_json: true,
                },
            },
        }
    }
}

} // verus!
