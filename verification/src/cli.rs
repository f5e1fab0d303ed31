//! Command line options.
use vstd::prelude::*;
use crate::text::{copy_string, owned};

verus! {

broadcast use vstd::string::group_string_axioms;

/// Log verbosity levels accepted by `--log-level`.
#[derive(Debug, Clone, Copy, PartialEq, Eq, Structural)]
pub enum LogLevel {
    Off,
    Error,
    Warn,
    Info,
    Debug,
    Trace,
}

/// The lowercase name of a level.
pub open spec fn level_name(l: LogLevel) -> Seq<char> {
    match l {
        LogLevel::Off => seq!['o', 'f', 'f'],
        LogLevel::Error => seq!['e', 'r', 'r', 'o', 'r'],
        LogLevel::Warn => seq!['w', 'a', 'r', 'n'],
        LogLevel::Info => seq!['i', 'n', 'f', 'o'],
        LogLevel::Debug => seq!['d', 'e', 'b', 'u', 'g'],
        LogLevel::Trace => seq!['t', 'r', 'a', 'c', 'e'],
    }
}

impl Default for LogLevel {
    fn default() -> (r: LogLevel)
        ensures
            r == LogLevel::Info,
    {
        LogLevel::Info
    }
}

impl LogLevel {
    /// The level's lowercase name, as the logger filter takes it.
    pub fn name(&self) -> (r: String)
        ensures
            r@ == level_name(*self),
    {
        match self {
            LogLevel::Off => {
                let s = owned("off");
                proof {
                    reveal_strlit("off");
                }
                assert(s@ =~= level_name(*self));
                s
            },
            LogLevel::Error => {
                let s = owned("error");
                proof {
                    reveal_strlit("error");
                }
                assert(s@ =~= level_name(*self));
                s
            },
            LogLevel::Warn => {
                let s = owned("warn");
                proof {
                    reveal_strlit("warn");
                }
                assert(s@ =~= level_name(*self));
                s
            },
            LogLevel::Info => {
                let s = owned("info");
                proof {
                    reveal_strlit("info");
                }
                assert(s@ =~= level_name(*self));
                s
            },
            LogLevel::Debug => {
                let s = owned("debug");
                proof {
                    reveal_strlit("debug");
                }
                assert(s@ =~= level_name(*self));
                s
            },
            LogLevel::Trace => {
                let s = owned("trace");
                proof {
                    reveal_strlit("trace");
                }
                assert(s@ =~= level_name(*self));
                s
            },
        }
    }
}

/// The command line options of the annotator.
#[derive(Debug, Clone)]
pub struct Cli {
    /// The ELF file to process.
    pub elf: String,
    /// The function to annotate (a substring of its symbol name).
    pub function: Option<String>,
    /// Skip DWARF source mapping.
    pub no_dwarf: bool,
    /// Do not demangle C++ symbol names.
    pub no_demangle: bool,
    /// Source path prefix remappings, as OLD NEW pairs in one flat list.
    pub remap: Vec<String>,
    /// The logging level.
    pub log_level: LogLevel,
    /// Source context lines: `N`, or `N:M` for N around blocks and M between lines.
    pub context: String,
    /// Print a plain-text annotation instead of running the interface.
    pub dump: bool,
}

impl Cli {
    /// A copy of these options.
    pub fn duplicate(&self) -> (r: Cli)
        ensures
            r.elf@ == self.elf@,
            r.function == self.function,
            r.no_dwarf == self.no_dwarf,
            r.no_demangle == self.no_demangle,
            r.remap@ == self.remap@,
            r.log_level == self.log_level,
            r.context@ == self.context@,
            r.dump == self.dump,
    {
        let mut remap: Vec<String> = Vec::new();
        let mut i: usize = 0;
        while i < self.remap.len()
            invariant
                i <= self.remap.len(),
                remap@ == self.remap@.take(i as int),
            decreases self.remap.len() - i,
        {
            remap.push(copy_string(&self.remap[i]));
            assert(self.remap@.take(i as int + 1) =~= self.remap@.take(i as int).push(self.remap[i as int]));
            i = i + 1;
        }
        assert(self.remap@.take(self.remap.len() as int) =~= self.remap@);
        Cli {
            elf: copy_string(&self.elf),
            function: match &self.function {
                Some(f) => Some(copy_string(f)),
                None => None,
            },
            no_dwarf: self.no_dwarf,
            no_demangle: self.no_demangle,
            remap,
            log_level: self.log_level,
            context: copy_string(&self.context),
            dump: self.dump,
        }
    }
}

} // verus!
