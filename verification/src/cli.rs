//! Command-line decision logic: the compilation mode, the log level, and
//! the shape of input and output paths.
//!
//! Argument parsing itself and file-system checks are driver concerns;
//! this module holds the decisions they feed, stated over plain values.
//! Paths are modelled as strings whose file name is the part after the
//! last `/`, and whose extension is the part of the file name after its
//! last `.`, provided that dot stands strictly inside the name.

use vstd::prelude::*;

verus! {

// ---------------------------------------------------------------------------
// Path shape
// ---------------------------------------------------------------------------

/// The index of the last `.` among positions below `k` of the file name
/// that ends at `k`; the search stops at a `/`.
pub open spec fn last_dot_before(p: Seq<char>, k: int) -> Option<int>
    decreases k,
{
    if k <= 0 || k > p.len() {
        None
    } else if p[k - 1] == '/' {
        None
    } else if p[k - 1] == '.' {
        Some(k - 1)
    } else {
        last_dot_before(p, k - 1)
    }
}

/// The index at which the file name that ends at `k` begins: just after
/// the last `/` below `k`, or 0.
pub open spec fn name_start_before(p: Seq<char>, k: int) -> int
    decreases k,
{
    if k <= 0 || k > p.len() {
        0
    } else if p[k - 1] == '/' {
        k
    } else {
        name_start_before(p, k - 1)
    }
}

/// The extension of the path `p`: the part of its file name after the
/// last `.`, where that dot stands strictly inside the name.
pub open spec fn spec_extension(p: Seq<char>) -> Option<Seq<char>> {
    match last_dot_before(p, p.len() as int) {
        Some(d) => if d > name_start_before(p, p.len() as int) {
            Some(p.subrange(d + 1, p.len() as int))
        } else {
            None
        },
        None => None,
    }
}

/// The path `p` with its extension replaced by `e`: the stem keeps
/// everything before the extension's dot, and an empty `e` drops the dot
/// as well.
pub open spec fn spec_with_extension(p: Seq<char>, e: Seq<char>) -> Seq<char> {
    let stem = match last_dot_before(p, p.len() as int) {
        Some(d) => if d > name_start_before(p, p.len() as int) {
            p.subrange(0, d)
        } else {
            p
        },
        None => p,
    };
    if e.len() == 0 {
        stem
    } else {
        stem + seq!['.'] + e
    }
}

fn find_last_dot(path: &str, n: usize, k: usize) -> (d: Option<usize>)
    requires
        n == path@.len(),
        k <= n,
    ensures
        ({
            match last_dot_before(path@, k as int) {
                Some(di) => d matches Some(x) && x as int == di && di < k,
                None => d is None,
            }
        }),
    decreases k,
{
    if k == 0 {
        None
    } else {
        let c = path.get_char(k - 1);
        if c == '/' {
            None
        } else if c == '.' {
            Some(k - 1)
        } else {
            find_last_dot(path, n, k - 1)
        }
    }
}

fn find_name_start(path: &str, n: usize, k: usize) -> (r: usize)
    requires
        n == path@.len(),
        k <= n,
    ensures
        r as int == name_start_before(path@, k as int),
        r <= k,
    decreases k,
{
    if k == 0 {
        0
    } else {
        let c = path.get_char(k - 1);
        if c == '/' {
            k
        } else {
            find_name_start(path, n, k - 1)
        }
    }
}

/// Replaces the extension of the path `path` by `ext` (an empty `ext`
/// removes it, dot included).
pub fn with_extension(path: &str, ext: &str) -> (r: String)
    ensures
        r@ == spec_with_extension(path@, ext@),
{
    let n = path.unicode_len();
    let stem_end: usize = match find_last_dot(path, n, n) {
        Some(d) => {
            let start = find_name_start(path, n, n);
            if d > start {
                d
            } else {
                n
            }
        },
        None => n,
    };
    let stem = path.substring_char(0, stem_end);
    if ext.unicode_len() == 0 {
        proof {
            assert(path@.subrange(0, path@.len() as int) =~= path@);
        }
        stem.to_owned()
    } else {
        let mut out = stem.to_owned();
        out.append(".");
        out.append(ext);
        proof {
            reveal_strlit(".");
            assert(path@.subrange(0, path@.len() as int) =~= path@);
            assert("."@ =~= seq!['.']);
        }
        out
    }
}

// ---------------------------------------------------------------------------
// Modes and levels
// ---------------------------------------------------------------------------

/// The stage at which a compilation run stops.
#[derive(Debug, Clone, Copy, PartialEq, Eq, Structural)]
pub enum CompilerMode {
    Lex,
    Parse,
    Codegen,
    EmitAsm,
    Full,
}

/// How much the run logs: everything, errors only, or the ordinary
/// amount.
#[derive(Debug, Clone, Copy, PartialEq, Eq, Structural)]
pub enum LogLevel {
    Debug,
    Error,
    Info,
}

// ---------------------------------------------------------------------------
// The command line
// ---------------------------------------------------------------------------

/// The command-line choices a run is made with: the source path and the
/// flags picking a stage and a log level.
#[derive(Debug)]
pub struct Cli {
    /// Path to the source code file.
    pub file_path: String,
    /// Perform lexical analysis and output tokens.
    pub lex: bool,
    /// Perform parsing and output the syntax tree.
    pub parse: bool,
    /// Perform code generation.
    pub codegen: bool,
    /// Emit an assembly file instead of an executable.
    pub emit_asm: bool,
    /// Log verbosely (debug information).
    pub verbose: bool,
    /// Log quietly (errors only).
    pub quiet: bool,
    /// Log overwhelmingly (trace messages).
    pub trace: bool,
}

/// The mode the flags of `c` select: the first stage flag set wins, and a
/// run with no stage flag goes all the way.
pub open spec fn spec_mode(c: Cli) -> CompilerMode {
    if c.lex {
        CompilerMode::Lex
    } else if c.parse {
        CompilerMode::Parse
    } else if c.codegen {
        CompilerMode::Codegen
    } else if c.emit_asm {
        CompilerMode::EmitAsm
    } else {
        CompilerMode::Full
    }
}

/// The log level the flags of `c` select.
pub open spec fn spec_log_level(c: Cli) -> LogLevel {
    if c.verbose {
        LogLevel::Debug
    } else if c.quiet {
        LogLevel::Error
    } else {
        LogLevel::Info
    }
}

impl Cli {
    /// The current compilation mode.
    pub fn mode(&self) -> (m: CompilerMode)
        ensures
            m == spec_mode(*self),
    {
        if self.lex {
            CompilerMode::Lex
        } else if self.parse {
            CompilerMode::Parse
        } else if self.codegen {
            CompilerMode::Codegen
        } else if self.emit_asm {
            CompilerMode::EmitAsm
        } else {
            CompilerMode::Full
        }
    }

    /// Checks that the source path has the `.c` extension and returns it.
    /// Whether the path names a readable regular file is the driver's
    /// concern, checked where the file is opened.
    pub fn validate_input(&self) -> (r: Result<String, String>)
        ensures
            ({
                if spec_extension(self.file_path@) matches Some(e) && e =~= seq!['c'] {
                    r matches Ok(p) && p@ == self.file_path@
                } else {
                    r matches Err(m) && m@ == "Input file must have .c extension"@
                }
            }),
    {
        let n = self.file_path.as_str().unicode_len();
        let ok: bool = match find_last_dot(self.file_path.as_str(), n, n) {
            Some(d) => {
                let start = find_name_start(self.file_path.as_str(), n, n);
                d > start && n - d == 2 && self.file_path.as_str().get_char(d + 1) == 'c'
            },
            None => false,
        };
        if ok {
            proof {
                let p = self.file_path@;
                let d = last_dot_before(p, p.len() as int)->Some_0;
                assert(p.subrange(d + 1, p.len() as int) =~= seq!['c']);
            }
            Ok(self.file_path.clone())
        } else {
            proof {
                let p = self.file_path@;
                if spec_extension(p) is Some && spec_extension(p)->Some_0 =~= seq!['c'] {
                    let d = last_dot_before(p, p.len() as int)->Some_0;
                    let e = spec_extension(p)->Some_0;
                    assert(e == p.subrange(d + 1, p.len() as int));
                    assert(e.len() == 1 && e[0] == 'c');
                    assert(p[d + 1] == 'c');
                    assert(false);
                }
            }
            Err("Input file must have .c extension".to_owned())
        }
    }

    /// The output path for the selected mode: the source path with the
    /// `s` extension where assembly is emitted, and with none otherwise.
    pub fn output_path(&self, mode: &CompilerMode) -> (r: String)
        ensures
            r@ == spec_with_extension(
                self.file_path@,
                if mode is EmitAsm {
                    seq!['s']
                } else {
                    Seq::<char>::empty()
                },
            ),
    {
        match mode {
            CompilerMode::EmitAsm => {
                let r = with_extension(self.file_path.as_str(), "s");
                proof {
                    reveal_strlit("s");
                    assert("s"@ =~= seq!['s']);
                }
                r
            },
            _ => {
                let r = with_extension(self.file_path.as_str(), "");
                proof {
                    reveal_strlit("");
                    assert(""@ =~= Seq::<char>::empty());
                }
                r
            },
        }
    }

    /// The log level the user chose; pair this with the driver's logging
    /// setup.
    pub fn log_level(&self) -> (l: LogLevel)
        ensures
            l == spec_log_level(*self),
    {
        if self.verbose {
            LogLevel::Debug
        } else if self.quiet {
            LogLevel::Error
        } else {
            LogLevel::Info
        }
    }
}

} // verus!
