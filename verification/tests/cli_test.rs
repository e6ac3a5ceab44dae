//! Tests of the command-line decision logic: mode and log-level
//! precedence, input validation, and output path shapes.

use nimc::cli::with_extension;
use nimc::cli::Cli;
use nimc::cli::CompilerMode;
use nimc::cli::LogLevel;

fn cli(path: &str) -> Cli {
    Cli {
        file_path: path.to_string(),
        lex: false,
        parse: false,
        codegen: false,
        emit_asm: false,
        verbose: false,
        quiet: false,
        trace: false,
    }
}

#[test]
fn mode_defaults_to_full() {
    assert_eq!(cli("a.c").mode(), CompilerMode::Full);
}

#[test]
fn mode_flag_precedence() {
    let mut c = cli("a.c");
    c.lex = true;
    c.parse = true;
    assert_eq!(c.mode(), CompilerMode::Lex);
    c.lex = false;
    assert_eq!(c.mode(), CompilerMode::Parse);
    c.parse = false;
    c.codegen = true;
    assert_eq!(c.mode(), CompilerMode::Codegen);
    c.codegen = false;
    c.emit_asm = true;
    assert_eq!(c.mode(), CompilerMode::EmitAsm);
}

#[test]
fn log_level_precedence() {
    let mut c = cli("a.c");
    assert_eq!(c.log_level(), LogLevel::Info);
    c.quiet = true;
    assert_eq!(c.log_level(), LogLevel::Error);
    c.verbose = true;
    assert_eq!(c.log_level(), LogLevel::Debug);
}

#[test]
fn validate_accepts_c_extension() {
    assert_eq!(cli("prog.c").validate_input(), Ok("prog.c".to_string()));
    assert_eq!(
        cli("dir/sub/prog.x.c").validate_input(),
        Ok("dir/sub/prog.x.c".to_string())
    );
}

#[test]
fn validate_rejects_other_paths() {
    let msg = "Input file must have .c extension".to_string();
    assert_eq!(cli("prog.rs").validate_input(), Err(msg.clone()));
    assert_eq!(cli("prog").validate_input(), Err(msg.clone()));
    assert_eq!(cli("prog.C").validate_input(), Err(msg.clone()));
    assert_eq!(cli(".c").validate_input(), Err(msg.clone()));
    assert_eq!(cli("dir.c/prog").validate_input(), Err(msg));
}

#[test]
fn output_path_by_mode() {
    let c = cli("dir/prog.c");
    assert_eq!(c.output_path(&CompilerMode::EmitAsm), "dir/prog.s");
    assert_eq!(c.output_path(&CompilerMode::Full), "dir/prog");
    assert_eq!(c.output_path(&CompilerMode::Lex), "dir/prog");
}

#[test]
fn with_extension_shapes() {
    assert_eq!(with_extension("a/b.c", "s"), "a/b.s");
    assert_eq!(with_extension("a/b", "s"), "a/b.s");
    assert_eq!(with_extension("a/b.c", ""), "a/b");
    assert_eq!(with_extension("a.d/b", "i"), "a.d/b.i");
    assert_eq!(with_extension(".c", "s"), ".c.s");
    assert_eq!(with_extension("x.tar.c", "s"), "x.tar.s");
}
