use vstd::prelude::*;

verus! {

/// How serious a log record is, the most serious first.
#[derive(Clone, Copy, Debug, PartialEq, Eq, Structural)]
pub enum Level {
    Error,
    Warn,
    Info,
    Debug,
    Trace,
}

/// Whether records of `level` are logged: all of them are.
pub fn enabled(level: Level) -> (r: bool)
    ensures
        r,
{
    true
}

/// Whether a record of `level` is shown on the screen as well as sent to the
/// serial line: all but debug and trace records.
pub fn on_screen(level: Level) -> (r: bool)
    ensures
        r == !(level == Level::Trace || level == Level::Debug),
{
    match level {
        Level::Trace => false,
        Level::Debug => false,
        _ => true,
    }
}

/// The escape sequence that starts a record's prefix: bold white.
pub fn prefix_color() -> (r: &'static str)
    ensures
        r@ == "\x1b[37;1m"@,
{
    "\x1b[37;1m"
}

/// The escape sequence that ends the colours of the prefix.
pub fn reset_color() -> (r: &'static str)
    ensures
        r@ == "\x1b[0m"@,
{
    "\x1b[0m"
}

/// The coloured tag that names the level of a record.
pub open spec fn spec_level_tag(level: Level) -> Seq<char> {
    match level {
        Level::Info => "\x1b[32;1minfo "@,
        Level::Warn => "\x1b[33;1mwarn "@,
        Level::Error => "\x1b[31;1merror "@,
        Level::Debug => "\x1b[35;1mdebug "@,
        Level::Trace => "\x1b[34;1mtrace "@,
    }
}

/// The coloured tag that names the level of a record: green for info, yellow
/// for warnings, red for errors, magenta for debug and blue for trace
/// records.
pub fn level_tag(level: Level) -> (r: &'static str)
    ensures
        r@ == spec_level_tag(level),
{
    match level {
        Level::Info => "\x1b[32;1minfo ",
        Level::Warn => "\x1b[33;1mwarn ",
        Level::Error => "\x1b[31;1merror ",
        Level::Debug => "\x1b[35;1mdebug ",
        Level::Trace => "\x1b[34;1mtrace ",
    }
}

} // verus!
