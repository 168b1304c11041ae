//! The error boundary's report: what a crash shows on screen and logs.

use vstd::prelude::*;
use crate::text::push_char;

verus! {

/// The message shown for a panic whose payload is not text.
pub const UNKNOWN_PANIC: &'static str = "Unknown Rust Panic inside WebAssembly";

/// The location shown for a panic that carries none.
pub const UNKNOWN_LOCATION: &'static str = "Unknown location";

/// The decimal digit for `d` (below ten).
pub open spec fn digit_char(d: int) -> char {
    if d == 0 {
        '0'
    } else if d == 1 {
        '1'
    } else if d == 2 {
        '2'
    } else if d == 3 {
        '3'
    } else if d == 4 {
        '4'
    } else if d == 5 {
        '5'
    } else if d == 6 {
        '6'
    } else if d == 7 {
        '7'
    } else if d == 8 {
        '8'
    } else {
        '9'
    }
}

/// `n` written in decimal, without leading zeros.
pub open spec fn decimal(n: nat) -> Seq<char>
    decreases n,
{
    if n < 10 {
        seq![digit_char(n as int)]
    } else {
        decimal(n / 10) + seq![digit_char((n % 10) as int)]
    }
}

fn digit_exec(d: u32) -> (c: char)
    requires
        d < 10,
    ensures
        c == digit_char(d as int),
{
    match d {
        0 => '0',
        1 => '1',
        2 => '2',
        3 => '3',
        4 => '4',
        5 => '5',
        6 => '6',
        7 => '7',
        8 => '8',
        _ => '9',
    }
}

/// `n` written in decimal, as `format!("{}", n)` writes it.
pub fn decimal_string(n: u32) -> (r: String)
    ensures
        r@ == decimal(n as nat),
    decreases n,
{
    if n < 10 {
        let mut s = String::new();
        push_char(&mut s, digit_exec(n));
        assert(s@ =~= decimal(n as nat));
        s
    } else {
        let mut s = decimal_string(n / 10);
        push_char(&mut s, digit_exec(n % 10));
        s
    }
}

/// Where a panic happened: `file:line`.
pub fn source_location(file: &str, line: u32) -> (r: String)
    ensures
        r@ == file@ + ":"@ + decimal(line as nat),
{
    let mut out = String::from_str(file);
    out.append(":");
    let l = decimal_string(line);
    out.append(l.as_str());
    out
}

/// The overlay that replaces the page after a crash, with the panic's
/// message and location.
pub fn crash_report_html(msg: &str, location: &str) -> (r: String)
    ensures
        r@ == "<h1>⚠️ Oxirast Crash Report</h1><div style=\"background:#220000;border:1px solid #ff0000;padding:1.5rem;\"><h3>Error:</h3><p>"@
            + msg@ + "</p><hr/><h3>Location:</h3><p>"@ + location@ + "</p></div>"@,
{
    let mut out = String::from_str(
        "<h1>⚠️ Oxirast Crash Report</h1><div style=\"background:#220000;border:1px solid #ff0000;padding:1.5rem;\"><h3>Error:</h3><p>",
    );
    out.append(msg);
    out.append("</p><hr/><h3>Location:</h3><p>");
    out.append(location);
    out.append("</p></div>");
    out
}

/// The console line logged after a crash.
pub fn crash_log(msg: &str, location: &str) -> (r: String)
    ensures
        r@ == "Oxirast Panic: "@ + msg@ + " at "@ + location@,
{
    let mut out = String::from_str("Oxirast Panic: ");
    out.append(msg);
    out.append(" at ");
    out.append(location);
    out
}

/// The style of the crash overlay.
pub const OVERLAY_STYLE: &'static str = "position:fixed;top:0;left:0;width:100vw;height:100vh;background:rgba(30,0,0,0.95);color:#ff5555;padding:3rem;z-index:99999;font-family:monospace;";

} // verus!
