//! The command line: `--key value` lookup and the choice of what to run.

use vstd::prelude::*;
use crate::shape::ShapeOpts;

verus! {

/// Index of the first argument equal to `key`, from `i` on (`args.len()` when none is).
pub open spec fn first_key(args: Seq<String>, key: Seq<char>, i: int) -> int
    decreases args.len() - i,
{
    if i >= args.len() {
        args.len() as int
    } else if args[i]@ == key {
        i
    } else {
        first_key(args, key, i + 1)
    }
}

/// The argument after the first `key`; `None` when `key` is absent or last.
pub open spec fn spec_arg_val(args: Seq<String>, key: Seq<char>) -> Option<Seq<char>> {
    let k = first_key(args, key, 0);
    if k + 1 < args.len() {
        Some(args[k + 1]@)
    } else {
        None
    }
}

/// Some argument equals `flag`.
pub open spec fn spec_has_flag(args: Seq<String>, flag: Seq<char>) -> bool {
    exists|i: int| 0 <= i < args.len() && (#[trigger] args[i])@ == flag
}

pub open spec fn opt_view(o: Option<String>) -> Option<Seq<char>> {
    match o {
        Some(s) => Some(s@),
        None => None,
    }
}

/// The value after the first `key` argument.
pub fn arg_val(args: &[String], key: &str) -> (r: Option<String>)
    ensures
        opt_view(r) == spec_arg_val(args@, key@),
{
    let k = key.to_owned();
    let mut i: usize = 0;
    while i < args.len()
        invariant
            i <= args@.len(),
            k@ == key@,
            first_key(args@, key@, 0) == first_key(args@, key@, i as int),
        decreases args.len() - i,
    {
        if args[i] == k {
            if i + 1 < args.len() {
                return Some(args[i + 1].clone());
            }
            return None;
        }
        i += 1;
    }
    None
}

/// Whether some argument is exactly `flag`.
pub fn has_flag(args: &[String], flag: &str) -> (b: bool)
    ensures
        b == spec_has_flag(args@, flag@),
{
    let f = flag.to_owned();
    let mut i: usize = 0;
    while i < args.len()
        invariant
            i <= args@.len(),
            f@ == flag@,
            forall|j: int| 0 <= j < i ==> (#[trigger] args@[j])@ != flag@,
        decreases args.len() - i,
    {
        if args[i] == f {
            assert(args@[i as int]@ == flag@);
            return true;
        }
        i += 1;
    }
    false
}

/// What the command line asks for.
pub enum CliCommand {
    /// No arguments, `--help` or `-h`: print the usage.
    Help,
    /// `--find-sig <hex>`: list the signature's RVAs in a loaded module
    /// (`--scan-module`, else `--usp10`, else the default module).
    FindSig { hex: String, module: Option<String> },
    /// Shape `--text` with `--font`; write the JSON to `--out` or print it.
    Shape { opts: ShapeOpts, out: Option<String> },
    /// `--font` is missing.
    MissingFont,
    /// `--text` is missing.
    MissingText,
}

pub open spec fn or_else(a: Option<Seq<char>>, b: Option<Seq<char>>) -> Option<Seq<char>> {
    match a {
        Some(x) => Some(x),
        None => b,
    }
}

pub open spec fn or_default(a: Option<Seq<char>>, d: Seq<char>) -> Seq<char> {
    match a {
        Some(x) => x,
        None => d,
    }
}

/// The shaping options that the arguments give.
pub open spec fn opts_from(args: Seq<String>, o: ShapeOpts) -> bool {
    &&& Some(o.font@) == spec_arg_val(args, "--font"@)
    &&& Some(o.text@) == spec_arg_val(args, "--text"@)
    &&& o.script@ == or_default(spec_arg_val(args, "--script"@), ""@)
    &&& o.language@ == or_default(spec_arg_val(args, "--language"@), ""@)
    &&& o.direction@ == or_default(spec_arg_val(args, "--direction"@), "auto"@)
    &&& o.show_all == spec_has_flag(args, "--show-all-lookups"@)
    &&& opt_view(o.usp10_path) == spec_arg_val(args, "--usp10"@)
    &&& o.features_arg@ == or_default(spec_arg_val(args, "--features"@), ""@)
    &&& o.trace == spec_has_flag(args, "--trace"@)
    &&& o.wine_bytes == spec_has_flag(args, "--wine-bytes"@)
    &&& o.textshaping == spec_has_flag(args, "--textshaping"@)
}

fn val_or(v: Option<String>, d: &str) -> (r: String)
    ensures
        r@ == or_default(opt_view(v), d@),
{
    match v {
        Some(s) => s,
        None => d.to_owned(),
    }
}

/// Decide what to run. `sig_scan` tells whether the module-scan helper is
/// available on this platform.
pub fn parse_cli(args: &Vec<String>, sig_scan: bool) -> (c: CliCommand)
    ensures
        (args.len() == 0 || spec_has_flag(args@, "--help"@) || spec_has_flag(args@, "-h"@))
            ==> c is Help,
        !(args.len() == 0 || spec_has_flag(args@, "--help"@) || spec_has_flag(args@, "-h"@))
            ==> {
            if sig_scan && spec_arg_val(args@, "--find-sig"@) is Some {
                c matches CliCommand::FindSig { hex, module } && Some(hex@) == spec_arg_val(
                    args@,
                    "--find-sig"@,
                ) && opt_view(module) == or_else(
                    spec_arg_val(args@, "--scan-module"@),
                    spec_arg_val(args@, "--usp10"@),
                )
            } else if spec_arg_val(args@, "--font"@) is None {
                c is MissingFont
            } else if spec_arg_val(args@, "--text"@) is None {
                c is MissingText
            } else {
                c matches CliCommand::Shape { opts, out } && opts_from(args@, opts) && opt_view(
                    out,
                ) == spec_arg_val(args@, "--out"@)
            }
        },
{
    let a = args.as_slice();
    if args.len() == 0 || has_flag(a, "--help") || has_flag(a, "-h") {
        return CliCommand::Help;
    }
    if sig_scan {
        if let Some(hex) = arg_val(a, "--find-sig") {
            let module = match arg_val(a, "--scan-module") {
                Some(m) => Some(m),
                None => arg_val(a, "--usp10"),
            };
            return CliCommand::FindSig { hex, module };
        }
    }
    let font = match arg_val(a, "--font") {
        Some(f) => f,
        None => {
            return CliCommand::MissingFont;
        },
    };
    let text = match arg_val(a, "--text") {
        Some(t) => t,
        None => {
            return CliCommand::MissingText;
        },
    };
    let opts = ShapeOpts {
        font,
        text,
        script: val_or(arg_val(a, "--script"), ""),
        language: val_or(arg_val(a, "--language"), ""),
        direction: val_or(arg_val(a, "--direction"), "auto"),
        show_all: has_flag(a, "--show-all-lookups"),
        usp10_path: arg_val(a, "--usp10"),
        features_arg: val_or(arg_val(a, "--features"), ""),
        trace: has_flag(a, "--trace"),
        wine_bytes: has_flag(a, "--wine-bytes"),
        textshaping: has_flag(a, "--textshaping"),
    };
    let out = arg_val(a, "--out");
    CliCommand::Shape { opts, out }
}

} // verus!
