//! Command-line options of the host: `--name value` or `--name=value`,
//! the listening port, and the report of `--verify`.
use vstd::prelude::*;
use vstd::string::StringSliceAdditionalSpecFns;
use crate::text::{bytes_start_with, decimal, push_char, same_text, to_decimal, unsigned_text};

verus! {

broadcast use vstd::utf8::encode_utf8_decode_utf8;

/// The text of `s` after the prefix `p` (by bytes).
pub open spec fn after_prefix(s: Seq<char>, p: Seq<char>) -> Seq<char> {
    vstd::utf8::decode_utf8(
        vstd::utf8::encode_utf8(s).skip(vstd::utf8::encode_utf8(p).len() as int),
    )
}

/// The value of option `name` among `args[i..]`: the first argument that
/// is `name` gives the one after it (`def` when there is none); the first
/// that begins with `name=` gives the rest of it; with neither, `def`.
pub open spec fn option_from(
    args: Seq<Seq<char>>,
    i: int,
    name: Seq<char>,
    def: Seq<char>,
) -> Seq<char>
    decreases args.len() - i,
{
    if i < 0 || i >= args.len() {
        def
    } else if args[i] == name {
        if i + 1 < args.len() {
            args[i + 1]
        } else {
            def
        }
    } else if bytes_start_with(args[i], name.push('=')) {
        after_prefix(args[i], name.push('='))
    } else {
        option_from(args, i + 1, name, def)
    }
}

/// `str::strip_prefix` with a string pattern. Claims: `Some` exactly when
/// the bytes of `p` begin those of `s`, holding the bytes after them.
#[verifier::external_body]
fn strip_prefix<'a>(s: &'a str, p: &str) -> (r: Option<&'a str>)
    ensures
        r is Some <==> bytes_start_with(s@, p@),
        r matches Some(t) ==> t.spec_bytes() == s.spec_bytes().skip(p.spec_bytes().len() as int),
{
    s.strip_prefix(p)
}

/// The value of option `name` in the arguments (program name left out):
/// see `option_from`.
pub fn arg_value(args: &Vec<String>, name: &str, def: &str) -> (r: String)
    ensures
        r@ == option_from(args@.map_values(|a: String| a@), 0, name@, def@),
{
    let ghost texts = args@.map_values(|a: String| a@);
    let mut pat = name.to_owned();
    push_char(&mut pat, '=');
    let mut i: usize = 0;
    while i < args.len()
        invariant
            texts == args@.map_values(|a: String| a@),
            pat@ == name@.push('='),
            i <= args@.len(),
            option_from(texts, 0, name@, def@) == option_from(texts, i as int, name@, def@),
        decreases args@.len() - i,
    {
        let a = args[i].as_str();
        if same_text(a, name) {
            if i + 1 < args.len() {
                return args[i + 1].as_str().to_owned();
            } else {
                return def.to_owned();
            }
        }
        if let Some(v) = strip_prefix(a, pat.as_str()) {
            proof {
                assert(vstd::utf8::decode_utf8(v.spec_bytes()) == v@);
            }
            return v.to_owned();
        }
        i = i + 1;
    }
    def.to_owned()
}

/// Whether a flag is among the arguments.
pub fn has_flag(args: &Vec<String>, flag: &str) -> (r: bool)
    ensures
        r == exists|i: int| 0 <= i < args@.len() && #[trigger] args@[i]@ == flag@,
{
    let mut i: usize = 0;
    while i < args.len()
        invariant
            i <= args@.len(),
            forall|j: int| 0 <= j < i ==> #[trigger] args@[j]@ != flag@,
        decreases args@.len() - i,
    {
        if same_text(args[i].as_str(), flag) {
            return true;
        }
        i = i + 1;
    }
    false
}

/// `str::parse::<u16>`. Claims: the value `unsigned_text` describes, as
/// the documentation of `u16::from_str_radix` states it for base 10.
#[verifier::external_body]
fn parse_u16(s: &str) -> (r: Option<u16>)
    ensures
        r == match unsigned_text(s@, 0xffff) {
            Some(n) => Some(n as u16),
            None => None,
        },
{
    s.parse::<u16>().ok()
}

/// The listening port: the option's text as a number, or `def` when it is
/// not one.
pub fn port_from(text: &str, def: u16) -> (r: u16)
    ensures
        r == match unsigned_text(text@, 0xffff) {
            Some(p) => p as u16,
            None => def,
        },
{
    match parse_u16(text) {
        Some(p) => p,
        None => def,
    }
}

/// The line `--verify` prints: `records=<n> chain_valid=<true|false>`.
pub open spec fn verify_line(n: nat, ok: bool) -> Seq<char> {
    "records="@ + decimal(n) + " chain_valid="@ + if ok {
        "true"@
    } else {
        "false"@
    }
}

/// What `--verify` reports for a log: the line to print, and the exit
/// status, 0 exactly when the log holds at least one record and all of it
/// is valid.
pub fn verify_report(n: usize, ok: bool) -> (r: (String, i32))
    ensures
        r.0@ == verify_line(n as nat, ok),
        r.1 == if ok && n > 0 {
            0i32
        } else {
            1i32
        },
{
    let mut line = "records=".to_owned();
    let digits = to_decimal(n as u64);
    line.append(digits.as_str());
    line.append(" chain_valid=");
    if ok {
        line.append("true");
    } else {
        line.append("false");
    }
    let code: i32 = if ok && n > 0 {
        0
    } else {
        1
    };
    (line, code)
}

} // verus!
