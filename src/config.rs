//! Startup settings: the port and the public directory, as command-line
//! arguments and the environment give them.
use vstd::prelude::*;
use crate::text::{chars_of, same_chars};

verus! {

/// The settings the server starts with.
pub struct Config {
    pub port: u16,
    pub pub_dir: String,
}

/// Why the settings could not be read.
#[derive(Debug)]
pub enum ConfigError {
    /// A port flag was the last argument.
    MissingPort,
    /// A port value is not a number from 0 to 65535.
    InvalidPort,
    /// The public directory does not exist.
    InvalidDirectory,
}

/// Whether `c` is an ASCII digit.
pub open spec fn is_digit(c: char) -> bool {
    '0' <= c && c <= '9'
}

/// The value of the ASCII digit `c`.
pub open spec fn digit_value(c: char) -> nat {
    if is_digit(c) {
        (c as int - '0' as int) as nat
    } else {
        0
    }
}

/// The number that the digits `d` spell.
pub open spec fn digits_num(d: Seq<char>) -> nat
    decreases d.len(),
{
    if d.len() == 0 {
        0
    } else {
        digits_num(d.drop_last()) * 10 + digit_value(d.last())
    }
}

/// Whether `d` is made of ASCII digits only.
pub open spec fn all_digits(d: Seq<char>) -> bool {
    forall|i: int| 0 <= i < d.len() ==> is_digit(#[trigger] d[i])
}

/// `s` without one leading `+`.
pub open spec fn unsigned_part(s: Seq<char>) -> Seq<char> {
    if s.len() > 0 && s[0] == '+' {
        s.drop_first()
    } else {
        s
    }
}

/// The port that `s` spells as `u16::from_str` reads it: an optional `+`,
/// then one or more ASCII digits, with a value of at most 65535.
pub open spec fn port_of(s: Seq<char>) -> Option<u16> {
    let d = unsigned_part(s);
    if d.len() > 0 && all_digits(d) && digits_num(d) <= 65535 {
        Some(digits_num(d) as u16)
    } else {
        None
    }
}

/// The port that `s` spells.
pub fn parse_port(s: &str) -> (r: Option<u16>)
    ensures
        r == port_of(s@),
{
    let cs = chars_of(s);
    let start: usize = if cs.len() > 0 && cs[0] == '+' {
        1
    } else {
        0
    };
    let ghost d = unsigned_part(cs@);
    assert(d =~= cs@.subrange(start as int, cs@.len() as int));
    if start >= cs.len() {
        return None;
    }
    let mut value: u32 = 0;
    let mut i: usize = start;
    while i < cs.len()
        invariant
            start <= i <= cs.len(),
            cs@ == s@,
            d == unsigned_part(s@),
            d == cs@.subrange(start as int, cs@.len() as int),
            forall|k: int| 0 <= k < i - start ==> is_digit(#[trigger] d[k]),
            value as int == if digits_num(d.subrange(0, i - start)) <= 65535 {
                digits_num(d.subrange(0, i - start)) as int
            } else {
                65536
            },
        decreases cs.len() - i,
    {
        let c = cs[i];
        assert(c == d[i - start]);
        if !('0' <= c && c <= '9') {
            assert(!is_digit(d[i - start]));
            assert(!all_digits(d));
            return None;
        }
        let ghost prev = d.subrange(0, i - start);
        let ghost next = d.subrange(0, i + 1 - start);
        assert(next.drop_last() =~= prev);
        assert(digits_num(next) == digits_num(prev) * 10 + digit_value(c));
        let dg: u32 = (c as u32) - ('0' as u32);
        if value <= 65535 {
            value = value * 10 + dg;
            if value > 65535 {
                value = 65536;
            }
        }
        i = i + 1;
    }
    assert(d.subrange(0, d.len() as int) =~= d);
    if value <= 65535 {
        Some(value as u16)
    } else {
        None
    }
}

/// The port that follows a port flag: missing when no argument follows,
/// invalid when it is not a port.
pub fn match_port(port_arg: Option<String>) -> (r: Result<u16, ConfigError>)
    ensures
        match port_arg {
            None => r matches Err(ConfigError::MissingPort),
            Some(s) => match port_of(s@) {
                Some(p) => r == Ok::<u16, ConfigError>(p),
                None => r matches Err(ConfigError::InvalidPort),
            },
        },
{
    match port_arg {
        None => Err(ConfigError::MissingPort),
        Some(s) => match parse_port(s.as_str()) {
            Some(p) => Ok(p),
            None => Err(ConfigError::InvalidPort),
        },
    }
}

/// The port that the environment's setting gives, 4221 when it is unset.
pub fn port_from_env(value: Option<String>) -> (r: Result<u16, ConfigError>)
    ensures
        match value {
            None => r == Ok::<u16, ConfigError>(4221),
            Some(s) => match port_of(s@) {
                Some(p) => r == Ok::<u16, ConfigError>(p),
                None => r matches Err(ConfigError::InvalidPort),
            },
        },
{
    match value {
        None => Ok(4221),
        Some(s) => match_port(Some(s)),
    }
}

/// What the arguments set: the port, and the public directory as given
/// (before it is resolved on disk).
pub struct ArgsModel {
    pub port: Option<u16>,
    pub directory: Option<Seq<char>>,
}

/// The settings that the arguments from `i` on make of `acc`: a port flag
/// (`-p`, `--port`) takes the next argument as the port; `--directory`
/// takes the next argument as the directory, `public` when none follows;
/// any other argument is passed over. A later setting wins.
pub open spec fn scan_args(args: Seq<Seq<char>>, i: int, acc: ArgsModel) -> Result<
    ArgsModel,
    ConfigError,
>
    decreases args.len() - i,
{
    if i < 0 || i >= args.len() {
        Ok(acc)
    } else if args[i] == "-p"@ || args[i] == "--port"@ {
        if i + 1 >= args.len() {
            Err(ConfigError::MissingPort)
        } else {
            match port_of(args[i + 1]) {
                None => Err(ConfigError::InvalidPort),
                Some(p) => scan_args(args, i + 2, ArgsModel { port: Some(p), ..acc }),
            }
        }
    } else if args[i] == "--directory"@ {
        if i + 1 >= args.len() {
            Ok(ArgsModel { directory: Some("public"@), ..acc })
        } else {
            scan_args(args, i + 2, ArgsModel { directory: Some(args[i + 1]), ..acc })
        }
    } else {
        scan_args(args, i + 1, acc)
    }
}

/// What the command-line arguments set.
pub struct Args {
    pub port: Option<u16>,
    pub directory: Option<String>,
}

/// The views of a sequence of strings.
pub open spec fn string_views(v: Seq<String>) -> Seq<Seq<char>> {
    v.map_values(|s: String| s@)
}

/// Reads the port and directory settings from the command-line arguments.
pub fn parse_args(args: &Vec<String>) -> (r: Result<Args, ConfigError>)
    ensures
        match scan_args(string_views(args@), 0, ArgsModel { port: None, directory: None }) {
            Ok(m) => r matches Ok(a) && a.port == m.port && match a.directory {
                Some(d) => m.directory == Some(d@),
                None => m.directory is None,
            },
            Err(e) => r matches Err(e2) && e2 == e,
        },
{
    let ghost sv = string_views(args@);
    let short_flag = chars_of("-p");
    let long_flag = chars_of("--port");
    let dir_flag = chars_of("--directory");
    let mut port: Option<u16> = None;
    let mut directory: Option<String> = None;
    let mut i: usize = 0;
    while i < args.len()
        invariant
            sv == string_views(args@),
            short_flag@ == "-p"@,
            long_flag@ == "--port"@,
            dir_flag@ == "--directory"@,
            scan_args(sv, 0, ArgsModel { port: None, directory: None }) == scan_args(
                sv,
                i as int,
                ArgsModel {
                    port,
                    directory: match directory {
                        Some(d) => Some(d@),
                        None => None,
                    },
                },
            ),
        decreases args.len() - i,
    {
        let a = chars_of(args[i].as_str());
        assert(sv[i as int] == a@);
        if same_chars(&a, &short_flag) || same_chars(&a, &long_flag) {
            if i + 1 >= args.len() {
                return Err(ConfigError::MissingPort);
            }
            assert(sv[i + 1] == args@[i + 1]@);
            match parse_port(args[i + 1].as_str()) {
                Some(p) => {
                    port = Some(p);
                },
                None => return Err(ConfigError::InvalidPort),
            }
            i = i + 2;
        } else if same_chars(&a, &dir_flag) {
            if i + 1 >= args.len() {
                return Ok(Args { port, directory: Some(String::from_str("public")) });
            }
            assert(sv[i + 1] == args@[i + 1]@);
            directory = Some(args[i + 1].clone());
            i = i + 2;
        } else {
            i = i + 1;
        }
    }
    Ok(Args { port, directory })
}

} // verus!
