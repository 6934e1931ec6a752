//! Command-line configuration: verbosity flags and the port
//! allow-list, built from single port numbers (`0`..=`65535`) and
//! inclusive, order-insensitive ranges (`A-B`).

use vstd::prelude::*;

use crate::text::str_eq;

verus! {

/// How much detail the report should carry.
#[derive(Debug, PartialEq, Eq, Clone, Copy, Structural)]
pub enum Mode {
    Regular,
    Verbose,
    VeryVerbose,
}

/// The verbosity order: a flag only ever increases it.
pub open spec fn mode_rank(m: Mode) -> int {
    match m {
        Mode::Regular => 0,
        Mode::Verbose => 1,
        Mode::VeryVerbose => 2,
    }
}

/// Whether `c` is a decimal digit.
pub open spec fn is_dec_digit(c: char) -> bool {
    48 <= c as u32 && c as u32 <= 57
}

/// The numeric value of a decimal digit.
pub open spec fn digit_val(c: char) -> int {
    (c as u32) - 48
}

/// The digit character for a value below ten.
pub open spec fn digit_char(d: int) -> char {
    ((48 + d) as u8) as char
}

/// The numeric value of a digit string, most significant first.
pub open spec fn dec_value(s: Seq<char>) -> int
    decreases s.len(),
{
    if s.len() == 0 {
        0
    } else {
        dec_value(s.drop_last()) * 10 + digit_val(s.last())
    }
}

/// The canonical decimal spelling of a non-negative number.
pub open spec fn dec_str_of(n: int) -> Seq<char>
    decreases n,
{
    if n < 10 {
        seq![digit_char(n)]
    } else {
        dec_str_of(n / 10).push(digit_char(n % 10))
    }
}

/// The digit part of a number string: everything after one optional
/// leading `'+'`.
pub open spec fn u16_digits(s: Seq<char>) -> Seq<char> {
    if s.len() > 0 && s[0] == '+' {
        s.drop_first()
    } else {
        s
    }
}

/// Whether every character of `s` is a decimal digit.
pub open spec fn all_digits(s: Seq<char>) -> bool {
    forall|i: int| 0 <= i < s.len() ==> is_dec_digit(#[trigger] s[i])
}

/// Whether `s` spells a port number: an optional `'+'`, then one or
/// more digits, with a value of at most 65535.
pub open spec fn is_u16_str(s: Seq<char>) -> bool {
    &&& u16_digits(s).len() > 0
    &&& all_digits(u16_digits(s))
    &&& dec_value(u16_digits(s)) <= 65535
}

/// The value a port-number string spells.
pub open spec fn u16_value(s: Seq<char>) -> int {
    dec_value(u16_digits(s))
}

/// A digit string's value is non-negative.
proof fn lemma_dec_value_nonneg(s: Seq<char>)
    requires
        all_digits(s),
    ensures
        dec_value(s) >= 0,
    decreases s.len(),
{
    if s.len() > 0 {
        lemma_dec_value_nonneg(s.drop_last());
    }
}

/// A digit string's value only grows as digits are appended.
proof fn lemma_dec_value_mono(s: Seq<char>, k: int)
    requires
        0 <= k <= s.len(),
        all_digits(s),
    ensures
        dec_value(s) >= dec_value(s.take(k)),
    decreases s.len() - k,
{
    if k < s.len() {
        assert(s.take(k + 1).drop_last() =~= s.take(k));
        assert(all_digits(s.take(k)));
        lemma_dec_value_nonneg(s.take(k));
        assert(dec_value(s.take(k + 1)) == dec_value(s.take(k)) * 10 + digit_val(s[k]));
        lemma_dec_value_mono(s, k + 1);
    } else {
        assert(s.take(k) =~= s);
    }
}

/// Parses a port number as `u16::from_str` would read it: an
/// optional leading `'+'`, then decimal digits, up to 65535.
#[verifier::rlimit(50)]
pub fn parse_port(s: &str) -> (r: Option<u16>)
    ensures
        r is Some <==> is_u16_str(s@),
        r matches Some(v) ==> v == u16_value(s@),
{
    let len = s.unicode_len();
    let start: usize = if len > 0 && s.get_char(0) == '+' {
        1
    } else {
        0
    };
    let ghost d = u16_digits(s@);
    proof {
        assert(d =~= s@.skip(start as int));
    }
    if start == len {
        return None;
    }
    let mut acc: u32 = 0;
    let mut i: usize = start;
    proof {
        assert(d.take(0) =~= Seq::<char>::empty());
    }
    while i < len
        invariant
            len == s@.len(),
            start <= i <= len,
            d == u16_digits(s@),
            d == s@.skip(start as int),
            d.len() == len - start,
            forall|j: int| 0 <= j < i - start ==> is_dec_digit(#[trigger] d[j]),
            acc == dec_value(d.take(i - start)),
            acc <= 65535,
        decreases len - i,
    {
        let c = s.get_char(i);
        let u = c as u32;
        proof {
            assert(d[i - start] == s@[i as int]);
        }
        if u < 48 || u > 57 {
            assert(!is_dec_digit(d[i - start]));
            assert(!all_digits(d));
            return None;
        }
        proof {
            assert(d.take(i - start + 1).drop_last() =~= d.take(i - start));
            assert(d.take(i - start + 1).last() == d[i - start]);
        }
        acc = acc * 10 + (u - 48);
        if acc > 65535 {
            assert(!is_u16_str(s@)) by {
                if is_u16_str(s@) {
                    assert(all_digits(u16_digits(s@)));
                    assert(all_digits(d));
                    lemma_dec_value_mono(d, i - start + 1);
                    assert(dec_value(d) >= dec_value(d.take(i - start + 1)));
                }
            }
            return None;
        }
        i = i + 1;
    }
    proof {
        assert(d.take(len - start) =~= d);
    }
    Some(acc as u16)
}

/// The digit character of a value below ten, as a string.
fn digit_str(d: u16) -> (r: &'static str)
    requires
        d < 10,
    ensures
        r@ =~= seq![digit_char(d as int)],
{
    proof {
        reveal_strlit("0");
        reveal_strlit("1");
        reveal_strlit("2");
        reveal_strlit("3");
        reveal_strlit("4");
        reveal_strlit("5");
        reveal_strlit("6");
        reveal_strlit("7");
        reveal_strlit("8");
        reveal_strlit("9");
    }
    match d {
        0 => "0",
        1 => "1",
        2 => "2",
        3 => "3",
        4 => "4",
        5 => "5",
        6 => "6",
        7 => "7",
        8 => "8",
        _ => "9",
    }
}

/// The canonical decimal spelling of a port number, as
/// `u16::to_string` would produce it.
pub fn u16_string(n: u16) -> (r: String)
    ensures
        r@ == dec_str_of(n as int),
    decreases n,
{
    if n < 10 {
        String::from_str(digit_str(n))
    } else {
        let mut s = u16_string(n / 10);
        s.append(digit_str(n % 10));
        proof {
            assert(s@ =~= dec_str_of((n / 10) as int).push(digit_char((n % 10) as int)));
        }
        s
    }
}

/// The position of the first `'-'` in `s`, or the length when there
/// is none.
pub open spec fn first_dash(s: Seq<char>) -> int
    decreases s.len(),
{
    if s.len() == 0 {
        0
    } else if s[0] == '-' {
        0
    } else {
        1 + first_dash(s.drop_first())
    }
}

/// `first_dash` pinned to a scanned position.
proof fn lemma_first_dash(s: Seq<char>, k: int)
    requires
        0 <= k <= s.len(),
        forall|j: int| 0 <= j < k ==> s[j] != '-',
        k < s.len() ==> s[k] == '-',
    ensures
        first_dash(s) == if k < s.len() {
            k
        } else {
            s.len() as int
        },
    decreases s.len(),
{
    if s.len() == 0 {
    } else if s[0] == '-' {
        assert(k == 0);
    } else {
        lemma_first_dash(s.drop_first(), if k >= 1 {
            k - 1
        } else {
            0
        });
    }
}

/// Whether `s` spells an inclusive port range `A-B`: port numbers on
/// both sides of the first `'-'`.
pub open spec fn is_range_str(s: Seq<char>) -> bool {
    &&& first_dash(s) < s.len()
    &&& is_u16_str(s.take(first_dash(s)))
    &&& is_u16_str(s.skip(first_dash(s) + 1))
}

/// The smaller bound of a range string; the order of the two sides
/// does not matter.
pub open spec fn range_lo(s: Seq<char>) -> int {
    let a = u16_value(s.take(first_dash(s)));
    let b = u16_value(s.skip(first_dash(s) + 1));
    if a <= b {
        a
    } else {
        b
    }
}

/// The larger bound of a range string.
pub open spec fn range_hi(s: Seq<char>) -> int {
    let a = u16_value(s.take(first_dash(s)));
    let b = u16_value(s.skip(first_dash(s) + 1));
    if a <= b {
        b
    } else {
        a
    }
}

/// The decimal spellings of every port from `lo` to `hi` inclusive,
/// in increasing order.
pub open spec fn range_strs(lo: int, hi: int) -> Seq<Seq<char>> {
    Seq::new((hi + 1 - lo) as nat, |t: int| dec_str_of(lo + t))
}

/// The mathematical contents of a [`Config`].
pub ghost struct ConfigView {
    pub help: bool,
    pub version: bool,
    pub mode: Mode,
    pub filters: Seq<Seq<char>>,
}

/// The configuration before any argument is read: regular mode, no
/// filters.
pub open spec fn default_config_view() -> ConfigView {
    ConfigView { help: false, version: false, mode: Mode::Regular, filters: Seq::empty() }
}

/// One pass over the arguments, left to right: a help or version
/// flag stops the scan, a verbosity flag only ever raises the mode,
/// a port number joins the allow-list verbatim, a range adds the
/// canonical spelling of each port it covers, and anything else is
/// the unknown-argument error naming the offending token.
pub open spec fn parse_args(c: ConfigView, args: Seq<Seq<char>>) -> Result<ConfigView, Seq<char>>
    decreases args.len(),
{
    if args.len() == 0 {
        Ok(c)
    } else {
        let a = args[0];
        let rest = args.drop_first();
        if a == "-h"@ || a == "--help"@ {
            Ok(ConfigView { help: true, ..c })
        } else if a == "-v"@ || a == "--version"@ {
            Ok(ConfigView { version: true, ..c })
        } else if a == "-vv"@ || a == "--verbose"@ {
            parse_args(
                ConfigView {
                    mode: if mode_rank(c.mode) >= 1 {
                        c.mode
                    } else {
                        Mode::Verbose
                    },
                    ..c
                },
                rest,
            )
        } else if a == "-vvv"@ || a == "--very-verbose"@ {
            parse_args(
                ConfigView {
                    mode: if mode_rank(c.mode) >= 2 {
                        c.mode
                    } else {
                        Mode::VeryVerbose
                    },
                    ..c
                },
                rest,
            )
        } else if is_u16_str(a) {
            parse_args(ConfigView { filters: c.filters.push(a), ..c }, rest)
        } else if is_range_str(a) {
            parse_args(
                ConfigView { filters: c.filters + range_strs(range_lo(a), range_hi(a)), ..c },
                rest,
            )
        } else {
            Err("Unknown argument: '"@ + a + "'"@)
        }
    }
}

/// The arguments after the leading program name, if any.
pub open spec fn args_tail(args: Seq<Seq<char>>) -> Seq<Seq<char>> {
    if args.len() == 0 {
        args
    } else {
        args.drop_first()
    }
}

/// What a run was asked to do: help or version text, a verbosity
/// mode, and the port allow-list.
#[derive(Debug, PartialEq, Eq)]
pub struct Config {
    pub help: bool,
    pub version: bool,
    pub mode: Mode,
    pub filters: Vec<String>,
}

impl View for Config {
    type V = ConfigView;

    open spec fn view(&self) -> ConfigView {
        ConfigView {
            help: self.help,
            version: self.version,
            mode: self.mode,
            filters: self.filters.deep_view(),
        }
    }
}

impl Default for Config {
    fn default() -> (r: Self)
        ensures
            r@ == default_config_view(),
    {
        let r = Config { help: false, version: false, mode: Mode::Regular, filters: Vec::new() };
        proof {
            assert(r@.filters =~= default_config_view().filters);
        }
        r
    }
}

impl Config {
    /// Reads the whole argument list, program name first, as
    /// [`parse_args`] describes.
    pub fn new(args: &Vec<String>) -> (r: Result<Config, String>)
        ensures
            ({
                let sr = parse_args(default_config_view(), args_tail(args.deep_view()));
                &&& (r matches Ok(c) ==> (sr matches Ok(v) && c@ == v))
                &&& (r matches Err(m) ==> (sr matches Err(em) && m@ == em))
            }),
    {
        let ghost all = args.deep_view();
        let mut config = Config::default();
        let len = args.len();
        if len == 0 {
            return Ok(config);
        }
        let mut i: usize = 1;
        proof {
            assert(args_tail(all) =~= all.skip(1));
        }
        while i < len
            invariant
                1 <= i <= len,
                len == all.len(),
                all == args.deep_view(),
                parse_args(default_config_view(), args_tail(all)) == parse_args(
                    config@,
                    all.skip(i as int),
                ),
            decreases len - i,
        {
            let ghost cprev = config@;
            let ghost remaining = all.skip(i as int);
            proof {
                assert(remaining[0] == all[i as int]);
                assert(remaining.drop_first() =~= all.skip(i + 1));
            }
            let arg = args[i].as_str();
            if str_eq(arg, "-h") || str_eq(arg, "--help") {
                config.help = true;
                return Ok(config);
            } else if str_eq(arg, "-v") || str_eq(arg, "--version") {
                config.version = true;
                return Ok(config);
            } else if str_eq(arg, "-vv") || str_eq(arg, "--verbose") {
                match config.mode {
                    Mode::Regular => {
                        config.mode = Mode::Verbose;
                    },
                    _ => {},
                }
            } else if str_eq(arg, "-vvv") || str_eq(arg, "--very-verbose") {
                match config.mode {
                    Mode::VeryVerbose => {},
                    _ => {
                        config.mode = Mode::VeryVerbose;
                    },
                }
            } else if parse_port(arg).is_some() {
                let ghost fprev = config@.filters;
                config.filters.push(args[i].clone());
                proof {
                    assert(config@.filters =~= fprev.push(all[i as int]));
                }
            } else {
                // No single port number: try an `A-B` range around
                // the first dash.
                let alen = arg.unicode_len();
                let mut k: usize = 0;
                while k < alen && arg.get_char(k) != '-'
                    invariant
                        alen == arg@.len(),
                        k <= alen,
                        forall|j: int| 0 <= j < k ==> arg@[j] != '-',
                    decreases alen - k,
                {
                    k = k + 1;
                }
                proof {
                    lemma_first_dash(arg@, k as int);
                }
                let mut parsed: Option<(u16, u16)> = None;
                if k < alen {
                    let left = arg.substring_char(0, k);
                    let right = arg.substring_char(k + 1, alen);
                    proof {
                        assert(left@ =~= arg@.take(k as int));
                        assert(right@ =~= arg@.skip(k + 1));
                    }
                    if let Some(a) = parse_port(left) {
                        if let Some(b) = parse_port(right) {
                            parsed = Some((a, b));
                        }
                    }
                }
                match parsed {
                    Some((a, b)) => {
                        let lo = if a <= b {
                            a
                        } else {
                            b
                        };
                        let hi = if a <= b {
                            b
                        } else {
                            a
                        };
                        proof {
                            assert(is_range_str(arg@));
                            assert(lo as int == range_lo(arg@));
                            assert(hi as int == range_hi(arg@));
                        }
                        let ghost fprev = config@.filters;
                        let mut p: u32 = lo as u32;
                        while p <= hi as u32
                            invariant
                                lo as u32 <= p <= hi as u32 + 1,
                                config@ == (ConfigView {
                                    filters: fprev + Seq::new(
                                        (p - lo as u32) as nat,
                                        |t: int| dec_str_of(lo as int + t),
                                    ),
                                    ..cprev
                                }),
                            decreases hi as u32 + 1 - p,
                        {
                            let ghost fcur = config@.filters;
                            config.filters.push(u16_string(p as u16));
                            proof {
                                assert(config@.filters =~= fcur.push(dec_str_of(p as int)));
                                assert(config@.filters =~= fprev + Seq::new(
                                    (p + 1 - lo as u32) as nat,
                                    |t: int| dec_str_of(lo as int + t),
                                ));
                            }
                            p = p + 1;
                        }
                        proof {
                            assert(config@.filters =~= cprev.filters + range_strs(
                                range_lo(arg@),
                                range_hi(arg@),
                            ));
                        }
                    },
                    None => {
                        proof {
                            assert(!is_u16_str(arg@));
                            assert(!is_range_str(arg@));
                        }
                        let mut m = String::from_str("Unknown argument: '");
                        m.append(arg);
                        m.append("'");
                        return Err(m);
                    },
                }
            }
            i = i + 1;
        }
        proof {
            assert(all.skip(len as int) =~= Seq::<Seq<char>>::empty());
        }
        Ok(config)
    }
}

} // verus!
