use vstd::prelude::*;

verus! {

/// Numeric value of a digit string, most significant digit first.
pub open spec fn digits_value(s: Seq<char>) -> int
    decreases s.len(),
{
    if s.len() == 0 {
        0
    } else {
        digits_value(s.drop_last()) * 10 + (s.last() as int - 0x30)
    }
}

pub open spec fn is_digit(c: char) -> bool {
    '0' <= c <= '9'
}

pub open spec fn all_digits(s: Seq<char>) -> bool {
    forall|i: int| 0 <= i < s.len() ==> is_digit(#[trigger] s[i])
}

/// What `usize::from_str` accepts: an optional leading plus sign, then one or
/// more digits, denoting a value that fits.
pub open spec fn spec_parse_usize(s: Seq<char>) -> Option<int> {
    let digits = if s.len() > 0 && s[0] == '+' {
        s.drop_first()
    } else {
        s
    };
    if digits.len() > 0 && all_digits(digits) && digits_value(digits) <= usize::MAX {
        Some(digits_value(digits))
    } else {
        None
    }
}

/// Appending digits never shrinks the value.
proof fn lemma_digits_value_monotone(s: Seq<char>, i: int)
    requires
        0 <= i <= s.len(),
        all_digits(s),
    ensures
        digits_value(s.subrange(0, i)) <= digits_value(s),
        digits_value(s) >= 0,
    decreases s.len() - i,
{
    if i < s.len() {
        let pre = s.subrange(0, i);
        let cur = s.subrange(0, i + 1);
        assert(cur.drop_last() =~= pre);
        assert(is_digit(s[i]));
        assert(all_digits(pre)) by {
            assert forall|k: int| 0 <= k < pre.len() implies is_digit(#[trigger] pre[k]) by {
                assert(pre[k] == s[k]);
            }
        }
        lemma_digits_nonneg(pre);
        lemma_digits_value_monotone(s, i + 1);
        assert(digits_value(cur) == digits_value(pre) * 10 + (s[i] as int - 0x30));
        assert(digits_value(pre) * 10 >= digits_value(pre)) by (nonlinear_arith)
            requires
                digits_value(pre) >= 0;
    } else {
        assert(s.subrange(0, i) =~= s);
        lemma_digits_nonneg(s);
    }
}

proof fn lemma_digits_nonneg(s: Seq<char>)
    requires
        all_digits(s),
    ensures
        digits_value(s) >= 0,
    decreases s.len(),
{
    if s.len() > 0 {
        assert(all_digits(s.drop_last())) by {
            assert forall|i: int| 0 <= i < s.len() - 1 implies is_digit(
                #[trigger] s.drop_last()[i],
            ) by {
                assert(s.drop_last()[i] == s[i]);
            }
        }
        lemma_digits_nonneg(s.drop_last());
        assert(is_digit(s.last()));
        assert(digits_value(s.drop_last()) * 10 >= 0) by (nonlinear_arith)
            requires
                digits_value(s.drop_last()) >= 0,
        ;
    }
}

/// Parse a decimal `usize` exactly as `usize::from_str` would: an optional
/// leading plus, then digits, rejecting anything else and values that do not
/// fit.
pub fn parse_usize(s: &str) -> (r: Option<usize>)
    ensures
        ({
            match r {
                Some(v) => spec_parse_usize(s@) == Some(v as int),
                None => spec_parse_usize(s@) is None,
            }
        }),
{
    let len: usize = s.unicode_len();
    let start: usize = if len > 0 && s.get_char(0) == '+' {
        1
    } else {
        0
    };
    let ghost digits = if s@.len() > 0 && s@[0] == '+' {
        s@.drop_first()
    } else {
        s@
    };
    proof {
        assert(digits =~= s@.subrange(start as int, len as int));
    }
    if start >= len {
        return None;
    }
    let mut val: u128 = 0;
    let mut i: usize = start;
    while i < len
        invariant
            start <= i <= len,
            len == s@.len(),
            start < len,
            start == (if s@.len() > 0 && s@[0] == '+' { 1int } else { 0int }),
            digits == (if s@.len() > 0 && s@[0] == '+' { s@.drop_first() } else { s@ }),
            digits =~= s@.subrange(start as int, len as int),
            all_digits(s@.subrange(start as int, i as int)),
            val as int == digits_value(s@.subrange(start as int, i as int)),
            val <= usize::MAX,
        decreases len - i,
    {
        let c: char = s.get_char(i);
        if c < '0' || c > '9' {
            proof {
                assert(digits[i - start] == c);
                assert(!all_digits(digits));
                assert(spec_parse_usize(s@) is None);
            }
            return None;
        }
        let d: u128 = (c as u32) as u128 - 0x30;
        let ghost pre = s@.subrange(start as int, i as int);
        let ghost cur = s@.subrange(start as int, i + 1 as int);
        proof {
            assert(cur.drop_last() =~= pre);
            assert(cur.last() == s@[i as int]);
        }
        let next: u128 = val * 10 + d;
        if next > (usize::MAX as u128) {
            proof {
                assert(all_digits(cur));
                assert(digits_value(cur) == val as int * 10 + d as int);
                if all_digits(digits) {
                    assert(cur =~= digits.subrange(0, i + 1 - start as int));
                    lemma_digits_value_monotone(digits, i + 1 - start as int);
                    assert(digits_value(cur) <= digits_value(digits));
                }
                assert(spec_parse_usize(s@) is None);
            }
            return None;
        }
        val = next;
        i = i + 1;
    }
    proof {
        assert(s@.subrange(start as int, len as int) =~= digits);
    }
    Some(val as usize)
}

/// Character-wise string equality.
pub fn str_eq(a: &str, b: &str) -> (r: bool)
    ensures
        r == (a@ == b@),
{
    let alen: usize = a.unicode_len();
    let blen: usize = b.unicode_len();
    if alen != blen {
        proof {
            if a@ == b@ {
                assert(false);
            }
        }
        return false;
    }
    let mut i: usize = 0;
    while i < alen
        invariant
            i <= alen,
            alen == a@.len(),
            alen == b@.len(),
            forall|k: int| 0 <= k < i ==> a@[k] == b@[k],
        decreases alen - i,
    {
        if a.get_char(i) != b.get_char(i) {
            proof {
                if a@ == b@ {
                    assert(a@[i as int] == b@[i as int]);
                }
            }
            return false;
        }
        i = i + 1;
    }
    proof {
        assert(a@ =~= b@);
    }
    true
}

/// Everything the command line determines: the paths to scan, the recursion
/// depth bound, and whether to only test discovery and exit.
pub struct CliOptions {
    pub paths: Vec<String>,
    pub depth: usize,
    pub test_search: bool,
}

/// Outcome of command-line parsing. `Usage` asks for the usage text (too few
/// arguments); `UnknownOption` and `NoPaths` are the two rejections.
pub enum CliResult {
    Run(CliOptions),
    UnknownOption(String),
    NoPaths,
    Usage,
}

/// Spec-level mirror of `CliResult`, over character sequences.
pub enum SpecCliResult {
    Run { paths: Seq<Seq<char>>, depth: int, test_search: bool },
    UnknownOption(Seq<char>),
    NoPaths,
    Usage,
}

pub open spec fn opt_d() -> Seq<char> {
    seq!['-', 'd']
}

pub open spec fn opt_depth() -> Seq<char> {
    seq!['-', '-', 'd', 'e', 'p', 't', 'h']
}

pub open spec fn opt_test_search() -> Seq<char> {
    seq!['-', '-', 't', 'e', 's', 't', '-', 's', 'e', 'a', 'r', 'c', 'h']
}

/// One pass over the arguments from index `i` on: a depth option consumes the
/// following argument as its value (an unparsable one falls back to depth 1;
/// a missing one is ignored), the test-search flag is sticky, an argument not
/// starting with a dash is a path, and any other option is unknown.
pub open spec fn spec_cli_loop(
    args: Seq<Seq<char>>,
    i: int,
    depth: int,
    test: bool,
    paths: Seq<Seq<char>>,
) -> SpecCliResult
    decreases args.len() - i,
{
    if i < 0 || i >= args.len() {
        if paths.len() == 0 {
            SpecCliResult::NoPaths
        } else {
            SpecCliResult::Run { paths, depth, test_search: test }
        }
    } else {
        let a = args[i];
        if a == opt_d() || a == opt_depth() {
            if i + 1 < args.len() {
                let nd = match spec_parse_usize(args[i + 1]) {
                    Some(v) => v,
                    None => 1int,
                };
                spec_cli_loop(args, i + 2, nd, test, paths)
            } else {
                spec_cli_loop(args, i + 1, depth, test, paths)
            }
        } else if a == opt_test_search() {
            spec_cli_loop(args, i + 1, depth, true, paths)
        } else if a.len() == 0 || a[0] != '-' {
            spec_cli_loop(args, i + 1, depth, test, paths.push(a))
        } else {
            SpecCliResult::UnknownOption(a)
        }
    }
}

/// What a command line means. The first argument is the program's own name;
/// fewer than two arguments ask for the usage text.
pub open spec fn spec_parse_args(args: Seq<Seq<char>>) -> SpecCliResult {
    if args.len() < 2 {
        SpecCliResult::Usage
    } else {
        spec_cli_loop(args, 1, 1, false, Seq::empty())
    }
}

/// Parse the command line: `-d`/`--depth N` bounds the directory walk,
/// `--test-search` runs discovery alone, anything else starting with a dash
/// is rejected, and everything else is a path to scan.
pub fn parse_args(args: &Vec<String>) -> (r: CliResult)
    ensures
        ({
            let av = args@.map_values(|s: String| s@);
            match r {
                CliResult::Run(o) => spec_parse_args(av) == (SpecCliResult::Run {
                    paths: o.paths@.map_values(|p: String| p@),
                    depth: o.depth as int,
                    test_search: o.test_search,
                }),
                CliResult::UnknownOption(a) => spec_parse_args(av)
                    == SpecCliResult::UnknownOption(a@),
                CliResult::NoPaths => spec_parse_args(av) == SpecCliResult::NoPaths,
                CliResult::Usage => spec_parse_args(av) == SpecCliResult::Usage,
            }
        }),
{
    let ghost av = args@.map_values(|s: String| s@);
    if args.len() < 2 {
        return CliResult::Usage;
    }
    let mut paths: Vec<String> = Vec::new();
    let mut depth: usize = 1;
    let mut test_search: bool = false;
    let mut i: usize = 1;
    proof {
        reveal_strlit("-d");
        reveal_strlit("--depth");
        reveal_strlit("--test-search");
        assert("-d"@ =~= opt_d());
        assert("--depth"@ =~= opt_depth());
        assert("--test-search"@ =~= opt_test_search());
        assert(paths@.map_values(|p: String| p@) =~= Seq::<Seq<char>>::empty());
    }
    while i < args.len()
        invariant
            1 <= i <= args@.len(),
            2 <= args@.len(),
            av == args@.map_values(|s: String| s@),
            "-d"@ == opt_d(),
            "--depth"@ == opt_depth(),
            "--test-search"@ == opt_test_search(),
            spec_cli_loop(av, i as int, depth as int, test_search, paths@.map_values(|p: String| p@))
                == spec_cli_loop(av, 1, 1, false, Seq::empty()),
        decreases args@.len() - i,
    {
        proof {
            assert(av[i as int] == args@[i as int]@);
        }
        let arg: &str = args[i].as_str();
        if str_eq(arg, "-d") || str_eq(arg, "--depth") {
            if i + 1 < args.len() {
                proof {
                    assert(av[i as int + 1] == args@[i as int + 1]@);
                }
                depth = match parse_usize(args[i + 1].as_str()) {
                    Some(v) => v,
                    None => 1,
                };
                i = i + 2;
            } else {
                i = i + 1;
            }
        } else if str_eq(arg, "--test-search") {
            test_search = true;
            i = i + 1;
        } else {
            let alen: usize = arg.unicode_len();
            if alen == 0 || arg.get_char(0) != '-' {
                let ghost before = paths@.map_values(|p: String| p@);
                paths.push(args[i].clone());
                proof {
                    assert(paths@.map_values(|p: String| p@) =~= before.push(av[i as int]));
                }
                i = i + 1;
            } else {
                return CliResult::UnknownOption(args[i].clone());
            }
        }
    }
    if paths.len() == 0 {
        return CliResult::NoPaths;
    }
    CliResult::Run(CliOptions { paths, depth, test_search })
}

} // verus!
