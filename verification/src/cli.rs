//! Command-line options: the reader's own (`--file`, `--page`, `--tui`) and
//! those a launcher passes (`--file`, `--page`, `--mode`,
//! `--storage-profile`), which are taken out before the toolkit sees the rest.
use vstd::prelude::*;

use crate::text::{chars_of, parse_i64_range, parse_i64_spec, string_from_chars};

verus! {

broadcast use vstd::seq_lib::group_seq_properties;

/// Whether `s` reads exactly `lit`.
pub fn str_is(s: &str, lit: &str) -> (b: bool)
    ensures
        b == (s@ == lit@),
{
    let a = chars_of(s);
    let l = chars_of(lit);
    if a.len() != l.len() {
        return false;
    }
    let n = a.len();
    for i in 0..n
        invariant
            n == a@.len(),
            n == l@.len(),
            a@ == s@,
            l@ == lit@,
            forall|j: int| 0 <= j < i ==> a@[j] == l@[j],
    {
        if a[i] != l[i] {
            assert(a@[i as int] != l@[i as int]);
            return false;
        }
    }
    proof {
        assert(a@ =~= l@);
    }
    true
}

/// Views of a list of strings.
pub open spec fn views(v: Seq<String>) -> Seq<Seq<char>> {
    Seq::new(v.len(), |i: int| v[i]@)
}

/// Views of a list of string slices.
pub open spec fn str_views(v: Seq<&str>) -> Seq<Seq<char>> {
    Seq::new(v.len(), |i: int| v[i]@)
}

/// Options of the reader itself.
#[derive(Debug, Default, Clone, PartialEq, Eq)]
pub struct CliOptions {
    pub file: Option<String>,
    pub page: Option<i64>,
    pub tui_mode: bool,
}

/// The abstract value of the reader's options.
pub struct OptionsSpec {
    pub file: Option<Seq<char>>,
    pub page: Option<int>,
    pub tui_mode: bool,
}

impl CliOptions {
    /// The abstract value of the options.
    pub open spec fn view_spec(&self) -> OptionsSpec {
        OptionsSpec {
            file: match self.file {
                Some(f) => Some(f@),
                None => None,
            },
            page: match self.page {
                Some(p) => Some(p as int),
                None => None,
            },
            tui_mode: self.tui_mode,
        }
    }
}

/// Reads `args` from the front into `o`: `--tui` sets the terminal mode;
/// `--file`/`-f` take the next argument as the file and `--page`/`-p` the
/// next as the page when it is a number (either ends the reading when
/// nothing follows); any other argument that does not begin with `-` is the
/// file if none is set yet, else the page if none is set yet and it is a
/// number; the rest is ignored.
pub open spec fn parse_options(args: Seq<Seq<char>>, o: OptionsSpec) -> OptionsSpec
    decreases args.len(),
{
    if args.len() == 0 {
        o
    } else {
        let a = args[0];
        if a == "--tui"@ {
            parse_options(args.drop_first(), OptionsSpec { tui_mode: true, ..o })
        } else if a == "--file"@ || a == "-f"@ {
            if args.len() >= 2 {
                parse_options(args.skip(2), OptionsSpec { file: Some(args[1]), ..o })
            } else {
                o
            }
        } else if a == "--page"@ || a == "-p"@ {
            if args.len() >= 2 {
                parse_options(
                    args.skip(2),
                    match parse_i64_spec(args[1]) {
                        Some(p) => OptionsSpec { page: Some(p), ..o },
                        None => o,
                    },
                )
            } else {
                o
            }
        } else if !(a.len() > 0 && a[0] == '-') {
            if o.file is None {
                parse_options(args.drop_first(), OptionsSpec { file: Some(a), ..o })
            } else if o.page is None && parse_i64_spec(a) is Some {
                parse_options(args.drop_first(), OptionsSpec { page: parse_i64_spec(a), ..o })
            } else {
                parse_options(args.drop_first(), o)
            }
        } else {
            parse_options(args.drop_first(), o)
        }
    }
}

/// `-p` is the short form of `--page`, and `-f` of `--file`: for every
/// argument list, putting the short flag in place of the long one in front
/// gives the same options.
pub proof fn lemma_short_flags(rest: Seq<Seq<char>>, o: OptionsSpec)
    ensures
        parse_options(seq!["-p"@] + rest, o) == parse_options(seq!["--page"@] + rest, o),
        parse_options(seq!["-f"@] + rest, o) == parse_options(seq!["--file"@] + rest, o),
{
    reveal_strlit("-p");
    reveal_strlit("-f");
    reveal_strlit("--page");
    reveal_strlit("--file");
    reveal_strlit("--tui");
    assert("-p"@[1] != "-f"@[1]);
    assert("--page"@[2] != "--file"@[2]);
    let p1 = seq!["-p"@] + rest;
    let p2 = seq!["--page"@] + rest;
    assert(p1[0] == "-p"@ && p2[0] == "--page"@);
    assert(p1.len() >= 2 ==> p1.skip(2) =~= p2.skip(2));
    assert(p1.len() >= 2 ==> p1[1] == p2[1]);
    let f1 = seq!["-f"@] + rest;
    let f2 = seq!["--file"@] + rest;
    assert(f1[0] == "-f"@ && f2[0] == "--file"@);
    assert(f1.len() >= 2 ==> f1.skip(2) =~= f2.skip(2));
    assert(f1.len() >= 2 ==> f1[1] == f2[1]);
}

/// The argument after `--page` (or `-p`) is never taken as the file: it is
/// the page when it reads as a number and is dropped otherwise, and reading
/// goes on after it.
pub proof fn lemma_page_flag_value(flag: Seq<char>, v: Seq<char>, rest: Seq<Seq<char>>, o: OptionsSpec)
    requires
        flag == "-p"@ || flag == "--page"@,
    ensures
        parse_options(seq![flag, v] + rest, o) == parse_options(
            rest,
            match parse_i64_spec(v) {
                Some(n) => OptionsSpec { page: Some(n), ..o },
                None => o,
            },
        ),
{
    reveal_strlit("-p");
    reveal_strlit("-f");
    reveal_strlit("--page");
    reveal_strlit("--file");
    reveal_strlit("--tui");
    assert("-p"@[1] != "-f"@[1]);
    assert("--page"@[2] != "--file"@[2]);
    let a = seq![flag, v] + rest;
    assert(a[0] == flag && a[1] == v);
    assert(a.skip(2) =~= rest);
}

/// Reads a whole string as `str::parse::<i64>` does.
pub fn parse_i64(s: &str) -> (r: Option<i64>)
    ensures
        r matches Some(v) ==> parse_i64_spec(s@) == Some(v as int),
        r is None ==> parse_i64_spec(s@) is None,
{
    let v = chars_of(s);
    proof {
        assert(v@.subrange(0, v@.len() as int) =~= v@);
    }
    parse_i64_range(&v, 0, v.len())
}

fn copy_string(s: &str) -> (r: String)
    ensures
        r@ == s@,
{
    let v = chars_of(s);
    string_from_chars(&v)
}

impl CliOptions {
    /// Reads the reader's options from `args` (without the program name).
    pub fn parse_from_args(args: Vec<&str>) -> (opts: CliOptions)
        ensures
            opts.view_spec() == parse_options(
                str_views(args@),
                OptionsSpec { file: None, page: None, tui_mode: false },
            ),
    {
        let mut opts = CliOptions { file: None, page: None, tui_mode: false };
        let ghost all = str_views(args@);
        let n = args.len();
        let mut i: usize = 0;
        proof {
            assert(all.skip(0) =~= all);
        }
        while i < n
            invariant
                n == args@.len(),
                all == str_views(args@),
                i <= n,
                parse_options(all.skip(i as int), opts.view_spec()) == parse_options(
                    all,
                    OptionsSpec { file: None, page: None, tui_mode: false },
                ),
            decreases n - i,
        {
            let ghost rest = all.skip(i as int);
            let ghost o = opts.view_spec();
            let arg: &str = args[i];
            assert(rest[0] == arg@);
            proof {
                assert(rest.drop_first() =~= all.skip(i + 1));
            }
            if str_is(arg, "--tui") {
                opts.tui_mode = true;
                i = i + 1;
            } else if str_is(arg, "--file") || str_is(arg, "-f") {
                if i + 1 < n {
                    proof {
                        assert(rest[1] == args@[i + 1 as int]@);
                        assert(rest.skip(2) =~= all.skip(i + 2));
                    }
                    opts.file = Some(copy_string(args[i + 1]));
                    i = i + 2;
                } else {
                    proof {
                        assert(parse_options(rest, o) == o);
                        assert(all.skip(n as int) =~= Seq::<Seq<char>>::empty());
                    }
                    i = n;
                }
            } else if str_is(arg, "--page") || str_is(arg, "-p") {
                if i + 1 < n {
                    proof {
                        assert(rest[1] == args@[i + 1 as int]@);
                        assert(rest.skip(2) =~= all.skip(i + 2));
                    }
                    match parse_i64(args[i + 1]) {
                        Some(p) => {
                            opts.page = Some(p);
                        },
                        None => {},
                    }
                    i = i + 2;
                } else {
                    proof {
                        assert(all.skip(n as int) =~= Seq::<Seq<char>>::empty());
                    }
                    i = n;
                }
            } else {
                let cs = chars_of(arg);
                let starts_dash = cs.len() > 0 && cs[0] == '-';
                if !starts_dash {
                    if opts.file.is_none() {
                        opts.file = Some(copy_string(arg));
                    } else if opts.page.is_none() {
                        match parse_i64(arg) {
                            Some(p) => {
                                opts.page = Some(p);
                            },
                            None => {},
                        }
                    }
                }
                i = i + 1;
            }
        }
        proof {
            assert(all.skip(n as int) =~= Seq::<Seq<char>>::empty());
        }
        opts
    }
}

/// Options a launcher passes.
#[derive(Debug, Clone, PartialEq, Eq)]
pub struct CliArgs {
    pub file: Option<String>,
    pub page: Option<i64>,
    pub mode: Option<String>,
    pub storage_profile: Option<String>,
}

/// The abstract value of a launcher's options.
pub struct ArgsSpec {
    pub file: Option<Seq<char>>,
    pub page: Option<int>,
    pub mode: Option<Seq<char>>,
    pub storage_profile: Option<Seq<char>>,
}

impl CliArgs {
    /// The abstract value of the options.
    pub open spec fn view_spec(&self) -> ArgsSpec {
        ArgsSpec {
            file: match self.file {
                Some(f) => Some(f@),
                None => None,
            },
            page: match self.page {
                Some(p) => Some(p as int),
                None => None,
            },
            mode: match self.mode {
                Some(f) => Some(f@),
                None => None,
            },
            storage_profile: match self.storage_profile {
                Some(f) => Some(f@),
                None => None,
            },
        }
    }
}

/// One of the four options a launcher passes.
pub open spec fn is_launcher_flag(a: Seq<char>) -> bool {
    a == "--file"@ || a == "--page"@ || a == "--mode"@ || a == "--storage-profile"@
}

/// Reads `raw` from position `i` into `o`: each of the four options takes
/// the argument after it as its value (a page that is not a number clears
/// the page), when there is one; other arguments are skipped.
pub open spec fn parse_launcher(raw: Seq<Seq<char>>, i: int, o: ArgsSpec) -> ArgsSpec
    decreases raw.len() - i,
{
    if i >= raw.len() || i < 0 {
        o
    } else {
        let a = raw[i];
        if i + 1 < raw.len() && is_launcher_flag(a) {
            let v = raw[i + 1];
            let o2 = if a == "--file"@ {
                ArgsSpec { file: Some(v), ..o }
            } else if a == "--page"@ {
                ArgsSpec { page: parse_i64_spec(v), ..o }
            } else if a == "--mode"@ {
                ArgsSpec { mode: Some(v), ..o }
            } else {
                ArgsSpec { storage_profile: Some(v), ..o }
            };
            parse_launcher(raw, i + 2, o2)
        } else {
            parse_launcher(raw, i + 1, o)
        }
    }
}

/// The arguments left for the toolkit: `raw` without the launcher's four
/// options and the argument after each.
pub open spec fn filtered_args(raw: Seq<Seq<char>>, i: int) -> Seq<Seq<char>>
    decreases raw.len() + 2 - i,
{
    if i >= raw.len() || i < 0 {
        Seq::empty()
    } else if is_launcher_flag(raw[i]) {
        filtered_args(raw, i + 2)
    } else {
        seq![raw[i]] + filtered_args(raw, i + 1)
    }
}

/// The arguments handed to the toolkit never hold one of the launcher's
/// four options.
pub proof fn lemma_filtered_args_hold_no_launcher_flag(raw: Seq<Seq<char>>, i: int)
    ensures
        forall|j: int|
            0 <= j < filtered_args(raw, i).len() ==> !is_launcher_flag(#[trigger] filtered_args(raw, i)[j]),
    decreases raw.len() + 2 - i,
{
    if i >= raw.len() || i < 0 {
        assert(filtered_args(raw, i).len() == 0);
    } else if is_launcher_flag(raw[i]) {
        lemma_filtered_args_hold_no_launcher_flag(raw, i + 2);
        assert(filtered_args(raw, i) == filtered_args(raw, i + 2));
    } else {
        lemma_filtered_args_hold_no_launcher_flag(raw, i + 1);
        let rest = filtered_args(raw, i + 1);
        assert forall|j: int| 0 <= j < filtered_args(raw, i).len() implies !is_launcher_flag(
            #[trigger] filtered_args(raw, i)[j],
        ) by {
            if j > 0 {
                assert(filtered_args(raw, i)[j] == rest[j - 1]);
            }
        }
    }
}

fn is_launcher_flag_exec(a: &str) -> (b: bool)
    ensures
        b == is_launcher_flag(a@),
{
    str_is(a, "--file") || str_is(a, "--page") || str_is(a, "--mode") || str_is(a, "--storage-profile")
}

/// Reads the launcher's options from `raw`, which begins with the program
/// name.
pub fn parse_cli_args(raw: &Vec<String>) -> (cli: CliArgs)
    ensures
        cli.view_spec() == parse_launcher(
            views(raw@),
            1,
            ArgsSpec { file: None, page: None, mode: None, storage_profile: None },
        ),
{
    let mut cli = CliArgs { file: None, page: None, mode: None, storage_profile: None };
    let ghost all = views(raw@);
    let n = raw.len();
    let mut i: usize = 1;
    while i < n
        invariant
            n == raw@.len(),
            all == views(raw@),
            1 <= i,
            parse_launcher(all, i as int, cli.view_spec()) == parse_launcher(
                all,
                1,
                ArgsSpec { file: None, page: None, mode: None, storage_profile: None },
            ),
        decreases n - i,
    {
        let a = raw[i].as_str();
        assert(all[i as int] == a@);
        if i + 1 < n && is_launcher_flag_exec(a) {
            let v = raw[i + 1].as_str();
            assert(all[i + 1] == v@);
            if str_is(a, "--file") {
                cli.file = Some(copy_string(v));
            } else if str_is(a, "--page") {
                cli.page = parse_i64(v);
            } else if str_is(a, "--mode") {
                cli.mode = Some(copy_string(v));
            } else {
                cli.storage_profile = Some(copy_string(v));
            }
            i = i + 2;
        } else {
            i = i + 1;
        }
    }
    cli
}

/// The arguments to hand to the toolkit: `raw` without the launcher's four
/// options and their values.
pub fn filter_args(raw: &Vec<String>) -> (out: Vec<String>)
    ensures
        views(out@) == filtered_args(views(raw@), 0),
{
    let ghost all = views(raw@);
    let n = raw.len();
    let mut out: Vec<String> = Vec::new();
    let mut i: usize = 0;
    proof {
        assert(views(out@) + filtered_args(all, 0) =~= filtered_args(all, 0));
    }
    while i < n
        invariant
            n == raw@.len(),
            all == views(raw@),
            views(out@) + filtered_args(all, i as int) == filtered_args(all, 0),
        decreases n + 2 - i,
    {
        let a = raw[i].as_str();
        assert(all[i as int] == a@);
        if is_launcher_flag_exec(a) {
            if n - i >= 2 {
                i = i + 2;
            } else {
                proof {
                    assert(filtered_args(all, i + 2) == Seq::<Seq<char>>::empty());
                    assert(views(out@) + Seq::<Seq<char>>::empty() =~= views(out@));
                }
                i = n;
            }
        } else {
            let ghost before = views(out@);
            out.push(copy_string(a));
            proof {
                assert(views(out@) =~= before.push(a@));
                assert(before + (seq![a@] + filtered_args(all, i + 1)) =~= before.push(a@) + filtered_args(
                    all,
                    i + 1,
                ));
            }
            i = i + 1;
        }
    }
    proof {
        assert(views(out@) + Seq::<Seq<char>>::empty() =~= views(out@));
    }
    out
}

} // verus!
