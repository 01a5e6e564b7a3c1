//! The flags of the command line.

use crate::text::{parse_i64, same, split_once, trim_start_matches};
use vstd::prelude::*;

verus! {

use crate::text::{
    integer_of, law_no_separator_no_split, law_split_at_the_first, leads, occurs, occurs_at,
    text_after, text_before, texts, without_leading,
};

#[derive(Debug)]
pub struct Flags {
    pub config_path: String,
    pub one_shot: String,
    pub write_sample: String,
    pub dry_run: bool,
    pub debug: bool,
    pub fetch_follows: bool,
    pub capture_queries: bool,
    pub seed: String,
    pub limit: i64,
}

/// What the flags say.
pub struct FlagsView {
    pub config_path: Seq<char>,
    pub one_shot: Seq<char>,
    pub write_sample: Seq<char>,
    pub dry_run: bool,
    pub debug: bool,
    pub fetch_follows: bool,
    pub capture_queries: bool,
    pub seed: Seq<char>,
    pub limit: i64,
}

impl View for Flags {
    type V = FlagsView;

    open spec fn view(&self) -> FlagsView {
        FlagsView {
            config_path: self.config_path@,
            one_shot: self.one_shot@,
            write_sample: self.write_sample@,
            dry_run: self.dry_run,
            debug: self.debug,
            fetch_follows: self.fetch_follows,
            capture_queries: self.capture_queries,
            seed: self.seed@,
            limit: self.limit,
        }
    }
}

/// The flags where none is given.
pub open spec fn default_flags() -> FlagsView {
    FlagsView {
        config_path: "/etc/instagrab/config.toml"@,
        one_shot: Seq::empty(),
        write_sample: Seq::empty(),
        dry_run: false,
        debug: false,
        fetch_follows: false,
        capture_queries: false,
        seed: Seq::empty(),
        limit: 0,
    }
}

pub const USAGE: &'static str = "Usage of instagrab:\n  --config string\n    TOML config path (default \"/etc/instagrab/config.toml\")\n  --capture-queries\n    print the GraphQL queries that the page of a profile issues (--once, else the canary), then exit\n  --debug\n    log fetch envelope + DOM facts to stderr per username\n  --dry-run\n    load config and connect to Chrome but don't scrape\n  --fetch-follows\n    page seed_username's Following, (re)write the follows file, then exit\n  --seed string\n    seed profile for --fetch-follows (overrides config seed_username)\n  --once string\n    scan just this username, ignore the follows list\n  --limit int\n    scan at most N profiles from the follows list (0 = no limit)\n  --write-sample-config string\n    write an example config to PATH and exit";

pub fn usage() -> (r: String)
    ensures
        r@ == USAGE@,
{
    USAGE.to_owned()
}

// --- values --------------------------------------------------------------------------

/// What `{:?}` makes of a text: the text between quotation marks, with what
/// cannot be shown escaped.
pub uninterp spec fn debug_text(s: Seq<char>) -> Seq<char>;

/// Formats a text with `{:?}`, as `str`'s `Debug` has it. What comes out is
/// only named; it depends on the text alone.
#[verifier::external_body]
fn debug_format(s: &str) -> (r: String)
    ensures
        r@ == debug_text(s@),
{
    format!("{s:?}")
}

/// Whether a value is one for true.
pub open spec fn means_true(v: Seq<char>) -> bool {
    v == "true"@ || v == "1"@ || v == "t"@ || v == "T"@ || v == "TRUE"@ || v == "True"@
}

/// Whether a value is one for false.
pub open spec fn means_false(v: Seq<char>) -> bool {
    v == "false"@ || v == "0"@ || v == "f"@ || v == "F"@ || v == "FALSE"@ || v == "False"@
}

/// The truth value that a flag is given; a flag without a value is true.
pub open spec fn truth_of(inline: Option<Seq<char>>) -> Result<bool, Seq<char>> {
    match inline {
        None => Ok(true),
        Some(v) => if means_true(v) {
            Ok(true)
        } else if means_false(v) {
            Ok(false)
        } else {
            Err("invalid boolean value "@ + debug_text(v))
        },
    }
}

/// What an optional text holds.
pub open spec fn opt_str(o: Option<&str>) -> Option<Seq<char>> {
    match o {
        Some(s) => Some(s@),
        None => None,
    }
}

pub fn parse_bool_flag(inline: Option<&str>) -> (r: Result<bool, String>)
    ensures
        match r {
            Ok(b) => truth_of(opt_str(inline)) == Ok::<bool, Seq<char>>(b),
            Err(e) => truth_of(opt_str(inline)) == Err::<bool, Seq<char>>(e@),
        },
{
    let v = match inline {
        None => {
            return Ok(true);
        },
        Some(v) => v,
    };
    if same(v, "true") || same(v, "1") || same(v, "t") || same(v, "T") || same(v, "TRUE") || same(
        v,
        "True",
    ) {
        return Ok(true);
    }
    if same(v, "false") || same(v, "0") || same(v, "f") || same(v, "F") || same(v, "FALSE") || same(
        v,
        "False",
    ) {
        return Ok(false);
    }
    let mut message = "invalid boolean value ".to_owned();
    message.append(debug_format(v).as_str());
    Err(message)
}

/// The value of a flag that needs one: the one behind `=`, or else the next
/// argument. With it, whether the next argument was taken.
pub open spec fn value_of(
    name: Seq<char>,
    inline: Option<Seq<char>>,
    next: Option<Seq<char>>,
) -> Result<(Seq<char>, bool), Seq<char>> {
    match inline {
        Some(v) => Ok((v, false)),
        None => match next {
            Some(v) => Ok((v, true)),
            None => Err("flag needs an argument: --"@ + name),
        },
    }
}

fn take_value(name: &str, inline: Option<&str>, next: Option<&String>) -> (r: Result<
    (String, bool),
    String,
>)
    ensures
        match r {
            Ok((v, took)) => value_of(
                name@,
                opt_str(inline),
                match next {
                    Some(n) => Some(n@),
                    None => None,
                },
            ) == Ok::<(Seq<char>, bool), Seq<char>>((v@, took)),
            Err(e) => value_of(
                name@,
                opt_str(inline),
                match next {
                    Some(n) => Some(n@),
                    None => None,
                },
            ) == Err::<(Seq<char>, bool), Seq<char>>(e@),
        },
{
    match inline {
        Some(v) => Ok((v.to_owned(), false)),
        None => match next {
            Some(v) => Ok((v.clone(), true)),
            None => {
                let mut message = "flag needs an argument: --".to_owned();
                message.append(name);
                Err(message)
            },
        },
    }
}

// --- one flag ------------------------------------------------------------------------

/// The flags with a flag of the given name added. With them, whether the next
/// argument was taken as its value.
pub open spec fn with_flag(
    f: FlagsView,
    name: Seq<char>,
    inline: Option<Seq<char>>,
    next: Option<Seq<char>>,
) -> Result<(FlagsView, bool), Seq<char>> {
    if name == "config"@ || name == "once"@ || name == "write-sample-config"@ || name == "seed"@ {
        match value_of(name, inline, next) {
            Err(e) => Err(e),
            Ok((v, took)) => if name == "config"@ {
                Ok((FlagsView { config_path: v, ..f }, took))
            } else if name == "once"@ {
                Ok((FlagsView { one_shot: v, ..f }, took))
            } else if name == "write-sample-config"@ {
                Ok((FlagsView { write_sample: v, ..f }, took))
            } else {
                Ok((FlagsView { seed: v, ..f }, took))
            },
        }
    } else if name == "limit"@ {
        match value_of(name, inline, next) {
            Err(e) => Err(e),
            Ok((v, took)) => match integer_of(v) {
                Some(n) => Ok((FlagsView { limit: n, ..f }, took)),
                None => Err("invalid --limit value: "@ + v),
            },
        }
    } else if name == "dry-run"@ || name == "debug"@ || name == "fetch-follows"@ || name
        == "capture-queries"@ {
        match truth_of(inline) {
            Err(e) => Err(e),
            Ok(b) => if name == "dry-run"@ {
                Ok((FlagsView { dry_run: b, ..f }, false))
            } else if name == "debug"@ {
                Ok((FlagsView { debug: b, ..f }, false))
            } else if name == "fetch-follows"@ {
                Ok((FlagsView { fetch_follows: b, ..f }, false))
            } else {
                Ok((FlagsView { capture_queries: b, ..f }, false))
            },
        }
    } else if name == "help"@ || name == "h"@ {
        Err(USAGE@)
    } else {
        Err("flag provided but not defined: --"@ + name + "\n"@ + USAGE@)
    }
}

/// Whether an argument begins with two dashes.
pub open spec fn is_flag(arg: Seq<char>) -> bool {
    arg.len() >= 2 && arg[0] == '-' && arg[1] == '-'
}

/// The message for an argument that is no flag.
pub open spec fn no_flag(arg: Seq<char>) -> Seq<char> {
    if leads(arg, '-') {
        "unknown flag: "@ + arg + " (flags take two dashes, e.g. --"@ + without_leading(arg, '-')
            + ")\n"@ + USAGE@
    } else {
        "unexpected argument: "@ + arg + "\n"@ + USAGE@
    }
}

/// The flags with an argument added: `--flag` or `--flag=value`.
pub open spec fn with_argument(f: FlagsView, arg: Seq<char>, next: Option<Seq<char>>) -> Result<
    (FlagsView, bool),
    Seq<char>,
> {
    if !is_flag(arg) {
        Err(no_flag(arg))
    } else {
        let body = arg.skip(2);
        match text_before(body, "="@) {
            Some(name) => with_flag(f, name, text_after(body, "="@), next),
            None => with_flag(f, body, None, next),
        }
    }
}

/// The flags with the arguments from `i` on added, or the message for the first
/// of them that is wrong.
pub open spec fn with_arguments(f: FlagsView, args: Seq<Seq<char>>, i: int) -> Result<
    FlagsView,
    Seq<char>,
>
    decreases args.len() - i,
{
    if i < 0 || i >= args.len() {
        Ok(f)
    } else {
        let next = if i + 1 < args.len() {
            Some(args[i + 1])
        } else {
            None
        };
        match with_argument(f, args[i], next) {
            Err(e) => Err(e),
            Ok((g, took)) => if took {
                with_arguments(g, args, i + 2)
            } else {
                with_arguments(g, args, i + 1)
            },
        }
    }
}

fn add_flag(flags: Flags, name: &str, inline: Option<&str>, next: Option<&String>) -> (r: Result<
    (Flags, bool),
    String,
>)
    ensures
        match r {
            Ok((g, took)) => with_flag(
                flags@,
                name@,
                opt_str(inline),
                match next {
                    Some(n) => Some(n@),
                    None => None,
                },
            ) == Ok::<(FlagsView, bool), Seq<char>>((g@, took)),
            Err(e) => with_flag(
                flags@,
                name@,
                opt_str(inline),
                match next {
                    Some(n) => Some(n@),
                    None => None,
                },
            ) == Err::<(FlagsView, bool), Seq<char>>(e@),
        },
{
    let mut flags = flags;
    if same(name, "config") || same(name, "once") || same(name, "write-sample-config") || same(
        name,
        "seed",
    ) {
        let (v, took) = match take_value(name, inline, next) {
            Ok(pair) => pair,
            Err(e) => {
                return Err(e);
            },
        };
        if same(name, "config") {
            flags.config_path = v;
        } else if same(name, "once") {
            flags.one_shot = v;
        } else if same(name, "write-sample-config") {
            flags.write_sample = v;
        } else {
            flags.seed = v;
        }
        return Ok((flags, took));
    }
    if same(name, "limit") {
        let (v, took) = match take_value(name, inline, next) {
            Ok(pair) => pair,
            Err(e) => {
                return Err(e);
            },
        };
        return match parse_i64(v.as_str()) {
            Some(n) => {
                flags.limit = n;
                Ok((flags, took))
            },
            None => {
                let mut message = "invalid --limit value: ".to_owned();
                message.append(v.as_str());
                Err(message)
            },
        };
    }
    if same(name, "dry-run") || same(name, "debug") || same(name, "fetch-follows") || same(
        name,
        "capture-queries",
    ) {
        let b = match parse_bool_flag(inline) {
            Ok(b) => b,
            Err(e) => {
                return Err(e);
            },
        };
        if same(name, "dry-run") {
            flags.dry_run = b;
        } else if same(name, "debug") {
            flags.debug = b;
        } else if same(name, "fetch-follows") {
            flags.fetch_follows = b;
        } else {
            flags.capture_queries = b;
        }
        return Ok((flags, false));
    }
    if same(name, "help") || same(name, "h") {
        return Err(usage());
    }
    let mut message = "flag provided but not defined: --".to_owned();
    message.append(name);
    message.append("\n");
    message.append(USAGE);
    Err(message)
}

fn add_argument(flags: Flags, arg: &String, next: Option<&String>) -> (r: Result<
    (Flags, bool),
    String,
>)
    ensures
        match r {
            Ok((g, took)) => with_argument(
                flags@,
                arg@,
                match next {
                    Some(n) => Some(n@),
                    None => None,
                },
            ) == Ok::<(FlagsView, bool), Seq<char>>((g@, took)),
            Err(e) => with_argument(
                flags@,
                arg@,
                match next {
                    Some(n) => Some(n@),
                    None => None,
                },
            ) == Err::<(FlagsView, bool), Seq<char>>(e@),
        },
{
    let len: usize = arg.as_str().unicode_len();
    let dashed = len > 0 && arg.as_str().get_char(0) == '-';
    if !dashed {
        let mut message = "unexpected argument: ".to_owned();
        message.append(arg.as_str());
        message.append("\n");
        message.append(USAGE);
        return Err(message);
    }
    if len < 2 || arg.as_str().get_char(1) != '-' {
        let mut message = "unknown flag: ".to_owned();
        message.append(arg.as_str());
        message.append(" (flags take two dashes, e.g. --");
        message.append(trim_start_matches(arg.as_str(), '-'));
        message.append(")\n");
        message.append(USAGE);
        return Err(message);
    }
    let body = arg.as_str().substring_char(2, len);
    assert(body@ =~= arg@.skip(2));
    match split_once(body, "=") {
        Some((name, value)) => add_flag(flags, name, Some(value), next),
        None => add_flag(flags, body, None, next),
    }
}

/// Reads the arguments of the command line, without the name of the program.
pub fn parse_flags(args: &Vec<String>) -> (r: Result<Flags, String>)
    ensures
        match r {
            Ok(f) => with_arguments(default_flags(), texts(args@), 0) == Ok::<
                FlagsView,
                Seq<char>,
            >(f@),
            Err(e) => with_arguments(default_flags(), texts(args@), 0) == Err::<
                FlagsView,
                Seq<char>,
            >(e@),
        },
{
    let mut flags = Flags {
        config_path: "/etc/instagrab/config.toml".to_owned(),
        one_shot: String::new(),
        write_sample: String::new(),
        dry_run: false,
        debug: false,
        fetch_follows: false,
        capture_queries: false,
        seed: String::new(),
        limit: 0,
    };
    assert(flags.seed@ =~= Seq::<char>::empty());
    let ghost all = texts(args@);
    let len: usize = args.len();
    let mut i: usize = 0;
    while i < len
        invariant
            0 <= i <= len == args@.len(),
            all == texts(args@),
            with_arguments(default_flags(), all, 0) == with_arguments(flags@, all, i as int),
        decreases len - i,
    {
        let next = if len - i > 1 {
            Some(&args[i + 1])
        } else {
            None
        };
        assert(all[i as int] == args@[i as int]@);
        assert(i + 1 < len ==> all[i + 1] == args@[i + 1]@);
        let (g, took) = match add_argument(flags, &args[i], next) {
            Ok(pair) => pair,
            Err(e) => {
                return Err(e);
            },
        };
        flags = g;
        if took {
            i += 2;
        } else {
            i += 1;
        }
    }
    Ok(flags)
}

// --- laws ----------------------------------------------------------------------------

/// Whether a text holds an equals sign.
pub open spec fn has_equals(s: Seq<char>) -> bool {
    exists|i: int| 0 <= i < s.len() && #[trigger] s[i] == '='
}

/// `--name=value` is the flag of that name with that value, whatever the value
/// holds, and `--name` is the flag without one; the argument behind it matters
/// only to the latter.
pub proof fn law_flags_are_split_at_the_first_equals_sign(
    f: FlagsView,
    name: Seq<char>,
    value: Seq<char>,
    next: Option<Seq<char>>,
)
    requires
        !has_equals(name),
    ensures
        with_argument(f, "--"@ + name + "="@ + value, next) == with_flag(
            f,
            name,
            Some(value),
            next,
        ),
        with_argument(f, "--"@ + name, next) == with_flag(f, name, None, next),
{
    reveal_strlit("--");
    reveal_strlit("=");
    let full = "--"@ + name + "="@ + value;
    let body = name + "="@ + value;
    assert(full.skip(2) =~= body);
    assert forall|j: int| 0 <= j < name.len() implies !occurs_at(body, "="@, j) by {
        if occurs_at(body, "="@, j) {
            assert(body.subrange(j, j + 1)[0] == name[j]);
        }
    }
    law_split_at_the_first(name, "="@, value);
    let bare = "--"@ + name;
    assert(bare.skip(2) =~= name);
    law_no_separator_no_split(name, "="@);
    if occurs(name, "="@) {
        let j = choose|j: int| occurs_at(name, "="@, j);
        assert(name.subrange(j, j + 1)[0] == name[j]);
    }
}

/// The names of the flags that take a text are four, each sets its own field to
/// the text whole, and nothing else; the text is the one behind `=`, else the
/// next argument, which is then taken.
pub proof fn law_texts_are_set(f: FlagsView, v: Seq<char>, next: Option<Seq<char>>)
    ensures
        with_flag(f, "config"@, Some(v), next) == Ok::<(FlagsView, bool), Seq<char>>(
            (FlagsView { config_path: v, ..f }, false),
        ),
        with_flag(f, "once"@, Some(v), next) == Ok::<(FlagsView, bool), Seq<char>>(
            (FlagsView { one_shot: v, ..f }, false),
        ),
        with_flag(f, "write-sample-config"@, Some(v), next) == Ok::<
            (FlagsView, bool),
            Seq<char>,
        >((FlagsView { write_sample: v, ..f }, false)),
        with_flag(f, "seed"@, Some(v), next) == Ok::<(FlagsView, bool), Seq<char>>(
            (FlagsView { seed: v, ..f }, false),
        ),
        with_flag(f, "config"@, None, Some(v)) == Ok::<(FlagsView, bool), Seq<char>>(
            (FlagsView { config_path: v, ..f }, true),
        ),
        with_flag(f, "once"@, None, Some(v)) == Ok::<(FlagsView, bool), Seq<char>>(
            (FlagsView { one_shot: v, ..f }, true),
        ),
        with_flag(f, "write-sample-config"@, None, Some(v)) == Ok::<(FlagsView, bool), Seq<char>>(
            (FlagsView { write_sample: v, ..f }, true),
        ),
        with_flag(f, "seed"@, None, Some(v)) == Ok::<(FlagsView, bool), Seq<char>>(
            (FlagsView { seed: v, ..f }, true),
        ),
{
    lemma_names_differ();
}

/// A limit is the integer that its value writes; another value is refused.
pub proof fn law_limits_are_integers(f: FlagsView, v: Seq<char>, next: Option<Seq<char>>)
    ensures
        integer_of(v) matches Some(n) ==> with_flag(f, "limit"@, Some(v), next) == Ok::<
            (FlagsView, bool),
            Seq<char>,
        >((FlagsView { limit: n, ..f }, false)),
        integer_of(v) matches Some(n) ==> with_flag(f, "limit"@, None, Some(v)) == Ok::<
            (FlagsView, bool),
            Seq<char>,
        >((FlagsView { limit: n, ..f }, true)),
        integer_of(v) is None ==> with_flag(f, "limit"@, Some(v), next) == Err::<
            (FlagsView, bool),
            Seq<char>,
        >("invalid --limit value: "@ + v),
{
    lemma_names_differ();
}

/// A flag that needs a value and has none is refused by its name.
pub proof fn law_values_are_needed(f: FlagsView, name: Seq<char>)
    requires
        name == "config"@ || name == "once"@ || name == "write-sample-config"@ || name == "seed"@
            || name == "limit"@,
    ensures
        with_flag(f, name, None, None) == Err::<(FlagsView, bool), Seq<char>>(
            "flag needs an argument: --"@ + name,
        ),
{
    lemma_names_differ();
}

/// Whether the value is one of the six words.
pub open spec fn is_one_of(
    v: Seq<char>,
    a: Seq<char>,
    b: Seq<char>,
    c: Seq<char>,
    d: Seq<char>,
    e: Seq<char>,
    f: Seq<char>,
) -> bool {
    v == a || v == b || v == c || v == d || v == e || v == f
}

/// A flag that is on or off is on without a value and with one of six words,
/// off with one of six others, and refused with any other value.
pub proof fn law_switches_are_on_or_off(v: Seq<char>)
    ensures
        truth_of(None) == Ok::<bool, Seq<char>>(true),
        is_one_of(v, "true"@, "1"@, "t"@, "T"@, "TRUE"@, "True"@) ==> truth_of(Some(v)) == Ok::<
            bool,
            Seq<char>,
        >(true),
        is_one_of(v, "false"@, "0"@, "f"@, "F"@, "FALSE"@, "False"@) ==> truth_of(Some(v)) == Ok::<
            bool,
            Seq<char>,
        >(false),
        !is_one_of(v, "true"@, "1"@, "t"@, "T"@, "TRUE"@, "True"@) && !is_one_of(
            v,
            "false"@,
            "0"@,
            "f"@,
            "F"@,
            "FALSE"@,
            "False"@,
        ) ==> truth_of(Some(v)) == Err::<bool, Seq<char>>(
            "invalid boolean value "@ + debug_text(v),
        ),
{
    reveal_strlit("true");
    reveal_strlit("1");
    reveal_strlit("t");
    reveal_strlit("T");
    reveal_strlit("TRUE");
    reveal_strlit("True");
    reveal_strlit("false");
    reveal_strlit("0");
    reveal_strlit("f");
    reveal_strlit("F");
    reveal_strlit("FALSE");
    reveal_strlit("False");
    assert("true"@[0] == 't' && "True"@[0] == 'T' && "TRUE"@[0] == 'T');
    assert("false"@[0] == 'f' && "False"@[0] == 'F' && "FALSE"@[0] == 'F');
    assert("1"@[0] == '1' && "0"@[0] == '0' && "t"@[0] == 't' && "T"@[0] == 'T');
    assert("f"@[0] == 'f' && "F"@[0] == 'F');
}

/// A flag that is on or off sets its own field alone and never takes the next
/// argument; a value that is neither is refused.
pub proof fn law_switches_are_set(
    f: FlagsView,
    inline: Option<Seq<char>>,
    next: Option<Seq<char>>,
    b: bool,
)
    ensures
        truth_of(inline) == Ok::<bool, Seq<char>>(b) ==> {
            &&& with_flag(f, "dry-run"@, inline, next) == Ok::<(FlagsView, bool), Seq<char>>(
                (FlagsView { dry_run: b, ..f }, false),
            )
            &&& with_flag(f, "debug"@, inline, next) == Ok::<(FlagsView, bool), Seq<char>>(
                (FlagsView { debug: b, ..f }, false),
            )
            &&& with_flag(f, "fetch-follows"@, inline, next) == Ok::<
                (FlagsView, bool),
                Seq<char>,
            >((FlagsView { fetch_follows: b, ..f }, false))
            &&& with_flag(f, "capture-queries"@, inline, next) == Ok::<
                (FlagsView, bool),
                Seq<char>,
            >((FlagsView { capture_queries: b, ..f }, false))
        },
        truth_of(inline) matches Err(e) ==> {
            &&& with_flag(f, "dry-run"@, inline, next) == Err::<(FlagsView, bool), Seq<char>>(e)
            &&& with_flag(f, "debug"@, inline, next) == Err::<(FlagsView, bool), Seq<char>>(e)
            &&& with_flag(f, "fetch-follows"@, inline, next) == Err::<
                (FlagsView, bool),
                Seq<char>,
            >(e)
            &&& with_flag(f, "capture-queries"@, inline, next) == Err::<
                (FlagsView, bool),
                Seq<char>,
            >(e)
        },
{
    lemma_names_differ();
}

/// Help is the usage; any other name is refused, and so is an argument that
/// does not begin with two dashes.
pub proof fn law_other_arguments_are_refused(
    f: FlagsView,
    name: Seq<char>,
    arg: Seq<char>,
    inline: Option<Seq<char>>,
    next: Option<Seq<char>>,
)
    ensures
        name == "help"@ || name == "h"@ ==> with_flag(f, name, inline, next) == Err::<
            (FlagsView, bool),
            Seq<char>,
        >(USAGE@),
        name != "config"@ && name != "once"@ && name != "write-sample-config"@ && name != "seed"@
            && name != "limit"@ && name != "dry-run"@ && name != "debug"@ && name
            != "fetch-follows"@ && name != "capture-queries"@ && name != "help"@ && name != "h"@
            ==> with_flag(f, name, inline, next) == Err::<(FlagsView, bool), Seq<char>>(
            "flag provided but not defined: --"@ + name + "\n"@ + USAGE@,
        ),
        arg.len() == 0 || arg[0] != '-' ==> with_argument(f, arg, next) == Err::<
            (FlagsView, bool),
            Seq<char>,
        >("unexpected argument: "@ + arg + "\n"@ + USAGE@),
        arg.len() > 0 && arg[0] == '-' && (arg.len() == 1 || arg[1] != '-') ==> with_argument(
            f,
            arg,
            next,
        ) == Err::<(FlagsView, bool), Seq<char>>(
            "unknown flag: "@ + arg + " (flags take two dashes, e.g. --"@ + arg.skip(1) + ")\n"@
                + USAGE@,
        ),
{
    lemma_names_differ();
    if arg.len() > 0 && arg[0] == '-' && (arg.len() == 1 || arg[1] != '-') {
        assert(arg.drop_first() =~= arg.skip(1));
        assert(without_leading(arg, '-') == without_leading(arg.skip(1), '-'));
        assert(without_leading(arg.skip(1), '-') == arg.skip(1));
    }
}

/// Arguments are read from the first to the last, each on top of those before;
/// the first that is refused ends the reading.
pub proof fn law_arguments_are_read_in_order(
    f: FlagsView,
    arg: Seq<char>,
    value: Seq<char>,
    rest: Seq<Seq<char>>,
)
    ensures
        with_arguments(f, Seq::empty(), 0) == Ok::<FlagsView, Seq<char>>(f),
        match with_argument(f, arg, None) {
            Ok((g, _)) => with_arguments(f, seq![arg], 0) == Ok::<FlagsView, Seq<char>>(g),
            Err(e) => with_arguments(f, seq![arg], 0) == Err::<FlagsView, Seq<char>>(e),
        },
        match with_argument(f, arg, Some(value)) {
            Ok((g, false)) => with_arguments(f, seq![arg, value] + rest, 0) == with_arguments(
                g,
                seq![value] + rest,
                0,
            ),
            Ok((g, true)) => with_arguments(f, seq![arg, value] + rest, 0) == with_arguments(
                g,
                rest,
                0,
            ),
            Err(e) => with_arguments(f, seq![arg, value] + rest, 0) == Err::<
                FlagsView,
                Seq<char>,
            >(e),
        },
{
    let one = seq![arg];
    reveal_with_fuel(with_arguments, 2);
    assert(one[0] == arg);
    let more = seq![arg, value] + rest;
    assert(more[0] == arg && more[1] == value);
    if let Ok((g, took)) = with_argument(f, arg, Some(value)) {
        if took {
            assert(more.skip(2) =~= rest);
            lemma_arguments_shift(g, more, 2, 0);
        } else {
            assert(more.skip(1) =~= seq![value] + rest);
            lemma_arguments_shift(g, more, 1, 0);
        }
    }
}

proof fn lemma_arguments_shift(f: FlagsView, args: Seq<Seq<char>>, by: int, i: int)
    requires
        0 <= by <= args.len(),
        0 <= i,
    ensures
        with_arguments(f, args, by + i) == with_arguments(f, args.skip(by), i),
    decreases args.len() - by - i,
{
    let rest = args.skip(by);
    if i < rest.len() {
        assert(rest[i] == args[by + i]);
        if i + 1 < rest.len() {
            assert(rest[i + 1] == args[by + i + 1]);
        }
        let next = if i + 1 < rest.len() {
            Some(rest[i + 1])
        } else {
            None
        };
        if let Ok((g, took)) = with_argument(f, rest[i], next) {
            if took {
                lemma_arguments_shift(g, args, by, i + 2);
            } else {
                lemma_arguments_shift(g, args, by, i + 1);
            }
        }
    }
}

/// Without an argument, the configuration stands where it is expected, nothing
/// is asked for, and there is no limit.
pub proof fn law_nothing_is_asked_for_by_default()
    ensures
        ({
            let d = default_flags();
            &&& d.config_path == "/etc/instagrab/config.toml"@
            &&& d.one_shot.len() == 0 && d.write_sample.len() == 0 && d.seed.len() == 0
            &&& !d.dry_run && !d.debug && !d.fetch_follows && !d.capture_queries
            &&& d.limit == 0
        }),
{
}

proof fn lemma_names_differ()
    ensures
        "config"@.len() == 6 && "config"@[0] == 'c',
        "once"@.len() == 4 && "once"@[0] == 'o',
        "write-sample-config"@.len() == 19,
        "seed"@.len() == 4 && "seed"@[0] == 's',
        "limit"@.len() == 5 && "limit"@[0] == 'l',
        "dry-run"@.len() == 7,
        "debug"@.len() == 5 && "debug"@[0] == 'd',
        "fetch-follows"@.len() == 13,
        "capture-queries"@.len() == 15,
        "help"@.len() == 4 && "help"@[0] == 'h',
        "h"@.len() == 1,
{
    reveal_strlit("config");
    reveal_strlit("once");
    reveal_strlit("write-sample-config");
    reveal_strlit("seed");
    reveal_strlit("limit");
    reveal_strlit("dry-run");
    reveal_strlit("debug");
    reveal_strlit("fetch-follows");
    reveal_strlit("capture-queries");
    reveal_strlit("help");
    reveal_strlit("h");
}

} // verus!
