//! The settings of a run: defaults, validation, and the paths under the one
//! output directory.

use crate::text::{decimal_text, starts_with, strip_lead, trim};
use vstd::prelude::*;

verus! {

use crate::text::{decimal, leads, texts, trimmed, without_lead};

/// The settings, as the configuration file gives them.
#[derive(Debug, Default)]
pub struct Config {
    pub browser_url: String,
    /// The one output directory. Everything is written under it: `runs.jsonl`,
    /// `images/` and `friends.txt`.
    pub output_path: String,
    pub usernames: Vec<String>,
    pub jitter_min_secs: i64,
    pub jitter_max_secs: i64,
    pub nav_timeout_sec: i64,
    /// 0 = no filter
    pub time_window_days: i64,
    /// safety cap on pagination
    pub max_scrolls: i64,
    /// Seed profile whose follows are fetched.
    pub seed_username: String,
}

/// Why settings were rejected.
#[derive(Debug, PartialEq, Eq, Clone, Copy, Structural)]
pub enum ConfigError {
    MissingOutputPath,
    InvalidJitter { min: i64, max: i64 },
}

impl ConfigError {
    /// The message for the user.
    pub open spec fn text(self) -> Seq<char> {
        match self {
            ConfigError::MissingOutputPath => "output_path is required"@,
            ConfigError::InvalidJitter { min, max } => "invalid jitter range: "@ + decimal(
                min as int,
            ) + ".."@ + decimal(max as int),
        }
    }

    pub fn message(&self) -> (r: String)
        ensures
            r@ == self.text(),
    {
        match self {
            ConfigError::MissingOutputPath => "output_path is required".to_owned(),
            ConfigError::InvalidJitter { min, max } => {
                let mut out = "invalid jitter range: ".to_owned();
                out.append(decimal_text(*min).as_str());
                out.append("..");
                out.append(decimal_text(*max).as_str());
                out
            },
        }
    }
}

// --- paths -------------------------------------------------------------------------

/// `base` with `part` below it: an absolute `part` stands for itself, and one
/// separator comes between the two where `base` does not end with one.
pub open spec fn path_join(base: Seq<char>, part: Seq<char>) -> Seq<char> {
    if leads(part, '/') || base.len() == 0 {
        part
    } else if base.last() == '/' {
        base + part
    } else {
        base.push('/') + part
    }
}

pub fn join_path(base: &str, part: &str) -> (r: String)
    ensures
        r@ == path_join(base@, part@),
{
    if starts_with(part, '/') || base.is_empty() {
        return part.to_owned();
    }
    let n: usize = base.unicode_len();
    let mut out = base.to_owned();
    if base.get_char(n - 1) != '/' {
        out.push('/');
    }
    out.append(part);
    out
}

// --- usernames ---------------------------------------------------------------------

/// The configured usernames as the scan uses them: one leading `@`, then white
/// space, come off; what is then empty is left out.
pub open spec fn configured_names(list: Seq<Seq<char>>) -> Seq<Seq<char>>
    decreases list.len(),
{
    if list.len() == 0 {
        Seq::empty()
    } else {
        let name = trimmed(without_lead(list.last(), '@'));
        if name.len() == 0 {
            configured_names(list.drop_last())
        } else {
            configured_names(list.drop_last()).push(name)
        }
    }
}

fn clean_usernames(list: &Vec<String>) -> (r: Vec<String>)
    ensures
        texts(r@) == configured_names(texts(list@)),
{
    let mut out: Vec<String> = Vec::new();
    let mut i: usize = 0;
    let ghost all = texts(list@);
    assert(all.take(0) =~= Seq::<Seq<char>>::empty());
    assert(texts(out@) =~= Seq::<Seq<char>>::empty());
    while i < list.len()
        invariant
            0 <= i <= list@.len(),
            all == texts(list@),
            texts(out@) == configured_names(all.take(i as int)),
        decreases list@.len() - i,
    {
        assert(all.take(i + 1).drop_last() =~= all.take(i as int));
        assert(all.take(i + 1).last() == list@[i as int]@);
        let name = trim(strip_lead(list[i].as_str(), '@'));
        if !name.is_empty() {
            let ghost before = out@;
            out.push(name.to_owned());
            assert(texts(out@) =~= texts(before).push(name@));
        }
        i += 1;
    }
    assert(all.take(i as int) =~= all);
    out
}

/// `n`, or `default` where it is zero.
pub open spec fn or_default(n: i64, default: i64) -> i64 {
    if n == 0 {
        default
    } else {
        n
    }
}

impl Config {
    /// `other` has the same settings but for those with a default, where each
    /// that is unset has its default.
    pub open spec fn with_defaults(self, other: Config) -> bool {
        &&& other.browser_url@ == (if self.browser_url@.len() == 0 {
            "http://127.0.0.1:9222"@
        } else {
            self.browser_url@
        })
        &&& other.jitter_min_secs == or_default(self.jitter_min_secs, 30)
        &&& other.jitter_max_secs == or_default(self.jitter_max_secs, 75)
        &&& other.nav_timeout_sec == or_default(self.nav_timeout_sec, 20)
        &&& other.max_scrolls == or_default(self.max_scrolls, 8)
        &&& other.output_path == self.output_path
        &&& other.usernames == self.usernames
        &&& other.time_window_days == self.time_window_days
        &&& other.seed_username == self.seed_username
    }

    /// Why these settings are rejected, if they are.
    pub open spec fn fault(self) -> Option<ConfigError> {
        if self.output_path@.len() == 0 {
            Some(ConfigError::MissingOutputPath)
        } else if self.jitter_min_secs < 0 || self.jitter_max_secs < self.jitter_min_secs {
            Some(
                ConfigError::InvalidJitter {
                    min: self.jitter_min_secs,
                    max: self.jitter_max_secs,
                },
            )
        } else {
            None
        }
    }

    /// Why these settings are rejected once their defaults are filled in, if
    /// they are.
    pub open spec fn fault_with_defaults(self) -> Option<ConfigError> {
        (Config {
            jitter_min_secs: or_default(self.jitter_min_secs, 30),
            jitter_max_secs: or_default(self.jitter_max_secs, 75),
            ..self
        }).fault()
    }

    /// Fills in what is unset.
    pub fn apply_defaults(&mut self)
        ensures
            old(self).with_defaults(*final(self)),
    {
        if self.browser_url.as_str().is_empty() {
            self.browser_url = "http://127.0.0.1:9222".to_owned();
        }
        if self.jitter_min_secs == 0 {
            self.jitter_min_secs = 30;
        }
        if self.jitter_max_secs == 0 {
            self.jitter_max_secs = 75;
        }
        if self.nav_timeout_sec == 0 {
            self.nav_timeout_sec = 20;
        }
        if self.max_scrolls == 0 {
            self.max_scrolls = 8;
        }
    }

    /// Rejects settings that cannot be run with, and cleans the usernames of
    /// the others.
    pub fn validate(&mut self) -> (r: Result<(), ConfigError>)
        ensures
            match r {
                Ok(_) => {
                    &&& old(self).fault() is None
                    &&& texts(final(self).usernames@) == configured_names(
                        texts(old(self).usernames@),
                    )
                    &&& *final(self) == (Config { usernames: final(self).usernames, ..*old(self) })
                },
                Err(e) => old(self).fault() == Some(e) && *final(self) == *old(self),
            },
    {
        if self.output_path.as_str().is_empty() {
            return Err(ConfigError::MissingOutputPath);
        }
        if self.jitter_min_secs < 0 || self.jitter_max_secs < self.jitter_min_secs {
            return Err(
                ConfigError::InvalidJitter {
                    min: self.jitter_min_secs,
                    max: self.jitter_max_secs,
                },
            );
        }
        self.usernames = clean_usernames(&self.usernames);
        Ok(())
    }

    /// The scan output, `<output_path>/runs.jsonl`.
    pub fn jsonl_path(&self) -> (r: String)
        ensures
            r@ == path_join(self.output_path@, "runs.jsonl"@),
    {
        join_path(self.output_path.as_str(), "runs.jsonl")
    }

    /// The image download root, `<output_path>/images`.
    pub fn images_path(&self) -> (r: String)
        ensures
            r@ == path_join(self.output_path@, "images"@),
    {
        join_path(self.output_path.as_str(), "images")
    }

    /// The follows list, `<output_path>/friends.txt`.
    pub fn friends_path(&self) -> (r: String)
        ensures
            r@ == path_join(self.output_path@, "friends.txt"@),
    {
        join_path(self.output_path.as_str(), "friends.txt")
    }
}

/// Settings that were decoded, with their defaults, or why they are rejected.
pub fn load(decoded: Config) -> (r: Result<Config, ConfigError>)
    ensures
        match r {
            Ok(c) => {
                &&& decoded.fault_with_defaults() is None
                &&& decoded.with_defaults((Config { usernames: decoded.usernames, ..c }))
                &&& texts(c.usernames@) == configured_names(texts(decoded.usernames@))
            },
            Err(e) => decoded.fault_with_defaults() == Some(e),
        },
{
    let mut c = decoded;
    c.apply_defaults();
    match c.validate() {
        Ok(_) => Ok(c),
        Err(e) => Err(e),
    }
}

/// The message for settings that cannot be read.
pub fn decode_error(path: &str, e: &str) -> (r: String)
    ensures
        r@ == "decode "@ + path@ + ": "@ + e@,
{
    let mut message = "decode ".to_owned();
    message.append(path);
    message.append(": ");
    message.append(e);
    message
}

/// What is written as a sample of the settings.
pub const SAMPLE: &'static str = r#"# instagrab config
#
# Two commands share this file:
#   instagrab --fetch-follows  -> page seed_username's Following, write friends.txt (run rarely, e.g. monthly)
#   instagrab                  -> scan everyone in friends.txt, write runs.jsonl + images (run daily)

# CDP endpoint of the long-lived Chrome service.
browser_url = "http://127.0.0.1:9222"

# The one output directory. instagrab writes everything under it — point your UI here:
#   <output_path>/runs.jsonl                     scan output (one JSON line per profile)
#   <output_path>/images/<user>/<shortcode>.jpg  first image per in-window post
#   <output_path>/friends.txt                    the follows list (--fetch-follows writes, scan reads)
output_path = "/var/lib/instagrab"

# Seed profile whose Following `instagrab --fetch-follows` pages (or pass --seed <name>).
# Fetching the list touches Instagram's friendship endpoint, so run it rarely.
seed_username = "your_handle"

# Only keep posts whose timestamp falls within the last N days (0 = no filter).
# With time_window_days > 0, the scan also pages the feed until the oldest
# captured post is older than the window.
time_window_days = 90

# --- Anti-detection / tuning (defaults shown; usually leave these) ---
# Per-run sleep between profiles, in seconds (uniform random in [min, max]).
jitter_min_secs = 30
jitter_max_secs = 75
# Per-profile navigation/wait budget.
nav_timeout_sec = 20
# Safety cap on feed pages per profile.
max_scrolls = 8

# A canary scrape against instagram.com/instagram runs before each scan. Zero
# posts without a logged_out signal emits a "canary_failed" alert and exits 5.
# Always on; no knob.

# Fixed scrape list, used only as a fallback when the follows file is empty.
# Leading @ is allowed and stripped. For the follows-list workflow, leave empty.
# usernames = ["gjtorikian"]
"#;

// --- laws ----------------------------------------------------------------------------

/// Whether settings can be run with: they say where to write, and their pause
/// is a range of seconds.
pub open spec fn can_run(c: Config) -> bool {
    c.output_path@.len() > 0 && 0 <= c.jitter_min_secs <= c.jitter_max_secs
}

/// Settings are rejected exactly when they cannot be run with, and so are those
/// that had defaults filled in.
pub proof fn law_faulty_settings_are_rejected(c: Config, filled: Config)
    requires
        c.with_defaults(filled),
    ensures
        c.fault() is None <==> can_run(c),
        c.fault_with_defaults() is None <==> can_run(filled),
{
}

/// Once their defaults are filled in, settings have an address, a limit of
/// pages and a time limit.
pub proof fn law_defaults_leave_nothing_unset(c: Config, filled: Config)
    requires
        c.with_defaults(filled),
    ensures
        filled.browser_url@.len() > 0,
        filled.jitter_min_secs != 0,
        filled.jitter_max_secs != 0,
        filled.nav_timeout_sec != 0,
        filled.max_scrolls != 0,
        filled.with_defaults(filled),
{
    reveal_strlit("http://127.0.0.1:9222");
}

/// Whether settings are those that the sample writes down.
pub open spec fn says_sample(c: Config) -> bool {
    &&& c.browser_url@ == "http://127.0.0.1:9222"@
    &&& c.output_path@ == "/var/lib/instagrab"@
    &&& c.usernames@.len() == 0
    &&& c.jitter_min_secs == 30
    &&& c.jitter_max_secs == 75
    &&& c.nav_timeout_sec == 20
    &&& c.time_window_days == 90
    &&& c.max_scrolls == 8
    &&& c.seed_username@ == "your_handle"@
}

/// The sample is a valid configuration that shows the defaults: its settings
/// are loaded as they stand, and its pauses and limits are those that are filled
/// in where none are given.
pub proof fn law_sample_is_valid(decoded: Config, loaded: Config)
    requires
        says_sample(decoded),
        decoded.with_defaults((Config { usernames: decoded.usernames, ..loaded })),
        texts(loaded.usernames@) == configured_names(texts(decoded.usernames@)),
    ensures
        decoded.fault_with_defaults() is None,
        says_sample(loaded),
        (Config {
            jitter_min_secs: 0,
            jitter_max_secs: 0,
            nav_timeout_sec: 0,
            max_scrolls: 0,
            ..decoded
        }).with_defaults((Config { usernames: decoded.usernames, ..loaded })),
{
    reveal_strlit("/var/lib/instagrab");
    assert(texts(decoded.usernames@) =~= Seq::<Seq<char>>::empty());
    assert(texts(loaded.usernames@).len() == loaded.usernames@.len());
}

/// What is left unset gets its documented default, and what is set stays.
pub proof fn law_defaults_fill_in_what_is_unset(c: Config, filled: Config)
    requires
        c.with_defaults(filled),
    ensures
        filled.browser_url@ == (if c.browser_url@.len() == 0 {
            "http://127.0.0.1:9222"@
        } else {
            c.browser_url@
        }),
        c.jitter_min_secs == 0 ==> filled.jitter_min_secs == 30,
        c.jitter_min_secs != 0 ==> filled.jitter_min_secs == c.jitter_min_secs,
        c.jitter_max_secs == 0 ==> filled.jitter_max_secs == 75,
        c.jitter_max_secs != 0 ==> filled.jitter_max_secs == c.jitter_max_secs,
        c.nav_timeout_sec == 0 ==> filled.nav_timeout_sec == 20,
        c.nav_timeout_sec != 0 ==> filled.nav_timeout_sec == c.nav_timeout_sec,
        c.max_scrolls == 0 ==> filled.max_scrolls == 8,
        c.max_scrolls != 0 ==> filled.max_scrolls == c.max_scrolls,
        filled.time_window_days == c.time_window_days,
        filled.output_path@ == c.output_path@,
        filled.seed_username@ == c.seed_username@,
        filled.usernames@ == c.usernames@,
{
}

/// Settings without an output path are rejected for that, and others for a pause
/// that begins before 0 or ends before it begins, with its two ends; no others
/// are rejected.
pub proof fn law_settings_are_rejected_for_a_reason(c: Config)
    ensures
        c.output_path@.len() == 0 ==> c.fault() == Some(ConfigError::MissingOutputPath),
        c.output_path@.len() > 0 && (c.jitter_min_secs < 0 || c.jitter_max_secs
            < c.jitter_min_secs) ==> c.fault() == Some(
            ConfigError::InvalidJitter { min: c.jitter_min_secs, max: c.jitter_max_secs },
        ),
        c.output_path@.len() > 0 && 0 <= c.jitter_min_secs <= c.jitter_max_secs ==> c.fault() is None,
        ConfigError::MissingOutputPath.text() == "output_path is required"@,
        (ConfigError::InvalidJitter { min: c.jitter_min_secs, max: c.jitter_max_secs }).text()
            == "invalid jitter range: "@ + decimal(c.jitter_min_secs as int) + ".."@ + decimal(
            c.jitter_max_secs as int,
        ),
{
}

/// Usernames are cleaned one by one and stay in order; one leading `@` and the
/// white space around what is left come off, and what is then empty is left
/// out.
pub proof fn law_usernames_are_cleaned_one_by_one(
    a: Seq<Seq<char>>,
    b: Seq<Seq<char>>,
    u: Seq<char>,
)
    ensures
        configured_names(a + b) == configured_names(a) + configured_names(b),
        u.len() > 0 && u[0] == '@' ==> configured_names(seq![u]) == (if trimmed(
            u.drop_first(),
        ).len() > 0 {
            seq![trimmed(u.drop_first())]
        } else {
            Seq::<Seq<char>>::empty()
        }),
        !(u.len() > 0 && u[0] == '@') ==> configured_names(seq![u]) == (if trimmed(u).len() > 0 {
            seq![trimmed(u)]
        } else {
            Seq::<Seq<char>>::empty()
        }),
    decreases b.len(),
{
    if b.len() == 0 {
        assert(a + b =~= a);
        assert(configured_names(a) + configured_names(b) =~= configured_names(a));
    } else {
        law_usernames_are_cleaned_one_by_one(a, b.drop_last(), u);
        assert((a + b).drop_last() =~= a + b.drop_last());
        assert((a + b).last() == b.last());
        assert(configured_names(a + b) =~= configured_names(a) + configured_names(b));
    }
    assert(seq![u].drop_last() =~= Seq::<Seq<char>>::empty());
    assert(configured_names(Seq::<Seq<char>>::empty()) =~= Seq::<Seq<char>>::empty());
    assert(seq![u].last() == u);
    let name = trimmed(without_lead(u, '@'));
    assert(Seq::<Seq<char>>::empty().push(name) =~= seq![name]);
}

/// Paths are joined with one separator; an absolute one stands for itself.
pub proof fn law_paths_are_joined(base: Seq<char>, part: Seq<char>)
    ensures
        part.len() > 0 && part[0] == '/' ==> path_join(base, part) == part,
        base.len() == 0 ==> path_join(base, part) == part,
        base.len() > 0 && base.last() != '/' && !(part.len() > 0 && part[0] == '/') ==> path_join(
            base,
            part,
        ) == base + seq!['/'] + part,
        base.len() > 0 && base.last() == '/' && !(part.len() > 0 && part[0] == '/') ==> path_join(
            base,
            part,
        ) == base + part,
{
    assert(base + seq!['/'] =~= base.push('/'));
}

/// Each reason for which settings are rejected is told in words of its own.
pub proof fn law_rejections_are_told(min: i64, max: i64)
    ensures
        ConfigError::MissingOutputPath.text() == "output_path is required"@,
        (ConfigError::InvalidJitter { min, max }).text() == "invalid jitter range: "@ + decimal(
            min as int,
        ) + ".."@ + decimal(max as int),
{
}

} // verus!
