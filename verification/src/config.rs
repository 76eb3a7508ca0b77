//! The options of the process and their defaults.

use vstd::prelude::*;
use crate::text::chars_of;

verus! {

/// The options of the process.
#[derive(Debug)]
pub struct Config {
    /// Root of the file store to scan.
    pub share_root: String,
    /// Glob pattern that picks the candidate files.
    pub target_glob: String,
    /// Seconds to wait between two polls.
    pub poll_interval_secs: u64,
    /// Path of the persistent store.
    pub db_path: String,
    /// Log verbosity.
    pub log_level: String,
}

/// Seconds between two polls where none are set or what is set is no number.
pub const DEFAULT_POLL_INTERVAL_SECS: u64 = 30;

/// Whether every character of `s` is a decimal digit.
pub open spec fn all_digits(s: Seq<char>) -> bool {
    forall|i: int| 0 <= i < s.len() ==> '0' <= #[trigger] s[i] && s[i] <= '9'
}

/// The number that the decimal digits `s` write.
pub open spec fn digits_value(s: Seq<char>) -> nat
    decreases s.len(),
{
    if s.len() == 0 {
        0
    } else {
        (digits_value(s.drop_last()) * 10 + (s.last() as int - '0' as int)) as nat
    }
}

/// The digits of a number text: what follows one leading `+`, if there is
/// one.
pub open spec fn unsigned_part(s: Seq<char>) -> Seq<char> {
    if s.len() > 0 && s[0] == '+' {
        s.drop_first()
    } else {
        s
    }
}

/// The number of seconds that `s` writes: decimal digits, at least one,
/// after at most one `+`, with a value that 64 bits hold. Anything else,
/// white space included, writes none.
pub open spec fn seconds_of(s: Seq<char>) -> Option<u64> {
    let d = unsigned_part(s);
    if d.len() > 0 && all_digits(d) && digits_value(d) <= u64::MAX {
        Some(digits_value(d) as u64)
    } else {
        None
    }
}

/// The value of a prefix of digits is at most the value of the whole.
proof fn lemma_digits_grow(s: Seq<char>, k: int)
    requires
        all_digits(s),
        0 <= k <= s.len(),
    ensures
        digits_value(s.take(k)) <= digits_value(s),
    decreases s.len() - k,
{
    if k < s.len() {
        lemma_digits_grow(s, k + 1);
        assert(s.take(k + 1).drop_last() == s.take(k));
        assert(s.take(k + 1).last() == s[k]);
    } else {
        assert(s.take(k) == s);
    }
}

/// Reads a number of seconds.
pub fn parse_seconds(text: &str) -> (r: Option<u64>)
    ensures
        r == seconds_of(text@),
{
    let v = chars_of(text);
    let from: usize = if v.len() > 0 && v[0] == '+' {
        1
    } else {
        0
    };
    let ghost d = unsigned_part(text@);
    assert(d == v@.skip(from as int));
    if from == v.len() {
        return None;
    }
    let mut acc: u64 = 0;
    let mut i: usize = from;
    assert(d.take(0).len() == 0);
    while i < v.len()
        invariant
            from <= i <= v.len(),
            from < v.len(),
            d == v@.skip(from as int),
            d == unsigned_part(text@),
            all_digits(d.take(i - from)),
            acc == digits_value(d.take(i - from)),
        decreases v.len() - i,
    {
        let c: char = v[i];
        assert(d[i - from] == c);
        let ghost upto = d.take(i - from + 1);
        proof {
            assert(upto.drop_last() == d.take(i - from));
            assert(upto.last() == c);
        }
        if c < '0' || c > '9' {
            return None;
        }
        let digit: u64 = (c as u8 - '0' as u8) as u64;
        assert(all_digits(upto)) by {
            assert forall|j: int| 0 <= j < upto.len() implies '0' <= #[trigger] upto[j] && upto[j]
                <= '9' by {
                if j < i - from {
                    assert(d.take(i - from)[j] == upto[j]);
                }
            }
        }
        if acc > (u64::MAX - digit) / 10 {
            proof {
                assert(digits_value(upto) > u64::MAX);
                if all_digits(d) {
                    lemma_digits_grow(d, i - from + 1);
                }
            }
            return None;
        }
        acc = acc * 10 + digit;
        i += 1;
    }
    assert(d.take(i - from) == d);
    Some(acc)
}

/// The text that is set, or `default` where none is.
fn text_or(value: Option<String>, default: &str) -> (r: String)
    ensures
        r@ == match value {
            Some(v) => v@,
            None => default@,
        },
{
    match value {
        Some(v) => v,
        None => default.to_owned(),
    }
}

impl Config {
    /// The options, each taken from what is set for it or from its default:
    /// the current directory as root, every `.csv` file below it, a poll
    /// every 30 seconds, the store at `data/app.db`, and logging at `info`.
    /// A poll interval that is no number counts as not set.
    pub fn from_values(
        share_root: Option<String>,
        target_glob: Option<String>,
        poll_interval_secs: Option<String>,
        db_path: Option<String>,
        log_level: Option<String>,
    ) -> (cfg: Config)
        ensures
            cfg.share_root@ == match share_root {
                Some(v) => v@,
                None => "."@,
            },
            cfg.target_glob@ == match target_glob {
                Some(v) => v@,
                None => "**/*.csv"@,
            },
            cfg.poll_interval_secs == match poll_interval_secs {
                Some(v) => match seconds_of(v@) {
                    Some(n) => n,
                    None => DEFAULT_POLL_INTERVAL_SECS,
                },
                None => DEFAULT_POLL_INTERVAL_SECS,
            },
            cfg.db_path@ == match db_path {
                Some(v) => v@,
                None => "data/app.db"@,
            },
            cfg.log_level@ == match log_level {
                Some(v) => v@,
                None => "info"@,
            },
    {
        let secs: u64 = match &poll_interval_secs {
            Some(v) => match parse_seconds(v.as_str()) {
                Some(n) => n,
                None => DEFAULT_POLL_INTERVAL_SECS,
            },
            None => DEFAULT_POLL_INTERVAL_SECS,
        };
        Config {
            share_root: text_or(share_root, "."),
            target_glob: text_or(target_glob, "**/*.csv"),
            poll_interval_secs: secs,
            db_path: text_or(db_path, "data/app.db"),
            log_level: text_or(log_level, "info"),
        }
    }
}

} // verus!
