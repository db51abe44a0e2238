//! Command-line argument handling: the argument record and the pure rules
//! for validating a discussion number, deriving the output path, and
//! splitting an `OWNER/REPO` locator. Reading the actual command line and
//! asking Git for a repository are left to the caller.

use vstd::prelude::*;
use crate::error::Error;
use crate::fetch::{spec_is_digit};
use crate::text::{
    chars_of,
    string_from_chars,
    split_char,
    trim_chars,
    subvec,
    matches_at,
    u64_to_string,
    spec_decimal,
    spec_matches_at,
    spec_split_from,
    spec_trim,
};

verus! {

/// Command-line arguments for a discussion export.
#[derive(Debug, Clone, PartialEq)]
pub struct CliArgs {
    /// The discussion number; always positive.
    pub number: u64,
    /// The repository in `OWNER/REPO` form, when given explicitly.
    pub repo: Option<String>,
    /// The output file path, when given explicitly.
    pub output: Option<String>,
}

/// The numeric value of a decimal digit.
pub open spec fn spec_digit_val(c: char) -> nat {
    if spec_is_digit(c) {
        ((c as u32) - 48) as nat
    } else {
        0
    }
}

/// The value of a digit string, most significant digit first.
pub open spec fn spec_decimal_value(s: Seq<char>) -> nat
    decreases s.len(),
{
    if s.len() == 0 {
        0
    } else {
        spec_decimal_value(s.drop_last()) * 10 + spec_digit_val(s.last())
    }
}

/// Whether every character of `s` is a decimal digit.
pub open spec fn spec_all_digits(s: Seq<char>) -> bool {
    forall|i: int| 0 <= i < s.len() ==> spec_is_digit(s[i])
}

/// The digits of a number literal: one leading plus sign is allowed and
/// dropped, as Rust's own unsigned parsing allows it.
pub open spec fn spec_number_digits(s: Seq<char>) -> Seq<char> {
    if s.len() > 0 && s[0] == '+' {
        s.drop_first()
    } else {
        s
    }
}

/// The `u64` a string denotes: an optional leading `+`, then a nonempty
/// run of decimal digits whose value is representable; anything else does
/// not parse.
pub open spec fn spec_parse_u64(s: Seq<char>) -> Option<u64> {
    let t = spec_number_digits(s);
    if t.len() > 0 && spec_all_digits(t) && spec_decimal_value(t) <= u64::MAX {
        Some(spec_decimal_value(t) as u64)
    } else {
        None
    }
}

/// A longer digit prefix never has a smaller value.
proof fn lemma_decimal_value_monotonic(s: Seq<char>, i: int)
    requires
        0 <= i <= s.len(),
    ensures
        spec_decimal_value(s) >= spec_decimal_value(s.subrange(0, i)),
    decreases s.len() - i,
{
    if i < s.len() {
        lemma_decimal_value_monotonic(s, i + 1);
        let pre = s.subrange(0, i + 1);
        assert(pre.drop_last() =~= s.subrange(0, i));
        assert(spec_decimal_value(pre) >= spec_decimal_value(s.subrange(0, i)));
    } else {
        assert(s.subrange(0, i) =~= s);
    }
}

/// Parse a decimal `u64`.
#[verifier::loop_isolation(false)]
pub fn parse_u64(s: &str) -> (r: Option<u64>)
    ensures
        r == spec_parse_u64(s@),
{
    let full = chars_of(s);
    let start: usize = if full.len() > 0 && full[0] == '+' {
        1
    } else {
        0
    };
    let cs = subvec(&full, start, full.len());
    proof {
        assert(full@.subrange(0, full@.len() as int) =~= full@);
        if start == 1 {
            assert(cs@ =~= full@.drop_first());
        }
        assert(cs@ == spec_number_digits(s@));
    }
    if cs.len() == 0 {
        return None;
    }
    let mut acc: u128 = 0;
    let mut i: usize = 0;
    while i < cs.len()
        invariant
            i <= cs@.len(),
            cs@ == spec_number_digits(s@),
            acc == spec_decimal_value(cs@.subrange(0, i as int)),
            acc <= u64::MAX,
            forall|j: int| 0 <= j < i ==> spec_is_digit(cs@[j]),
        decreases cs@.len() - i,
    {
        let c = cs[i];
        let n = c as u32;
        if !(48 <= n && n <= 57) {
            proof {
                assert(!spec_is_digit(cs@[i as int]));
            }
            return None;
        }
        acc = acc * 10 + ((n - 48) as u128);
        i = i + 1;
        proof {
            let pre = cs@.subrange(0, i as int);
            assert(pre.drop_last() =~= cs@.subrange(0, i - 1));
            assert(pre.last() == cs@[i - 1]);
        }
        if acc > (u64::MAX as u128) {
            proof {
                lemma_decimal_value_monotonic(cs@, i as int);
            }
            return None;
        }
    }
    proof {
        assert(cs@.subrange(0, cs@.len() as int) =~= cs@);
    }
    Some(acc as u64)
}

/// Validate a discussion number: it must be a representable decimal number
/// greater than zero.
pub fn validate_positive_number(s: &str) -> (r: Result<u64, String>)
    ensures
        match spec_parse_u64(s@) {
            Some(n) => if n > 0 {
                r matches Ok(m) && m == n
            } else {
                r matches Err(m) && m@ == "Discussion number must be greater than zero."@
            },
            None => r matches Err(m) && m@ == "Discussion number must be greater than zero."@,
        },
{
    match parse_u64(s) {
        Some(n) => if n > 0 {
            Ok(n)
        } else {
            Err("Discussion number must be greater than zero.".to_owned())
        },
        None => Err("Discussion number must be greater than zero.".to_owned()),
    }
}

/// The owner and name of an `OWNER/REPO` locator: an optional `.git`
/// suffix is dropped, and the rest must be exactly two nonempty pieces
/// around one slash.
pub open spec fn spec_repo_components(s: Seq<char>) -> Option<(Seq<char>, Seq<char>)> {
    let t = if s.len() >= 4 && spec_matches_at(s, ".git"@, s.len() - 4) {
        s.subrange(0, s.len() - 4)
    } else {
        s
    };
    let parts = spec_split_from(t, '/', 0);
    if parts.len() == 2 && parts[0].len() > 0 && parts[1].len() > 0 {
        Some((parts[0], parts[1]))
    } else {
        None
    }
}

/// Split an `OWNER/REPO` locator.
pub fn parse_repo_spec(s: &str) -> (r: Option<(String, String)>)
    ensures
        match r {
            Some(p) => spec_repo_components(s@) matches Some(q) && p.0@ == q.0 && p.1@ == q.1,
            None => spec_repo_components(s@) is None,
        },
{
    let cs = chars_of(s);
    let suffix = chars_of(".git");
    let t = if cs.len() >= 4 && matches_at(&cs, &suffix, cs.len() - 4) {
        proof {
            reveal_strlit(".git");
        }
        subvec(&cs, 0, cs.len() - 4)
    } else {
        proof {
            reveal_strlit(".git");
        }
        subvec(&cs, 0, cs.len())
    };
    proof {
        assert(cs@.subrange(0, cs@.len() as int) =~= cs@);
    }
    let parts = split_char(&t, '/');
    if parts.len() == 2 {
        let owner = &parts[0];
        let name = &parts[1];
        proof {
            assert(parts@[0].deep_view() =~= parts@[0]@);
            assert(parts@[1].deep_view() =~= parts@[1]@);
            assert(parts.deep_view()[0] == parts@[0]@);
            assert(parts.deep_view()[1] == parts@[1]@);
        }
        if owner.len() > 0 && name.len() > 0 {
            Some((string_from_chars(owner), string_from_chars(name)))
        } else {
            None
        }
    } else {
        None
    }
}

/// Tidy the repository locator printed by an external detection command:
/// surrounding whitespace is dropped, and an empty result means nothing
/// was detected.
pub fn clean_repo_detection_output(s: &str) -> (r: Result<String, Error>)
    ensures
        if spec_trim(s@).len() > 0 {
            r matches Ok(t) && t@ == spec_trim(s@)
        } else {
            r matches Err(e) && e matches Error::InvalidArgs(m) && m@
                == "Could not detect repository. Specify --repo explicitly."@
        },
{
    let cs = chars_of(s);
    let trimmed = trim_chars(&cs);
    if trimmed.len() == 0 {
        Err(
            Error::InvalidArgs(
                "Could not detect repository. Specify --repo explicitly.".to_owned(),
            ),
        )
    } else {
        Ok(string_from_chars(&trimmed))
    }
}

impl CliArgs {
    /// The output file path: the explicit one, or
    /// `<number>-discussion.md`.
    pub fn output_path(&self) -> (r: String)
        ensures
            match self.output {
                Some(p) => r@ == p@,
                None => r@ == spec_decimal(self.number as nat) + "-discussion.md"@,
            },
    {
        match &self.output {
            Some(path) => path.clone(),
            None => {
                let mut s = u64_to_string(self.number);
                s.append("-discussion.md");
                s
            },
        }
    }

    /// The repository owner and name. An explicitly given locator is
    /// split; with none given the caller must detect one first, so this
    /// reports invalid arguments.
    pub fn repo_components(&self) -> (r: Result<(String, String), Error>)
        ensures
            match self.repo {
                Some(rs) => match spec_repo_components(rs@) {
                    Some(q) => r matches Ok(p) && p.0@ == q.0 && p.1@ == q.1,
                    None => r matches Err(e) && e matches Error::InvalidArgs(m) && m@
                        == "Repository must be in OWNER/REPO format"@,
                },
                None => r matches Err(e) && e matches Error::InvalidArgs(m) && m@
                    == "Repository must be in OWNER/REPO format"@,
            },
    {
        match &self.repo {
            Some(rs) => match parse_repo_spec(rs.as_str()) {
                Some(p) => Ok(p),
                None => Err(
                    Error::InvalidArgs("Repository must be in OWNER/REPO format".to_owned()),
                ),
            },
            None => Err(Error::InvalidArgs("Repository must be in OWNER/REPO format".to_owned())),
        }
    }

    /// The repository owner.
    pub fn repo_owner(&self) -> (r: Result<String, Error>)
        ensures
            match self.repo {
                Some(rs) => match spec_repo_components(rs@) {
                    Some(q) => r matches Ok(o) && o@ == q.0,
                    None => r is Err,
                },
                None => r is Err,
            },
    {
        match self.repo_components() {
            Ok((owner, _)) => Ok(owner),
            Err(e) => Err(e),
        }
    }

    /// The repository name.
    pub fn repo_name(&self) -> (r: Result<String, Error>)
        ensures
            match self.repo {
                Some(rs) => match spec_repo_components(rs@) {
                    Some(q) => r matches Ok(n) && n@ == q.1,
                    None => r is Err,
                },
                None => r is Err,
            },
    {
        match self.repo_components() {
            Ok((_, name)) => Ok(name),
            Err(e) => Err(e),
        }
    }
}

} // verus!
