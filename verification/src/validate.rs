//! The validity rule for a candidate configuration root, and the reading
//! of the host tool's path report.
//!
//! The file-system probes themselves (is this a directory, is that a file)
//! are done by the caller; this module holds the decisions taken on their
//! results.

use crate::text::{find_char, starts_with};
use vstd::prelude::*;

verus! {

/// What a probe of a candidate root reported: whether `config/` and
/// `match/` are directories and `config/default.yml` is a regular file.
#[derive(Clone, Copy, Debug, PartialEq, Eq, Structural)]
pub struct RootCheck {
    pub config_dir_present: bool,
    pub match_dir_present: bool,
    pub default_yml_present: bool,
}

/// A root is valid exactly when all three required entries are present.
pub open spec fn valid_root(c: RootCheck) -> bool {
    c.config_dir_present && c.match_dir_present && c.default_yml_present
}

/// Decides whether a candidate root directory is a usable configuration
/// root, from the caller's probe of its three required entries.
pub fn valid_espanso_dir(c: &RootCheck) -> (r: bool)
    ensures
        r == valid_root(*c),
{
    c.config_dir_present && c.match_dir_present && c.default_yml_present
}

/// Any single missing entry already makes the root invalid; no partial
/// validity exists.
pub proof fn lemma_valid_root_needs_all(c: RootCheck)
    ensures
        !c.config_dir_present ==> !valid_root(c),
        !c.match_dir_present ==> !valid_root(c),
        !c.default_yml_present ==> !valid_root(c),
{
}

/// The first line of `s`: everything before the first newline, or all of
/// `s` when it has none.
pub open spec fn first_line(s: Seq<char>) -> Seq<char> {
    match find_char(s, '\n') {
        Some(i) => if 0 <= i <= s.len() {
            s.take(i)
        } else {
            s
        },
        None => s,
    }
}

/// The prefix under which the host tool reports its configuration path.
pub open spec fn config_prefix() -> Seq<char> {
    seq!['C', 'o', 'n', 'f', 'i', 'g', ':', ' ']
}

/// The configuration path in a report whose first line reads
/// `Config: <path>`.
pub open spec fn report_config_path(s: Seq<char>) -> Option<Seq<char>> {
    if starts_with(first_line(s), config_prefix()) {
        Some(first_line(s).skip(config_prefix().len() as int))
    } else {
        None
    }
}

/// Extracts the configuration path from the host tool's path report, when
/// the report's first line carries one.
pub fn config_path_from_output(report: &str) -> (r: Option<String>)
    ensures
        match r {
            Some(p) => report_config_path(report@) == Some(p@),
            None => report_config_path(report@) is None,
        },
{
    let cs = crate::text::chars_of(report);
    proof {
        assert(cs@.skip(0) =~= cs@);
    }
    let end = match crate::text::find_from(&cs, 0, '\n') {
        Some(j) => j,
        None => cs.len(),
    };
    proof {
        crate::text::lemma_find_char_bounds(cs@, '\n');
        assert(first_line(cs@) =~= cs@.subrange(0, end as int));
    }
    if end < 8 {
        proof {
            assert(first_line(cs@).len() < config_prefix().len());
        }
        return None;
    }
    let mut pre: Vec<char> = Vec::new();
    pre.push('C');
    pre.push('o');
    pre.push('n');
    pre.push('f');
    pre.push('i');
    pre.push('g');
    pre.push(':');
    pre.push(' ');
    proof {
        assert(pre@ =~= config_prefix());
    }
    if !crate::text::range_eq(&cs, 0, 8, &pre) {
        proof {
            assert(first_line(cs@).take(8) =~= cs@.subrange(0, 8));
        }
        return None;
    }
    let path = crate::text::copy_range(&cs, 8, end);
    proof {
        assert(first_line(cs@).take(8) =~= cs@.subrange(0, 8));
        assert(first_line(cs@).skip(8) =~= cs@.subrange(8, end as int));
    }
    Some(crate::text::string_of(&path))
}

} // verus!
