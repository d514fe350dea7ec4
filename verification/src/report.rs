//! The report: one line for each result, one section for each bucket.
//!
//! A line gives the name and the version, then the executable or the
//! description that matched, if one did:
//!
//! ```text
//! git (1.0)
//! hub (2.3) --> includes 'hub'
//! git (1.0): distributed vcs
//! ```
//!
//! A section is the bucket's heading, the lines of its results, each after a
//! tab, and an empty line. A bucket without results has no section.

use vstd::prelude::*;
use vstd::string::StringExecFns;
use crate::manifest::texts;
use crate::matcher::{MatchResult, MatchView};
use crate::order::match_views;

verus! {

/// What follows name and version where an executable matched.
pub open spec fn bin_suffix(path: Option<Seq<char>>) -> Seq<char> {
    match path {
        Some(p) => " --> includes '"@ + p + "'"@,
        None => Seq::empty(),
    }
}

/// What follows name and version where the description matched.
pub open spec fn description_suffix(description: Option<Seq<char>>) -> Seq<char> {
    match description {
        Some(d) => ": "@ + d,
        None => Seq::empty(),
    }
}

/// The line for one result.
pub open spec fn line_text(m: MatchView) -> Seq<char> {
    m.name + " ("@ + m.version + ")"@ + bin_suffix(m.matched_bin_path) + description_suffix(
        m.matched_description,
    )
}

/// The heading of a bucket's section.
pub open spec fn heading_text(bucket: Seq<char>) -> Seq<char> {
    "'"@ + bucket + "' bucket:"@
}

/// The lines of the results, each after a tab.
pub open spec fn indented_lines(matches: Seq<MatchView>) -> Seq<Seq<char>> {
    Seq::new(matches.len(), |i: int| "\t"@ + line_text(matches[i]))
}

/// The section of one bucket: nothing where it has no results.
pub open spec fn section_text(bucket: Seq<char>, matches: Seq<MatchView>) -> Seq<Seq<char>> {
    if matches.len() == 0 {
        Seq::empty()
    } else {
        seq![heading_text(bucket)] + indented_lines(matches) + seq![Seq::<char>::empty()]
    }
}

/// The line for one result.
pub fn result_line(m: &MatchResult) -> (line: String)
    ensures
        line@ == line_text(m@),
{
    let mut line = m.name.clone();
    line.append(" (");
    line.append(m.version.as_str());
    line.append(")");
    match &m.matched_bin_path {
        Some(path) => {
            line.append(" --> includes '");
            line.append(path.as_str());
            line.append("'");
        },
        None => {},
    }
    match &m.matched_description {
        Some(description) => {
            line.append(": ");
            line.append(description.as_str());
        },
        None => {},
    }
    line
}

/// The section of one bucket in the report.
pub fn bucket_section(bucket: &str, matches: &Vec<MatchResult>) -> (lines: Vec<String>)
    ensures
        texts(lines@) == section_text(bucket@, match_views(matches@)),
{
    let mut lines: Vec<String> = Vec::new();
    if matches.len() == 0 {
        return lines;
    }
    let mut heading = String::from_str("'");
    heading.append(bucket);
    heading.append("' bucket:");
    lines.push(heading);
    let mut i: usize = 0;
    while i < matches.len()
        invariant
            i <= matches.len(),
            texts(lines@) == seq![heading_text(bucket@)] + indented_lines(
                match_views(matches@),
            ).take(i as int),
        decreases matches.len() - i,
    {
        let ghost before = texts(lines@);
        let mut line = String::from_str("\t");
        let text = result_line(&matches[i]);
        line.append(text.as_str());
        lines.push(line);
        assert(texts(lines@) =~= before.push(line@));
        i += 1;
    }
    let ghost before = texts(lines@);
    lines.push(String::new());
    assert(texts(lines@) =~= before.push(Seq::<char>::empty()));
    lines
}

} // verus!
