//! robots.txt: parsing a fetched policy file into disallow patterns, and
//! matching a URL path against stored patterns.
//!
//! A policy file is a sequence of lines. A `User-agent:` line (matched
//! case-insensitively) opens a section that runs to the next such line or to
//! the end of the file. Within a section addressed to `*` or, by exact
//! comparison, to the crawler's own agent name, every `Disallow:` line
//! contributes its value, trimmed of surrounding whitespace, as one pattern;
//! a value left empty forbids nothing and is dropped. Text before the first
//! `User-agent:` line belongs to no section.

use crate::text::is_space;
use crate::text::lower_eq;
use crate::text::starts_with_ci;
use crate::text::starts_with_ci_str;
use crate::text::str_eq;
use crate::text::str_starts_with;
use crate::text::trim;
use crate::text::trim_spec;
use vstd::prelude::*;
use vstd::string::StrSliceExecFns;

verus! {

// ---------------------------------------------------------------------------
// Splitting a file into lines.
// ---------------------------------------------------------------------------
/// The lines of `s` after `cur`, the line being read, has taken in the
/// characters before `s`.
pub open spec fn split_lines_rec(s: Seq<char>, cur: Seq<char>) -> Seq<Seq<char>>
    decreases s.len(),
{
    if s.len() == 0 {
        seq![cur]
    } else if s[0] == '\n' {
        seq![cur] + split_lines_rec(s.drop_first(), Seq::empty())
    } else {
        split_lines_rec(s.drop_first(), cur.push(s[0]))
    }
}

/// The lines of `s`, split on newline characters. A file without a newline
/// is one line; each newline ends a line, and the remainder after the last
/// newline is the final line, empty when the file ends with a newline.
pub open spec fn split_lines(s: Seq<char>) -> Seq<Seq<char>> {
    split_lines_rec(s, Seq::empty())
}

/// One step from the front of the remainder being split.
proof fn lemma_skip_step<A>(s: Seq<A>, i: int)
    requires
        0 <= i < s.len(),
    ensures
        s.skip(i).len() == s.len() - i,
        s.skip(i)[0] == s[i],
        s.skip(i).drop_first() =~= s.skip(i + 1),
{
}

/// Splits a robots.txt body into lines.
pub fn split_lines_str(s: &str) -> (r: Vec<String>)
    ensures
        r.deep_view() == split_lines(s@),
        r.len() > 0,
{
    let n = s.unicode_len();
    let mut lines: Vec<String> = Vec::new();
    let mut start: usize = 0;
    let mut i: usize = 0;
    proof {
        assert(s@.skip(0) =~= s@);
        assert(s@.subrange(0, 0) =~= Seq::<char>::empty());
        assert(lines.deep_view() =~= Seq::<Seq<char>>::empty());
        assert(Seq::<Seq<char>>::empty() + split_lines_rec(s@, Seq::empty()) =~= split_lines_rec(
            s@,
            Seq::empty(),
        ));
    }
    while i < n
        invariant
            start <= i <= n,
            n == s@.len(),
            lines.deep_view() + split_lines_rec(
                s@.skip(i as int),
                s@.subrange(start as int, i as int),
            ) =~= split_lines(s@),
        decreases n - i,
    {
        let ghost pre = lines.deep_view();
        let ghost cur = s@.subrange(start as int, i as int);
        proof {
            lemma_skip_step(s@, i as int);
        }
        if s.get_char(i) == '\n' {
            let piece = s.substring_char(start, i);
            lines.push(piece.to_owned());
            proof {
                assert(lines.deep_view() =~= pre.push(cur));
                assert(split_lines_rec(s@.skip(i as int), cur) == seq![cur] + split_lines_rec(
                    s@.skip(i + 1),
                    Seq::empty(),
                ));
                assert(pre.push(cur) + split_lines_rec(s@.skip(i + 1), Seq::empty()) =~= pre + (
                seq![cur] + split_lines_rec(s@.skip(i + 1), Seq::empty())));
                assert(s@.subrange(i + 1, i + 1) =~= Seq::<char>::empty());
            }
            start = i + 1;
        } else {
            proof {
                assert(split_lines_rec(s@.skip(i as int), cur) == split_lines_rec(
                    s@.skip(i + 1),
                    cur.push(s@[i as int]),
                ));
                assert(cur.push(s@[i as int]) =~= s@.subrange(start as int, i + 1));
            }
        }
        i += 1;
    }
    let ghost pre = lines.deep_view();
    let ghost cur = s@.subrange(start as int, n as int);
    let piece = s.substring_char(start, n);
    lines.push(piece.to_owned());
    proof {
        assert(s@.skip(n as int) =~= Seq::<char>::empty());
        assert(split_lines_rec(s@.skip(n as int), cur) == seq![cur]);
        assert(lines.deep_view() =~= pre.push(cur));
        assert(pre.push(cur) =~= pre + seq![cur]);
    }
    lines
}

// ---------------------------------------------------------------------------
// Directive lines.
// ---------------------------------------------------------------------------
/// Whether `l` is a `User-agent:` directive line.
pub open spec fn is_ua_line(l: Seq<char>) -> bool {
    starts_with_ci(l, "user-agent:"@)
}

/// The agent token of a `User-agent:` line: the value after the colon,
/// trimmed.
pub open spec fn ua_token(l: Seq<char>) -> Seq<char> {
    trim_spec(l.skip("user-agent:"@.len() as int))
}

/// Whether `l` is a `Disallow:` directive line.
pub open spec fn is_disallow_line(l: Seq<char>) -> bool {
    starts_with_ci(l, "disallow:"@)
}

/// The pattern of a `Disallow:` line: the value after the colon, trimmed.
pub open spec fn disallow_value(l: Seq<char>) -> Seq<char> {
    trim_spec(l.skip("disallow:"@.len() as int))
}

/// A classified robots.txt line: a section boundary with its agent token, a
/// disallow directive with its trimmed value, or anything else.
pub enum RobotsLine {
    UserAgent(String),
    Disallow(String),
    Other,
}

/// Classifies one robots.txt line. A `User-agent:` prefix wins over a
/// `Disallow:` prefix; the two cannot both be present.
pub fn classify_line(line: &str) -> (r: RobotsLine)
    ensures
        is_ua_line(line@) ==> (r matches RobotsLine::UserAgent(t) && t@ == ua_token(line@)),
        !is_ua_line(line@) && is_disallow_line(line@) ==> (r matches RobotsLine::Disallow(t)
            && t@ == disallow_value(line@)),
        !is_ua_line(line@) && !is_disallow_line(line@) ==> r is Other,
{
    let n = line.unicode_len();
    if starts_with_ci_str(line, "user-agent:") {
        let plen = "user-agent:".unicode_len();
        let rest = line.substring_char(plen, n);
        proof {
            assert(rest@ =~= line@.skip("user-agent:"@.len() as int));
        }
        RobotsLine::UserAgent(trim(rest))
    } else if starts_with_ci_str(line, "disallow:") {
        let plen = "disallow:".unicode_len();
        let rest = line.substring_char(plen, n);
        proof {
            assert(rest@ =~= line@.skip("disallow:"@.len() as int));
        }
        RobotsLine::Disallow(trim(rest))
    } else {
        RobotsLine::Other
    }
}

// ---------------------------------------------------------------------------
// Collecting the disallow patterns for an agent.
// ---------------------------------------------------------------------------
/// Whether a section's agent token addresses the crawler: the wildcard `*`,
/// or the agent name compared exactly.
pub open spec fn agent_matches(tok: Seq<char>, agent: Seq<char>) -> bool {
    tok == seq!['*'] || tok == agent
}

/// The patterns contributed by `lines`, where `active` says whether the
/// section in force addresses the crawler.
pub open spec fn patterns_rec(lines: Seq<Seq<char>>, agent: Seq<char>, active: bool) -> Seq<
    Seq<char>,
>
    decreases lines.len(),
{
    if lines.len() == 0 {
        Seq::empty()
    } else {
        let l = lines[0];
        let rest = lines.drop_first();
        if is_ua_line(l) {
            patterns_rec(rest, agent, agent_matches(ua_token(l), agent))
        } else if active && is_disallow_line(l) && disallow_value(l).len() > 0 {
            seq![disallow_value(l)] + patterns_rec(rest, agent, active)
        } else {
            patterns_rec(rest, agent, active)
        }
    }
}

/// The disallow patterns of a robots.txt body for the crawler `agent`, in
/// file order, duplicates kept.
pub open spec fn robots_patterns(text: Seq<char>, agent: Seq<char>) -> Seq<Seq<char>> {
    patterns_rec(split_lines(text), agent, false)
}

/// Parses a fetched robots.txt body into the disallow patterns addressed to
/// `agent`.
pub fn parse_robots(text: &str, agent: &str) -> (r: Vec<String>)
    ensures
        r.deep_view() == robots_patterns(text@, agent@),
{
    let lines = split_lines_str(text);
    let mut patterns: Vec<String> = Vec::new();
    let mut active = false;
    let mut i: usize = 0;
    let n = lines.len();
    proof {
        assert(lines.deep_view().skip(0) =~= lines.deep_view());
        assert(patterns.deep_view() =~= Seq::<Seq<char>>::empty());
        assert(Seq::<Seq<char>>::empty() + patterns_rec(lines.deep_view(), agent@, false)
            =~= patterns_rec(lines.deep_view(), agent@, false));
    }
    while i < n
        invariant
            i <= n,
            n == lines.len(),
            lines.deep_view() == split_lines(text@),
            patterns.deep_view() + patterns_rec(lines.deep_view().skip(i as int), agent@, active)
                =~= robots_patterns(text@, agent@),
        decreases n - i,
    {
        let ghost pre = patterns.deep_view();
        let ghost remaining = lines.deep_view().skip(i as int);
        let ghost act0 = active;
        proof {
            lemma_skip_step(lines.deep_view(), i as int);
            assert(remaining[0] == lines[i as int]@);
        }
        match classify_line(lines[i].as_str()) {
            RobotsLine::UserAgent(tok) => {
                let is_star = tok.unicode_len() == 1 && tok.as_str().get_char(0) == '*';
                proof {
                    assert(is_star == (tok@ == seq!['*'])) by {
                        if tok@.len() == 1 && tok@[0] == '*' {
                            assert(tok@ =~= seq!['*']);
                        }
                        if tok@ == seq!['*'] {
                            assert(tok@.len() == 1 && tok@[0] == '*');
                        }
                    }
                }
                let matches_agent = if is_star {
                    true
                } else {
                    str_eq(tok.as_str(), agent)
                };
                active = matches_agent;
                proof {
                    assert(is_ua_line(remaining[0]));
                    assert(active == agent_matches(ua_token(remaining[0]), agent@));
                    assert(patterns_rec(remaining, agent@, act0) == patterns_rec(
                        remaining.drop_first(),
                        agent@,
                        active,
                    ));
                    assert(remaining.drop_first() =~= lines.deep_view().skip(i + 1));
                }
            },
            RobotsLine::Disallow(value) => {
                proof {
                    assert(!is_ua_line(remaining[0]) && is_disallow_line(remaining[0]));
                    assert(remaining.drop_first() =~= lines.deep_view().skip(i + 1));
                }
                if active && value.as_str().unicode_len() > 0 {
                    patterns.push(value);
                    proof {
                        assert(patterns.deep_view() =~= pre.push(disallow_value(remaining[0])));
                        assert(pre.push(disallow_value(remaining[0])) + patterns_rec(
                            lines.deep_view().skip(i + 1),
                            agent@,
                            active,
                        ) =~= pre + (seq![disallow_value(remaining[0])] + patterns_rec(
                            lines.deep_view().skip(i + 1),
                            agent@,
                            active,
                        )));
                    }
                }
            },
            RobotsLine::Other => {
                proof {
                    assert(!is_ua_line(remaining[0]) && !is_disallow_line(remaining[0]));
                    assert(remaining.drop_first() =~= lines.deep_view().skip(i + 1));
                }
            },
        }
        i += 1;
    }
    proof {
        assert(lines.deep_view().skip(n as int) =~= Seq::<Seq<char>>::empty());
        assert(patterns.deep_view() + Seq::<Seq<char>>::empty() =~= patterns.deep_view());
    }
    patterns
}

// ---------------------------------------------------------------------------
// Matching a URL path against stored patterns.
// ---------------------------------------------------------------------------
/// A stored pattern blocks a path when it is the wildcard `*` or a prefix of
/// the path.
pub open spec fn pattern_blocks(path: Seq<char>, pat: Seq<char>) -> bool {
    pat == seq!['*'] || (path.len() >= pat.len() && path.take(pat.len() as int) == pat)
}

/// A path is disallowed when some stored pattern blocks it.
pub open spec fn path_disallowed(path: Seq<char>, pats: Seq<Seq<char>>) -> bool {
    exists|k: int| 0 <= k < pats.len() && pattern_blocks(path, pats[k])
}

/// Tests a URL path against a domain's stored disallow patterns.
pub fn is_path_disallowed(path: &str, patterns: &Vec<String>) -> (r: bool)
    ensures
        r == path_disallowed(path@, patterns.deep_view()),
{
    let n = patterns.len();
    let mut i: usize = 0;
    while i < n
        invariant
            i <= n,
            n == patterns.len(),
            forall|k: int| 0 <= k < i ==> !pattern_blocks(path@, patterns.deep_view()[k]),
        decreases n - i,
    {
        let pat = patterns[i].as_str();
        let is_star = pat.unicode_len() == 1 && pat.get_char(0) == '*';
        proof {
            assert(is_star == (pat@ == seq!['*'])) by {
                if pat@.len() == 1 && pat@[0] == '*' {
                    assert(pat@ =~= seq!['*']);
                }
                if pat@ == seq!['*'] {
                    assert(pat@.len() == 1 && pat@[0] == '*');
                }
            }
        }
        if is_star || str_starts_with(path, pat) {
            proof {
                assert(patterns.deep_view()[i as int] == pat@);
                assert(pattern_blocks(path@, patterns.deep_view()[i as int]));
            }
            return true;
        }
        proof {
            assert(patterns.deep_view()[i as int] == pat@);
        }
        i += 1;
    }
    false
}

} // verus!
