//! Course-channel naming helpers: the category title carries the study
//! year's emoji marker in front of the course name.

use vstd::prelude::*;
use vstd::string::StrSliceExecFns;
use vstd::string::StringExecFns;

verus! {

/// One course channel, as (year, semester, course) names.
pub struct Channel<'a> {
    pub channel: &'a str,
    pub semester: &'a str,
    pub year: &'a str,
}

/// The whitespace removed around a category title: the Unicode White_Space
/// characters, as `str::trim` removes them.
pub open spec fn spec_is_space(c: char) -> bool {
    c == ' ' || c == '\t' || c == '\n' || c == '\r' || c == '\u{000B}' || c == '\u{000C}' || c
        == '\u{0085}' || c == '\u{00A0}' || c == '\u{1680}' || c == '\u{2000}' || c == '\u{2001}'
        || c == '\u{2002}' || c == '\u{2003}' || c == '\u{2004}' || c == '\u{2005}' || c
        == '\u{2006}' || c == '\u{2007}' || c == '\u{2008}' || c == '\u{2009}' || c == '\u{200A}'
        || c == '\u{2028}' || c == '\u{2029}' || c == '\u{202F}' || c == '\u{205F}' || c
        == '\u{3000}'
}

/// `s` with trailing whitespace removed.
pub open spec fn spec_trim_end(s: Seq<char>) -> Seq<char>
    decreases s.len(),
{
    if s.len() == 0 {
        s
    } else if spec_is_space(s.last()) {
        spec_trim_end(s.drop_last())
    } else {
        s
    }
}

/// `s` with leading whitespace removed.
pub open spec fn spec_trim_start(s: Seq<char>) -> Seq<char>
    decreases s.len(),
{
    if s.len() == 0 {
        s
    } else if spec_is_space(s.first()) {
        spec_trim_start(s.drop_first())
    } else {
        s
    }
}

/// `s` with whitespace removed at both ends.
pub open spec fn spec_trim(s: Seq<char>) -> Seq<char> {
    spec_trim_start(spec_trim_end(s))
}

/// The emoji marking a study year's categories; years outside the five
/// known ones get none.
pub open spec fn spec_year_emoji(year: Seq<char>) -> Seq<char> {
    if year == seq!['1'] {
        seq!['\u{1F4DA}']
    } else if year == seq!['2'] {
        seq!['\u{1F4D7}']
    } else if year == seq!['3'] {
        seq!['\u{1F4D8}']
    } else if year == seq!['4'] {
        seq!['\u{1F4D9}']
    } else if year == seq!['5'] {
        seq!['\u{1F4D3}']
    } else {
        Seq::<char>::empty()
    }
}

/// A category title: the year's emoji, a separating space, and the name,
/// with the whitespace a missing emoji or an empty name would leave behind
/// trimmed away.
pub open spec fn spec_add_category_emoji(year: Seq<char>, s: Seq<char>) -> Seq<char> {
    let emoji = spec_year_emoji(year);
    if emoji.len() == 0 {
        spec_trim(s)
    } else if spec_trim_end(s).len() == 0 {
        emoji
    } else {
        emoji + seq![' '] + spec_trim_end(s)
    }
}

/// Whether `c` counts as trimmable whitespace.
fn is_space_char(c: char) -> (r: bool)
    ensures
        r == spec_is_space(c),
{
    c == ' ' || c == '\t' || c == '\n' || c == '\r' || c == '\u{000B}' || c == '\u{000C}' || c
        == '\u{0085}' || c == '\u{00A0}' || c == '\u{1680}' || c == '\u{2000}' || c == '\u{2001}'
        || c == '\u{2002}' || c == '\u{2003}' || c == '\u{2004}' || c == '\u{2005}' || c
        == '\u{2006}' || c == '\u{2007}' || c == '\u{2008}' || c == '\u{2009}' || c == '\u{200A}'
        || c == '\u{2028}' || c == '\u{2029}' || c == '\u{202F}' || c == '\u{205F}' || c
        == '\u{3000}'
}

/// The index where `s`'s trailing whitespace starts.
fn trim_end_index(s: &str) -> (end: usize)
    ensures
        end <= s@.len(),
        spec_trim_end(s@) == s@.take(end as int),
{
    let n = s.unicode_len();
    let mut end: usize = n;
    proof {
        assert(s@.take(n as int) =~= s@);
    }
    while end > 0 && is_space_char(s.get_char(end - 1))
        invariant
            end <= n,
            n == s@.len(),
            spec_trim_end(s@) == spec_trim_end(s@.take(end as int)),
        decreases end,
    {
        proof {
            let cur = s@.take(end as int);
            assert(cur.last() == s@[end - 1]);
            assert(cur.drop_last() =~= s@.take(end - 1));
        }
        end = end - 1;
    }
    proof {
        let cur = s@.take(end as int);
        if end > 0 {
            assert(cur.last() == s@[end - 1]);
        }
    }
    end
}

/// The index where `s`'s leading whitespace ends, within `..end`.
fn trim_start_index(s: &str, end: usize) -> (start: usize)
    requires
        end <= s@.len(),
    ensures
        start <= end,
        spec_trim_start(s@.take(end as int)) == s@.subrange(start as int, end as int),
{
    let mut start: usize = 0;
    proof {
        assert(s@.subrange(0, end as int) =~= s@.take(end as int));
    }
    while start < end && is_space_char(s.get_char(start))
        invariant
            start <= end <= s@.len(),
            spec_trim_start(s@.take(end as int)) == spec_trim_start(
                s@.subrange(start as int, end as int),
            ),
        decreases end - start,
    {
        proof {
            let cur = s@.subrange(start as int, end as int);
            assert(cur.first() == s@[start as int]);
            assert(cur.drop_first() =~= s@.subrange(start + 1, end as int));
        }
        start = start + 1;
    }
    proof {
        let cur = s@.subrange(start as int, end as int);
        if start < end {
            assert(cur.first() == s@[start as int]);
        }
    }
    start
}

/// The emoji marking `year`, as a string slice.
fn year_emoji(year: &str) -> (r: &'static str)
    ensures
        r@ == spec_year_emoji(year@),
{
    proof {
        reveal_strlit("\u{1F4DA}");
        reveal_strlit("\u{1F4D7}");
        reveal_strlit("\u{1F4D8}");
        reveal_strlit("\u{1F4D9}");
        reveal_strlit("\u{1F4D3}");
        reveal_strlit("");
    }
    if year.unicode_len() == 1 {
        let c = year.get_char(0);
        proof {
            assert(year@ =~= seq![year@[0]]);
        }
        if c == '1' {
            let r = "\u{1F4DA}";
            proof {
                assert(r@ =~= seq!['\u{1F4DA}']);
            }
            r
        } else if c == '2' {
            let r = "\u{1F4D7}";
            proof {
                assert(r@ =~= seq!['\u{1F4D7}']);
            }
            r
        } else if c == '3' {
            let r = "\u{1F4D8}";
            proof {
                assert(r@ =~= seq!['\u{1F4D8}']);
            }
            r
        } else if c == '4' {
            let r = "\u{1F4D9}";
            proof {
                assert(r@ =~= seq!['\u{1F4D9}']);
            }
            r
        } else if c == '5' {
            let r = "\u{1F4D3}";
            proof {
                assert(r@ =~= seq!['\u{1F4D3}']);
            }
            r
        } else {
            let r = "";
            proof {
                assert(r@ =~= Seq::<char>::empty());
            }
            r
        }
    } else {
        let r = "";
        proof {
            assert(r@ =~= Seq::<char>::empty());
        }
        r
    }
}

/// The category title for a course of the given study year: the year's
/// emoji in front of the name, with stray whitespace trimmed.
pub fn add_category_emoji(year: &str, s: &str) -> (r: String)
    ensures
        r@ == spec_add_category_emoji(year@, s@),
{
    let emoji = year_emoji(year);
    let end = trim_end_index(s);
    if emoji.unicode_len() == 0 {
        let start = trim_start_index(s, end);
        let trimmed = s.substring_char(start, end);
        trimmed.to_owned()
    } else if end == 0 {
        proof {
            assert(spec_trim_end(s@).len() == 0);
        }
        emoji.to_owned()
    } else {
        proof {
            reveal_strlit(" ");
        }
        let mut out = emoji.to_owned();
        out.append(" ");
        out.append(s.substring_char(0, end));
        proof {
            assert(" "@ =~= seq![' ']);
            assert(s@.subrange(0, end as int) =~= s@.take(end as int));
        }
        out
    }
}

} // verus!
