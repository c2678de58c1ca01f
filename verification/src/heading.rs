//! The heading converter: decides whether one raw line is a heading and, if
//! so, emits the corresponding HTML heading element.

use vstd::prelude::*;

verus! {

/// The largest heading level an ATX-style marker can carry.
pub const MAX_HEADING_SIZE: usize = 6;

/// The position of the first space in `s` at or after `i`, if any.
pub open spec fn first_space_from(s: Seq<char>, i: int) -> Option<int>
    decreases s.len() - i,
{
    if i < 0 || i >= s.len() {
        None
    } else if s[i] == ' ' {
        Some(i)
    } else {
        first_space_from(s, i + 1)
    }
}

/// The position of the first space in `s`, if any.
pub open spec fn first_space(s: Seq<char>) -> Option<int> {
    first_space_from(s, 0)
}

/// The digit character for a heading level between 0 and 6.
pub open spec fn level_char(level: int) -> char {
    if level == 0 {
        '0'
    } else if level == 1 {
        '1'
    } else if level == 2 {
        '2'
    } else if level == 3 {
        '3'
    } else if level == 4 {
        '4'
    } else if level == 5 {
        '5'
    } else {
        '6'
    }
}

/// The HTML heading element of the given level around the given body,
/// unmodified: no escaping, no trimming.
pub open spec fn heading_html(level: int, body: Seq<char>) -> Seq<char> {
    seq!['<', 'h', level_char(level), '>'] + body + seq!['<', '/', 'h', level_char(level), '>']
}

/// What converting one line yields. The marker is everything before the
/// first space; a line without a space, or with a marker longer than six
/// characters, is not a heading. A line that begins with a space has a
/// marker of length zero and is accepted as a level-zero heading.
pub open spec fn spec_convert_heading(s: Seq<char>) -> Option<Seq<char>> {
    match first_space(s) {
        Some(pos) => if pos > MAX_HEADING_SIZE as int {
            None
        } else {
            Some(heading_html(pos, s.subrange(pos + 1, s.len() as int)))
        },
        None => None,
    }
}

/// The index of the first space character of `s`, or `None` when `s` holds
/// no space.
fn find_first_space(s: &str) -> (r: Option<usize>)
    ensures
        match r {
            Some(i) => first_space(s@) == Some(i as int) && i < s@.len(),
            None => first_space(s@) is None,
        },
{
    let n = s.unicode_len();
    let mut i: usize = 0;
    while i < n
        invariant
            i <= n,
            n == s@.len(),
            first_space(s@) == first_space_from(s@, i as int),
        decreases n - i,
    {
        if s.get_char(i) == ' ' {
            return Some(i);
        }
        i = i + 1;
    }
    None
}

/// The one-character string for a heading level between 0 and 6.
fn level_str(level: usize) -> (r: &'static str)
    requires
        level <= MAX_HEADING_SIZE,
    ensures
        r@ == seq![level_char(level as int)],
{
    proof {
        reveal_strlit("0");
        reveal_strlit("1");
        reveal_strlit("2");
        reveal_strlit("3");
        reveal_strlit("4");
        reveal_strlit("5");
        reveal_strlit("6");
    }
    let r: &'static str = if level == 0 {
        "0"
    } else if level == 1 {
        "1"
    } else if level == 2 {
        "2"
    } else if level == 3 {
        "3"
    } else if level == 4 {
        "4"
    } else if level == 5 {
        "5"
    } else {
        "6"
    };
    proof {
        assert(r@ =~= seq![level_char(level as int)]);
    }
    r
}

/// Converts one line of raw markup to an HTML heading element, or returns
/// `None` when the line is not a heading: the marker is everything before
/// the first space, its length (at most six) is the heading level, and the
/// body is everything after that space, unmodified.
pub fn convert_heading(markdown: String) -> (r: Option<String>)
    ensures
        match r {
            Some(html) => spec_convert_heading(markdown@) == Some(html@),
            None => spec_convert_heading(markdown@) is None,
        },
{
    let s = markdown.as_str();
    let n = s.unicode_len();
    match find_first_space(s) {
        None => None,
        Some(pos) => if pos > MAX_HEADING_SIZE {
            None
        } else {
            let body = s.substring_char(pos + 1, n);
            let digit = level_str(pos);
            let mut out = String::new();
            out.append("<h");
            out.append(digit);
            out.append(">");
            out.append(body);
            out.append("</h");
            out.append(digit);
            out.append(">");
            proof {
                reveal_strlit("<h");
                reveal_strlit(">");
                reveal_strlit("</h");
                assert(out@ =~= heading_html(pos as int, body@));
            }
            Some(out)
        },
    }
}

} // verus!
