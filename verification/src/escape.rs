//! Label-value escaping for the exposition format.
//!
//! Backslash, newline and double quote are replaced by the two-character
//! sequences `\\`, `\n` and `\"`; every other character stands for itself.

use vstd::prelude::*;
use crate::text::str_to_chars;
use crate::text::chars_to_string;

verus! {

/// What one character of a label value becomes on the wire.
pub open spec fn escape_char(c: char) -> Seq<char> {
    if c == '\\' {
        seq!['\\', '\\']
    } else if c == '\n' {
        seq!['\\', 'n']
    } else if c == '"' {
        seq!['\\', '"']
    } else {
        seq![c]
    }
}

/// The escaped form of a whole label value.
pub open spec fn escape_seq(s: Seq<char>) -> Seq<char>
    decreases s.len(),
{
    if s.len() == 0 {
        Seq::empty()
    } else {
        escape_char(s[0]) + escape_seq(s.skip(1))
    }
}

/// What a conforming reader recovers from escaped text: a backslash and its
/// follower decode to one character, everything else stands for itself.
pub open spec fn unescape_seq(s: Seq<char>) -> Seq<char>
    decreases s.len(),
{
    if s.len() == 0 {
        Seq::empty()
    } else if s[0] == '\\' && s.len() >= 2 {
        let c = if s[1] == 'n' {
            '\n'
        } else {
            s[1]
        };
        seq![c] + unescape_seq(s.skip(2))
    } else {
        seq![s[0]] + unescape_seq(s.skip(1))
    }
}

/// Escaping loses nothing: a reader of the produced text recovers the
/// original label value exactly, whatever backslashes, quotes or newlines
/// it held.
pub proof fn lemma_escape_round_trip(s: Seq<char>)
    ensures
        unescape_seq(escape_seq(s)) == s,
    decreases s.len(),
{
    if s.len() == 0 {
        assert(unescape_seq(escape_seq(s)) =~= s);
    } else {
        lemma_escape_round_trip(s.skip(1));
        let t = escape_seq(s);
        let c = s[0];
        if c == '\\' || c == '\n' || c == '"' {
            assert(t == escape_char(c) + escape_seq(s.skip(1)));
            assert(t.len() >= 2);
            assert(t[0] == '\\');
            assert(t.skip(2) =~= escape_seq(s.skip(1)));
            assert(unescape_seq(t) =~= s);
        } else {
            assert(t[0] == c);
            assert(t[0] != '\\');
            assert(t.skip(1) =~= escape_seq(s.skip(1)));
            assert(unescape_seq(t) =~= s);
        }
    }
}

/// Whether a reader scanning `t` — consuming a backslash together with its
/// follower, anything else alone — never meets a bare double quote.
pub open spec fn scan_meets_no_bare_quote(t: Seq<char>) -> bool
    decreases t.len(),
{
    if t.len() == 0 {
        true
    } else if t[0] == '\\' && t.len() >= 2 {
        scan_meets_no_bare_quote(t.skip(2))
    } else {
        t[0] != '"' && scan_meets_no_bare_quote(t.skip(1))
    }
}

/// Escaped text shows a reader no bare double quote, so the closing quote
/// the reader finds after it is the real end of the label value.
pub proof fn lemma_escape_no_bare_quote(s: Seq<char>)
    ensures
        scan_meets_no_bare_quote(escape_seq(s)),
    decreases s.len(),
{
    if s.len() > 0 {
        lemma_escape_no_bare_quote(s.skip(1));
        let t = escape_seq(s);
        let c = s[0];
        if c == '\\' || c == '\n' || c == '"' {
            assert(t[0] == '\\' && t.len() >= 2);
            assert(t.skip(2) =~= escape_seq(s.skip(1)));
        } else {
            assert(t[0] == c && c != '\\' && c != '"');
            assert(t.skip(1) =~= escape_seq(s.skip(1)));
        }
    }
}

/// Escaped text never holds a bare newline, so one metric always stays on
/// one line.
pub proof fn lemma_escape_no_newline(s: Seq<char>)
    ensures
        forall|i: int| 0 <= i < escape_seq(s).len() ==> escape_seq(s)[i] != '\n',
    decreases s.len(),
{
    if s.len() > 0 {
        lemma_escape_no_newline(s.skip(1));
        assert forall|i: int| 0 <= i < escape_seq(s).len() implies escape_seq(s)[i] != '\n' by {
            let e = escape_char(s[0]);
            if i >= e.len() {
                assert(escape_seq(s)[i] == escape_seq(s.skip(1))[i - e.len()]);
            }
        }
    }
}

/// The escaped characters of `v`.
pub fn escape_chars(v: &Vec<char>) -> (r: Vec<char>)
    ensures
        r@ == escape_seq(v@),
{
    let mut out: Vec<char> = Vec::new();
    let mut i: usize = 0;
    proof {
        assert(v@.skip(0) =~= v@);
        assert(out@ + escape_seq(v@) =~= escape_seq(v@));
    }
    while i < v.len()
        invariant
            i <= v.len(),
            escape_seq(v@) == out@ + escape_seq(v@.skip(i as int)),
        decreases v.len() - i,
    {
        let c = v[i];
        proof {
            assert(v@.skip(i as int)[0] == c);
            assert(v@.skip(i as int).skip(1) =~= v@.skip(i as int + 1));
        }
        if c == '\\' {
            out.push('\\');
            out.push('\\');
        } else if c == '\n' {
            out.push('\\');
            out.push('n');
        } else if c == '"' {
            out.push('\\');
            out.push('"');
        } else {
            out.push(c);
        }
        proof {
            assert(escape_seq(v@) =~= out@ + escape_seq(v@.skip(i as int + 1)));
        }
        i = i + 1;
    }
    proof {
        assert(escape_seq(v@) =~= out@);
    }
    out
}

/// The characters a conforming reader recovers from `v`.
pub fn unescape_chars(v: &Vec<char>) -> (r: Vec<char>)
    ensures
        r@ == unescape_seq(v@),
{
    let mut out: Vec<char> = Vec::new();
    let mut i: usize = 0;
    proof {
        assert(v@.skip(0) =~= v@);
        assert(out@ + unescape_seq(v@) =~= unescape_seq(v@));
    }
    while i < v.len()
        invariant
            i <= v.len(),
            unescape_seq(v@) == out@ + unescape_seq(v@.skip(i as int)),
        decreases v.len() - i,
    {
        let c = v[i];
        proof {
            assert(v@.skip(i as int)[0] == c);
            assert(v@.skip(i as int).skip(1) =~= v@.skip(i as int + 1));
            if i + 2 <= v.len() {
                assert(v@.skip(i as int)[1] == v@[i + 1]);
                assert(v@.skip(i as int).skip(2) =~= v@.skip(i as int + 2));
            }
        }
        if c == '\\' && i + 1 < v.len() {
            let d = v[i + 1];
            if d == 'n' {
                out.push('\n');
            } else {
                out.push(d);
            }
            proof {
                assert(unescape_seq(v@) =~= out@ + unescape_seq(v@.skip(i as int + 2)));
            }
            i = i + 2;
        } else {
            out.push(c);
            proof {
                assert(unescape_seq(v@) =~= out@ + unescape_seq(v@.skip(i as int + 1)));
            }
            i = i + 1;
        }
    }
    proof {
        assert(unescape_seq(v@) =~= out@);
    }
    out
}

/// The escaped form of a label value, ready to stand between quotes.
pub fn escape_label_value(s: &str) -> (r: String)
    ensures
        r@ == escape_seq(s@),
{
    let v = str_to_chars(s);
    let e = escape_chars(&v);
    chars_to_string(&e)
}

/// Recovers a label value from its escaped form, as a conforming reader of
/// the exposition format does.
pub fn unescape_label_value(s: &str) -> (r: String)
    ensures
        r@ == unescape_seq(s@),
{
    let v = str_to_chars(s);
    let u = unescape_chars(&v);
    chars_to_string(&u)
}

} // verus!
