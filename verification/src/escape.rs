//! Escaping for the inline bracketed notation.
//!
//! Four characters are reserved: `&`, `[`, `]` and `,`.  Each maps to a
//! five-character code (`&amp;`, `&#91;`, `&#93;`, `&#44;`).  Because every
//! code starts with `&` and `&` is itself escaped, un-escaping a previously
//! escaped string can never mistake ordinary text for a code, which makes
//! `unescape` an exact inverse of `escape`.

use vstd::prelude::*;
use crate::text::string_of_chars;
use crate::text::str_chars;

verus! {

pub open spec fn amp_code() -> Seq<char> {
    seq!['&', 'a', 'm', 'p', ';']
}

pub open spec fn lbracket_code() -> Seq<char> {
    seq!['&', '#', '9', '1', ';']
}

pub open spec fn rbracket_code() -> Seq<char> {
    seq!['&', '#', '9', '3', ';']
}

pub open spec fn comma_code() -> Seq<char> {
    seq!['&', '#', '4', '4', ';']
}

pub open spec fn is_reserved_char(c: char) -> bool {
    c == '&' || c == '[' || c == ']' || c == ','
}

pub open spec fn escape_char(c: char) -> Seq<char> {
    if c == '&' {
        amp_code()
    } else if c == '[' {
        lbracket_code()
    } else if c == ']' {
        rbracket_code()
    } else if c == ',' {
        comma_code()
    } else {
        seq![c]
    }
}

/// The escaped form of a text: every reserved character replaced by its
/// code, all other characters kept.
pub open spec fn escape_seq(s: Seq<char>) -> Seq<char>
    decreases s.len(),
{
    if s.len() == 0 {
        Seq::empty()
    } else {
        escape_char(s[0]) + escape_seq(s.skip(1))
    }
}

/// The reserved character whose code starts at the front of `s`, if any.
pub open spec fn code_at_front(s: Seq<char>) -> Option<char> {
    if s.len() >= 5 {
        let head = s.subrange(0, 5);
        if head == comma_code() {
            Some(',')
        } else if head == rbracket_code() {
            Some(']')
        } else if head == lbracket_code() {
            Some('[')
        } else if head == amp_code() {
            Some('&')
        } else {
            None
        }
    } else {
        None
    }
}

/// The un-escaped form of a text: each code replaced by its character,
/// scanning left to right; anything else is kept as it stands.
pub open spec fn unescape_seq(s: Seq<char>) -> Seq<char>
    decreases s.len(),
{
    if s.len() == 0 {
        Seq::empty()
    } else {
        match code_at_front(s) {
            Some(c) => seq![c] + unescape_seq(s.skip(5)),
            None => seq![s[0]] + unescape_seq(s.skip(1)),
        }
    }
}

/// Un-escaping inverts escaping: `unescape(escape(s)) == s` for every `s`.
/// This rests on every code starting with `&` while `&` itself is escaped,
/// so escaped text never holds a stray code.
pub proof fn lemma_unescape_escape(s: Seq<char>)
    ensures
        unescape_seq(escape_seq(s)) == s,
    decreases s.len(),
{
    if s.len() == 0 {
    } else {
        lemma_unescape_escape(s.skip(1));
        let e = escape_seq(s);
        let c = s[0];
        if is_reserved_char(c) {
            assert(e.subrange(0, 5) =~= escape_char(c));
            assert(code_at_front(e) == Some(c));
            assert(e.skip(5) =~= escape_seq(s.skip(1)));
            assert(seq![c] + s.skip(1) =~= s);
        } else {
            assert(e[0] == c);
            assert(c != '&');
            if e.len() >= 5 {
                assert(e.subrange(0, 5)[0] == c);
                assert(code_at_front(e) is None);
            }
            assert(e.skip(1) =~= escape_seq(s.skip(1)));
            assert(seq![c] + s.skip(1) =~= s);
        }
    }
}

/// Escaped text never holds `,`, `]` or `[`, and is empty only when the
/// text itself was empty.
pub proof fn lemma_escape_chars(s: Seq<char>)
    ensures
        escape_seq(s).len() >= s.len(),
        forall|i: int| 0 <= i < escape_seq(s).len()
            ==> #[trigger] escape_seq(s)[i] != ',' && escape_seq(s)[i] != ']'
                && escape_seq(s)[i] != '[',
    decreases s.len(),
{
    if s.len() > 0 {
        lemma_escape_chars(s.skip(1));
        let e = escape_seq(s);
        let head = escape_char(s[0]);
        assert(forall|i: int| 0 <= i < head.len()
            ==> #[trigger] head[i] != ',' && head[i] != ']' && head[i] != '[');
        assert(forall|i: int| head.len() <= i < e.len()
            ==> #[trigger] e[i] == escape_seq(s.skip(1))[i - head.len()]);
    }
}

/// Escapes the four reserved characters of the inline notation.
pub fn escape_str(s: &str) -> (r: String)
    ensures
        r@ == escape_seq(s@),
{
    let v = str_chars(s);
    let out = escape_chars(&v);
    string_of_chars(&out)
}

/// As `escape_str`, over character vectors.
pub fn escape_chars(v: &Vec<char>) -> (out: Vec<char>)
    ensures
        out@ == escape_seq(v@),
{
    let mut out: Vec<char> = Vec::new();
    let mut i: usize = 0;
    proof {
        assert(v@.skip(0) =~= v@);
    }
    while i < v.len()
        invariant
            i <= v.len(),
            out@ + escape_seq(v@.skip(i as int)) == escape_seq(v@),
        decreases v.len() - i,
    {
        let c = v[i];
        if c == '&' {
            out.push('&');
            out.push('a');
            out.push('m');
            out.push('p');
            out.push(';');
        } else if c == '[' {
            out.push('&');
            out.push('#');
            out.push('9');
            out.push('1');
            out.push(';');
        } else if c == ']' {
            out.push('&');
            out.push('#');
            out.push('9');
            out.push('3');
            out.push(';');
        } else if c == ',' {
            out.push('&');
            out.push('#');
            out.push('4');
            out.push('4');
            out.push(';');
        } else {
            out.push(c);
        }
        proof {
            assert(v@.skip(i as int).skip(1) =~= v@.skip(i + 1));
            assert(out@ + escape_seq(v@.skip(i + 1)) =~= escape_seq(v@));
        }
        i = i + 1;
    }
    proof {
        assert(escape_seq(v@.skip(v@.len() as int)) =~= Seq::<char>::empty());
        assert(out@ =~= escape_seq(v@));
    }
    out
}

/// Replaces each escape code by its character, scanning left to right.
pub fn unescape_str(s: &str) -> (r: String)
    ensures
        r@ == unescape_seq(s@),
{
    let v = str_chars(s);
    let out = unescape_chars(&v);
    string_of_chars(&out)
}

/// As `unescape_str`, over character vectors.
pub fn unescape_chars(v: &Vec<char>) -> (out: Vec<char>)
    ensures
        out@ == unescape_seq(v@),
{
    let mut out: Vec<char> = Vec::new();
    let n = v.len();
    let mut i: usize = 0;
    proof {
        assert(v@.skip(0) =~= v@);
    }
    while i < n
        invariant
            i <= n,
            n == v@.len(),
            out@ + unescape_seq(v@.skip(i as int)) == unescape_seq(v@),
        decreases n - i,
    {
        let ghost rest = v@.skip(i as int);
        let mut code: Option<char> = None;
        if n - i >= 5 && v[i] == '&' {
            if v[i + 1] == '#' && v[i + 2] == '4' && v[i + 3] == '4' && v[i + 4] == ';' {
                code = Some(',');
            } else if v[i + 1] == '#' && v[i + 2] == '9' && v[i + 3] == '3' && v[i + 4] == ';' {
                code = Some(']');
            } else if v[i + 1] == '#' && v[i + 2] == '9' && v[i + 3] == '1' && v[i + 4] == ';' {
                code = Some('[');
            } else if v[i + 1] == 'a' && v[i + 2] == 'm' && v[i + 3] == 'p' && v[i + 4] == ';' {
                code = Some('&');
            }
        }
        proof {
            if rest.len() >= 5 {
                assert(rest.subrange(0, 5) =~= seq![v@[i as int], v@[i + 1], v@[i + 2], v@[i + 3], v@[i + 4]]);
            }
        }
        match code {
            Some(c) => {
                proof {
                    assert(code_at_front(rest) == Some(c));
                    assert(rest.skip(5) =~= v@.skip(i + 5));
                }
                out.push(c);
                i = i + 5;
            }
            None => {
                proof {
                    assert(code_at_front(rest) is None);
                    assert(rest.skip(1) =~= v@.skip(i + 1));
                }
                out.push(v[i]);
                i = i + 1;
            }
        }
    }
    proof {
        assert(unescape_seq(v@.skip(n as int)) =~= Seq::<char>::empty());
        assert(out@ =~= unescape_seq(v@));
    }
    out
}

} // verus!
