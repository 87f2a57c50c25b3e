//! The message model: an ordered sequence of tokens, each either a
//! plain-text run or one segment in its wire form, together with the
//! tokenizer that splits a raw string into that sequence.

pub mod cq_code;

use vstd::prelude::*;
use vstd::string::StrSliceExecFns;
use crate::error::{SegmentError, SegErr};
use crate::text::{str_chars, string_of_chars, chars_sub};
use crate::message::cq_code::{seg_match, fields_match, scan_word, scan_fields};

verus! {

/// Which notation a message is in: inline text with bracketed segments,
/// or a JSON array of tagged objects.
#[derive(Debug, Clone, Copy, PartialEq, Eq, Structural)]
pub enum MessageType {
    String,
    Json,
}

/// An ordered sequence of tokens, together with the notation they are
/// in.  Each token is either a plain-text run or one segment in its
/// still-undecoded wire form: a bracketed `[CQ:...]` substring for the
/// inline notation, one `{...}` object for the JSON notation.  The
/// notation is recorded when the message is made — by the tokenizer or
/// by a builder — never inferred from the tokens: a plain-text run is
/// free to start with any character.
#[derive(Debug, PartialEq)]
pub struct Message {
    pub messages: Vec<String>,
    pub kind: MessageType,
}

/// The character sequences of a vector of strings.
pub open spec fn strs_view(v: Seq<String>) -> Seq<Seq<char>> {
    Seq::new(v.len(), |i: int| v[i]@)
}

impl View for Message {
    type V = Seq<Seq<char>>;

    open spec fn view(&self) -> Seq<Seq<char>> {
        strs_view(self.messages@)
    }
}

/// All tokens joined, in order.
pub open spec fn concat_all(ts: Seq<Seq<char>>) -> Seq<char>
    decreases ts.len(),
{
    if ts.len() == 0 {
        Seq::empty()
    } else {
        ts[0] + concat_all(ts.skip(1))
    }
}

pub proof fn lemma_seg_match_bounds(s: Seq<char>, i: int)
    requires
        0 <= i <= s.len(),
    ensures
        seg_match(s, i) matches Some(e) ==> i < e <= s.len(),
{
    if cq_code::has_cq_prefix(s, i) {
        let te = cq_code::word_run_end(s, i + 4);
        cq_code::lemma_word_run_bounds(s, i + 4);
        if te != i + 4 {
            lemma_fields_match_bounds(s, te);
        }
    }
}

pub proof fn lemma_fields_match_bounds(s: Seq<char>, j: int)
    requires
        0 <= j <= s.len(),
    ensures
        fields_match(s, j) matches Some(e) ==> j < e <= s.len(),
    decreases s.len() - j,
{
    if j < s.len() && s[j] == ',' {
        let ne = cq_code::word_run_end(s, j + 1);
        cq_code::lemma_word_run_bounds(s, j + 1);
        if ne != j + 1 && ne < s.len() && s[ne] == '=' {
            let ve = cq_code::value_run_end(s, ne + 1);
            cq_code::lemma_value_run_bounds(s, ne + 1);
            if ve != ne + 1 {
                lemma_fields_match_bounds(s, ve);
            }
        }
    }
}

/// The tokens of the inline notation from position `i` on, with the
/// pending text run reaching back to `ts`: every segment match becomes
/// a token, every non-empty gap between matches becomes a text token.
pub open spec fn tokenize_from(s: Seq<char>, i: int, ts: int) -> Seq<Seq<char>>
    decreases s.len() - i when 0 <= ts <= i <= s.len()
{
    if i >= s.len() {
        if ts < s.len() {
            seq![s.subrange(ts, s.len() as int)]
        } else {
            Seq::empty()
        }
    } else {
        match seg_match(s, i) {
            Some(e) => {
                proof {
                    lemma_seg_match_bounds(s, i);
                }
                let pre: Seq<Seq<char>> = if ts < i {
                    seq![s.subrange(ts, i)]
                } else {
                    Seq::empty()
                };
                pre + seq![s.subrange(i, e)] + tokenize_from(s, e, e)
            }
            None => tokenize_from(s, i + 1, ts),
        }
    }
}

/// The tokens of a raw string in the inline notation.  An empty input is
/// one empty text token, not zero tokens.
pub open spec fn tokenize_spec(s: Seq<char>) -> Seq<Seq<char>> {
    if s.len() == 0 {
        seq![Seq::<char>::empty()]
    } else {
        tokenize_from(s, 0, 0)
    }
}

/// Tokenizing loses nothing: the tokens joined give the input back.
pub proof fn lemma_tokenize_from_complete(s: Seq<char>, i: int, ts: int)
    requires
        0 <= ts <= i <= s.len(),
    ensures
        concat_all(tokenize_from(s, i, ts)) == s.subrange(ts, s.len() as int),
    decreases s.len() - i,
{
    if i >= s.len() {
        if ts < s.len() {
            let t = tokenize_from(s, i, ts);
            assert(t.skip(1) =~= Seq::<Seq<char>>::empty());
            assert(concat_all(t.skip(1)) == Seq::<char>::empty());
            assert(t[0] == s.subrange(ts, s.len() as int));
            assert(concat_all(t) =~= s.subrange(ts, s.len() as int));
        } else {
            assert(s.subrange(ts, s.len() as int) =~= Seq::<char>::empty());
        }
    } else {
        match seg_match(s, i) {
            Some(e) => {
                lemma_seg_match_bounds(s, i);
                lemma_tokenize_from_complete(s, e, e);
                let t = tokenize_from(s, i, ts);
                if ts < i {
                    assert(t == seq![s.subrange(ts, i)] + seq![s.subrange(i, e)] + tokenize_from(
                        s,
                        e,
                        e,
                    ));
                    assert(t[0] == s.subrange(ts, i));
                    assert(t.skip(1) =~= seq![s.subrange(i, e)] + tokenize_from(s, e, e));
                    assert(t.skip(1)[0] == s.subrange(i, e));
                    assert(t.skip(1).skip(1) =~= tokenize_from(s, e, e));
                    assert(concat_all(t.skip(1).skip(1)) == concat_all(tokenize_from(s, e, e)));
                    assert(concat_all(t.skip(1)) == s.subrange(i, e) + concat_all(
                        tokenize_from(s, e, e),
                    ));
                    assert(concat_all(t) == s.subrange(ts, i) + concat_all(t.skip(1)));
                    assert(concat_all(t) =~= s.subrange(ts, s.len() as int));
                } else {
                    assert(t == Seq::<Seq<char>>::empty() + seq![s.subrange(i, e)]
                        + tokenize_from(s, e, e));
                    assert(t[0] == s.subrange(i, e));
                    assert(t.skip(1) =~= tokenize_from(s, e, e));
                    assert(concat_all(t) =~= s.subrange(ts, s.len() as int));
                }
            }
            None => {
                lemma_tokenize_from_complete(s, i + 1, ts);
            }
        }
    }
}

/// Tokenizer completeness: joining the rendered form of every token of
/// `s` reproduces `s` exactly.
pub proof fn lemma_tokenize_complete(s: Seq<char>)
    ensures
        concat_all(tokenize_spec(s)) == s,
{
    if s.len() == 0 {
        let t = tokenize_spec(s);
        assert(t.skip(1) =~= Seq::<Seq<char>>::empty());
        assert(concat_all(t.skip(1)) == Seq::<char>::empty());
        assert(concat_all(t) =~= s);
    } else {
        lemma_tokenize_from_complete(s, 0, 0);
        assert(s.subrange(0, s.len() as int) =~= s);
    }
}

/// All tokens joined with `,` between them.
pub open spec fn join_comma(ts: Seq<Seq<char>>) -> Seq<char>
    decreases ts.len(),
{
    if ts.len() == 0 {
        Seq::empty()
    } else if ts.len() == 1 {
        ts[0]
    } else {
        ts[0] + seq![','] + join_comma(ts.skip(1))
    }
}

/// Re-rendering a tokenized inline string reproduces it exactly,
/// whatever characters its text runs start with: the tokenizer records
/// the inline notation, so rendering concatenates the tokens verbatim.
pub proof fn lemma_render_after_tokenize(s: Seq<char>)
    ensures
        render_msg(MessageType::String, tokenize_spec(s)) == s,
{
    lemma_tokenize_complete(s);
}

/// A message in canonical inline form: it carries the inline notation
/// and re-tokenizing its own rendering gives the same tokens back.
/// Everything the inline tokenizer produces is canonical in this sense.
pub open spec fn msg_inline_canonical(m: Message) -> bool {
    m.kind == MessageType::String && tokenize_spec(concat_all(m@)) == m@
}

/// The wire string of a message: the inline notation joins tokens
/// verbatim; the JSON notation joins them with `,` inside one `[...]`,
/// except that a message with no tokens at all renders as the empty
/// string in either notation.
pub open spec fn render_msg(kind: MessageType, toks: Seq<Seq<char>>) -> Seq<char> {
    if kind == MessageType::String || toks.len() == 0 {
        concat_all(toks)
    } else {
        seq!['['] + join_comma(toks) + seq![']']
    }
}

/// The raw texts of each top-level `{...}` object from position `i` on,
/// found by brace-balanced scanning; anything between objects is
/// skipped.  An object left open at the end of the input is an error.
pub open spec fn json_elems(s: Seq<char>, i: int) -> Result<Seq<Seq<char>>, SegErr>
    decreases s.len() - i when 0 <= i <= s.len()
{
    if i >= s.len() {
        Ok(Seq::empty())
    } else if s[i] == '{' {
        match obj_scan(s, i + 1, 1, false, false) {
            Some(e) => {
                proof {
                    lemma_obj_scan_bounds(s, i + 1, 1, false, false);
                }
                match json_elems(s, e) {
                    Ok(r) => Ok(seq![s.subrange(i, e)] + r),
                    Err(err) => Err(err),
                }
            }
            None => Err(SegErr::MalformedSegment { raw: s.subrange(i, s.len() as int) }),
        }
    } else {
        json_elems(s, i + 1)
    }
}

/// Scans for the brace closing the object, counting depth and skipping
/// braces inside strings; `within` and `esc` carry the string state.
pub open spec fn obj_scan(s: Seq<char>, j: int, depth: int, within: bool, esc: bool) -> Option<int>
    decreases s.len() - j when 0 <= j <= s.len()
{
    if j >= s.len() {
        None
    } else {
        let c = s[j];
        if within {
            if esc {
                obj_scan(s, j + 1, depth, true, false)
            } else if c == '\\' {
                obj_scan(s, j + 1, depth, true, true)
            } else if c == '"' {
                obj_scan(s, j + 1, depth, false, false)
            } else {
                obj_scan(s, j + 1, depth, true, false)
            }
        } else if c == '{' {
            obj_scan(s, j + 1, depth + 1, false, false)
        } else if c == '}' {
            if depth == 1 {
                Some(j + 1)
            } else {
                obj_scan(s, j + 1, depth - 1, false, false)
            }
        } else if c == '"' {
            obj_scan(s, j + 1, depth, true, false)
        } else {
            obj_scan(s, j + 1, depth, false, false)
        }
    }
}

pub proof fn lemma_obj_scan_bounds(s: Seq<char>, j: int, depth: int, within: bool, esc: bool)
    requires
        0 <= j <= s.len(),
    ensures
        obj_scan(s, j, depth, within, esc) matches Some(e) ==> j < e <= s.len(),
    decreases s.len() - j,
{
    if j < s.len() {
        lemma_obj_scan_bounds(s, j + 1, depth, true, false);
        lemma_obj_scan_bounds(s, j + 1, depth, true, true);
        lemma_obj_scan_bounds(s, j + 1, depth, false, false);
        lemma_obj_scan_bounds(s, j + 1, depth + 1, false, false);
        lemma_obj_scan_bounds(s, j + 1, depth - 1, false, false);
    }
}

/// `concat_all` distributes over appending one token.
pub proof fn lemma_concat_push(q: Seq<Seq<char>>, x: Seq<char>)
    ensures
        concat_all(q.push(x)) == concat_all(q) + x,
    decreases q.len(),
{
    if q.len() == 0 {
        assert(q.push(x)[0] == x);
        assert(q.push(x).skip(1) =~= Seq::<Seq<char>>::empty());
        assert(concat_all(q.push(x).skip(1)) == Seq::<char>::empty());
        assert(concat_all(q) == Seq::<char>::empty());
        assert(concat_all(q.push(x)) =~= concat_all(q) + x);
    } else {
        lemma_concat_push(q.skip(1), x);
        assert(q.push(x)[0] == q[0]);
        assert(q.push(x).skip(1) =~= q.skip(1).push(x));
        assert(concat_all(q.push(x)) == q[0] + concat_all(q.skip(1).push(x)));
        assert(concat_all(q.push(x)) =~= concat_all(q) + x);
    }
}

/// `join_comma` distributes over appending one token.
pub proof fn lemma_join_push(q: Seq<Seq<char>>, x: Seq<char>)
    requires
        q.len() >= 1,
    ensures
        join_comma(q.push(x)) == join_comma(q) + seq![','] + x,
    decreases q.len(),
{
    if q.len() == 1 {
        assert(q.push(x)[0] == q[0]);
        assert(q.push(x)[1] == x);
        assert(q.push(x).skip(1) =~= seq![x]);
        assert(join_comma(q.push(x)) == q[0] + seq![','] + join_comma(seq![x]));
        assert(join_comma(seq![x]) == x);
        assert(join_comma(q.push(x)) =~= join_comma(q) + seq![','] + x);
    } else {
        lemma_join_push(q.skip(1), x);
        assert(q.push(x)[0] == q[0]);
        assert(q.push(x).skip(1) =~= q.skip(1).push(x));
        assert(join_comma(q.push(x)) == q[0] + seq![','] + join_comma(q.skip(1).push(x)));
        assert(join_comma(q.push(x)) =~= join_comma(q) + seq![','] + x);
    }
}

/// Attempts to match one segment starting at `i`.
fn try_seg(s: &Vec<char>, i: usize) -> (r: Option<usize>)
    requires
        i <= s@.len(),
    ensures
        match r {
            Some(e) => seg_match(s@, i as int) == Some(e as int) && i < e <= s@.len(),
            None => seg_match(s@, i as int) is None,
        },
{
    let n = s.len();
    if !(n - i >= 4 && s[i] == '[' && s[i + 1] == 'C' && s[i + 2] == 'Q' && s[i + 3] == ':') {
        return None;
    }
    let te = scan_word(s, i + 4);
    if te == i + 4 {
        return None;
    }
    let mut pairs: Vec<(Vec<char>, Vec<char>)> = Vec::new();
    scan_fields(s, te, &mut pairs)
}

impl Message {
    /// Which notation this message is in, as recorded when it was
    /// made.
    pub fn message_type(&self) -> (r: MessageType)
        ensures
            r == self.kind,
    {
        self.kind
    }

    /// The wire string of this message, in its recorded notation.
    pub fn to_string(&self) -> (r: String)
        ensures
            r@ == render_msg(self.kind, self@),
    {
        let ghost m = self@;
        if self.messages.len() == 0 {
            proof {
                assert(concat_all(m) == Seq::<char>::empty());
            }
            return String::new();
        }
        match self.message_type() {
            MessageType::String => {
                let mut out: Vec<char> = Vec::new();
                let mut i: usize = 0;
                proof {
                    assert(m.take(0) =~= Seq::<Seq<char>>::empty());
                }
                while i < self.messages.len()
                    invariant
                        i <= self.messages@.len(),
                        m == self@,
                        out@ == concat_all(m.take(i as int)),
                    decreases self.messages@.len() - i,
                {
                    let piece = str_chars(self.messages[i].as_str());
                    push_all_vec(&mut out, &piece);
                    proof {
                        lemma_concat_push(m.take(i as int), m[i as int]);
                        assert(m.take(i + 1) =~= m.take(i as int).push(m[i as int]));
                    }
                    i = i + 1;
                }
                proof {
                    assert(m.take(m.len() as int) =~= m);
                }
                string_of_chars(&out)
            }
            MessageType::Json => {
                let mut out: Vec<char> = Vec::new();
                out.push('[');
                let mut i: usize = 0;
                while i < self.messages.len()
                    invariant
                        i <= self.messages@.len(),
                        m == self@,
                        m.len() > 0,
                        self.kind == MessageType::Json,
                        i == 0 ==> out@ == seq!['['],
                        i > 0 ==> out@ == seq!['['] + join_comma(m.take(i as int)),
                    decreases self.messages@.len() - i,
                {
                    if i > 0 {
                        out.push(',');
                    }
                    let piece = str_chars(self.messages[i].as_str());
                    push_all_vec(&mut out, &piece);
                    proof {
                        assert(m.take(i + 1) =~= m.take(i as int).push(m[i as int]));
                        if i == 0 {
                            assert(join_comma(m.take(1)) == m[0]);
                            assert(out@ =~= seq!['['] + join_comma(m.take(1)));
                        } else {
                            lemma_join_push(m.take(i as int), m[i as int]);
                            assert(out@ =~= seq!['['] + join_comma(m.take(i + 1)));
                        }
                    }
                    i = i + 1;
                }
                out.push(']');
                proof {
                    assert(m.take(m.len() as int) =~= m);
                    assert(out@ =~= seq!['['] + join_comma(m) + seq![']']);
                }
                string_of_chars(&out)
            }
        }
    }

    /// Splits a raw string in the inline notation into its tokens: every
    /// segment match becomes a token, every non-empty gap a text token,
    /// an empty input one empty text token.  Never fails.
    pub fn from_string(s: String) -> (r: Result<Message, SegmentError>)
        ensures
            r matches Ok(m) && m@ == tokenize_spec(s@) && m.kind == MessageType::String,
    {
        let chars = str_chars(s.as_str());
        let n = chars.len();
        let mut toks: Vec<String> = Vec::new();
        if n == 0 {
            toks.push(String::new());
            let m = Message { messages: toks, kind: MessageType::String };
            proof {
                assert(m@ =~= tokenize_spec(s@));
            }
            return Ok(m);
        }
        let mut i: usize = 0;
        let mut ts: usize = 0;
        while i < n
            invariant
                ts <= i <= n,
                n == chars@.len(),
                chars@ == s@,
                strs_view(toks@) + tokenize_from(s@, i as int, ts as int) == tokenize_from(
                    s@,
                    0,
                    0,
                ),
            decreases n - i,
        {
            match try_seg(&chars, i) {
                Some(e) => {
                    let ghost before = strs_view(toks@);
                    let ghost pre: Seq<Seq<char>> = if ts < i {
                        seq![s@.subrange(ts as int, i as int)]
                    } else {
                        Seq::empty()
                    };
                    if ts < i {
                        let gap = chars_sub(&chars, ts, i);
                        toks.push(string_of_chars(&gap));
                    }
                    let seg = chars_sub(&chars, i, e);
                    toks.push(string_of_chars(&seg));
                    proof {
                        assert(strs_view(toks@) =~= before + pre + seq![s@.subrange(i as int, e as int)]);
                        assert(tokenize_from(s@, i as int, ts as int) == pre + seq![s@.subrange(i as int, e as int)]
                            + tokenize_from(s@, e as int, e as int));
                        assert(strs_view(toks@) + tokenize_from(s@, e as int, e as int)
                            =~= before + tokenize_from(s@, i as int, ts as int));
                    }
                    i = e;
                    ts = e;
                }
                None => {
                    i = i + 1;
                }
            }
        }
        if ts < n {
            let gap = chars_sub(&chars, ts, n);
            let ghost before = strs_view(toks@);
            toks.push(string_of_chars(&gap));
            proof {
                assert(strs_view(toks@) =~= before + seq![s@.subrange(ts as int, n as int)]);
                assert(tokenize_from(s@, n as int, ts as int) == seq![s@.subrange(ts as int, n as int)]);
                assert(strs_view(toks@) =~= before + tokenize_from(s@, n as int, ts as int));
            }
        } else {
            proof {
                assert(tokenize_from(s@, n as int, ts as int) =~= Seq::<Seq<char>>::empty());
                assert(strs_view(toks@) =~= strs_view(toks@) + tokenize_from(s@, n as int, ts as int));
            }
        }
        let m = Message { messages: toks, kind: MessageType::String };
        proof {
            assert(m@ == tokenize_spec(s@));
        }
        Ok(m)
    }

    /// Splits a raw string in the JSON notation into its tokens: each
    /// top-level `{...}` object, found by brace-balanced scanning, is one
    /// token; an object left open is a malformed-segment error.
    pub fn from_json(s: &str) -> (r: Result<Message, SegmentError>)
        ensures
            match r {
                Ok(m) => json_elems(s@, 0) == Ok::<_, SegErr>(m@) && m.kind == MessageType::Json,
                Err(e) => json_elems(s@, 0) == Err::<Seq<Seq<char>>, _>(e@),
            },
    {
        let chars = str_chars(s);
        let n = chars.len();
        let mut toks: Vec<String> = Vec::new();
        let mut i: usize = 0;
        while i < n
            invariant
                i <= n,
                n == chars@.len(),
                chars@ == s@,
                prepend_elems(strs_view(toks@), json_elems(s@, i as int)) == json_elems(s@, 0),
            decreases n - i,
        {
            if chars[i] == '{' {
                match scan_object(&chars, i + 1) {
                    Some(e) => {
                        let ghost before = strs_view(toks@);
                        let obj = chars_sub(&chars, i, e);
                        toks.push(string_of_chars(&obj));
                        proof {
                            assert(strs_view(toks@) =~= before + seq![s@.subrange(i as int, e as int)]);
                            match json_elems(s@, e as int) {
                                Ok(q) => {
                                    assert(before + (seq![s@.subrange(i as int, e as int)] + q)
                                        =~= strs_view(toks@) + q);
                                }
                                Err(_) => {}
                            }
                        }
                        i = e;
                    }
                    None => {
                        return Err(SegmentError::MalformedSegment {
                            raw: string_of_chars(&chars_sub(&chars, i, n)),
                        });
                    }
                }
            } else {
                i = i + 1;
            }
        }
        let m = Message { messages: toks, kind: MessageType::Json };
        proof {
            assert(json_elems(s@, n as int) == Ok::<Seq<Seq<char>>, SegErr>(Seq::empty()));
            assert(strs_view(toks@) + Seq::<Seq<char>>::empty() =~= strs_view(toks@));
        }
        Ok(m)
    }
}

/// `Ok` results gain a prefix of already-collected tokens; errors pass
/// through.
pub open spec fn prepend_elems(
    ts: Seq<Seq<char>>,
    r: Result<Seq<Seq<char>>, SegErr>,
) -> Result<Seq<Seq<char>>, SegErr> {
    match r {
        Ok(q) => Ok(ts + q),
        Err(e) => Err(e),
    }
}

/// Finds the end of the object opened just before `j`, as `obj_scan`
/// describes it.
fn scan_object(s: &Vec<char>, j: usize) -> (r: Option<usize>)
    requires
        1 <= j <= s@.len(),
    ensures
        match r {
            Some(e) => obj_scan(s@, j as int, 1, false, false) == Some(e as int) && j < e
                <= s@.len(),
            None => obj_scan(s@, j as int, 1, false, false) is None,
        },
{
    let n = s.len();
    let mut k = j;
    let mut depth: usize = 1;
    let mut within = false;
    let mut esc = false;
    while k < n
        invariant
            1 <= j <= k <= n,
            n == s@.len(),
            1 <= depth,
            depth <= k,
            !within ==> !esc,
            obj_scan(s@, j as int, 1, false, false) == obj_scan(
                s@,
                k as int,
                depth as int,
                within,
                esc,
            ),
        decreases n - k,
    {
        let ghost (k0, d0, w0, e0) = (k as int, depth as int, within, esc);
        let c = s[k];
        if within {
            if esc {
                esc = false;
            } else if c == '\\' {
                esc = true;
            } else if c == '"' {
                within = false;
            } else {
                esc = false;
            }
        } else if c == '{' {
            depth = depth + 1;
        } else if c == '}' {
            if depth == 1 {
                return Some(k + 1);
            }
            depth = depth - 1;
        } else if c == '"' {
            within = true;
            esc = false;
        }
        proof {
            assert(obj_scan(s@, k0, d0, w0, e0) == obj_scan(s@, k0 + 1, depth as int, within, esc));
        }
        k = k + 1;
    }
    None
}

/// Appends all characters of `add` to `out`.
fn push_all_vec(out: &mut Vec<char>, add: &Vec<char>)
    ensures
        final(out)@ == old(out)@ + add@,
{
    crate::message::cq_code::push_all(out, add)
}

impl core::str::FromStr for Message {
    type Err = SegmentError;

    /// Notation detection: a string starting with `[{` and ending with
    /// `}]` is taken as the JSON notation, anything else as the inline
    /// notation.
    fn from_str(s: &str) -> Result<Message, SegmentError> {
        let chars = str_chars(s);
        let n = chars.len();
        if n >= 2 && chars[0] == '[' && chars[1] == '{' && chars[n - 2] == '}' && chars[n - 1]
            == ']' {
            Message::from_json(s)
        } else {
            Message::from_string(s.to_owned())
        }
    }
}

} // verus!
