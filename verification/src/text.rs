//! Character-level text operations shared by the rendering pipeline:
//! fragment concatenation, line splitting, newline escaping, and the
//! decimal execution-count badge.

use vstd::prelude::*;
use vstd::string::*;

verus! {

/// The concatenation of the first `n` fragments of `ss`.
pub open spec fn concat_upto(ss: Seq<Seq<char>>, n: int) -> Seq<char>
    decreases n,
{
    if n <= 0 {
        Seq::empty()
    } else {
        concat_upto(ss, n - 1) + ss[n - 1]
    }
}

/// The concatenation of all fragments, in order.
pub open spec fn concat_all(ss: Seq<Seq<char>>) -> Seq<char> {
    concat_upto(ss, ss.len() as int)
}

/// Concatenate source fragments verbatim, preserving order.
pub fn concat_fragments(parts: &Vec<String>) -> (r: String)
    ensures
        r@ == concat_all(parts.deep_view()),
{
    let mut out = String::new();
    let mut i: usize = 0;
    while i < parts.len()
        invariant
            i <= parts.len(),
            out@ == concat_upto(parts.deep_view(), i as int),
        decreases parts.len() - i,
    {
        out.append(parts[i].as_str());
        i = i + 1;
    }
    out
}

/// Whether a fragment already ends with a line break.
pub open spec fn ends_with_break(s: Seq<char>) -> bool {
    s.len() > 0 && s.last() == '\n'
}

/// The first `n` fragments joined so that each begins on its own line:
/// a line break is inserted after any fragment that does not already
/// end with one. Fragments that carry their own breaks pass verbatim.
pub open spec fn joined_upto(ss: Seq<Seq<char>>, n: int) -> Seq<char>
    decreases n,
{
    if n <= 0 {
        Seq::empty()
    } else if n == 1 {
        ss[0]
    } else {
        joined_upto(ss, n - 1) + (if ends_with_break(ss[n - 2]) {
            Seq::empty()
        } else {
            seq!['\n']
        }) + ss[n - 1]
    }
}

/// All fragments, each on its own line.
pub open spec fn joined_lines(ss: Seq<Seq<char>>) -> Seq<char> {
    joined_upto(ss, ss.len() as int)
}

/// Join source fragments so that each begins on its own line.
pub fn join_fragment_lines(parts: &Vec<String>) -> (r: String)
    ensures
        r@ == joined_lines(parts.deep_view()),
{
    let mut out = String::new();
    let mut i: usize = 0;
    while i < parts.len()
        invariant
            i <= parts.len(),
            out@ == joined_upto(parts.deep_view(), i as int),
        decreases parts.len() - i,
    {
        proof {
            assert(parts.deep_view()[i as int] == parts@[i as int]@);
        }
        if i > 0 {
            proof {
                assert(parts.deep_view()[i - 1] == parts@[i - 1]@);
            }
            let prev = parts[i - 1].as_str();
            let n = prev.unicode_len();
            let carries_break = n > 0 && prev.get_char(n - 1) == '\n';
            if !carries_break {
                proof {
                    reveal_strlit("\n");
                    assert("\n"@ =~= seq!['\n']);
                }
                out.append("\n");
            }
        }
        out.append(parts[i].as_str());
        i = i + 1;
    }
    out
}

/// Index of the first line break in `s`, or `s.len()` if there is none.
pub open spec fn line_break_at(s: Seq<char>) -> int
    decreases s.len(),
{
    if s.len() == 0 {
        0
    } else if s[0] == '\n' {
        0
    } else {
        1 + line_break_at(s.drop_first())
    }
}

/// `line_break_at` is determined by the position of the first `'\n'`.
pub proof fn lemma_line_break_at_is(s: Seq<char>, i: int)
    requires
        0 <= i <= s.len(),
        forall|k: int| 0 <= k < i ==> s[k] != '\n',
        i < s.len() ==> s[i] == '\n',
    ensures
        line_break_at(s) == i,
    decreases i,
{
    if i > 0 {
        assert(forall|k: int| 0 <= k < i - 1 ==> s.drop_first()[k] == s[k + 1]);
        lemma_line_break_at_is(s.drop_first(), i - 1);
    }
}

/// A line with one carriage return stripped from its end, so that a
/// carriage-return-and-line-feed pair counts as a single line break.
pub open spec fn strip_tail_cr(t: Seq<char>) -> Seq<char> {
    if t.len() > 0 && t.last() == '\r' {
        t.drop_last()
    } else {
        t
    }
}

/// The lines of `s`, split on `'\n'`; a carriage return directly before
/// the break belongs to the break. A trailing line break does not
/// produce a final empty line, and an empty text has no lines.
pub open spec fn split_text_lines(s: Seq<char>) -> Seq<Seq<char>>
    decreases s.len(),
{
    if s.len() == 0 {
        Seq::empty()
    } else {
        let i = line_break_at(s);
        if i == s.len() {
            seq![s]
        } else if 0 <= i < s.len() {
            seq![strip_tail_cr(s.take(i))] + split_text_lines(s.skip(i + 1))
        } else {
            Seq::empty()
        }
    }
}

/// Collect the characters of a string slice.
pub fn str_chars(s: &str) -> (r: Vec<char>)
    ensures
        r@ == s@,
{
    let n = s.unicode_len();
    let mut r: Vec<char> = Vec::new();
    let mut i: usize = 0;
    while i < n
        invariant
            i <= n,
            n == s@.len(),
            r@ == s@.take(i as int),
        decreases n - i,
    {
        r.push(s.get_char(i));
        proof {
            assert(r@ =~= s@.take(i as int + 1));
        }
        i = i + 1;
    }
    proof {
        assert(r@ =~= s@);
    }
    r
}

/// Turn a vector of characters into the string of exactly those characters.
/// Relies on `String::push`: pushing a character appends it to the string.
#[verifier::external_body]
pub fn chars_to_string(v: &Vec<char>) -> (r: String)
    ensures
        r@ == v@,
{
    let mut s = String::new();
    for c in v {
        s.push(*c);
    }
    s
}

/// Split a text into its lines, on `'\n'` boundaries.
pub fn split_lines(s: &str) -> (r: Vec<String>)
    ensures
        r.deep_view() == split_text_lines(s@),
{
    let cs = str_chars(s);
    let n = cs.len();
    let mut out: Vec<String> = Vec::new();
    let mut cur: Vec<char> = Vec::new();
    let ghost mut start: int = 0;
    proof {
        assert(s@.skip(0) =~= s@);
        assert(out.deep_view() =~= Seq::<Seq<char>>::empty());
        assert(out.deep_view() + split_text_lines(s@) =~= split_text_lines(s@));
    }
    let mut j: usize = 0;
    while j < n
        invariant
            0 <= start <= j <= n,
            n == s@.len(),
            cs@ == s@,
            cur@ == s@.subrange(start, j as int),
            forall|k: int| start <= k < j ==> s@[k] != '\n',
            split_text_lines(s@) == out.deep_view() + split_text_lines(s@.skip(start)),
        decreases n - j,
    {
        let c = cs[j];
        if c == '\n' {
            proof {
                let t = s@.skip(start);
                assert(forall|k: int| 0 <= k < j - start ==> t[k] == s@[k + start]);
                lemma_line_break_at_is(t, j - start);
                assert(t.take(j - start) =~= cur@);
                assert(t.skip(j - start + 1) =~= s@.skip(j as int + 1));
                assert(split_text_lines(t) == seq![strip_tail_cr(cur@)] + split_text_lines(
                    s@.skip(j as int + 1),
                ));
            }
            if cur.len() > 0 && cur[cur.len() - 1] == '\r' {
                cur.pop();
            }
            proof {
                assert(cur@ == strip_tail_cr(s@.subrange(start, j as int)));
            }
            let ghost stripped = cur@;
            let ghost prev_dv = out.deep_view();
            let line = chars_to_string(&cur);
            out.push(line);
            cur = Vec::new();
            proof {
                assert(out.deep_view() =~= prev_dv + seq![stripped]);
                assert((prev_dv + seq![stripped]) + split_text_lines(
                    s@.skip(j as int + 1),
                ) =~= prev_dv + (seq![stripped] + split_text_lines(
                    s@.skip(j as int + 1),
                )));
                start = j + 1;
                assert(cur@ =~= s@.subrange(start, j as int + 1));
            }
        } else {
            cur.push(c);
            proof {
                assert(cur@ =~= s@.subrange(start, j as int + 1));
            }
        }
        j = j + 1;
    }
    if cur.len() > 0 {
        proof {
            let t = s@.skip(start);
            assert(forall|k: int| 0 <= k < n - start ==> t[k] == s@[k + start]);
            lemma_line_break_at_is(t, n - start);
            assert(t =~= s@.subrange(start, n as int));
            assert(t =~= cur@);
            assert(split_text_lines(t) == seq![cur@]);
        }
        let ghost prev_dv = out.deep_view();
        let line = chars_to_string(&cur);
        out.push(line);
        proof {
            assert(out.deep_view() =~= prev_dv + seq![cur@]);
            assert(out.deep_view() =~= split_text_lines(s@));
        }
    } else {
        proof {
            assert(s@.skip(start) =~= Seq::<char>::empty());
            assert(out.deep_view() + split_text_lines(s@.skip(start)) =~= out.deep_view());
        }
    }
    proof {
        assert(out.deep_view() =~= split_text_lines(s@));
    }
    out
}

/// `s` with every line break replaced by the two visible characters `\` `n`.
pub open spec fn escape_breaks(s: Seq<char>) -> Seq<char>
    decreases s.len(),
{
    if s.len() == 0 {
        Seq::empty()
    } else {
        escape_breaks(s.drop_last()) + (if s.last() == '\n' {
            seq!['\\', 'n']
        } else {
            seq![s.last()]
        })
    }
}

/// Replace every embedded line break with the visible escape `\n`.
pub fn escape_line_breaks(s: &str) -> (r: String)
    ensures
        r@ == escape_breaks(s@),
{
    let cs = str_chars(s);
    let n = cs.len();
    let mut out: Vec<char> = Vec::new();
    let mut j: usize = 0;
    while j < n
        invariant
            j <= n,
            n == s@.len(),
            cs@ == s@,
            out@ == escape_breaks(s@.take(j as int)),
        decreases n - j,
    {
        let c = cs[j];
        proof {
            assert(s@.take(j as int + 1).drop_last() =~= s@.take(j as int));
            assert(s@.take(j as int + 1).last() == s@[j as int]);
        }
        if c == '\n' {
            out.push('\\');
            out.push('n');
        } else {
            out.push(c);
        }
        proof {
            assert(out@ =~= escape_breaks(s@.take(j as int + 1)));
        }
        j = j + 1;
    }
    proof {
        assert(s@.take(n as int) =~= s@);
    }
    chars_to_string(&out)
}

/// The character for one decimal digit.
pub open spec fn dec_digit(d: int) -> char {
    if d == 0 {
        '0'
    } else if d == 1 {
        '1'
    } else if d == 2 {
        '2'
    } else if d == 3 {
        '3'
    } else if d == 4 {
        '4'
    } else if d == 5 {
        '5'
    } else if d == 6 {
        '6'
    } else if d == 7 {
        '7'
    } else if d == 8 {
        '8'
    } else {
        '9'
    }
}

/// The decimal digits of `n`, most significant first.
pub open spec fn dec_str(n: nat) -> Seq<char>
    decreases n,
{
    if n < 10 {
        seq![dec_digit(n as int)]
    } else {
        dec_str(n / 10) + seq![dec_digit((n % 10) as int)]
    }
}

fn dec_digit_char(d: u32) -> (c: char)
    requires
        d < 10,
    ensures
        c == dec_digit(d as int),
{
    if d == 0 {
        '0'
    } else if d == 1 {
        '1'
    } else if d == 2 {
        '2'
    } else if d == 3 {
        '3'
    } else if d == 4 {
        '4'
    } else if d == 5 {
        '5'
    } else if d == 6 {
        '6'
    } else if d == 7 {
        '7'
    } else if d == 8 {
        '8'
    } else {
        '9'
    }
}

fn push_decimal(n: u32, out: &mut Vec<char>)
    ensures
        final(out)@ == old(out)@ + dec_str(n as nat),
    decreases n,
{
    if n >= 10 {
        push_decimal(n / 10, out);
    }
    out.push(dec_digit_char(n % 10));
    proof {
        assert(out@ =~= old(out)@ + dec_str(n as nat));
    }
}

/// The decimal text of a count.
pub fn decimal_text(n: u32) -> (r: String)
    ensures
        r@ == dec_str(n as nat),
{
    let mut out: Vec<char> = Vec::new();
    push_decimal(n, &mut out);
    proof {
        assert(out@ =~= dec_str(n as nat));
    }
    chars_to_string(&out)
}

/// The execution-count badge: `[n]` for a count, `[*]` for a cell that
/// was never executed.
pub open spec fn badge_of(ec: Option<u32>) -> Seq<char> {
    match ec {
        Option::None => seq!['[', '*', ']'],
        Option::Some(n) => seq!['['] + dec_str(n as nat) + seq![']'],
    }
}

/// Format the execution-count badge of a code cell.
pub fn badge_text(ec: Option<u32>) -> (r: String)
    ensures
        r@ == badge_of(ec),
{
    let mut out: Vec<char> = Vec::new();
    out.push('[');
    match ec {
        Option::None => {
            out.push('*');
        },
        Option::Some(n) => {
            push_decimal(n, &mut out);
        },
    }
    out.push(']');
    proof {
        assert(out@ =~= badge_of(ec));
    }
    chars_to_string(&out)
}

/// Whether `c` is blank space for the purpose of trimming a payload.
pub open spec fn is_blank(c: char) -> bool {
    c == ' ' || c == '\n' || c == '\t' || c == '\r'
}

/// `s` with its trailing blank space removed.
pub open spec fn trim_end_spec(s: Seq<char>) -> Seq<char>
    decreases s.len(),
{
    if s.len() == 0 {
        s
    } else if is_blank(s.last()) {
        trim_end_spec(s.drop_last())
    } else {
        s
    }
}

proof fn lemma_trim_end_at(s: Seq<char>, k: int)
    requires
        0 <= k <= s.len(),
        forall|i: int| k <= i < s.len() ==> is_blank(s[i]),
        k > 0 ==> !is_blank(s[k - 1]),
    ensures
        trim_end_spec(s) == s.take(k),
    decreases s.len(),
{
    if s.len() == 0 {
        assert(s.take(k) =~= s);
    } else if k == s.len() {
        assert(s.take(k) =~= s);
    } else {
        lemma_trim_end_at(s.drop_last(), k);
        assert(s.drop_last().take(k) =~= s.take(k));
    }
}

fn blank_char(c: char) -> (r: bool)
    ensures
        r == is_blank(c),
{
    c == ' ' || c == '\n' || c == '\t' || c == '\r'
}

/// Trim trailing blank space from a payload, as a base64 text commonly
/// carries a final line break that must not reach the decoder.
pub fn trim_end_blank(s: &str) -> (r: String)
    ensures
        r@ == trim_end_spec(s@),
{
    let cs = str_chars(s);
    let mut k = cs.len();
    while k > 0 && blank_char(cs[k - 1])
        invariant
            k <= cs.len(),
            cs@ == s@,
            forall|i: int| k <= i < s@.len() ==> is_blank(s@[i]),
        decreases k,
    {
        k = k - 1;
    }
    proof {
        lemma_trim_end_at(s@, k as int);
    }
    let mut out: Vec<char> = Vec::new();
    let mut j: usize = 0;
    while j < k
        invariant
            j <= k <= cs.len(),
            cs@ == s@,
            out@ == s@.take(j as int),
        decreases k - j,
    {
        out.push(cs[j]);
        proof {
            assert(out@ =~= s@.take(j as int + 1));
        }
        j = j + 1;
    }
    proof {
        assert(out@ =~= s@.take(k as int));
    }
    chars_to_string(&out)
}

} // verus!
